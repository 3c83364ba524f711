use vstd::hash_map::StringHashMap;
use vstd::prelude::*;
use vstd::slice::slice_to_vec;
use vstd::string::StringSliceAdditionalSpecFns;
use vstd::utf8::{
    decode_utf8, decode_utf8_encode_utf8, encode_utf8, encode_utf8_decode_utf8, valid_utf8,
};

verus! {

/// A key/value pair of an override source, as bytes.
pub type Entry = (Vec<u8>, Vec<u8>);

/// What a sequence of entries holds.
pub open spec fn entry_views(es: Seq<Entry>) -> Seq<(Seq<u8>, Seq<u8>)> {
    es.map_values(|e: Entry| (e.0@, e.1@))
}

/// The map after setting each entry in turn; an entry whose key or value
/// is not UTF-8 text is skipped, and a later entry overrides an earlier one.
pub open spec fn apply_entries(m: Map<Seq<u8>, Seq<u8>>, es: Seq<(Seq<u8>, Seq<u8>)>) -> Map<
    Seq<u8>,
    Seq<u8>,
>
    decreases es.len(),
{
    if es.len() == 0 {
        m
    } else {
        let p = apply_entries(m, es.drop_last());
        let e = es.last();
        if valid_utf8(e.0) && valid_utf8(e.1) {
            p.insert(e.0, e.1)
        } else {
            p
        }
    }
}

/// The map after applying each source in turn.
pub open spec fn apply_sources(m: Map<Seq<u8>, Seq<u8>>, ss: Seq<Seq<(Seq<u8>, Seq<u8>)>>) -> Map<
    Seq<u8>,
    Seq<u8>,
>
    decreases ss.len(),
{
    if ss.len() == 0 {
        m
    } else {
        apply_entries(apply_sources(m, ss.drop_last()), ss.last())
    }
}

/// Relies on std::str::from_utf8: it accepts exactly the byte strings that
/// are valid UTF-8, and the text it returns has those bytes.
#[verifier::external_body]
fn utf8_text(b: &[u8]) -> (r: Option<&str>)
    ensures
        match r {
            Some(t) => valid_utf8(b@) && t.spec_bytes() == b@,
            None => !valid_utf8(b@),
        },
{
    std::str::from_utf8(b).ok()
}

/// The address-override table: from a host or `host:port` to its
/// replacement. Keys and values are UTF-8 text, seen here as bytes.
pub struct AddressTable {
    map: StringHashMap<String>,
}

impl View for AddressTable {
    type V = Map<Seq<u8>, Seq<u8>>;

    closed spec fn view(&self) -> Map<Seq<u8>, Seq<u8>> {
        Map::new(
            |k: Seq<u8>| valid_utf8(k) && self.map@.contains_key(decode_utf8(k)),
            |k: Seq<u8>| encode_utf8(self.map@[decode_utf8(k)]@),
        )
    }
}

impl AddressTable {
    /// An empty table.
    pub fn new() -> (r: AddressTable)
        ensures
            r@ == Map::<Seq<u8>, Seq<u8>>::empty(),
    {
        let r = AddressTable { map: StringHashMap::new() };
        assert(r@ =~= Map::<Seq<u8>, Seq<u8>>::empty());
        r
    }

    /// Maps `key` to `value`; a key or value that is not UTF-8 text leaves
    /// the table as it was.
    pub fn insert(&mut self, key: &[u8], value: &[u8])
        ensures
            valid_utf8(key@) && valid_utf8(value@) ==> final(self)@ == old(self)@.insert(
                key@,
                value@,
            ),
            !(valid_utf8(key@) && valid_utf8(value@)) ==> final(self)@ == old(self)@,
    {
        if let Some(k) = utf8_text(key) {
            if let Some(v) = utf8_text(value) {
                let ghost before = self@;
                let ghost m0 = self.map@;
                proof {
                    encode_utf8_decode_utf8(k@);
                    encode_utf8_decode_utf8(v@);
                }
                self.map.insert(k.to_owned(), v.to_owned());
                proof {
                    assert forall|k2: Seq<u8>|
                        valid_utf8(k2) && decode_utf8(k2) == decode_utf8(key@) implies k2
                        == key@ by {
                        decode_utf8_encode_utf8(k2);
                        decode_utf8_encode_utf8(key@);
                    }
                    assert(self@ =~= before.insert(key@, value@));
                }
            }
        }
    }

    /// The replacement for `key`, if the table holds one.
    pub fn get(&self, key: &[u8]) -> (r: Option<Vec<u8>>)
        ensures
            match r {
                Some(v) => self@.contains_key(key@) && v@ == self@[key@],
                None => !self@.contains_key(key@),
            },
    {
        match utf8_text(key) {
            None => None,
            Some(k) => {
                proof {
                    encode_utf8_decode_utf8(k@);
                }
                match self.map.get(k) {
                    None => None,
                    Some(v) => Some(slice_to_vec(v.as_str().as_bytes())),
                }
            },
        }
    }

    /// Sets each entry in turn.
    pub fn add_entries(&mut self, es: &Vec<Entry>)
        ensures
            final(self)@ == apply_entries(old(self)@, entry_views(es@)),
    {
        let mut i: usize = 0;
        while i < es.len()
            invariant
                i <= es@.len(),
                self@ == apply_entries(old(self)@, entry_views(es@).subrange(0, i as int)),
            decreases es.len() - i,
        {
            let ghost s = entry_views(es@).subrange(0, i as int + 1);
            assert(s.drop_last() =~= entry_views(es@).subrange(0, i as int));
            self.insert(&es[i].0, &es[i].1);
            i = i + 1;
        }
        assert(entry_views(es@).subrange(0, es@.len() as int) =~= entry_views(es@));
    }

    /// A table built from the sources in order: an entry of a later source
    /// overrides the same key from an earlier one.
    pub fn build(sources: &Vec<Vec<Entry>>) -> (r: AddressTable)
        ensures
            r@ == apply_sources(Map::empty(), sources@.map_values(|s: Vec<Entry>| entry_views(s@))),
    {
        let ghost all = sources@.map_values(|s: Vec<Entry>| entry_views(s@));
        let mut t = AddressTable::new();
        let mut i: usize = 0;
        while i < sources.len()
            invariant
                i <= sources@.len(),
                all == sources@.map_values(|s: Vec<Entry>| entry_views(s@)),
                t@ == apply_sources(Map::empty(), all.subrange(0, i as int)),
            decreases sources.len() - i,
        {
            let ghost s = all.subrange(0, i as int + 1);
            assert(s.drop_last() =~= all.subrange(0, i as int));
            t.add_entries(&sources[i]);
            i = i + 1;
        }
        assert(all.subrange(0, sources@.len() as int) =~= all);
        t
    }
}

} // verus!
