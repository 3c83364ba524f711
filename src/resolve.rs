use crate::table::AddressTable;
use crate::text::copy_range;
use vstd::prelude::*;

verus! {

/// The index of the last `b` in `s`, or -1 when `s` holds none.
pub open spec fn last_index(s: Seq<u8>, b: u8) -> int
    decreases s.len(),
{
    if s.len() == 0 {
        -1
    } else if s.last() == b {
        s.len() - 1
    } else {
        last_index(s.drop_last(), b)
    }
}

/// The destination that `d` resolves to under the overrides `t`: the
/// override of `d` itself; else, split at its last `:`, the override of the
/// host followed by the `:port` of `d`; else `d` unchanged.
pub open spec fn resolve_spec(t: Map<Seq<u8>, Seq<u8>>, d: Seq<u8>) -> Seq<u8> {
    if t.contains_key(d) {
        t[d]
    } else {
        let i = last_index(d, ':' as u8);
        if i >= 0 && t.contains_key(d.subrange(0, i)) {
            t[d.subrange(0, i)] + d.subrange(i, d.len() as int)
        } else {
            d
        }
    }
}

/// Whether `t` overrides neither `d` nor the host part of `d`.
pub open spec fn unmapped(t: Map<Seq<u8>, Seq<u8>>, d: Seq<u8>) -> bool {
    let i = last_index(d, ':' as u8);
    !t.contains_key(d) && !(i >= 0 && t.contains_key(d.subrange(0, i)))
}

proof fn lemma_last_index_bounds(s: Seq<u8>, b: u8)
    ensures
        -1 <= last_index(s, b) < s.len(),
        last_index(s, b) >= 0 ==> s[last_index(s, b)] == b,
    decreases s.len(),
{
    if s.len() > 0 {
        lemma_last_index_bounds(s.drop_last(), b);
    }
}

/// The index of the last `b` in `s`.
pub fn find_last(s: &[u8], b: u8) -> (r: Option<usize>)
    ensures
        match r {
            Some(i) => i as int == last_index(s@, b),
            None => last_index(s@, b) == -1,
        },
{
    let mut n: usize = s.len();
    assert(s@.subrange(0, s@.len() as int) =~= s@);
    while n > 0
        invariant
            n <= s@.len(),
            last_index(s@, b) == last_index(s@.subrange(0, n as int), b),
        decreases n,
    {
        let ghost p = s@.subrange(0, n as int);
        assert(p.drop_last() =~= s@.subrange(0, n as int - 1));
        if s[n - 1] == b {
            return Some(n - 1);
        }
        n = n - 1;
    }
    None
}

/// The destination to dial for `dest` under the overrides of `table`.
pub fn resolve(dest: &[u8], table: &AddressTable) -> (r: Vec<u8>)
    ensures
        r@ == resolve_spec(table@, dest@),
{
    if let Some(v) = table.get(dest) {
        return v;
    }
    if let Some(i) = find_last(dest, ':' as u8) {
        proof {
            lemma_last_index_bounds(dest@, ':' as u8);
        }
        let host = copy_range(dest, 0, i);
        if let Some(v) = table.get(&host) {
            let mut r = v;
            let mut port = copy_range(dest, i, dest.len());
            r.append(&mut port);
            return r;
        }
    }
    copy_range(dest, 0, dest.len())
}

/// A destination that the table overrides neither in full nor by its host
/// resolves to itself, and resolving it again changes nothing.
pub proof fn lemma_resolve_unmapped(t: Map<Seq<u8>, Seq<u8>>, d: Seq<u8>)
    requires
        unmapped(t, d),
    ensures
        resolve_spec(t, d) == d,
        resolve_spec(t, resolve_spec(t, d)) == d,
{
}

} // verus!
