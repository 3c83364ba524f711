use crate::table::{apply_entries, apply_sources, entry_views, Entry};
use crate::text::{ascii_trim, pieces, split_on, split_spec, trim_spec};
use vstd::prelude::*;
use vstd::string::StringSliceAdditionalSpecFns;
use vstd::utf8::{encode_utf8, valid_utf8};

verus! {

/// The entry of one `key=value` line: the text before the first `=` and
/// the text between it and the next, both trimmed; none without a `=`.
pub open spec fn line_entry(line: Seq<u8>) -> Option<(Seq<u8>, Seq<u8>)> {
    let f = split_spec(line, '=' as u8);
    if f.len() >= 2 {
        Some((trim_spec(f[0]), trim_spec(f[1])))
    } else {
        None
    }
}

/// The entries of the lines that have one, in order.
pub open spec fn lines_entries(lines: Seq<Seq<u8>>) -> Seq<(Seq<u8>, Seq<u8>)>
    decreases lines.len(),
{
    if lines.len() == 0 {
        Seq::empty()
    } else {
        let p = lines_entries(lines.drop_last());
        match line_entry(lines.last()) {
            Some(e) => p.push(e),
            None => p,
        }
    }
}

/// The entries of a line-based `key=value` text.
pub open spec fn text_entries_spec(text: Seq<u8>) -> Seq<(Seq<u8>, Seq<u8>)> {
    lines_entries(split_spec(text, '\n' as u8))
}

/// The entries of a list of `[replacement, host]` pairs: the key is the
/// second string, the value the first, both trimmed; shorter lists are
/// skipped.
pub open spec fn pair_entries_spec(items: Seq<Seq<Seq<char>>>) -> Seq<(Seq<u8>, Seq<u8>)>
    decreases items.len(),
{
    if items.len() == 0 {
        Seq::empty()
    } else {
        let p = pair_entries_spec(items.drop_last());
        let item = items.last();
        if item.len() >= 2 {
            p.push((trim_spec(encode_utf8(item[1])), trim_spec(encode_utf8(item[0]))))
        } else {
            p
        }
    }
}

/// What a JSON text holds when it is an array of arrays of strings.
pub uninterp spec fn json_string_lists(text: Seq<char>) -> Option<Seq<Seq<Seq<char>>>>;

/// Relies on serde_json::from_str::<Vec<Vec<String>>>: it succeeds exactly
/// on a JSON array of arrays of strings, and its outcome depends on the
/// text alone.
#[verifier::external_body]
fn parse_string_lists(text: &str) -> (r: Option<Vec<Vec<String>>>)
    ensures
        match r {
            Some(v) => json_string_lists(text@) == Some(v.deep_view()),
            None => json_string_lists(text@) == None::<Seq<Seq<Seq<char>>>>,
        },
{
    serde_json::from_str::<Vec<Vec<String>>>(text).ok()
}

/// The entries of a line-based `key=value` text; a line without `=` is
/// skipped.
pub fn text_entries(text: &[u8]) -> (r: Vec<Entry>)
    ensures
        entry_views(r@) == text_entries_spec(text@),
{
    let lines = split_on(text, '\n' as u8);
    let ghost ls = pieces(lines@);
    let mut r: Vec<Entry> = Vec::new();
    let mut i: usize = 0;
    while i < lines.len()
        invariant
            i <= lines@.len(),
            ls == pieces(lines@),
            entry_views(r@) == lines_entries(ls.subrange(0, i as int)),
        decreases lines.len() - i,
    {
        let ghost s = ls.subrange(0, i as int + 1);
        assert(s.drop_last() =~= ls.subrange(0, i as int));
        let ghost before = entry_views(r@);
        let fields = split_on(&lines[i], '=' as u8);
        if fields.len() >= 2 {
            let key = ascii_trim(&fields[0]);
            let value = ascii_trim(&fields[1]);
            r.push((key, value));
            assert(entry_views(r@) =~= before.push(line_entry(ls[i as int])->Some_0));
        }
        i = i + 1;
    }
    assert(ls.subrange(0, ls.len() as int) =~= ls);
    r
}

/// The entries of `[replacement, host]` string lists; a list of fewer
/// than two strings is skipped.
pub fn pair_entries(items: &Vec<Vec<String>>) -> (r: Vec<Entry>)
    ensures
        entry_views(r@) == pair_entries_spec(items.deep_view()),
{
    let ghost all = items.deep_view();
    let mut r: Vec<Entry> = Vec::new();
    let mut i: usize = 0;
    while i < items.len()
        invariant
            i <= items@.len(),
            all == items.deep_view(),
            entry_views(r@) == pair_entries_spec(all.subrange(0, i as int)),
        decreases items.len() - i,
    {
        let ghost s = all.subrange(0, i as int + 1);
        assert(s.drop_last() =~= all.subrange(0, i as int));
        let ghost before = entry_views(r@);
        let item = &items[i];
        assert(item.deep_view() == all[i as int]);
        if item.len() >= 2 {
            assert(item[0].deep_view() == all[i as int][0]);
            assert(item[1].deep_view() == all[i as int][1]);
            let key = ascii_trim(item[1].as_str().as_bytes());
            let value = ascii_trim(item[0].as_str().as_bytes());
            r.push((key, value));
            assert(entry_views(r@) =~= before.push(
                (trim_spec(encode_utf8(all[i as int][1])), trim_spec(encode_utf8(all[i as int][0]))),
            ));
        }
        i = i + 1;
    }
    assert(all.subrange(0, all.len() as int) =~= all);
    r
}

/// The entries of a JSON list of `[replacement, host]` string pairs;
/// text that is not such a list gives none.
pub fn json_entries(text: &str) -> (r: Vec<Entry>)
    ensures
        entry_views(r@) == match json_string_lists(text@) {
            Some(items) => pair_entries_spec(items),
            None => Seq::empty(),
        },
{
    match parse_string_lists(text) {
        Some(items) => pair_entries(&items),
        None => {
            let r: Vec<Entry> = Vec::new();
            assert(entry_views(r@) =~= Seq::empty());
            r
        },
    }
}

proof fn lemma_entries_override(m: Map<Seq<u8>, Seq<u8>>, es: Seq<(Seq<u8>, Seq<u8>)>, k: Seq<u8>)
    ensures
        apply_entries(Map::empty(), es).contains_key(k) ==> apply_entries(m, es).contains_key(k)
            && apply_entries(m, es)[k] == apply_entries(Map::empty(), es)[k],
        !apply_entries(Map::empty(), es).contains_key(k) ==> (apply_entries(m, es).contains_key(k)
            == m.contains_key(k)) && apply_entries(m, es)[k] == m[k],
    decreases es.len(),
{
    if es.len() > 0 {
        lemma_entries_override(m, es.drop_last(), k);
    }
}

/// Of two override sources applied in order, the second decides every key
/// that it sets: the table holds the value that the second source gives it,
/// whatever the first held.
pub proof fn lemma_later_source_wins(
    first: Seq<(Seq<u8>, Seq<u8>)>,
    second: Seq<(Seq<u8>, Seq<u8>)>,
    k: Seq<u8>,
)
    requires
        apply_entries(Map::empty(), second).contains_key(k),
    ensures
        apply_sources(Map::empty(), seq![first, second]).contains_key(k),
        apply_sources(Map::empty(), seq![first, second])[k] == apply_entries(
            Map::empty(),
            second,
        )[k],
{
    let ss = seq![first, second];
    assert(ss.drop_last() =~= seq![first]);
    assert(seq![first].drop_last() =~= Seq::<Seq<(Seq<u8>, Seq<u8>)>>::empty());
    lemma_entries_override(apply_sources(Map::empty(), seq![first]), second, k);
}

/// An entry sets its key to its value unless a later entry of the same
/// source sets that key again.
pub proof fn lemma_last_entry_wins(es: Seq<(Seq<u8>, Seq<u8>)>, i: int)
    requires
        0 <= i < es.len(),
        valid_utf8(es[i].0) && valid_utf8(es[i].1),
        forall|j: int| i < j < es.len() ==> es[j].0 != es[i].0,
    ensures
        apply_entries(Map::empty(), es).contains_key(es[i].0),
        apply_entries(Map::empty(), es)[es[i].0] == es[i].1,
    decreases es.len(),
{
    if i < es.len() - 1 {
        lemma_last_entry_wins(es.drop_last(), i);
    }
}

} // verus!
