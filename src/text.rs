use vstd::prelude::*;
use vstd::slice::{slice_subrange, slice_to_vec};

verus! {

/// Bytes that `u8::is_ascii_whitespace` accepts.
pub open spec fn is_space(b: u8) -> bool {
    b == 0x20u8 || b == 0x09u8 || b == 0x0Au8 || b == 0x0Cu8 || b == 0x0Du8
}

/// The pieces of `s` between occurrences of `d`, as `split` yields them:
/// one more piece than there are occurrences, empty pieces included.
pub open spec fn split_spec(s: Seq<u8>, d: u8) -> Seq<Seq<u8>>
    decreases s.len(),
{
    if s.len() == 0 {
        seq![Seq::<u8>::empty()]
    } else {
        let p = split_spec(s.drop_last(), d);
        if s.last() == d {
            p.push(Seq::<u8>::empty())
        } else {
            p.update(p.len() - 1, p.last().push(s.last()))
        }
    }
}

/// `s` without its leading whitespace.
pub open spec fn trim_start_spec(s: Seq<u8>) -> Seq<u8>
    decreases s.len(),
{
    if s.len() > 0 && is_space(s[0]) {
        trim_start_spec(s.drop_first())
    } else {
        s
    }
}

/// `s` without its trailing whitespace.
pub open spec fn trim_end_spec(s: Seq<u8>) -> Seq<u8>
    decreases s.len(),
{
    if s.len() > 0 && is_space(s.last()) {
        trim_end_spec(s.drop_last())
    } else {
        s
    }
}

/// `s` without leading and trailing ASCII whitespace.
pub open spec fn trim_spec(s: Seq<u8>) -> Seq<u8> {
    trim_end_spec(trim_start_spec(s))
}

/// What each vector of `v` holds.
pub open spec fn pieces(v: Seq<Vec<u8>>) -> Seq<Seq<u8>> {
    v.map_values(|x: Vec<u8>| x@)
}

/// Whether `i` is the first index at or after `from` where `s` holds `d`.
pub open spec fn is_first_at(s: Seq<u8>, from: int, d: u8, i: int) -> bool {
    &&& from <= i < s.len()
    &&& s[i] == d
    &&& forall|j: int| from <= j < i ==> s[j] != d
}

/// Whether `s` holds `d` at or after `from`.
pub open spec fn holds_from(s: Seq<u8>, from: int, d: u8) -> bool {
    exists|j: int| from <= j < s.len() && s[j] == d
}

proof fn lemma_split_nonempty(s: Seq<u8>, d: u8)
    ensures
        split_spec(s, d).len() >= 1,
    decreases s.len(),
{
    if s.len() > 0 {
        lemma_split_nonempty(s.drop_last(), d);
    }
}

/// The first index at or after `from` where `s` holds `d`.
pub fn find_byte(s: &[u8], from: usize, d: u8) -> (r: Option<usize>)
    ensures
        match r {
            Some(i) => is_first_at(s@, from as int, d, i as int),
            None => !holds_from(s@, from as int, d),
        },
{
    let mut i: usize = from;
    while i < s.len()
        invariant
            from <= i,
            forall|j: int| from <= j < i ==> s@[j] != d,
        decreases s.len() - i,
    {
        if s[i] == d {
            return Some(i);
        }
        i = i + 1;
    }
    None
}

/// Splits `s` at every occurrence of `d`.
pub fn split_on(s: &[u8], d: u8) -> (r: Vec<Vec<u8>>)
    ensures
        pieces(r@) == split_spec(s@, d),
{
    let mut done: Vec<Vec<u8>> = Vec::new();
    let mut cur: Vec<u8> = Vec::new();
    let mut i: usize = 0;
    while i < s.len()
        invariant
            i <= s.len(),
            pieces(done@).push(cur@) == split_spec(s@.subrange(0, i as int), d),
        decreases s.len() - i,
    {
        let ghost t = s@.subrange(0, i as int + 1);
        let ghost before = pieces(done@);
        let ghost piece_before = cur@;
        proof {
            assert(t.drop_last() =~= s@.subrange(0, i as int));
        }
        if s[i] == d {
            let piece = cur;
            done.push(piece);
            cur = Vec::new();
            proof {
                assert(pieces(done@) =~= before.push(piece_before));
                assert(pieces(done@).push(cur@) =~= split_spec(t, d));
            }
        } else {
            cur.push(s[i]);
            proof {
                let p = before.push(piece_before);
                assert(p.update(p.len() - 1, p.last().push(s@[i as int])) =~= before.push(cur@));
            }
        }
        i = i + 1;
    }
    assert(s@.subrange(0, s@.len() as int) =~= s@);
    let ghost before = pieces(done@);
    let ghost last = cur@;
    done.push(cur);
    assert(pieces(done@) =~= before.push(last));
    done
}

/// `s` without leading and trailing ASCII whitespace.
pub fn ascii_trim(s: &[u8]) -> (r: Vec<u8>)
    ensures
        r@ == trim_spec(s@),
{
    let mut lo: usize = 0;
    assert(s@.subrange(0, s@.len() as int) =~= s@);
    while lo < s.len() && is_space_exec(s[lo])
        invariant
            lo <= s.len(),
            trim_start_spec(s@) == trim_start_spec(s@.subrange(lo as int, s@.len() as int)),
        decreases s.len() - lo,
    {
        let ghost t = s@.subrange(lo as int, s@.len() as int);
        assert(t.drop_first() =~= s@.subrange(lo as int + 1, s@.len() as int));
        lo = lo + 1;
    }
    let ghost rest = s@.subrange(lo as int, s@.len() as int);
    assert(trim_start_spec(rest) == rest);
    let mut hi: usize = s.len();
    while hi > lo && is_space_exec(s[hi - 1])
        invariant
            lo <= hi <= s.len(),
            trim_end_spec(rest) == trim_end_spec(s@.subrange(lo as int, hi as int)),
        decreases hi,
    {
        let ghost t = s@.subrange(lo as int, hi as int);
        assert(t.drop_last() =~= s@.subrange(lo as int, hi as int - 1));
        hi = hi - 1;
    }
    copy_range(s, lo, hi)
}

/// A copy of `s[lo..hi]`.
pub fn copy_range(s: &[u8], lo: usize, hi: usize) -> (r: Vec<u8>)
    requires
        lo <= hi <= s@.len(),
    ensures
        r@ == s@.subrange(lo as int, hi as int),
{
    slice_to_vec(slice_subrange(s, lo, hi))
}

fn is_space_exec(b: u8) -> (r: bool)
    ensures
        r == is_space(b),
{
    b == 0x20u8 || b == 0x09u8 || b == 0x0Au8 || b == 0x0Cu8 || b == 0x0Du8
}

} // verus!
