//! Small verified helpers on strings: equality and `::`-joining of path
//! segments, used by name lookup and by diagnostic messages.

use vstd::prelude::*;

verus! {

/// Character-wise string equality, specified over the views.
pub fn str_eq(a: &str, b: &str) -> (r: bool)
    ensures
        r == (a@ == b@),
{
    let alen = a.unicode_len();
    let blen = b.unicode_len();
    if alen != blen {
        return false;
    }
    let mut i: usize = 0;
    while i < alen
        invariant
            alen == a@.len(),
            blen == b@.len(),
            alen == blen,
            i <= alen,
            forall|j: int| 0 <= j < i ==> a@[j] == b@[j],
        decreases alen - i,
    {
        if a.get_char(i) != b.get_char(i) {
            return false;
        }
        i += 1;
    }
    proof {
        assert(a@ =~= b@);
    }
    true
}

/// Equality of owned strings, specified over the views.
pub fn string_eq(a: &String, b: &String) -> (r: bool)
    ensures
        r == (a@ == b@),
{
    a.eq(b)
}

/// What joining path segments with `::` separators yields.
pub open spec fn spec_join_segments(segs: Seq<Seq<char>>) -> Seq<char>
    decreases segs.len(),
{
    if segs.len() == 0 {
        Seq::empty()
    } else if segs.len() == 1 {
        segs[0]
    } else {
        spec_join_segments(segs.drop_last()) + "::"@ + segs.last()
    }
}

/// Joins path segments with `::`, as a qualified name is written.
pub fn join_segments(segs: &Vec<String>) -> (r: String)
    ensures
        r@ == spec_join_segments(segs.deep_view()),
{
    if segs.len() == 0 {
        return String::new();
    }
    let mut r: String = segs[0].clone();
    let mut i: usize = 1;
    proof {
        assert(segs.deep_view().subrange(0, 1).len() == 1);
        assert(segs.deep_view().subrange(0, 1)[0] == segs@[0]@);
        assert(r@ == spec_join_segments(segs.deep_view().subrange(0, 1 as int)));
    }
    while i < segs.len()
        invariant
            1 <= i <= segs.len(),
            segs.deep_view().len() == segs@.len(),
            r@ == spec_join_segments(segs.deep_view().subrange(0, i as int)),
        decreases segs.len() - i,
    {
        r.append("::");
        r.append(segs[i].as_str());
        proof {
            let dv = segs.deep_view();
            let pre = dv.subrange(0, i as int);
            let cur = dv.subrange(0, i + 1 as int);
            assert(cur.drop_last() =~= pre);
            assert(cur.last() == dv[i as int]);
        }
        i += 1;
    }
    proof {
        assert(segs.deep_view().subrange(0, segs@.len() as int) =~= segs.deep_view());
    }
    r
}

} // verus!
