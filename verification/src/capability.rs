//! Capability sets and required-capability sets.
//!
//! A host type's capability set is an insertion-ordered, duplicate-free list
//! of capability names. A required-capability set holds qualified paths; a
//! path is satisfied by a held capability whose name equals the path's
//! trailing identifier — matching is deliberately name-based, not
//! qualified-path-based, so that a requirement may spell or omit a namespace
//! prefix freely.

use vstd::prelude::*;

use crate::text::{str_eq, string_eq};

verus! {

/// Inserting into a sequence that is kept duplicate-free: a present element
/// leaves the sequence as it is, a new one goes to the back.
pub open spec fn spec_insert_unique<T>(s: Seq<T>, x: T) -> Seq<T> {
    if s.contains(x) {
        s
    } else {
        s.push(x)
    }
}

/// Folding `spec_insert_unique` of every element of `b`, in order, into `a`.
pub open spec fn spec_union_unique<T>(a: Seq<T>, b: Seq<T>) -> Seq<T>
    decreases b.len(),
{
    if b.len() == 0 {
        a
    } else {
        spec_insert_unique(spec_union_unique(a, b.drop_last()), b.last())
    }
}

/// No element occurs twice.
pub open spec fn seq_no_dup<T>(s: Seq<T>) -> bool {
    forall|i: int, j: int| 0 <= i < j < s.len() ==> s[i] != s[j]
}

pub proof fn lemma_insert_unique_membership<T>(a: Seq<T>, x: T)
    ensures
        forall|c: T| spec_insert_unique(a, x).contains(c) <==> a.contains(c) || c == x,
        seq_no_dup(a) ==> seq_no_dup(spec_insert_unique(a, x)),
{
    assert forall|c: T| spec_insert_unique(a, x).contains(c) implies a.contains(c) || c == x by {
        if !a.contains(x) {
            let i = choose|i: int| 0 <= i < a.push(x).len() && a.push(x)[i] == c;
            if i < a.len() {
                assert(a[i] == c);
            }
        }
    }
    assert forall|c: T| a.contains(c) || c == x implies spec_insert_unique(a, x).contains(c) by {
        if a.contains(c) {
            let i = choose|i: int| 0 <= i < a.len() && a[i] == c;
            if !a.contains(x) {
                assert(a.push(x)[i] == c);
            }
        } else {
            if !a.contains(x) {
                assert(a.push(x)[a.len() as int] == c);
            }
        }
    }
}

pub proof fn lemma_union_unique_membership<T>(a: Seq<T>, b: Seq<T>)
    ensures
        forall|c: T| spec_union_unique(a, b).contains(c) <==> a.contains(c) || b.contains(c),
        seq_no_dup(a) ==> seq_no_dup(spec_union_unique(a, b)),
    decreases b.len(),
{
    if b.len() == 0 {
        assert(forall|c: T| !b.contains(c));
    } else {
        lemma_union_unique_membership(a, b.drop_last());
        lemma_insert_unique_membership(spec_union_unique(a, b.drop_last()), b.last());
        assert forall|c: T| b.contains(c) implies b.drop_last().contains(c) || c == b.last() by {
            let i = choose|i: int| 0 <= i < b.len() && b[i] == c;
            if i < b.len() - 1 {
                assert(b.drop_last()[i] == c);
            }
        }
        assert forall|c: T| b.drop_last().contains(c) implies b.contains(c) by {
            let i = choose|i: int| 0 <= i < b.drop_last().len() && b.drop_last()[i] == c;
            assert(b[i] == c);
        }
        assert(b.contains(b.last()));
    }
}

/// How many times `x` occurs in `s`.
pub open spec fn count_occurrences<T>(s: Seq<T>, x: T) -> nat
    decreases s.len(),
{
    if s.len() == 0 {
        0
    } else {
        (if s.last() == x {
            1nat
        } else {
            0nat
        }) + count_occurrences(s.drop_last(), x)
    }
}

pub proof fn lemma_count_zero<T>(s: Seq<T>, x: T)
    requires
        !s.contains(x),
    ensures
        count_occurrences(s, x) == 0,
    decreases s.len(),
{
    if s.len() > 0 {
        assert(s[s.len() - 1] != x);
        assert forall|j: int| 0 <= j < s.drop_last().len() implies #[trigger] s.drop_last()[j]
            != x by {
            assert(s[j] != x);
        }
        lemma_count_zero(s.drop_last(), x);
    }
}

/// In a duplicate-free sequence, a member occurs exactly once.
pub proof fn lemma_count_unique<T>(s: Seq<T>, x: T)
    requires
        seq_no_dup(s),
        s.contains(x),
    ensures
        count_occurrences(s, x) == 1,
    decreases s.len(),
{
    let last = s.len() - 1;
    if s.last() == x {
        assert forall|j: int| 0 <= j < s.drop_last().len() implies #[trigger] s.drop_last()[j]
            != x by {
            assert(s[j] != s[last]);
        }
        lemma_count_zero(s.drop_last(), x);
    } else {
        let j = choose|j: int| 0 <= j < s.len() && s[j] == x;
        assert(j != last);
        assert(s.drop_last()[j] == x);
        assert(s.drop_last().contains(x));
        assert forall|a: int, b: int| 0 <= a < b < s.drop_last().len() implies s.drop_last()[a]
            != s.drop_last()[b] by {
            assert(s[a] != s[b]);
        }
        lemma_count_unique(s.drop_last(), x);
    }
}

/// A required capability path is matched by a held capability name when the
/// name equals the path's trailing identifier, whatever prefix the path has.
pub open spec fn cap_matches(path: Seq<Seq<char>>, cap: Seq<char>) -> bool {
    path.len() > 0 && path.last() == cap
}

/// Some held capability matches the path.
pub open spec fn cap_path_satisfied(caps: Seq<Seq<char>>, path: Seq<Seq<char>>) -> bool {
    exists|j: int| 0 <= j < caps.len() && cap_matches(path, caps[j])
}

/// Every required path is matched by some held capability.
pub open spec fn caps_satisfy(caps: Seq<Seq<char>>, required: Seq<Seq<Seq<char>>>) -> bool {
    forall|i: int| 0 <= i < required.len() ==> cap_path_satisfied(caps, required[i])
}

/// A capability path `foo::Bar` is satisfied by the bare capability name
/// `Bar`: the prefix plays no part in matching.
pub proof fn lemma_name_based_matching(prefix: Seq<Seq<char>>, ident: Seq<char>)
    ensures
        cap_matches(prefix.push(ident), ident),
{
}

/// A held capability name satisfies the single-identifier path spelled from
/// it.
pub proof fn lemma_single_name_satisfied(caps: Seq<Seq<char>>, x: Seq<char>)
    requires
        caps.contains(x),
    ensures
        cap_path_satisfied(caps, seq![x]),
{
    let j = choose|j: int| 0 <= j < caps.len() && caps[j] == x;
    assert(seq![x].last() == x);
    assert(cap_matches(seq![x], caps[j]));
}

/// The position of the first required path no held capability matches;
/// the requirement count when every path is matched.
pub open spec fn first_unsatisfied(caps: Seq<Seq<char>>, req: Seq<Seq<Seq<char>>>) -> int
    decreases req.len(),
{
    if req.len() == 0 {
        0
    } else if !cap_path_satisfied(caps, req[0]) {
        0
    } else {
        1 + first_unsatisfied(caps, req.subrange(1, req.len() as int))
    }
}

pub proof fn lemma_first_unsatisfied_at(caps: Seq<Seq<char>>, req: Seq<Seq<Seq<char>>>, i: int)
    requires
        0 <= i < req.len(),
        forall|k: int| 0 <= k < i ==> cap_path_satisfied(caps, req[k]),
        !cap_path_satisfied(caps, req[i]),
    ensures
        first_unsatisfied(caps, req) == i,
    decreases i,
{
    if i == 0 {
    } else {
        let tail = req.subrange(1, req.len() as int);
        assert(cap_path_satisfied(caps, req[0]));
        assert forall|k: int| 0 <= k < i - 1 implies cap_path_satisfied(
            caps,
            #[trigger] tail[k],
        ) by {
            assert(tail[k] == req[k + 1]);
        }
        assert(tail[i - 1] == req[i]);
        lemma_first_unsatisfied_at(caps, tail, i - 1);
    }
}

/// The empty requirement set is satisfied by every capability set.
pub proof fn lemma_empty_requirement_satisfied(caps: Seq<Seq<char>>)
    ensures
        caps_satisfy(caps, Seq::<Seq<Seq<char>>>::empty()),
{
}

/// The capability names one host type is known to satisfy, in insertion
/// order and without duplicates.
#[derive(Debug)]
pub struct ImplementsSet {
    pub inner: Vec<String>,
}

impl View for ImplementsSet {
    type V = Seq<Seq<char>>;

    open spec fn view(&self) -> Seq<Seq<char>> {
        self.inner.deep_view()
    }
}

impl ImplementsSet {
    pub open spec fn wf(&self) -> bool {
        seq_no_dup(self@)
    }

    pub fn new() -> (r: ImplementsSet)
        ensures
            r@ == Seq::<Seq<char>>::empty(),
            r.wf(),
    {
        let r = ImplementsSet { inner: Vec::new() };
        proof {
            assert(r@ =~= Seq::<Seq<char>>::empty());
        }
        r
    }

    /// Inserts a capability name; present names are left alone, so insertion
    /// is idempotent.
    pub fn insert(&mut self, x: String)
        requires
            old(self).wf(),
        ensures
            final(self).wf(),
            final(self)@ == spec_insert_unique(old(self)@, x@),
    {
        let n = self.inner.len();
        let mut i: usize = 0;
        while i < n
            invariant
                n == self@.len(),
                i <= n,
                self@ == old(self)@,
                self.wf(),
                self.inner@.len() == n,
                forall|j: int| 0 <= j < i ==> self@[j] != x@,
            decreases n - i,
        {
            if string_eq(&self.inner[i], &x) {
                proof {
                    assert(self@[i as int] == x@);
                    assert(old(self)@.contains(x@));
                }
                return ;
            }
            i += 1;
        }
        let ghost before = self@;
        self.inner.push(x);
        proof {
            assert(!before.contains(x@));
            assert(self@ =~= before.push(x@));
            lemma_insert_unique_membership(before, x@);
        }
    }

    /// Unions another capability set in: additive, never losing a name.
    pub fn insert_set(&mut self, o: &ImplementsSet)
        requires
            old(self).wf(),
        ensures
            final(self).wf(),
            final(self)@ == spec_union_unique(old(self)@, o@),
    {
        let n = o.inner.len();
        let mut i: usize = 0;
        proof {
            assert(o@.subrange(0, 0) =~= Seq::<Seq<char>>::empty());
        }
        while i < n
            invariant
                n == o@.len(),
                o@.len() == o.inner@.len(),
                i <= n,
                self.wf(),
                self@ == spec_union_unique(old(self)@, o@.subrange(0, i as int)),
            decreases n - i,
        {
            self.insert(o.inner[i].clone());
            proof {
                let pre = o@.subrange(0, i as int);
                let cur = o@.subrange(0, i + 1 as int);
                assert(cur.drop_last() =~= pre);
                assert(cur.last() == o@[i as int]);
            }
            i += 1;
        }
        proof {
            assert(o@.subrange(0, n as int) =~= o@);
        }
    }

    /// Membership by exact name.
    pub fn contains(&self, trait_name: &str) -> (r: bool)
        ensures
            r == self@.contains(trait_name@),
    {
        let n = self.inner.len();
        let mut i: usize = 0;
        while i < n
            invariant
                n == self@.len(),
                self@.len() == self.inner@.len(),
                i <= n,
                forall|j: int| 0 <= j < i ==> self@[j] != trait_name@,
            decreases n - i,
        {
            if str_eq(self.inner[i].as_str(), trait_name) {
                proof {
                    assert(self@[i as int] == trait_name@);
                }
                return true;
            }
            i += 1;
        }
        false
    }

    /// True iff every required path is matched by some held name, matching by
    /// trailing identifier.
    pub fn contains_subset(&self, subset: &TraitNamesSet) -> (r: bool)
        ensures
            r == caps_satisfy(self@, subset@),
    {
        let n = subset.inner.len();
        let mut i: usize = 0;
        while i < n
            invariant
                n == subset@.len(),
                subset@.len() == subset.inner@.len(),
                i <= n,
                forall|k: int| 0 <= k < i ==> cap_path_satisfied(self@, subset@[k]),
            decreases n - i,
        {
            if !self.matches_some_name(&subset.inner[i]) {
                proof {
                    assert(subset@[i as int] == subset.inner@[i as int].deep_view());
                    assert(!cap_path_satisfied(self@, subset@[i as int]));
                }
                return false;
            }
            i += 1;
        }
        true
    }

    /// True iff some held name matches the path's trailing identifier.
    pub fn matches_some_name(&self, path: &CapabilityPath) -> (r: bool)
        ensures
            r == cap_path_satisfied(self@, path@),
    {
        let n = self.inner.len();
        let mut i: usize = 0;
        while i < n
            invariant
                n == self@.len(),
                self@.len() == self.inner@.len(),
                i <= n,
                forall|j: int| 0 <= j < i ==> !cap_matches(path@, self@[j]),
            decreases n - i,
        {
            if path.matches_name(&self.inner[i]) {
                proof {
                    assert(self@[i as int] == self.inner@[i as int]@);
                    assert(cap_matches(path@, self@[i as int]));
                }
                return true;
            }
            i += 1;
        }
        false
    }
}

impl Default for ImplementsSet {
    fn default() -> (r: ImplementsSet)
        ensures
            r@ == Seq::<Seq<char>>::empty(),
            r.wf(),
    {
        ImplementsSet::new()
    }
}

/// One required capability, as the qualified path it was written as.
#[derive(Debug)]
pub struct CapabilityPath {
    pub segments: Vec<String>,
}

impl View for CapabilityPath {
    type V = Seq<Seq<char>>;

    open spec fn view(&self) -> Seq<Seq<char>> {
        self.segments.deep_view()
    }
}

impl DeepView for CapabilityPath {
    type V = Seq<Seq<char>>;

    open spec fn deep_view(&self) -> Seq<Seq<char>> {
        self.segments.deep_view()
    }
}

impl CapabilityPath {
    pub fn new(segments: Vec<String>) -> (r: CapabilityPath)
        ensures
            r@ == segments.deep_view(),
    {
        CapabilityPath { segments }
    }

    /// True iff `cap` equals this path's trailing identifier.
    pub fn matches_name(&self, cap: &String) -> (r: bool)
        ensures
            r == cap_matches(self@, cap@),
    {
        let n = self.segments.len();
        if n == 0 {
            return false;
        }
        string_eq(&self.segments[n - 1], cap)
    }
}

/// The set of capability paths one operation requires, duplicate-free by
/// whole-path equality.
#[derive(Debug)]
pub struct TraitNamesSet {
    pub inner: Vec<CapabilityPath>,
}

impl View for TraitNamesSet {
    type V = Seq<Seq<Seq<char>>>;

    open spec fn view(&self) -> Seq<Seq<Seq<char>>> {
        self.inner.deep_view()
    }
}

impl TraitNamesSet {
    pub open spec fn wf(&self) -> bool {
        seq_no_dup(self@)
    }

    pub fn new() -> (r: TraitNamesSet)
        ensures
            r@ == Seq::<Seq<Seq<char>>>::empty(),
            r.wf(),
    {
        let r = TraitNamesSet { inner: Vec::new() };
        proof {
            assert(r@ =~= Seq::<Seq<Seq<char>>>::empty());
        }
        r
    }

    /// Inserts a required path; a path already present, compared segment for
    /// segment, is left alone.
    pub fn insert(&mut self, path: CapabilityPath)
        requires
            old(self).wf(),
        ensures
            final(self).wf(),
            final(self)@ == spec_insert_unique(old(self)@, path@),
    {
        let n = self.inner.len();
        let mut i: usize = 0;
        while i < n
            invariant
                n == self@.len(),
                self@.len() == self.inner@.len(),
                i <= n,
                self@ == old(self)@,
                self.wf(),
                forall|j: int| 0 <= j < i ==> self@[j] != path@,
            decreases n - i,
        {
            if path_eq(&self.inner[i], &path) {
                proof {
                    assert(self@[i as int] == path@);
                    assert(old(self)@.contains(path@));
                }
                return ;
            }
            i += 1;
        }
        let ghost before = self@;
        let ghost pv = path@;
        self.inner.push(path);
        proof {
            assert(!before.contains(pv));
            assert(self@ =~= before.push(pv));
            lemma_insert_unique_membership(before, pv);
        }
    }

    pub fn is_empty(&self) -> (r: bool)
        ensures
            r == (self@.len() == 0),
    {
        self.inner.len() == 0
    }
}

/// Segment-wise equality of two capability paths.
fn path_eq(a: &CapabilityPath, b: &CapabilityPath) -> (r: bool)
    ensures
        r == (a@ == b@),
{
    let n = a.segments.len();
    if n != b.segments.len() {
        return false;
    }
    let mut i: usize = 0;
    while i < n
        invariant
            n == a@.len(),
            a@.len() == a.segments@.len(),
            b@.len() == b.segments@.len(),
            n == b@.len(),
            i <= n,
            forall|j: int| 0 <= j < i ==> a@[j] == b@[j],
        decreases n - i,
    {
        if !string_eq(&a.segments[i], &b.segments[i]) {
            proof {
                assert(a@[i as int] != b@[i as int]);
            }
            return false;
        }
        i += 1;
    }
    proof {
        assert(a@ =~= b@);
    }
    true
}

} // verus!
