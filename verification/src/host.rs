//! The host-type registry: canonical records for every host type seen, keyed
//! by normalized name, each bound to a stable conversion-graph node handle.
//!
//! Re-encountering a name merges into the existing record: the syntactic
//! expression and display name are replaced (last write wins), capability
//! knowledge only accumulates, and the graph-node handle never changes.

use vstd::prelude::*;

use crate::capability::{
    cap_path_satisfied, caps_satisfy, first_unsatisfied, seq_no_dup, spec_insert_unique,
    spec_union_unique, ImplementsSet, TraitNamesSet,
};
use crate::error::DiagnosticError;
use crate::loc::SourceIdSpan;
use crate::text::{join_segments, spec_join_segments, str_eq};

verus! {

/// The declared shape of `syn::Type`: the syntactic type expression a record
/// was parsed from. The core stores and replaces such values; it never looks
/// inside one.
#[verifier::external_type_specification]
#[verifier::external_body]
pub struct ExSynType(syn::Type);

/// A stable handle to one node of the conversion-rule graph. Handles are
/// assigned once, at record creation, and never reassigned; conversion rules
/// store handles, never references to records.
#[derive(Clone, Copy, PartialEq, Eq, Structural, Debug, Hash)]
pub struct GraphNodeHandle(pub usize);

/// One canonical host-type record.
pub struct RustTypeS {
    /// The syntactic type expression the record was last seen as.
    pub ty: syn::Type,
    /// The normalized name: the lookup/equality key of the record.
    pub normalized_name: String,
    /// The capabilities the type is known to satisfy.
    pub implements: ImplementsSet,
    /// The record's conversion-graph node handle.
    pub graph_idx: GraphNodeHandle,
}

impl RustTypeS {
    /// A fresh record, not yet bound to a graph node: the handle is a
    /// placeholder until the registry interns the record.
    pub fn new_without_graph_idx(ty: syn::Type, norm_name: String) -> (r: RustTypeS)
        ensures
            r.ty == ty,
            r.normalized_name == norm_name,
            r.implements@ == Seq::<Seq<char>>::empty(),
            r.implements.wf(),
            r.graph_idx.0 == 0,
    {
        RustTypeS {
            ty,
            normalized_name: norm_name,
            implements: ImplementsSet::new(),
            graph_idx: GraphNodeHandle(0),
        }
    }

    /// Builder step: the same record, also carrying `trait_name`.
    pub fn implements(self, trait_name: &str) -> (r: RustTypeS)
        requires
            self.implements.wf(),
        ensures
            r.ty == self.ty,
            r.normalized_name == self.normalized_name,
            r.graph_idx == self.graph_idx,
            r.implements.wf(),
            r.implements@ == spec_insert_unique(self.implements@, trait_name@),
    {
        let mut this = self;
        this.implements.insert(trait_name.to_owned());
        this
    }

    /// Merges a fresh occurrence into this record: expression and name are
    /// replaced, capabilities are unioned, the graph handle is kept.
    pub fn merge(&mut self, other: RustTypeS)
        requires
            old(self).implements.wf(),
        ensures
            final(self).ty == other.ty,
            final(self).normalized_name == other.normalized_name,
            final(self).graph_idx == old(self).graph_idx,
            final(self).implements.wf(),
            final(self).implements@ == spec_union_unique(old(self).implements@, other.implements@),
    {
        self.implements.insert_set(&other.implements);
        self.ty = other.ty;
        self.normalized_name = other.normalized_name;
    }
}

/// The mathematical content of one host-type record: its name, its
/// capability names, and its graph node, as plain values.
#[verifier::ext_equal]
pub ghost struct HostModel {
    pub name: Seq<char>,
    pub caps: Seq<Seq<char>>,
    pub node: int,
}

pub open spec fn host_model(r: RustTypeS) -> HostModel {
    HostModel { name: r.normalized_name@, caps: r.implements@, node: r.graph_idx.0 as int }
}

/// Registry well-formedness: handles equal positions, capability sets hold no
/// duplicate, normalized names are unique.
pub open spec fn model_wf(m: Seq<HostModel>) -> bool {
    &&& forall|i: int| 0 <= i < m.len() ==> (#[trigger] m[i]).node == i
    &&& forall|i: int| 0 <= i < m.len() ==> seq_no_dup((#[trigger] m[i]).caps)
    &&& forall|i: int, j: int| 0 <= i < j < m.len() ==> m[i].name != m[j].name
}

pub open spec fn model_has_name(m: Seq<HostModel>, name: Seq<char>) -> bool {
    exists|i: int| 0 <= i < m.len() && m[i].name == name
}

pub open spec fn model_name_index(m: Seq<HostModel>, name: Seq<char>) -> int {
    choose|i: int| 0 <= i < m.len() && m[i].name == name
}

/// What interning does to the registry model: merge into the record of an
/// equal name, or append a fresh record bound to the next node handle.
/// Returns the new model and the handle value returned to the caller.
pub open spec fn spec_intern_model(m: Seq<HostModel>, name: Seq<char>, caps: Seq<Seq<char>>) -> (
    Seq<HostModel>,
    int,
) {
    if model_has_name(m, name) {
        let i = model_name_index(m, name);
        (
            m.update(i, HostModel { name: name, caps: spec_union_unique(m[i].caps, caps), node: m[i].node }),
            m[i].node,
        )
    } else {
        (m.push(HostModel { name: name, caps: caps, node: m.len() as int }), m.len() as int)
    }
}

/// What annotating does to the registry model: one capability inserted into
/// one record's set.
pub open spec fn spec_annotate_model(m: Seq<HostModel>, i: int, cap: Seq<char>) -> Seq<HostModel> {
    m.update(i, HostModel { name: m[i].name, caps: spec_insert_unique(m[i].caps, cap), node: m[i].node })
}

/// The registry of host-type records, addressed by graph-node handle.
pub struct HostTypeRegistry {
    pub records: Vec<RustTypeS>,
}

impl HostTypeRegistry {
    pub open spec fn model(&self) -> Seq<HostModel> {
        self.records@.map_values(|r: RustTypeS| host_model(r))
    }

    pub open spec fn wf(&self) -> bool {
        model_wf(self.model())
    }

    pub fn new() -> (r: HostTypeRegistry)
        ensures
            r.model() == Seq::<HostModel>::empty(),
            r.wf(),
    {
        let r = HostTypeRegistry { records: Vec::new() };
        proof {
            assert(r.model() =~= Seq::<HostModel>::empty());
        }
        r
    }

    pub fn len(&self) -> (r: usize)
        ensures
            r == self.model().len(),
    {
        self.records.len()
    }

    /// The position of the record with this normalized name, if any.
    fn find_index_by_name(&self, name: &str) -> (r: Option<usize>)
        ensures
            match r {
                Some(i) => i < self.records@.len()
                    && self.records@[i as int].normalized_name@ == name@,
                None => forall|j: int|
                    0 <= j < self.records@.len()
                        ==> (#[trigger] self.records@[j]).normalized_name@ != name@,
            },
    {
        let n = self.records.len();
        let mut i: usize = 0;
        while i < n
            invariant
                n == self.records@.len(),
                i <= n,
                forall|j: int|
                    0 <= j < i ==> (#[trigger] self.records@[j]).normalized_name@ != name@,
            decreases n - i,
        {
            if str_eq(self.records[i].normalized_name.as_str(), name) {
                return Some(i);
            }
            i += 1;
        }
        None
    }

    /// Returns the canonical record's handle for a type: an existing record
    /// of an equal normalized name is merged into (expression and name
    /// replaced, capabilities unioned, handle kept), otherwise a fresh record
    /// is appended, bound to a freshly assigned graph-node handle. Lookups
    /// never fail.
    pub fn intern(&mut self, candidate: RustTypeS) -> (h: GraphNodeHandle)
        requires
            old(self).wf(),
            candidate.implements.wf(),
        ensures
            final(self).wf(),
            final(self).model() == spec_intern_model(
                old(self).model(),
                candidate.normalized_name@,
                candidate.implements@,
            ).0,
            h.0 as int == spec_intern_model(
                old(self).model(),
                candidate.normalized_name@,
                candidate.implements@,
            ).1,
            h.0 < final(self).records@.len(),
            final(self).records@[h.0 as int].ty == candidate.ty,
            forall|j: int|
                0 <= j < final(self).records@.len() && j != h.0 as int
                    ==> final(self).records@[j] == old(self).records@[j],
    {
        let ghost m0 = self.model();
        let ghost name = candidate.normalized_name@;
        let ghost caps = candidate.implements@;
        let n = self.records.len();
        match self.find_index_by_name(candidate.normalized_name.as_str()) {
            Some(i) => {
                proof {
                    assert(m0[i as int].name == name);
                    assert(model_has_name(m0, name));
                    assert forall|j: int| 0 <= j < m0.len() && m0[j].name == name implies j
                        == i as int by {
                        if j != i as int {
                            assert(m0[j].name != m0[i as int].name);
                        }
                    }
                    assert(model_name_index(m0, name) == i as int);
                }
                let mut rec = self.records.remove(i);
                let h = rec.graph_idx;
                rec.merge(candidate);
                let ghost merged = rec;
                self.records.insert(i, rec);
                proof {
                    assert(self.records@ =~= old(self).records@.update(i as int, merged));
                    assert(self.model() =~= spec_intern_model(m0, name, caps).0);
                    lemma_spec_intern_preserves_wf(m0, name, caps);
                }
                h
            },
            None => {
                proof {
                    assert forall|j: int| 0 <= j < m0.len() implies (#[trigger] m0[j]).name
                        != name by {
                        assert(self.records@[j].normalized_name@ != name);
                    }
                    assert(!model_has_name(m0, name));
                }
                let h = GraphNodeHandle(n);
                let mut c = candidate;
                c.graph_idx = h;
                self.records.push(c);
                proof {
                    assert(self.model() =~= spec_intern_model(m0, name, caps).0);
                    lemma_spec_intern_preserves_wf(m0, name, caps);
                }
                h
            },
        }
    }

    /// Inserts a capability into the record's set; idempotent, touching
    /// nothing else.
    pub fn annotate(&mut self, h: GraphNodeHandle, capability: String)
        requires
            old(self).wf(),
            (h.0 as int) < old(self).model().len(),
        ensures
            final(self).wf(),
            final(self).model() == spec_annotate_model(old(self).model(), h.0 as int, capability@),
            final(self).records@[h.0 as int].ty == old(self).records@[h.0 as int].ty,
            forall|j: int|
                0 <= j < final(self).records@.len() && j != h.0 as int
                    ==> final(self).records@[j] == old(self).records@[j],
    {
        let ghost m0 = self.model();
        let mut rec = self.records.remove(h.0);
        proof {
            assert(m0[h.0 as int].caps == old(self).records@[h.0 as int].implements@);
            assert(rec.implements.wf());
        }
        rec.implements.insert(capability);
        let ghost updated = rec;
        self.records.insert(h.0, rec);
        proof {
            assert(self.records@ =~= old(self).records@.update(h.0 as int, updated));
            assert(self.model() =~= spec_annotate_model(m0, h.0 as int, capability@));
            crate::capability::lemma_insert_unique_membership(m0[h.0 as int].caps, capability@);
        }
    }

    /// True iff every required capability path is matched, by trailing
    /// identifier, by some capability the record holds.
    pub fn satisfies(&self, h: GraphNodeHandle, required: &TraitNamesSet) -> (r: bool)
        requires
            (h.0 as int) < self.model().len(),
        ensures
            r == caps_satisfy(self.model()[h.0 as int].caps, required@),
    {
        self.records[h.0].implements.contains_subset(required)
    }

    /// The handle of the record with this normalized name, if one exists.
    pub fn find_by_name(&self, name: &str) -> (r: Option<GraphNodeHandle>)
        requires
            self.wf(),
        ensures
            r.is_some() == model_has_name(self.model(), name@),
            match r {
                Some(g) => g.0 as int == model_name_index(self.model(), name@),
                None => true,
            },
    {
        let ghost m = self.model();
        match self.find_index_by_name(name) {
            Some(i) => {
                proof {
                    assert(m[i as int].name == name@);
                    assert(model_has_name(m, name@));
                    assert forall|j: int| 0 <= j < m.len() && m[j].name == name@ implies j
                        == i as int by {
                        if j != i as int {
                            assert(m[j].name != m[i as int].name);
                        }
                    }
                }
                Some(self.records[i].graph_idx)
            },
            None => {
                proof {
                    assert forall|j: int| 0 <= j < m.len() implies (#[trigger] m[j]).name
                        != name@ by {
                        assert(self.records@[j].normalized_name@ != name@);
                    }
                }
                None
            },
        }
    }

    /// Shared access to a record by its handle.
    pub fn get(&self, h: GraphNodeHandle) -> (r: &RustTypeS)
        requires
            (h.0 as int) < self.records@.len(),
        ensures
            *r == self.records@[h.0 as int],
    {
        &self.records[h.0]
    }

    /// Checks a required capability set against a record, producing the
    /// capability-mismatch diagnostic when a requirement is missing: located
    /// at `loc`, naming the type and a missing capability path.
    pub fn require_capabilities(
        &self,
        h: GraphNodeHandle,
        required: &TraitNamesSet,
        loc: SourceIdSpan,
    ) -> (r: Result<(), DiagnosticError>)
        requires
            (h.0 as int) < self.model().len(),
        ensures
            r.is_ok() == caps_satisfy(self.model()[h.0 as int].caps, required@),
            match r {
                Ok(_) => true,
                Err(e) => ({
                    let k = first_unsatisfied(self.model()[h.0 as int].caps, required@);
                    &&& 0 <= k < required@.len()
                    &&& !cap_path_satisfied(self.model()[h.0 as int].caps, required@[k])
                    &&& e@ =~= seq![
                        (
                            loc.0,
                            loc.1,
                            "type "@ + self.model()[h.0 as int].name + " does not implement "@
                                + spec_join_segments(required@[k]),
                        ),
                    ]
                }),
            },
    {
        let ghost caps = self.model()[h.0 as int].caps;
        let n = required.inner.len();
        let mut i: usize = 0;
        while i < n
            invariant
                n == required@.len(),
                required@.len() == required.inner@.len(),
                i <= n,
                (h.0 as int) < self.model().len(),
                caps == self.model()[h.0 as int].caps,
                self.records@.len() == self.model().len(),
                forall|k: int| 0 <= k < i ==> cap_path_satisfied(caps, required@[k]),
            decreases n - i,
        {
            proof {
                assert(caps == self.records@[h.0 as int].implements@);
            }
            if !self.records[h.0].implements.matches_some_name(&required.inner[i]) {
                proof {
                    assert(required@[i as int] == required.inner@[i as int].deep_view());
                    assert(!cap_path_satisfied(caps, required@[i as int]));
                }
                let mut msg: String = "type ".to_owned();
                msg.append(self.records[h.0].normalized_name.as_str());
                msg.append(" does not implement ");
                let path_text = join_segments(&required.inner[i].segments);
                msg.append(path_text.as_str());
                let e = DiagnosticError::new(loc.0, loc.1, msg);
                proof {
                    crate::capability::lemma_first_unsatisfied_at(caps, required@, i as int);
                    let k = i as int;
                    assert(0 <= k < required@.len() && !cap_path_satisfied(caps, required@[k])
                        && e@ =~= seq![
                        (
                            loc.0,
                            loc.1,
                            "type "@ + self.model()[h.0 as int].name + " does not implement "@
                                + spec_join_segments(required@[k]),
                        ),
                    ]);
                }
                return Err(e);
            }
            proof {
                assert(required@[i as int] == required.inner@[i as int].deep_view());
            }
            i += 1;
        }
        Ok(())
    }
}

impl Default for HostTypeRegistry {
    fn default() -> (r: HostTypeRegistry)
        ensures
            r.model() == Seq::<HostModel>::empty(),
            r.wf(),
    {
        HostTypeRegistry::new()
    }
}

/// Interning keeps the registry well-formed: handles stay positional, names
/// stay unique, capability sets stay duplicate-free.
pub proof fn lemma_spec_intern_preserves_wf(m: Seq<HostModel>, name: Seq<char>, caps: Seq<Seq<char>>)
    requires
        model_wf(m),
        seq_no_dup(caps),
    ensures
        model_wf(spec_intern_model(m, name, caps).0),
{
    if model_has_name(m, name) {
        let i = model_name_index(m, name);
        assert(0 <= i < m.len() && m[i].name == name);
        crate::capability::lemma_union_unique_membership(m[i].caps, caps);
    } else {
    }
}

} // verus!
// The general laws of the registry, stated over the registry model.

verus! {

/// The record an index points at is the one name lookup finds: names are
/// unique in a well-formed registry.
pub proof fn lemma_model_index_unique(m: Seq<HostModel>, name: Seq<char>, i: int)
    requires
        model_wf(m),
        0 <= i < m.len(),
        m[i].name == name,
    ensures
        model_has_name(m, name),
        model_name_index(m, name) == i,
{
    assert(model_has_name(m, name));
    assert forall|j: int| 0 <= j < m.len() && m[j].name == name implies j == i by {
        if j != i {
            assert(m[i].name != m[j].name);
        }
    }
}

/// Annotating keeps the registry well-formed and touches no name or node.
pub proof fn lemma_spec_annotate_preserves_wf(m: Seq<HostModel>, i: int, cap: Seq<char>)
    requires
        model_wf(m),
        0 <= i < m.len(),
    ensures
        model_wf(spec_annotate_model(m, i, cap)),
        spec_annotate_model(m, i, cap).len() == m.len(),
        forall|j: int| 0 <= j < m.len() ==> spec_annotate_model(m, i, cap)[j].name == m[j].name,
        forall|j: int| 0 <= j < m.len() ==> spec_annotate_model(m, i, cap)[j].node == m[j].node,
{
    crate::capability::lemma_insert_unique_membership(m[i].caps, cap);
}

/// Merge idempotence: interning an equal normalized name twice, each time
/// carrying the same one capability, leaves exactly one record under that
/// name, and its capability set holds that capability exactly once.
pub proof fn lemma_merge_idempotence(m: Seq<HostModel>, name: Seq<char>, cap: Seq<char>)
    requires
        model_wf(m),
    ensures
        ({
            let m1 = spec_intern_model(m, name, seq![cap]).0;
            let m2 = spec_intern_model(m1, name, seq![cap]).0;
            &&& model_has_name(m2, name)
            &&& forall|i: int, j: int|
                0 <= i < m2.len() && 0 <= j < m2.len() && m2[i].name == name && m2[j].name == name
                    ==> i == j
            &&& m2[model_name_index(m2, name)].caps.contains(cap)
            &&& seq_no_dup(m2[model_name_index(m2, name)].caps)
            &&& crate::capability::count_occurrences(m2[model_name_index(m2, name)].caps, cap) == 1
        }),
{
    let c = seq![cap];
    assert(c[0] == cap);
    assert(c.contains(cap));
    let m1 = spec_intern_model(m, name, c).0;
    let m2 = spec_intern_model(m1, name, c).0;
    lemma_spec_intern_preserves_wf(m, name, c);
    lemma_spec_intern_preserves_wf(m1, name, c);
    if model_has_name(m, name) {
        let i = model_name_index(m, name);
        assert(0 <= i < m.len() && m[i].name == name);
        assert(m1[i].name == name);
        lemma_model_index_unique(m1, name, i);
        crate::capability::lemma_union_unique_membership(m1[i].caps, c);
        assert(m2[i].caps.contains(cap));
        lemma_model_index_unique(m2, name, i);
        crate::capability::lemma_count_unique(m2[i].caps, cap);
    } else {
        let i = m.len() as int;
        assert(m1 == m.push(HostModel { name: name, caps: c, node: i }));
        assert(m1[i].name == name);
        lemma_model_index_unique(m1, name, i);
        crate::capability::lemma_union_unique_membership(m1[i].caps, c);
        assert(m2[i].caps.contains(cap));
        lemma_model_index_unique(m2, name, i);
        crate::capability::lemma_count_unique(m2[i].caps, cap);
    }
}

/// Capability accumulation: annotate capability `a`, re-intern the same
/// normalized name (with any duplicate-free capability set), annotate
/// capability `b` — the record then satisfies the requirement sets {a}, {b}
/// and {a, b}, each requirement a single-identifier path. Knowledge only
/// accumulates.
pub proof fn lemma_capability_accumulation(
    m: Seq<HostModel>,
    i: int,
    a: Seq<char>,
    b: Seq<char>,
    caps: Seq<Seq<char>>,
)
    requires
        model_wf(m),
        0 <= i < m.len(),
        seq_no_dup(caps),
    ensures
        ({
            let m1 = spec_annotate_model(m, i, a);
            let m2 = spec_intern_model(m1, m[i].name, caps).0;
            let m3 = spec_annotate_model(m2, i, b);
            &&& caps_satisfy(m3[i].caps, seq![seq![a]])
            &&& caps_satisfy(m3[i].caps, seq![seq![b]])
            &&& caps_satisfy(m3[i].caps, seq![seq![a], seq![b]])
        }),
{
    let name = m[i].name;
    let m1 = spec_annotate_model(m, i, a);
    let m2 = spec_intern_model(m1, name, caps).0;
    let m3 = spec_annotate_model(m2, i, b);
    lemma_spec_annotate_preserves_wf(m, i, a);
    crate::capability::lemma_insert_unique_membership(m[i].caps, a);
    assert(m1[i].caps.contains(a));
    assert(m1[i].name == name);
    lemma_model_index_unique(m1, name, i);
    crate::capability::lemma_union_unique_membership(m1[i].caps, caps);
    assert(m2 == m1.update(
        i,
        HostModel {
            name: name,
            caps: spec_union_unique(m1[i].caps, caps),
            node: m1[i].node,
        },
    ));
    assert(m2[i].caps.contains(a));
    crate::capability::lemma_insert_unique_membership(m2[i].caps, b);
    assert(m3[i].caps.contains(a));
    assert(m3[i].caps.contains(b));
    crate::capability::lemma_single_name_satisfied(m3[i].caps, a);
    crate::capability::lemma_single_name_satisfied(m3[i].caps, b);
    assert(seq![seq![a]][0] == seq![a]);
    assert(seq![seq![b]][0] == seq![b]);
    assert(seq![seq![a], seq![b]][0] == seq![a]);
    assert(seq![seq![a], seq![b]][1] == seq![b]);
}

/// Graph-handle stability: the handle a second intern of an equal normalized
/// name returns equals the handle the first intern returned, and no intern
/// moves the node handle of a record that already existed — merges replace
/// expressions and names, never handles.
pub proof fn lemma_graph_handle_stability(
    m: Seq<HostModel>,
    name: Seq<char>,
    caps1: Seq<Seq<char>>,
    caps2: Seq<Seq<char>>,
)
    requires
        model_wf(m),
        seq_no_dup(caps1),
    ensures
        ({
            let r1 = spec_intern_model(m, name, caps1);
            let r2 = spec_intern_model(r1.0, name, caps2);
            &&& r2.1 == r1.1
            &&& forall|j: int| 0 <= j < m.len() ==> r1.0[j].node == m[j].node
            &&& forall|j: int| 0 <= j < m.len() ==> r2.0[j].node == m[j].node
        }),
{
    let r1 = spec_intern_model(m, name, caps1);
    let m1 = r1.0;
    lemma_spec_intern_preserves_wf(m, name, caps1);
    if model_has_name(m, name) {
        let i = model_name_index(m, name);
        assert(0 <= i < m.len() && m[i].name == name);
        assert(m1[i].name == name);
        lemma_model_index_unique(m1, name, i);
        assert(m1[i].node == m[i].node);
    } else {
        let i = m.len() as int;
        assert(m1[i].name == name);
        lemma_model_index_unique(m1, name, i);
    }
}

} // verus!
