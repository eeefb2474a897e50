//! Foreign-type storage: an append-only arena of foreign-type records,
//! addressed by stable index, with at most one record per declared name.
//!
//! A record is created either strictly (error on a duplicate name, reporting
//! both declaration sites) or lazily (find-or-create of an empty placeholder
//! that a forward reference may make before the declaration is processed).
//! A placeholder later declared strictly is promoted in place — it keeps its
//! index and receives the declaration's rules and location — never
//! duplicated; a strict declaration over a record that already carries any
//! rule is a duplicate. Conversion rules are direction-specific and never
//! conflated.

use vstd::prelude::*;

use crate::error::DiagnosticError;
use crate::host::GraphNodeHandle;
use crate::loc::SourceIdSpan;
use crate::text::str_eq;

verus! {

/// A foreign type's declared name, with the declaration location kept for
/// diagnostics.
#[derive(Debug)]
pub struct TypeName {
    pub typename: String,
    pub span: SourceIdSpan,
}

/// One step through an intermediate representation: the intermediate type's
/// graph node, and the conversion code of the host-to-intermediate hop. The
/// intermediate-to-foreign hop is resolved elsewhere from the node identity.
#[derive(Debug)]
pub struct IntermediateStep {
    pub intermediate_node: GraphNodeHandle,
    pub conv_code: String,
}

/// One documented way to convert between a host type and a foreign type, in
/// one direction: direct when `intermediate` is absent, two-stage otherwise.
#[derive(Debug)]
pub struct ConversionRule {
    pub host_node: GraphNodeHandle,
    pub intermediate: Option<IntermediateStep>,
}

/// One foreign-type record: its declared name and its optional per-direction
/// conversion rules. Either, both, or neither rule may be present.
#[derive(Debug)]
pub struct ForeignTypeS {
    pub name: TypeName,
    pub into_host: Option<ConversionRule>,
    pub from_host: Option<ConversionRule>,
}

/// A stable index into the storage arena; indices are never reused, since
/// records are never removed.
#[derive(Clone, Copy, PartialEq, Eq, Structural, Debug, Hash)]
pub struct ForeignType(pub usize);

/// A conversion direction, relative to the host language.
#[derive(Clone, Copy, PartialEq, Eq, Structural, Debug)]
pub enum ConvDirection {
    IntoHost,
    FromHost,
}

/// The mathematical content of one conversion rule.
#[verifier::ext_equal]
pub ghost struct RuleModel {
    pub host_node: int,
    pub intermediate: Option<(int, Seq<char>)>,
}

/// The mathematical content of one foreign-type record.
#[verifier::ext_equal]
pub ghost struct ForeignModel {
    pub name: Seq<char>,
    pub loc: SourceIdSpan,
    pub into_host: Option<RuleModel>,
    pub from_host: Option<RuleModel>,
}

pub open spec fn rule_model(r: ConversionRule) -> RuleModel {
    RuleModel {
        host_node: r.host_node.0 as int,
        intermediate: match r.intermediate {
            Some(s) => Some((s.intermediate_node.0 as int, s.conv_code@)),
            None => None,
        },
    }
}

pub open spec fn opt_rule_model(o: Option<ConversionRule>) -> Option<RuleModel> {
    match o {
        Some(r) => Some(rule_model(r)),
        None => None,
    }
}

pub open spec fn ftype_model(f: ForeignTypeS) -> ForeignModel {
    ForeignModel {
        name: f.name.typename@,
        loc: f.name.span,
        into_host: opt_rule_model(f.into_host),
        from_host: opt_rule_model(f.from_host),
    }
}

/// Storage well-formedness: at most one record per declared name.
pub open spec fn fmodel_wf(m: Seq<ForeignModel>) -> bool {
    forall|i: int, j: int| 0 <= i < j < m.len() ==> m[i].name != m[j].name
}

pub open spec fn fmodel_has_name(m: Seq<ForeignModel>, name: Seq<char>) -> bool {
    exists|i: int| 0 <= i < m.len() && m[i].name == name
}

pub open spec fn fmodel_name_index(m: Seq<ForeignModel>, name: Seq<char>) -> int {
    choose|i: int| 0 <= i < m.len() && m[i].name == name
}

/// The direct rule bound at strict declaration: straight at the host node,
/// no intermediate step.
pub open spec fn spec_direct_rule(node: int) -> RuleModel {
    RuleModel { host_node: node, intermediate: None }
}

/// An empty placeholder, as lazy creation makes it.
pub open spec fn spec_placeholder(name: Seq<char>, loc: SourceIdSpan) -> ForeignModel {
    ForeignModel { name: name, loc: loc, into_host: None, from_host: None }
}

/// What find-or-create does to the model: nothing when the name is present,
/// else one placeholder appended; and which index it returns.
pub open spec fn spec_find_or_create(m: Seq<ForeignModel>, name: Seq<char>, loc: SourceIdSpan) -> (
    Seq<ForeignModel>,
    int,
) {
    if fmodel_has_name(m, name) {
        (m, fmodel_name_index(m, name))
    } else {
        (m.push(spec_placeholder(name, loc)), m.len() as int)
    }
}

/// A strict declaration is a duplicate iff the name is already present on a
/// record that carries any rule; a bare placeholder is not a duplicate, it is
/// promoted.
pub open spec fn spec_strict_is_duplicate(m: Seq<ForeignModel>, name: Seq<char>) -> bool {
    fmodel_has_name(m, name) && {
        let i = fmodel_name_index(m, name);
        !(m[i].into_host is None && m[i].from_host is None)
    }
}

/// What a successful strict declaration does to the model: promote the
/// placeholder in place, or append a fresh record; both conversion rules are
/// bound directly at `node`, and the record carries the declaration's name
/// and location.
pub open spec fn spec_declare_strict(
    m: Seq<ForeignModel>,
    name: Seq<char>,
    loc: SourceIdSpan,
    node: int,
) -> (Seq<ForeignModel>, int) {
    let declared = ForeignModel {
        name: name,
        loc: loc,
        into_host: Some(spec_direct_rule(node)),
        from_host: Some(spec_direct_rule(node)),
    };
    if fmodel_has_name(m, name) {
        let i = fmodel_name_index(m, name);
        (m.update(i, declared), i)
    } else {
        (m.push(declared), m.len() as int)
    }
}

/// The rule a record holds in one direction.
pub open spec fn dir_rule_model(fm: ForeignModel, dir: ConvDirection) -> Option<RuleModel> {
    match dir {
        ConvDirection::IntoHost => fm.into_host,
        ConvDirection::FromHost => fm.from_host,
    }
}

/// The arena of foreign-type records, in declaration order.
#[derive(Debug)]
pub struct ForeignTypesStorage {
    pub ftypes: Vec<ForeignTypeS>,
}

impl ForeignTypesStorage {
    pub open spec fn model(&self) -> Seq<ForeignModel> {
        self.ftypes@.map_values(|f: ForeignTypeS| ftype_model(f))
    }

    pub open spec fn wf(&self) -> bool {
        fmodel_wf(self.model())
    }

    pub fn new() -> (r: ForeignTypesStorage)
        ensures
            r.model() == Seq::<ForeignModel>::empty(),
            r.wf(),
    {
        let r = ForeignTypesStorage { ftypes: Vec::new() };
        proof {
            assert(r.model() =~= Seq::<ForeignModel>::empty());
        }
        r
    }

    pub fn len(&self) -> (r: usize)
        ensures
            r == self.model().len(),
    {
        self.ftypes.len()
    }

    /// The position of the record with this declared name, if any.
    fn find_index_by_name(&self, name: &str) -> (r: Option<usize>)
        ensures
            match r {
                Some(i) => i < self.ftypes@.len()
                    && self.ftypes@[i as int].name.typename@ == name@,
                None => forall|j: int|
                    0 <= j < self.ftypes@.len()
                        ==> (#[trigger] self.ftypes@[j]).name.typename@ != name@,
            },
    {
        let n = self.ftypes.len();
        let mut i: usize = 0;
        while i < n
            invariant
                n == self.ftypes@.len(),
                i <= n,
                forall|j: int|
                    0 <= j < i ==> (#[trigger] self.ftypes@[j]).name.typename@ != name@,
            decreases n - i,
        {
            if str_eq(self.ftypes[i].name.typename.as_str(), name) {
                return Some(i);
            }
            i += 1;
        }
        None
    }

    /// In-model name lookup facts for an index the helper found.
    proof fn lemma_found_index(&self, i: int, name: Seq<char>)
        requires
            self.wf(),
            0 <= i < self.model().len(),
            self.model()[i].name == name,
        ensures
            fmodel_has_name(self.model(), name),
            fmodel_name_index(self.model(), name) == i,
    {
        let m = self.model();
        assert(fmodel_has_name(m, name));
        assert forall|j: int| 0 <= j < m.len() && m[j].name == name implies j == i by {
            if j != i {
                assert(m[i].name != m[j].name);
            }
        }
    }

    /// Appends a record under a name not yet present.
    pub fn add_new_ftype(&mut self, ft: ForeignTypeS) -> (r: ForeignType)
        requires
            old(self).wf(),
            !fmodel_has_name(old(self).model(), ft.name.typename@),
        ensures
            final(self).wf(),
            r.0 == old(self).model().len(),
            final(self).model() == old(self).model().push(ftype_model(ft)),
            final(self).ftypes@ == old(self).ftypes@.push(ft),
    {
        let idx = self.ftypes.len();
        self.ftypes.push(ft);
        proof {
            assert(self.model() =~= old(self).model().push(ftype_model(ft)));
        }
        ForeignType(idx)
    }

    /// Returns the record for `ftype_name`, creating and registering an empty
    /// placeholder when none exists yet. Never fails.
    pub fn find_or_create(&mut self, ftype_name: TypeName) -> (r: ForeignType)
        requires
            old(self).wf(),
        ensures
            final(self).wf(),
            r.0 as int == spec_find_or_create(
                old(self).model(),
                ftype_name.typename@,
                ftype_name.span,
            ).1,
            final(self).model() == spec_find_or_create(
                old(self).model(),
                ftype_name.typename@,
                ftype_name.span,
            ).0,
            fmodel_has_name(old(self).model(), ftype_name.typename@) ==> final(self).ftypes@
                == old(self).ftypes@,
    {
        let ghost m0 = self.model();
        let ghost name = ftype_name.typename@;
        match self.find_index_by_name(ftype_name.typename.as_str()) {
            Some(i) => {
                proof {
                    self.lemma_found_index(i as int, name);
                }
                ForeignType(i)
            },
            None => {
                proof {
                    assert forall|j: int| 0 <= j < m0.len() implies (#[trigger] m0[j]).name
                        != name by {
                        assert(self.ftypes@[j].name.typename@ != name);
                    }
                    assert(!fmodel_has_name(m0, name));
                }
                let ft = ForeignTypeS { name: ftype_name, into_host: None, from_host: None };
                let r = self.add_new_ftype(ft);
                proof {
                    assert(self.model() =~= spec_find_or_create(m0, name, ftype_name.span).0);
                }
                r
            },
        }
    }

    /// Strictly declares `tn` bound to the host node `binded_rust_ty`: the
    /// fresh (or promoted placeholder) record carries identical direct
    /// into-host and from-host rules. A name already declared with rules is a
    /// duplicate: the error carries the original declaration site first and
    /// the new one second, and the storage is left unchanged.
    pub fn declare_strict(&mut self, tn: TypeName, binded_rust_ty: GraphNodeHandle) -> (r: Result<
        ForeignType,
        DiagnosticError,
    >)
        requires
            old(self).wf(),
        ensures
            final(self).wf(),
            r.is_ok() == !spec_strict_is_duplicate(old(self).model(), tn.typename@),
            r matches Ok(h) ==> {
                &&& h.0 as int == spec_declare_strict(
                    old(self).model(),
                    tn.typename@,
                    tn.span,
                    binded_rust_ty.0 as int,
                ).1
                &&& final(self).model() == spec_declare_strict(
                    old(self).model(),
                    tn.typename@,
                    tn.span,
                    binded_rust_ty.0 as int,
                ).0
            },
            r matches Err(e) ==> {
                &&& final(self).ftypes@ == old(self).ftypes@
                &&& ({
                    let i = fmodel_name_index(old(self).model(), tn.typename@);
                    e@ =~= seq![
                        (
                            old(self).model()[i].loc.0,
                            old(self).model()[i].loc.1,
                            "Type "@ + tn.typename@ + " already defined here"@,
                        ),
                        (tn.span.0, tn.span.1, "second mention of type "@ + tn.typename@),
                    ]
                })
            },
    {
        let ghost m0 = self.model();
        let ghost name = tn.typename@;
        let ghost dloc = tn.span;
        match self.find_index_by_name(tn.typename.as_str()) {
            Some(i) => {
                proof {
                    self.lemma_found_index(i as int, name);
                }
                if self.ftypes[i].into_host.is_none() && self.ftypes[i].from_host.is_none() {
                    let mut rec = self.ftypes.remove(i);
                    rec.name = tn;
                    rec.into_host = Some(
                        ConversionRule { host_node: binded_rust_ty, intermediate: None },
                    );
                    rec.from_host = Some(
                        ConversionRule { host_node: binded_rust_ty, intermediate: None },
                    );
                    let ghost promoted = rec;
                    self.ftypes.insert(i, rec);
                    proof {
                        assert(self.ftypes@ =~= old(self).ftypes@.update(i as int, promoted));
                        assert(self.model() =~= spec_declare_strict(
                            m0,
                            name,
                            dloc,
                            binded_rust_ty.0 as int,
                        ).0);
                    }
                    Ok(ForeignType(i))
                } else {
                    let mut msg: String = "Type ".to_owned();
                    msg.append(tn.typename.as_str());
                    msg.append(" already defined here");
                    let prev_loc = self.ftypes[i].name.span;
                    let mut err = DiagnosticError::new(prev_loc.0, prev_loc.1, msg);
                    let mut msg2: String = "second mention of type ".to_owned();
                    msg2.append(tn.typename.as_str());
                    err.span_note(tn.span, msg2);
                    proof {
                        assert(m0[i as int].loc == prev_loc);
                        assert(err@ =~= seq![
                            (
                                m0[i as int].loc.0,
                                m0[i as int].loc.1,
                                "Type "@ + name + " already defined here"@,
                            ),
                            (dloc.0, dloc.1, "second mention of type "@ + name),
                        ]);
                    }
                    Err(err)
                }
            },
            None => {
                proof {
                    assert forall|j: int| 0 <= j < m0.len() implies (#[trigger] m0[j]).name
                        != name by {
                        assert(self.ftypes@[j].name.typename@ != name);
                    }
                    assert(!fmodel_has_name(m0, name));
                }
                let ft = ForeignTypeS {
                    name: tn,
                    into_host: Some(ConversionRule { host_node: binded_rust_ty, intermediate: None }),
                    from_host: Some(ConversionRule { host_node: binded_rust_ty, intermediate: None }),
                };
                let r = self.add_new_ftype(ft);
                proof {
                    assert(self.model() =~= spec_declare_strict(
                        m0,
                        name,
                        dloc,
                        binded_rust_ty.0 as int,
                    ).0);
                }
                Ok(r)
            },
        }
    }

    /// Pure lookup by name; no mutation.
    pub fn lookup(&self, ftype_name: &str) -> (r: Option<ForeignType>)
        requires
            self.wf(),
        ensures
            r.is_some() == fmodel_has_name(self.model(), ftype_name@),
            r matches Some(f) ==> f.0 as int == fmodel_name_index(self.model(), ftype_name@),
    {
        match self.find_index_by_name(ftype_name) {
            Some(i) => {
                proof {
                    self.lemma_found_index(i as int, ftype_name@);
                }
                Some(ForeignType(i))
            },
            None => {
                proof {
                    assert forall|j: int| 0 <= j < self.model().len() implies (
                    #[trigger] self.model()[j]).name != ftype_name@ by {
                        assert(self.ftypes@[j].name.typename@ != ftype_name@);
                    }
                }
                None
            },
        }
    }

    /// Shared access to a record by its stable index.
    pub fn get(&self, idx: ForeignType) -> (r: &ForeignTypeS)
        requires
            (idx.0 as int) < self.model().len(),
        ensures
            *r == self.ftypes@[idx.0 as int],
    {
        &self.ftypes[idx.0]
    }

    /// Attaches (or replaces) the rule of one direction on one record; the
    /// other direction and every other record are untouched.
    pub fn set_rule(&mut self, idx: ForeignType, dir: ConvDirection, rule: ConversionRule)
        requires
            old(self).wf(),
            (idx.0 as int) < old(self).model().len(),
        ensures
            final(self).wf(),
            final(self).model().len() == old(self).model().len(),
            final(self).model()[idx.0 as int].name == old(self).model()[idx.0 as int].name,
            final(self).model()[idx.0 as int].loc == old(self).model()[idx.0 as int].loc,
            dir_rule_model(final(self).model()[idx.0 as int], dir) == Some(rule_model(rule)),
            dir_rule_model(
                final(self).model()[idx.0 as int],
                spec_other_direction(dir),
            ) == dir_rule_model(old(self).model()[idx.0 as int], spec_other_direction(dir)),
            forall|j: int|
                0 <= j < final(self).ftypes@.len() && j != idx.0 as int ==> final(self).ftypes@[j]
                    == old(self).ftypes@[j],
    {
        let ghost m0 = self.model();
        let mut rec = self.ftypes.remove(idx.0);
        match dir {
            ConvDirection::IntoHost => {
                rec.into_host = Some(rule);
            },
            ConvDirection::FromHost => {
                rec.from_host = Some(rule);
            },
        }
        let ghost updated = rec;
        self.ftypes.insert(idx.0, rec);
        proof {
            assert(self.ftypes@ =~= old(self).ftypes@.update(idx.0 as int, updated));
            assert forall|j: int|
                0 <= j < self.model().len() && j != idx.0 as int implies self.model()[j] == m0[j] by {
                assert(self.ftypes@[j] == old(self).ftypes@[j]);
            }
            assert(self.model()[idx.0 as int].name == m0[idx.0 as int].name);
            assert forall|j: int| 0 <= j < self.model().len() implies (#[trigger] self.model()[j]).name
                == m0[j].name by {
                if j != idx.0 as int {
                    assert(self.ftypes@[j] == old(self).ftypes@[j]);
                }
            }
            assert forall|a: int, b: int| 0 <= a < b < self.model().len() implies self.model()[a].name
                != self.model()[b].name by {
                assert(m0[a].name != m0[b].name);
            }
        }
    }

    /// The records, in declaration order, for ordered traversal by reference.
    pub fn records(&self) -> (r: &Vec<ForeignTypeS>)
        ensures
            *r == self.ftypes,
    {
        &self.ftypes
    }

    /// The records, in declaration order, consuming the storage.
    pub fn into_records(self) -> (r: Vec<ForeignTypeS>)
        ensures
            r == self.ftypes,
    {
        self.ftypes
    }

    /// Resolves the conversion rule of a (host type, foreign type, direction)
    /// triple: the rule stored for that direction, provided it is bound at
    /// the requested host node. Otherwise the unresolved-conversion
    /// diagnostic, located at the foreign type's declaration and naming both
    /// endpoints.
    pub fn resolve(
        &self,
        host_name: &str,
        host: GraphNodeHandle,
        idx: ForeignType,
        dir: ConvDirection,
    ) -> (r: Result<&ConversionRule, DiagnosticError>)
        requires
            (idx.0 as int) < self.model().len(),
        ensures
            r.is_ok() == ({
                let o = dir_rule_model(self.model()[idx.0 as int], dir);
                match o {
                    Some(rm) => rm.host_node == host.0 as int,
                    None => false,
                }
            }),
            r matches Ok(rule) ==> dir_rule_model(self.model()[idx.0 as int], dir) == Some(
                rule_model(*rule),
            ),
            r matches Err(e) ==> e@ =~= seq![
                (
                    self.model()[idx.0 as int].loc.0,
                    self.model()[idx.0 as int].loc.1,
                    spec_unresolved_message(
                        host_name@,
                        self.model()[idx.0 as int].name,
                        dir,
                    ),
                ),
            ],
    {
        let rec = &self.ftypes[idx.0];
        let rule_opt = match dir {
            ConvDirection::IntoHost => &rec.into_host,
            ConvDirection::FromHost => &rec.from_host,
        };
        match rule_opt {
            Some(rule) => {
                if rule.host_node.0 == host.0 {
                    return Ok(rule);
                }
                Err(self.unresolved_error(host_name, idx, dir))
            },
            None => Err(self.unresolved_error(host_name, idx, dir)),
        }
    }

    /// Builds the unresolved-conversion diagnostic for one triple.
    fn unresolved_error(&self, host_name: &str, idx: ForeignType, dir: ConvDirection) -> (e:
        DiagnosticError)
        requires
            (idx.0 as int) < self.model().len(),
        ensures
            e@ =~= seq![
                (
                    self.model()[idx.0 as int].loc.0,
                    self.model()[idx.0 as int].loc.1,
                    spec_unresolved_message(host_name@, self.model()[idx.0 as int].name, dir),
                ),
            ],
    {
        let rec = &self.ftypes[idx.0];
        let mut msg: String = "no rule to convert ".to_owned();
        match dir {
            ConvDirection::IntoHost => {
                msg.append(rec.name.typename.as_str());
                msg.append(" into ");
                msg.append(host_name);
            },
            ConvDirection::FromHost => {
                msg.append(host_name);
                msg.append(" into ");
                msg.append(rec.name.typename.as_str());
            },
        }
        let loc = rec.name.span;
        DiagnosticError::new(loc.0, loc.1, msg)
    }
}

/// The other direction.
pub open spec fn spec_other_direction(dir: ConvDirection) -> ConvDirection {
    match dir {
        ConvDirection::IntoHost => ConvDirection::FromHost,
        ConvDirection::FromHost => ConvDirection::IntoHost,
    }
}

/// The text of the unresolved-conversion diagnostic, naming both endpoints.
pub open spec fn spec_unresolved_message(
    host_name: Seq<char>,
    foreign_name: Seq<char>,
    dir: ConvDirection,
) -> Seq<char> {
    match dir {
        ConvDirection::IntoHost => "no rule to convert "@ + foreign_name + " into "@ + host_name,
        ConvDirection::FromHost => "no rule to convert "@ + host_name + " into "@ + foreign_name,
    }
}

impl Default for ForeignTypesStorage {
    fn default() -> (r: ForeignTypesStorage)
        ensures
            r.model() == Seq::<ForeignModel>::empty(),
            r.wf(),
    {
        ForeignTypesStorage::new()
    }
}

} // verus!
// The general laws of the storage, stated over the storage model.

verus! {

/// The record an index points at is the one name lookup finds: names are
/// unique in a well-formed storage.
pub proof fn lemma_fmodel_index_unique(m: Seq<ForeignModel>, name: Seq<char>, i: int)
    requires
        fmodel_wf(m),
        0 <= i < m.len(),
        m[i].name == name,
    ensures
        fmodel_has_name(m, name),
        fmodel_name_index(m, name) == i,
{
    assert(fmodel_has_name(m, name));
    assert forall|j: int| 0 <= j < m.len() && m[j].name == name implies j == i by {
        if j != i {
            assert(m[i].name != m[j].name);
        }
    }
}

/// Lazy/strict coexistence: find-or-create of a new name, then a strict
/// declaration of the same name, allocates no second record — the strict
/// declaration is no duplicate, it promotes the placeholder in place, under
/// the index find-or-create returned, and binds both direct rules and the
/// declaration site there.
pub proof fn lemma_lazy_then_strict(
    m: Seq<ForeignModel>,
    name: Seq<char>,
    loc1: SourceIdSpan,
    loc2: SourceIdSpan,
    node: int,
)
    requires
        fmodel_wf(m),
        !fmodel_has_name(m, name),
    ensures
        ({
            let r1 = spec_find_or_create(m, name, loc1);
            let r2 = spec_declare_strict(r1.0, name, loc2, node);
            &&& !spec_strict_is_duplicate(r1.0, name)
            &&& r2.1 == r1.1
            &&& r2.0.len() == r1.0.len()
            &&& r2.0[r1.1].into_host == Some(spec_direct_rule(node))
            &&& r2.0[r1.1].from_host == Some(spec_direct_rule(node))
            &&& r2.0[r1.1].loc == loc2
            &&& r2.0[r1.1].name == name
        }),
{
    let i = m.len() as int;
    let m1 = spec_find_or_create(m, name, loc1).0;
    assert(m1 == m.push(spec_placeholder(name, loc1)));
    assert forall|a: int, b: int| 0 <= a < b < m1.len() implies m1[a].name != m1[b].name by {
        if b < i {
            assert(m[a].name != m[b].name);
        } else {
            assert(m1[b].name == name);
            assert(m1[a].name == m[a].name);
        }
    }
    assert(m1[i].name == name);
    lemma_fmodel_index_unique(m1, name, i);
    assert(m1[i].into_host is None && m1[i].from_host is None);
}

/// The opposite order: a strict declaration first, then find-or-create of
/// the same name, returns the same index and leaves the storage unchanged.
pub proof fn lemma_strict_then_lazy(
    m: Seq<ForeignModel>,
    name: Seq<char>,
    loc1: SourceIdSpan,
    loc2: SourceIdSpan,
    node: int,
)
    requires
        fmodel_wf(m),
        !fmodel_has_name(m, name),
    ensures
        ({
            let r1 = spec_declare_strict(m, name, loc1, node);
            let r2 = spec_find_or_create(r1.0, name, loc2);
            &&& r2.1 == r1.1
            &&& r2.0 == r1.0
        }),
{
    let i = m.len() as int;
    let m1 = spec_declare_strict(m, name, loc1, node).0;
    assert(m1[i].name == name);
    assert forall|a: int, b: int| 0 <= a < b < m1.len() implies m1[a].name != m1[b].name by {
        if b < i {
            assert(m[a].name != m[b].name);
        } else {
            assert(m1[b].name == name);
            assert(m1[a].name == m[a].name);
        }
    }
    lemma_fmodel_index_unique(m1, name, i);
}

/// Strict declaration uniqueness: a fresh name declares once; declaring it
/// strictly a second time is a duplicate, and the record the duplicate error
/// reports carries the first declaration's own location — so the diagnostic
/// names both declaration sites.
pub proof fn lemma_strict_declaration_uniqueness(
    m: Seq<ForeignModel>,
    name: Seq<char>,
    loc1: SourceIdSpan,
    node: int,
)
    requires
        fmodel_wf(m),
        !fmodel_has_name(m, name),
    ensures
        ({
            let r1 = spec_declare_strict(m, name, loc1, node);
            &&& !spec_strict_is_duplicate(m, name)
            &&& spec_strict_is_duplicate(r1.0, name)
            &&& r1.0[fmodel_name_index(r1.0, name)].loc == loc1
        }),
{
    let i = m.len() as int;
    let m1 = spec_declare_strict(m, name, loc1, node).0;
    assert(m1[i].name == name);
    assert forall|a: int, b: int| 0 <= a < b < m1.len() implies m1[a].name != m1[b].name by {
        if b < i {
            assert(m[a].name != m[b].name);
        } else {
            assert(m1[b].name == name);
            assert(m1[a].name == m[a].name);
        }
    }
    lemma_fmodel_index_unique(m1, name, i);
    assert(m1[i].into_host is Some);
}

/// Directionality: binding only the into-host rule of a record leaves its
/// from-host rule absent, so resolution in the missing direction finds no
/// rule, whatever host node is asked for.
pub proof fn lemma_directionality(fm: ForeignModel, rule: RuleModel, host: int)
    requires
        fm.from_host is None,
    ensures
        ({
            let fm1 = ForeignModel {
                name: fm.name,
                loc: fm.loc,
                into_host: Some(rule),
                from_host: fm.from_host,
            };
            &&& dir_rule_model(fm1, ConvDirection::IntoHost) == Some(rule)
            &&& dir_rule_model(fm1, ConvDirection::FromHost) is None
            &&& !(match dir_rule_model(fm1, ConvDirection::FromHost) {
                Some(rm) => rm.host_node == host,
                None => false,
            })
        }),
{
}

} // verus!
