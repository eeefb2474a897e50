//! Diagnostics the core hands to the reporting collaborator.
//!
//! A `DiagnosticError` is a non-empty list of (source id, span, message)
//! notes. The core only collects such structured data; rendering it for
//! display, and deciding whether to abort, belong to the caller.

use vstd::prelude::*;

use crate::loc::{invalid_src_id_span, SourceId, SourceIdSpan, Span};

verus! {

/// One located message of a diagnostic.
#[derive(Debug)]
pub struct DiagnosticNote {
    pub src_id: SourceId,
    pub span: Span,
    pub message: String,
}

/// A diagnostic: one or more located messages, first the error itself, then
/// any notes attached to it.
#[derive(Debug)]
pub struct DiagnosticError {
    pub notes: Vec<DiagnosticNote>,
}

impl View for DiagnosticNote {
    type V = (SourceId, Span, Seq<char>);

    open spec fn view(&self) -> (SourceId, Span, Seq<char>) {
        (self.src_id, self.span, self.message@)
    }
}

impl View for DiagnosticError {
    type V = Seq<(SourceId, Span, Seq<char>)>;

    open spec fn view(&self) -> Seq<(SourceId, Span, Seq<char>)> {
        self.notes@.map_values(|n: DiagnosticNote| n@)
    }
}

/// The declared shape of `syn::Error`, carried opaquely: the core never looks
/// inside one, it only converts it to a located note.
#[verifier::external_type_specification]
#[verifier::external_body]
pub struct ExSynError(syn::Error);

/// Relies on `syn::Error::span`, `proc_macro2::Span::{start, end}` and
/// `syn::Error`'s `Display` to read an error's location and text; nothing is
/// assumed of the values they return.
#[verifier::external_body]
fn syn_error_location_and_message(err: &syn::Error) -> (Span, String) {
    let sp = err.span();
    let start = sp.start();
    let end = sp.end();
    let loc = Span {
        start_line: start.line,
        start_col: start.column,
        end_line: end.line,
        end_col: end.column,
    };
    (loc, err.to_string())
}

impl DiagnosticError {
    /// A diagnostic made of the location and text of a `syn` parse error.
    pub fn from_syn_err(src_id: SourceId, err: syn::Error) -> (r: DiagnosticError)
        ensures
            r@.len() == 1,
            r@[0].0 == src_id,
    {
        let (sp, msg) = syn_error_location_and_message(&err);
        DiagnosticError::new(src_id, sp, msg)
    }

    pub fn new(src_id: SourceId, sp: Span, err: String) -> (r: DiagnosticError)
        ensures
            r@ == seq![(src_id, sp, err@)],
    {
        let mut notes: Vec<DiagnosticNote> = Vec::new();
        notes.push(DiagnosticNote { src_id, span: sp, message: err });
        let r = DiagnosticError { notes };
        proof {
            assert(r@ =~= seq![(src_id, sp, r.notes@[0].message@)]);
        }
        r
    }

    pub fn new2(sp: SourceIdSpan, err: String) -> (r: DiagnosticError)
        ensures
            r@ == seq![(sp.0, sp.1, err@)],
    {
        DiagnosticError::new(sp.0, sp.1, err)
    }

    /// Appends a located note to the diagnostic.
    pub fn span_note(&mut self, sp: SourceIdSpan, err: String)
        ensures
            final(self)@ == old(self)@.push((sp.0, sp.1, err@)),
    {
        let ghost before = self@;
        let ghost msg = err@;
        self.notes.push(DiagnosticNote { src_id: sp.0, span: sp.1, message: err });
        proof {
            assert(self@ =~= before.push((sp.0, sp.1, msg)));
        }
    }

    /// As `span_note`, consuming and returning the diagnostic.
    pub fn add_span_note(self, sp: SourceIdSpan, err: String) -> (r: DiagnosticError)
        ensures
            r@ == self@.push((sp.0, sp.1, err@)),
    {
        let mut this = self;
        this.span_note(sp, err);
        this
    }

    /// A diagnostic without location information.
    pub fn new_without_src_info(err: String) -> (r: DiagnosticError)
        ensures
            r@ == seq![(SourceId::NoSource, Span::spec_call_site(), err@)],
    {
        let loc = invalid_src_id_span();
        DiagnosticError::new(loc.0, loc.1, err)
    }

    pub fn len(&self) -> (r: usize)
        ensures
            r == self@.len(),
    {
        self.notes.len()
    }
}

} // verus!
