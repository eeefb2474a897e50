//! Source locations attached to diagnostics.
//!
//! The core never reads source text itself; it only carries locations through
//! to the reporting collaborator, as plain line/column values.

use vstd::prelude::*;

verus! {

/// Identifies one registered source unit; `NoSource` marks a diagnostic that
/// carries no location information.
#[derive(Clone, Copy, PartialEq, Eq, Structural, Debug)]
pub enum SourceId {
    NoSource,
    Source(usize),
}

impl SourceId {
    /// The id used when no source unit is known.
    pub fn none() -> (r: SourceId)
        ensures
            r == SourceId::NoSource,
    {
        SourceId::NoSource
    }

    pub fn is_none(&self) -> (r: bool)
        ensures
            r == (*self == SourceId::NoSource),
    {
        match self {
            SourceId::NoSource => true,
            SourceId::Source(_) => false,
        }
    }
}

/// A source span in line/column form, as the parsing collaborator reports it.
#[derive(Clone, Copy, PartialEq, Eq, Structural, Debug)]
pub struct Span {
    pub start_line: usize,
    pub start_col: usize,
    pub end_line: usize,
    pub end_col: usize,
}

impl Span {
    pub open spec fn spec_call_site() -> Span {
        Span { start_line: 0, start_col: 0, end_line: 0, end_col: 0 }
    }

    /// The placeholder span used when no real location is known.
    pub fn call_site() -> (r: Span)
        ensures
            r == Span::spec_call_site(),
    {
        Span { start_line: 0, start_col: 0, end_line: 0, end_col: 0 }
    }
}

/// A location: which source unit, and where in it.
pub type SourceIdSpan = (SourceId, Span);

/// The location used for diagnostics that have none.
pub fn invalid_src_id_span() -> (r: SourceIdSpan)
    ensures
        r == (SourceId::NoSource, Span::spec_call_site()),
{
    (SourceId::none(), Span::call_site())
}

} // verus!
