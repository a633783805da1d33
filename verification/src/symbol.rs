use vstd::prelude::*;

verus! {

/// A half-open range of byte offsets into the compilation unit's source text.
/// Spans are provenance only: they ride along on identifiers and diagnostics
/// but never take part in any equality or lookup decision.
#[derive(Clone, Copy, PartialEq, Eq, Structural, Debug)]
pub struct Span {
    pub start: usize,
    pub end: usize,
}

/// A handle produced by the (external) symbol interner. The interner
/// de-duplicates identifier text, so two symbols denote the same name
/// if and only if their handles are equal.
#[derive(Clone, Copy, PartialEq, Eq, Structural, Debug, Hash)]
pub struct Symbol(pub u32);

/// An identifier occurrence: an interned name together with the span it was
/// written at. Only the name takes part in equality; the span is provenance.
#[derive(Clone, Copy, Debug)]
pub struct Ident(pub Symbol, pub Span);

impl PartialEq for Ident {
    fn eq(&self, other: &Ident) -> (r: bool) {
        self.0 == other.0
    }
}

impl vstd::std_specs::cmp::PartialEqSpecImpl for Ident {
    open spec fn obeys_eq_spec() -> bool {
        true
    }

    open spec fn eq_spec(&self, other: &Ident) -> bool {
        self.0 == other.0
    }
}

} // verus!
