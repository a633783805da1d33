use vstd::prelude::*;

use crate::symbol::Ident;
use crate::types::Variant;

verus! {

/// Declares bumpalo's `Bump` arena so that signatures can carry a borrow of
/// it; the arena is opaque here, and only the wrapper below touches it.
#[verifier::external_type_specification]
#[verifier::external_body]
pub struct ExBump<const MIN_ALIGN: usize>(bumpalo::Bump<MIN_ALIGN>);

/// Relies on bumpalo's `Bump::alloc_slice_fill_iter`: the returned slice is
/// allocated in the arena, lives as long as the arena borrow, and holds
/// exactly the items the iterator yields, in order. Here the iterator yields
/// one `Variant` per identifier.
#[verifier::external_body]
pub(crate) fn alloc_variants<'hir>(arena: &'hir bumpalo::Bump, idents: &Vec<Ident>) -> (r:
    &'hir [Variant])
    ensures
        r@.len() == idents@.len(),
        forall|i: int| 0 <= i < r@.len() ==> r@[i].ident == idents@[i],
{
    arena.alloc_slice_fill_iter(idents.iter().map(|ident| Variant::new(*ident)))
}

} // verus!
