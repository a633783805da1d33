use vstd::prelude::*;

use crate::symbol::Ident;

verus! {

/// One field of a record item: the field's own name and the written name of
/// its type, unresolved at parse time.
#[derive(Clone, Copy, Debug)]
pub struct FieldItem {
    pub name: Ident,
    pub ty: Ident,
}

/// A record declaration as parsed: a name and a list of fields whose type
/// names may refer to declarations appearing later in the unit.
#[derive(Clone, Debug)]
pub struct RecordItem {
    pub name: Ident,
    pub fields: Vec<FieldItem>,
}

/// An enum declaration as parsed: a name and its variant names. Variants
/// are bare identifiers, never type references.
#[derive(Clone, Debug)]
pub struct EnumItem {
    pub name: Ident,
    pub variants: Vec<Ident>,
}

/// An import as parsed: `name` is the local alias this scope will bind,
/// `target` the name it is declared to denote. Writing the same identifier
/// for both is the (legal to write, cyclic to resolve) self-import.
#[derive(Clone, Copy, Debug)]
pub struct ImportItem {
    pub name: Ident,
    pub target: Ident,
}

/// The kinds of top-level items rough lowering can meet. `Other` stands for
/// every item kind this core does not elaborate; lowering accepts those as
/// no-ops, a forward-compatible placeholder rather than a failure.
#[derive(Clone, Debug)]
pub enum ItemBase {
    Record(RecordItem),
    Enum(EnumItem),
    Import(ImportItem),
    Other,
}

/// One well-formed syntax-tree item handed over by the (external) parser.
#[derive(Clone, Debug)]
pub struct Item {
    pub base: ItemBase,
}

} // verus!
