use vstd::prelude::*;

use crate::resolving::ScopeId;
use crate::symbol::Ident;

verus! {

/// Surrogate key into a type registry. Rough lowering and refinement keep a
/// 1:1 key correspondence, so a `TypeId` handed out by rough lowering stays
/// valid against the refined registry.
#[derive(Clone, Copy, PartialEq, Eq, Structural, Debug, Hash)]
pub struct TypeId(pub usize);

/// What a record field's type reference currently is. Rough lowering leaves
/// the written name in place; refinement substitutes the resolved id, or the
/// `Unresolved` sentinel when the name never resolves to a type.
#[derive(Clone, Copy, Debug)]
pub enum FieldType {
    /// The name as written, not yet resolved (pre-refinement state).
    Named(Ident),
    /// The resolved declaration (post-refinement success).
    Resolved(TypeId),
    /// The recoverable-failure placeholder (post-refinement, diagnosed).
    Unresolved,
}

/// One named field of a record.
#[derive(Clone, Copy, Debug)]
pub struct Field {
    pub name: Ident,
    pub ty: FieldType,
}

/// A declaration that anticipates ports; their lowering is deferred and not
/// elaborated by this core.
#[derive(Clone, Copy, Debug)]
pub struct Entity {
    pub type_id: TypeId,
    pub name: Ident,
}

/// A record declaration. Fields name other types, so rough lowering records
/// them unresolved together with the scope the record was declared in, and
/// refinement resolves them against the finalized name lookup.
#[derive(Clone, Debug)]
pub struct Record {
    pub type_id: TypeId,
    pub name: Ident,
    pub scope: ScopeId,
    pub fields: Vec<Field>,
}

/// A variant of an enum declaration: a bare name, never a type reference,
/// which is why enums are lowered completely in the rough pass.
#[derive(Clone, Copy, Debug)]
pub struct Variant {
    pub ident: Ident,
}

impl Variant {
    pub fn new(ident: Ident) -> (v: Variant)
        ensures
            v.ident == ident,
    {
        Variant { ident }
    }
}

/// An enum declaration. Its variant list is fully knowable locally, so it is
/// complete from rough lowering on; the slice is allocated in the IR arena
/// and lives exactly as long as the registry's lifetime `'hir`.
#[derive(Clone, Copy, Debug)]
pub struct Enum<'hir> {
    pub type_id: TypeId,
    pub name: Ident,
    pub variants: &'hir [Variant],
}

/// A type declaration: the closed set of variants this core knows,
/// dispatched by matching.
#[derive(Clone, Debug)]
pub enum Type<'hir> {
    Entity(Entity),
    Record(Record),
    Enum(Enum<'hir>),
}

impl<'hir> Type<'hir> {
    /// The key this declaration is stored under in its registry.
    pub open spec fn spec_id(&self) -> TypeId {
        match self {
            Type::Entity(e) => e.type_id,
            Type::Record(r) => r.type_id,
            Type::Enum(e) => e.type_id,
        }
    }

    /// The identifier the declaration was introduced with.
    pub open spec fn spec_name(&self) -> Ident {
        match self {
            Type::Entity(e) => e.name,
            Type::Record(r) => r.name,
            Type::Enum(e) => e.name,
        }
    }

    #[verifier::when_used_as_spec(spec_id)]
    pub fn id(&self) -> (id: TypeId)
        ensures
            id == self.spec_id(),
    {
        match self {
            Type::Entity(e) => e.type_id,
            Type::Record(r) => r.type_id,
            Type::Enum(e) => e.type_id,
        }
    }

    #[verifier::when_used_as_spec(spec_name)]
    pub fn name(&self) -> (name: Ident)
        ensures
            name == self.spec_name(),
    {
        match self {
            Type::Entity(e) => e.name,
            Type::Record(r) => r.name,
            Type::Enum(e) => e.name,
        }
    }
}

/// Dense, append-only, index-stable registry of type declarations. Entries
/// are never removed, so every `TypeId` it produces stays valid for the
/// registry's whole lifetime.
#[derive(Debug)]
pub struct Types<'hir> {
    vec: Vec<Type<'hir>>,
}

impl<'hir> View for Types<'hir> {
    type V = Seq<Type<'hir>>;

    closed spec fn view(&self) -> Seq<Type<'hir>> {
        self.vec@
    }
}

impl<'hir> Types<'hir> {
    /// Self-consistency: every stored declaration's own id is the key it is
    /// stored under.
    pub open spec fn wf(&self) -> bool {
        forall|i: int| 0 <= i < self@.len() ==> (#[trigger] self@[i]).spec_id().0 == i
    }

    pub fn new() -> (types: Types<'hir>)
        ensures
            types@ == Seq::<Type<'hir>>::empty(),
            types.wf(),
    {
        Types { vec: Vec::new() }
    }

    pub fn len(&self) -> (n: usize)
        ensures
            n == self@.len(),
    {
        self.vec.len()
    }

    /// Appends a declaration and returns its fresh, never-reused key.
    pub fn insert(&mut self, ty: Type<'hir>) -> (id: TypeId)
        requires
            old(self).wf(),
            ty.spec_id().0 == old(self)@.len(),
        ensures
            final(self).wf(),
            id.0 == old(self)@.len(),
            final(self)@ == old(self)@.push(ty),
    {
        let id = TypeId(self.vec.len());
        self.vec.push(ty);
        id
    }

    /// Reserves the next key first and passes it into the constructor, so a
    /// declaration that must know its own id can be built in one step.
    pub fn insert_with<F: FnOnce(TypeId) -> Type<'hir>>(&mut self, f: F) -> (id: TypeId)
        requires
            old(self).wf(),
            call_requires(f, (TypeId(old(self)@.len() as usize),)),
            forall|k: TypeId, t: Type<'hir>| #[trigger] call_ensures(f, (k,), t) ==> t.spec_id()
                == k,
        ensures
            final(self).wf(),
            id.0 == old(self)@.len(),
            final(self)@.len() == old(self)@.len() + 1,
            forall|i: int| 0 <= i < old(self)@.len() ==> final(self)@[i] == old(self)@[i],
            call_ensures(f, (id,), final(self)@[id.0 as int]),
    {
        let id = TypeId(self.vec.len());
        let ty = f(id);
        self.vec.push(ty);
        id
    }

    /// O(1) indexing; never fails for a key this registry produced.
    pub fn get(&self, id: TypeId) -> (ty: &Type<'hir>)
        requires
            id.0 < self@.len(),
        ensures
            *ty == self@[id.0 as int],
    {
        &self.vec[id.0]
    }
}

} // verus!
