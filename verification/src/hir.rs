use vstd::prelude::*;

use crate::modules::Modules;
use crate::name_resolution::Imports;
use crate::resolving::{lookup_from, Resolvable, ResolvingScopes};
use crate::symbol::{Span, Symbol};
use crate::types::{Type, Types};

verus! {

/// The IR of one compilation unit: the four surrogate-key registries every
/// pipeline stage works on. Each registry is append-only, so keys stay valid
/// for the whole run; each stage owns the value and hands it to the next.
#[derive(Debug)]
pub struct Hir<'hir> {
    pub types: Types<'hir>,
    pub modules: Modules,
    pub imports: Imports,
    pub tr_scopes: ResolvingScopes,
}

impl<'hir> Hir<'hir> {
    /// The key stored in a scope binding indexes an existing entry of the
    /// registry its variant names.
    pub open spec fn resolvable_valid(&self, r: Resolvable) -> bool {
        match r {
            Resolvable::Type(t) => t.0 < self.types@.len(),
            Resolvable::Module(m) => m.0 < self.modules@.len(),
            Resolvable::Import(i) => i.0 < self.imports@.len(),
        }
    }

    /// Every name bound in scope `i` denotes an existing registry entry.
    pub open spec fn scope_bindings_valid(&self, i: int) -> bool {
        forall|n: u32| #[trigger]
            self.tr_scopes.scopes@[i].entries@.contains_key(n) ==> self.resolvable_valid(
                self.tr_scopes.scopes@[i].entries@[n],
            )
    }

    /// Every record remembers a scope that exists, so refinement can resolve
    /// its field names; every import starts its lookup at a scope that
    /// exists.
    pub open spec fn keys_valid(&self) -> bool {
        &&& forall|i: int|
            0 <= i < self.types@.len() ==> match #[trigger] self.types@[i] {
                Type::Record(r) => r.scope.0 < self.tr_scopes.scopes@.len(),
                _ => true,
            }
        &&& forall|i: int|
            0 <= i < self.imports@.len() ==> (#[trigger] self.imports@[i]).scope.0
                < self.tr_scopes.scopes@.len()
    }

    /// Internal consistency of the whole IR: each registry is
    /// self-consistent and no surrogate key dangles, in a binding or in a
    /// registry entry.
    pub open spec fn wf(&self) -> bool {
        &&& self.types.wf()
        &&& self.modules.wf()
        &&& self.imports.wf()
        &&& self.tr_scopes.wf()
        &&& self.keys_valid()
        &&& forall|i: int|
            0 <= i < self.tr_scopes.scopes@.len() ==> #[trigger] self.scope_bindings_valid(i)
    }

    /// The span at which the declaration a binding denotes was introduced;
    /// this is the secondary span a duplicate-declaration report points at.
    pub open spec fn spec_resolvable_span(&self, r: Resolvable) -> Span {
        match r {
            Resolvable::Type(t) => self.types@[t.0 as int].spec_name().1,
            Resolvable::Module(m) => self.modules@[m.0 as int].name.1,
            Resolvable::Import(i) => self.imports@[i.0 as int].name.1,
        }
    }

    #[verifier::when_used_as_spec(spec_resolvable_span)]
    pub fn resolvable_span(&self, r: Resolvable) -> (s: Span)
        requires
            self.resolvable_valid(r),
        ensures
            s == self.spec_resolvable_span(r),
    {
        match r {
            Resolvable::Type(t) => self.types.get(t).name().1,
            Resolvable::Module(m) => self.modules.get(m).name.1,
            Resolvable::Import(i) => self.imports.get(i).name.1,
        }
    }

    /// Whatever a well-formed IR's lexical lookup finds denotes an existing
    /// registry entry: chain walks cannot surface a dangling key.
    pub proof fn lemma_lookup_valid(&self, s: int, name: Symbol)
        requires
            self.wf(),
            0 <= s < self.tr_scopes.scopes@.len(),
        ensures
            match lookup_from(self.tr_scopes.scopes@, s, name) {
                Some(r) => self.resolvable_valid(r),
                None => true,
            },
        decreases s,
    {
        let scopes = self.tr_scopes.scopes@;
        if scopes[s].entries@.contains_key(name.0) {
            assert(self.scope_bindings_valid(s));
        } else {
            match scopes[s].parent {
                Some(p) => {
                    if p.0 < s {
                        self.lemma_lookup_valid(p.0 as int, name);
                    }
                },
                None => {},
            }
        }
    }
}

} // verus!
