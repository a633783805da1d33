use vstd::prelude::*;

use std::collections::HashMap;

use crate::modules::ModuleId;
use crate::name_resolution::ImportId;
use crate::symbol::{Ident, Symbol};
use crate::types::TypeId;

verus! {

broadcast use vstd::std_specs::hash::group_hash_axioms;

/// Surrogate key into the scope registry of one `ResolvingScopes` forest.
#[derive(Clone, Copy, PartialEq, Eq, Structural, Debug, Hash)]
pub struct ScopeId(pub usize);

/// What a name bound in a scope currently denotes. An `Import` binding is
/// provisional: import flattening must turn it into a `Type` or `Module`
/// binding (or reject it as part of a cycle) before type refinement runs.
#[derive(Clone, Copy, PartialEq, Eq, Structural, Debug)]
pub enum Resolvable {
    Type(TypeId),
    Module(ModuleId),
    Import(ImportId),
}

/// One lexical scope: an optional parent (`None` only for the root of a
/// compilation unit) and the names bound locally. Keys are the raw interned
/// symbol handles, so key equality is exactly name equality.
#[derive(Debug)]
pub struct ResolvingScope {
    pub parent: Option<ScopeId>,
    pub entries: HashMap<u32, Resolvable>,
}

/// The scope forest of one compilation unit: a dense, append-only registry
/// of scopes plus the eagerly created root. Scopes are never removed, so a
/// `ScopeId` stays valid for the whole pipeline run.
#[derive(Debug)]
pub struct ResolvingScopes {
    pub scopes: Vec<ResolvingScope>,
    pub root: ScopeId,
}

/// Parent links strictly decrease toward the root, so every parent chain is
/// acyclic and bounded by the scope's own index.
pub open spec fn scopes_wf(scopes: Seq<ResolvingScope>) -> bool {
    forall|i: int|
        0 <= i < scopes.len() ==> match #[trigger] scopes[i].parent {
            Some(p) => p.0 < i,
            None => true,
        }
}

/// Lexical lookup as a mathematical chain walk: the local entries of scope
/// `s` first, then the parent chain, `None` once a scope without a parent
/// still misses. The parent guard mirrors `scopes_wf` and makes the walk
/// terminate on any input.
pub open spec fn lookup_from(scopes: Seq<ResolvingScope>, s: int, name: Symbol) -> Option<
    Resolvable,
>
    decreases s,
{
    if 0 <= s < scopes.len() {
        if scopes[s].entries@.contains_key(name.0) {
            Some(scopes[s].entries@[name.0])
        } else {
            match scopes[s].parent {
                Some(p) => if p.0 < s {
                    lookup_from(scopes, p.0 as int, name)
                } else {
                    None
                },
                None => None,
            }
        }
    } else {
        None
    }
}

/// A name bound in a scope is found there: the lookup returns the local
/// binding without consulting the parent.
pub proof fn lemma_lookup_local(scopes: Seq<ResolvingScope>, s: int, name: Symbol)
    requires
        0 <= s < scopes.len(),
        scopes[s].entries@.contains_key(name.0),
    ensures
        lookup_from(scopes, s, name) == Some(scopes[s].entries@[name.0]),
{
}

/// A name unbound in a scope defers to the parent chain: the lookup returns
/// exactly what the lookup from the parent returns, so an ancestor's binding
/// is found and shadowing in enclosing scopes stays legal.
pub proof fn lemma_lookup_defers_to_parent(scopes: Seq<ResolvingScope>, s: int, name: Symbol)
    requires
        scopes_wf(scopes),
        0 <= s < scopes.len(),
        !scopes[s].entries@.contains_key(name.0),
        scopes[s].parent is Some,
    ensures
        lookup_from(scopes, s, name) == lookup_from(
            scopes,
            scopes[s].parent->Some_0.0 as int,
            name,
        ),
{
}

/// A name unbound in a parentless scope is unbound: the lookup returns
/// `None` only after reaching a scope with no parent and still missing.
pub proof fn lemma_lookup_unbound(scopes: Seq<ResolvingScope>, s: int, name: Symbol)
    requires
        0 <= s < scopes.len(),
        !scopes[s].entries@.contains_key(name.0),
        scopes[s].parent is None,
    ensures
        lookup_from(scopes, s, name) is None,
{
}

impl ResolvingScopes {
    /// Every `ScopeId` stored anywhere in the forest indexes an existing
    /// scope, and parent links strictly decrease toward the root.
    pub open spec fn wf(&self) -> bool {
        &&& self.root.0 < self.scopes@.len()
        &&& scopes_wf(self.scopes@)
    }

    /// A fresh forest holding exactly the root scope, which is created once,
    /// eagerly, before any lowering begins.
    pub fn new() -> (scopes: ResolvingScopes)
        ensures
            scopes.wf(),
            scopes.root.0 == 0,
            scopes.scopes@.len() == 1,
            scopes.scopes@[0].parent is None,
            scopes.scopes@[0].entries@ == Map::<u32, Resolvable>::empty(),
    {
        let mut vec: Vec<ResolvingScope> = Vec::new();
        vec.push(ResolvingScope { parent: None, entries: HashMap::new() });
        ResolvingScopes { scopes: vec, root: ScopeId(0) }
    }

    /// Creates a new empty scope chained to `parent` and returns its id.
    /// Existing scopes, their entries and the root are untouched.
    pub fn sub_scope(&mut self, parent: ScopeId) -> (id: ScopeId)
        requires
            old(self).wf(),
            parent.0 < old(self).scopes@.len(),
        ensures
            final(self).wf(),
            id.0 == old(self).scopes@.len(),
            final(self).root == old(self).root,
            final(self).scopes@.len() == old(self).scopes@.len() + 1,
            forall|i: int|
                0 <= i < old(self).scopes@.len() ==> final(self).scopes@[i] == old(
                    self,
                ).scopes@[i],
            final(self).scopes@[id.0 as int].parent == Some(parent),
            final(self).scopes@[id.0 as int].entries@ == Map::<u32, Resolvable>::empty(),
    {
        let id = ScopeId(self.scopes.len());
        self.scopes.push(ResolvingScope { parent: Some(parent), entries: HashMap::new() });
        id
    }

    /// Lexical lookup of `segment`'s name from `scope` outward along the
    /// parent chain; a plain chain walk, re-walked on every query.
    pub fn find_resolvable(&self, scope: ScopeId, segment: &Ident) -> (r: Option<&Resolvable>)
        requires
            self.wf(),
            scope.0 < self.scopes@.len(),
        ensures
            match r {
                Some(resolvable) => lookup_from(self.scopes@, scope.0 as int, segment.0) == Some(
                    *resolvable,
                ),
                None => lookup_from(self.scopes@, scope.0 as int, segment.0) is None,
            },
    {
        let mut cur: usize = scope.0;
        loop
            invariant
                self.wf(),
                cur < self.scopes@.len(),
                lookup_from(self.scopes@, scope.0 as int, segment.0) == lookup_from(
                    self.scopes@,
                    cur as int,
                    segment.0,
                ),
            decreases cur,
        {
            let sc = &self.scopes[cur];
            match sc.entries.get(&segment.0.0) {
                Some(resolvable) => {
                    return Some(resolvable);
                },
                None => {
                    match sc.parent {
                        Some(p) => {
                            cur = p.0;
                        },
                        None => {
                            return None;
                        },
                    }
                },
            }
        }
    }

    /// Introduces `name` into `scope`'s local entries unless it is already
    /// bound there. On a collision nothing changes and the existing binding
    /// is handed back, so the first binding always wins; shadowing of
    /// enclosing scopes is not a collision.
    pub fn bind(&mut self, scope: ScopeId, name: Symbol, resolvable: Resolvable) -> (previous:
        Option<Resolvable>)
        requires
            old(self).wf(),
            scope.0 < old(self).scopes@.len(),
        ensures
            final(self).wf(),
            final(self).root == old(self).root,
            final(self).scopes@.len() == old(self).scopes@.len(),
            forall|i: int|
                0 <= i < old(self).scopes@.len() && i != scope.0 ==> final(self).scopes@[i] == old(
                    self,
                ).scopes@[i],
            final(self).scopes@[scope.0 as int].parent == old(
                self,
            ).scopes@[scope.0 as int].parent,
            match previous {
                Some(p) => {
                    &&& old(self).scopes@[scope.0 as int].entries@.contains_key(name.0)
                    &&& p == old(self).scopes@[scope.0 as int].entries@[name.0]
                    &&& final(self).scopes@ == old(self).scopes@
                },
                None => {
                    &&& !old(self).scopes@[scope.0 as int].entries@.contains_key(name.0)
                    &&& final(self).scopes@[scope.0 as int].entries@ == old(
                        self,
                    ).scopes@[scope.0 as int].entries@.insert(name.0, resolvable)
                },
            },
    {
        let sc = &mut self.scopes[scope.0];
        match sc.entries.get(&name.0) {
            Some(existing) => {
                let previous = *existing;
                Some(previous)
            },
            None => {
                sc.entries.insert(name.0, resolvable);
                None
            },
        }
    }
}

} // verus!
