use vstd::prelude::*;

use crate::resolving::ScopeId;
use crate::symbol::Ident;

verus! {

/// Surrogate key into the module registry.
#[derive(Clone, Copy, PartialEq, Eq, Structural, Debug, Hash)]
pub struct ModuleId(pub usize);

/// A namespace grouping declarations. Modules are referenced but not
/// elaborated by this core: an id, the declared name and the child scope
/// the module's own declarations live in.
#[derive(Clone, Copy, Debug)]
pub struct Module {
    pub module_id: ModuleId,
    pub name: Ident,
    pub scope: ScopeId,
}

/// Dense, append-only, index-stable registry of modules.
#[derive(Debug)]
pub struct Modules {
    vec: Vec<Module>,
}

impl View for Modules {
    type V = Seq<Module>;

    closed spec fn view(&self) -> Seq<Module> {
        self.vec@
    }
}

impl Modules {
    /// Every stored module's id is the key it is stored under.
    pub open spec fn wf(&self) -> bool {
        forall|i: int| 0 <= i < self@.len() ==> (#[trigger] self@[i]).module_id.0 == i
    }

    pub fn new() -> (modules: Modules)
        ensures
            modules@ == Seq::<Module>::empty(),
            modules.wf(),
    {
        Modules { vec: Vec::new() }
    }

    pub fn len(&self) -> (n: usize)
        ensures
            n == self@.len(),
    {
        self.vec.len()
    }

    /// Appends a module and returns its fresh, never-reused key.
    pub fn insert(&mut self, name: Ident, scope: ScopeId) -> (id: ModuleId)
        requires
            old(self).wf(),
        ensures
            final(self).wf(),
            id.0 == old(self)@.len(),
            final(self)@ == old(self)@.push(Module { module_id: id, name, scope }),
    {
        let id = ModuleId(self.vec.len());
        self.vec.push(Module { module_id: id, name, scope });
        proof {
            assert forall|i: int| 0 <= i < self@.len() implies (#[trigger] self@[i]).module_id.0
                == i by {
                if i < old(self)@.len() {
                    assert(self@[i] == old(self)@[i]);
                }
            }
        }
        id
    }

    /// O(1) indexing; never fails for a key this registry produced.
    pub fn get(&self, id: ModuleId) -> (module: &Module)
        requires
            id.0 < self@.len(),
        ensures
            *module == self@[id.0 as int],
    {
        &self.vec[id.0]
    }
}

} // verus!
