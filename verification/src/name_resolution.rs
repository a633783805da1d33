use vstd::prelude::*;

use crate::hir::Hir;
use crate::message::{Message, MessageKind, Messages};
use crate::resolving::{lookup_from, Resolvable, ScopeId};
use crate::symbol::Ident;
use vstd::set_lib::lemma_int_range;
use vstd::set_lib::lemma_len_subset;
use vstd::set_lib::set_int_range;

verus! {

/// Surrogate key into the import registry.
#[derive(Clone, Copy, PartialEq, Eq, Structural, Debug, Hash)]
pub struct ImportId(pub usize);

/// One recorded import: in scope `scope`, the local alias `name` is declared
/// to denote whatever `target` resolves to from that scope. Until import
/// flattening runs, the alias is bound to the provisional
/// `Resolvable::Import` of this entry.
#[derive(Clone, Copy, Debug)]
pub struct Import {
    pub import_id: ImportId,
    pub scope: ScopeId,
    pub name: Ident,
    pub target: Ident,
}

/// Dense, append-only, index-stable registry of imports.
#[derive(Debug)]
pub struct Imports {
    vec: Vec<Import>,
}

impl View for Imports {
    type V = Seq<Import>;

    closed spec fn view(&self) -> Seq<Import> {
        self.vec@
    }
}

impl Imports {
    /// Every stored import's id is the key it is stored under.
    pub open spec fn wf(&self) -> bool {
        forall|i: int| 0 <= i < self@.len() ==> (#[trigger] self@[i]).import_id.0 == i
    }

    pub fn new() -> (imports: Imports)
        ensures
            imports@ == Seq::<Import>::empty(),
            imports.wf(),
    {
        Imports { vec: Vec::new() }
    }

    pub fn len(&self) -> (n: usize)
        ensures
            n == self@.len(),
    {
        self.vec.len()
    }

    /// Appends an import and returns its fresh, never-reused key.
    pub fn insert(&mut self, scope: ScopeId, name: Ident, target: Ident) -> (id: ImportId)
        requires
            old(self).wf(),
        ensures
            final(self).wf(),
            id.0 == old(self)@.len(),
            final(self)@ == old(self)@.push(Import { import_id: id, scope, name, target }),
    {
        let id = ImportId(self.vec.len());
        self.vec.push(Import { import_id: id, scope, name, target });
        proof {
            assert forall|i: int| 0 <= i < self@.len() implies (#[trigger] self@[i]).import_id.0
                == i by {
                if i < old(self)@.len() {
                    assert(self@[i] == old(self)@[i]);
                }
            }
        }
        id
    }

    /// O(1) indexing; never fails for a key this registry produced.
    pub fn get(&self, id: ImportId) -> (import: &Import)
        requires
            id.0 < self@.len(),
        ensures
            *import == self@[id.0 as int],
    {
        &self.vec[id.0]
    }
}

/// What one import's own lookup finds: the lexical lookup of its target
/// name from its scope. Following these steps is what import flattening
/// does; a step landing on another import is what chains and cycles are
/// made of.
pub open spec fn import_step<'hir>(hir: Hir<'hir>, i: int) -> Option<Resolvable> {
    lookup_from(hir.tr_scopes.scopes@, hir.imports@[i].scope.0 as int, hir.imports@[i].target.0)
}

/// The flattening verdict for one import.
#[derive(Clone, Copy, PartialEq, Eq, Structural, Debug)]
pub enum ImportResolution {
    /// Not yet flattened; never left behind by a finished flattening run.
    Pending,
    /// Flattened to the concrete type or module the chain ends at.
    Resolved(Resolvable),
    /// Left unresolved: the chain ran off an unbound name or closed a
    /// cycle. Consumers must treat the import as a resolution failure.
    Failed,
}

/// Whether following import steps from import `i` reaches the concrete
/// target `r` within `fuel` steps. This justification is well-founded: it
/// holds only of a finite chain that actually ends at `r`, so no verdict
/// resting on it can be justified by a cycle.
pub open spec fn resolves_within<'hir>(hir: Hir<'hir>, i: int, r: Resolvable, fuel: nat) -> bool
    decreases fuel,
{
    if fuel == 0 {
        false
    } else {
        match import_step(hir, i) {
            Some(Resolvable::Import(j)) => resolves_within(hir, j.0 as int, r, (fuel - 1) as nat),
            Some(concrete) => concrete == r,
            None => false,
        }
    }
}

/// Soundness of a (possibly partial) flattening table. A `Resolved` entry
/// is justified only by a finite step chain from its own import to the
/// concrete target, so an import on a cycle can never be `Resolved`; a
/// `Failed` entry steps to nothing or to another failed import — so an
/// import whose lookup lands directly on a concrete target is never failed.
pub open spec fn resolution_ok<'hir>(hir: Hir<'hir>, res: Seq<ImportResolution>, i: int) -> bool {
    match res[i] {
        ImportResolution::Pending => true,
        ImportResolution::Resolved(r) => !(r is Import) && hir.resolvable_valid(r) && (exists|
            fuel: nat,
        | resolves_within(hir, i, r, fuel)),
        ImportResolution::Failed => import_step(hir, i) is None || (import_step(hir, i) matches
            Some(Resolvable::Import(jj)) && jj.0 < res.len() && res[jj.0 as int] is Failed),
    }
}

pub open spec fn resolutions_consistent<'hir>(hir: Hir<'hir>, res: Seq<ImportResolution>) -> bool {
    forall|i: int| 0 <= i < res.len() ==> #[trigger] resolution_ok(hir, res, i)
}

/// A non-empty sequence of imports in which every member's own lookup steps
/// to the next member and the last steps back to the first: an import cycle,
/// the self-import being the cycle of length one.
pub open spec fn import_cycle<'hir>(hir: Hir<'hir>, c: Seq<int>) -> bool {
    &&& c.len() > 0
    &&& forall|t: int| 0 <= t < c.len() ==> 0 <= #[trigger] c[t] < hir.imports@.len()
    &&& forall|t: int|
        0 <= t < c.len() - 1 ==> import_step(hir, c[t]) == Some(
            Resolvable::Import(ImportId(c[t + 1] as usize)),
        )
    &&& import_step(hir, c.last()) == Some(Resolvable::Import(ImportId(c[0] as usize)))
}

/// No step chain out of a cycle member ever reaches a concrete target: every
/// step stays on the cycle, whatever the fuel.
proof fn lemma_cycle_never_resolves<'hir>(
    hir: Hir<'hir>,
    c: Seq<int>,
    t: int,
    r: Resolvable,
    fuel: nat,
)
    requires
        import_cycle(hir, c),
        0 <= t < c.len(),
        hir.imports@.len() <= usize::MAX,
    ensures
        !resolves_within(hir, c[t], r, fuel),
    decreases fuel,
{
    if fuel > 0 {
        let next = if t == c.len() - 1 {
            0int
        } else {
            t + 1
        };
        assert(import_step(hir, c[t]) == Some(Resolvable::Import(ImportId(c[next] as usize))));
        lemma_cycle_never_resolves(hir, c, next, r, (fuel - 1) as nat);
    }
}

/// Law: a finished flattening run leaves every import on a cycle — the
/// self-import included — `Failed`, never resolved to anything: a cyclic
/// import resolves to nothing and its consumers see a resolution failure.
pub proof fn lemma_cyclic_import_failed<'hir>(
    hir: Hir<'hir>,
    lookup: NameLookup,
    c: Seq<int>,
    t: int,
)
    requires
        lookup.wf(hir),
        import_cycle(hir, c),
        0 <= t < c.len(),
        hir.imports@.len() <= usize::MAX,
    ensures
        lookup.resolutions@[c[t]] is Failed,
{
    assert(resolution_ok(hir, lookup.resolutions@, c[t]));
    match lookup.resolutions@[c[t]] {
        ImportResolution::Pending => {
            assert(false);
        },
        ImportResolution::Resolved(r) => {
            let fuel = choose|fuel: nat| resolves_within(hir, c[t], r, fuel);
            lemma_cycle_never_resolves(hir, c, t, r, fuel);
            assert(false);
        },
        ImportResolution::Failed => {},
    }
}

/// The shape of a cycle report: one label per cycle member, each pointing
/// at the span the member import's alias was written at.
pub open spec fn labels_cycle_members<'hir>(
    hir: Hir<'hir>,
    labels: Seq<crate::message::Label>,
    c: Seq<int>,
) -> bool {
    &&& labels.len() == c.len()
    &&& forall|t: int|
        0 <= t < c.len() ==> (#[trigger] labels[t]).span == hir.imports@[c[t]].name.1
}

/// The finalized lookup table import flattening produces: one verdict per
/// import, queried by later stages so they never follow import chains (or
/// re-walk them) again.
#[derive(Debug)]
pub struct NameLookup {
    pub resolutions: Vec<ImportResolution>,
}

impl NameLookup {
    /// The table fits `hir`, is fully decided, and is sound for it.
    pub open spec fn wf<'hir>(&self, hir: Hir<'hir>) -> bool {
        &&& self.resolutions@.len() == hir.imports@.len()
        &&& forall|i: int|
            0 <= i < self.resolutions@.len() ==> !((#[trigger] self.resolutions@[i]) is Pending)
        &&& resolutions_consistent(hir, self.resolutions@)
    }

    /// Name resolution as later stages see it: lexical lookup with imports
    /// compressed through the table. The result is never an import.
    pub open spec fn spec_resolve<'hir>(
        &self,
        hir: Hir<'hir>,
        scope: int,
        name: crate::symbol::Symbol,
    ) -> Option<Resolvable> {
        match lookup_from(hir.tr_scopes.scopes@, scope, name) {
            Some(Resolvable::Import(i)) => match self.resolutions@[i.0 as int] {
                ImportResolution::Resolved(r) => Some(r),
                _ => None,
            },
            other => other,
        }
    }

    /// Resolves `name` from `scope` to a concrete target, walking the scope
    /// chain once and compressing any import through the finalized table.
    pub fn resolve<'hir>(&self, hir: &Hir<'hir>, scope: ScopeId, name: &Ident) -> (r: Option<
        Resolvable,
    >)
        requires
            hir.wf(),
            scope.0 < hir.tr_scopes.scopes@.len(),
            self.wf(*hir),
        ensures
            r == self.spec_resolve(*hir, scope.0 as int, name.0),
            r matches Some(x) ==> !(x is Import) && hir.resolvable_valid(x),
    {
        proof {
            hir.lemma_lookup_valid(scope.0 as int, name.0);
        }
        match hir.tr_scopes.find_resolvable(scope, name) {
            None => None,
            Some(found) => {
                match *found {
                    Resolvable::Import(i) => {
                        proof {
                            assert(resolution_ok(*hir, self.resolutions@, i.0 as int));
                        }
                        match self.resolutions[i.0] {
                            ImportResolution::Resolved(r) => Some(r),
                            ImportResolution::Pending => None,
                            ImportResolution::Failed => None,
                        }
                    },
                    Resolvable::Type(t) => Some(Resolvable::Type(t)),
                    Resolvable::Module(m) => Some(Resolvable::Module(m)),
                }
            },
        }
    }
}

/// Pigeonhole bound behind the chain walk's termination: a duplicate-free
/// sequence of indices below `n` cannot be longer than `n`.
proof fn lemma_distinct_bounded(s: Seq<usize>, n: nat)
    requires
        s.no_duplicates(),
        forall|t: int| 0 <= t < s.len() ==> s[t] < n,
    ensures
        s.len() <= n,
{
    broadcast use vstd::set::group_set_axioms;

    let f = |x: usize| x as int;
    let si = s.map_values(f);
    assert(vstd::relations::injective(f)) by {
        assert(forall|x: usize, y: usize| #[trigger] f(x) == #[trigger] f(y) ==> x == y);
    }
    s.lemma_no_duplicates_injective(f);
    si.unique_seq_to_set();
    assert(si.to_set().subset_of(set_int_range(0, n as int))) by {
        assert forall|x: int| si.to_set().contains(x) implies set_int_range(
            0,
            n as int,
        ).contains(x) by {
            let t = choose|t: int| 0 <= t < si.len() && si[t] == x;
            assert(0 <= x < n);
        }
    }
    lemma_int_range(0, n as int);
    lemma_len_subset(si.to_set(), set_int_range(0, n as int));
}

/// The position of `x`'s first occurrence in `path`, if any.
fn path_position(path: &Vec<usize>, x: usize) -> (pos: Option<usize>)
    ensures
        match pos {
            Some(p) => p < path@.len() && path@[p as int] == x,
            None => !path@.contains(x),
        },
{
    let mut t: usize = 0;
    while t < path.len()
        invariant
            t <= path@.len(),
            forall|s: int| 0 <= s < t ==> path@[s] != x,
        decreases path@.len() - t,
    {
        if path[t] == x {
            return Some(t);
        }
        t = t + 1;
    }
    None
}

/// One label per chain member from `from` on: each points at the span the
/// member import's alias was written at, so a cycle report can show every
/// import taking part in the cycle.
fn cycle_labels<'hir>(hir: &Hir<'hir>, path: &Vec<usize>, from: usize) -> (labels: Vec<
    crate::message::Label,
>)
    requires
        from <= path@.len(),
        forall|t: int| 0 <= t < path@.len() ==> path@[t] < hir.imports@.len(),
    ensures
        labels@.len() == path@.len() - from,
        forall|t: int|
            0 <= t < labels@.len() ==> (#[trigger] labels@[t]).span == hir.imports@[path@[t
                + from] as int].name.1,
{
    let mut labels: Vec<crate::message::Label> = Vec::new();
    let mut t: usize = from;
    while t < path.len()
        invariant
            from <= t <= path@.len(),
            forall|s: int| 0 <= s < path@.len() ==> path@[s] < hir.imports@.len(),
            labels@.len() == t - from,
            forall|s: int|
                0 <= s < labels@.len() ==> (#[trigger] labels@[s]).span == hir.imports@[path@[s
                    + from] as int].name.1,
        decreases path@.len() - t,
    {
        let imp = hir.imports.get(ImportId(path[t]));
        labels.push(crate::message::Label { span: imp.name.1 });
        t = t + 1;
    }
    labels
}

/// Writes `value` into every table slot `path` names; slots not on the
/// path keep their verdicts.
fn mark_all(resolutions: &mut Vec<ImportResolution>, path: &Vec<usize>, value: ImportResolution)
    requires
        forall|t: int| 0 <= t < path@.len() ==> path@[t] < old(resolutions)@.len(),
    ensures
        final(resolutions)@.len() == old(resolutions)@.len(),
        forall|t: int|
            0 <= t < path@.len() ==> final(resolutions)@[path@[t] as int] == value,
        forall|i: int|
            0 <= i < old(resolutions)@.len() && !path@.contains(i as usize)
                ==> final(resolutions)@[i] == old(resolutions)@[i],
{
    let mut t: usize = 0;
    while t < path.len()
        invariant
            t <= path@.len(),
            forall|s: int| 0 <= s < path@.len() ==> path@[s] < resolutions@.len(),
            resolutions@.len() == old(resolutions)@.len(),
            forall|s: int| 0 <= s < t ==> resolutions@[path@[s] as int] == value,
            forall|i: int|
                0 <= i < old(resolutions)@.len() && !path@.contains(i as usize)
                    ==> resolutions@[i] == old(resolutions)@[i],
        decreases path@.len() - t,
    {
        let idx = path[t];
        resolutions[idx] = value;
        proof {
            assert(path@.contains(path@[t as int]));
        }
        t = t + 1;
    }
}

/// A chain justification propagates backwards: if the chain's last member
/// reaches `r` within `fuel` steps and every earlier member steps to the
/// next, each member reaches `r` within `fuel` plus its distance to the end.
proof fn lemma_path_resolves<'hir>(
    hir: Hir<'hir>,
    path: Seq<usize>,
    t: int,
    r: Resolvable,
    fuel: nat,
)
    requires
        0 <= t < path.len(),
        forall|s: int|
            0 <= s < path.len() - 1 ==> import_step(hir, path[s] as int) == Some(
                Resolvable::Import(ImportId(path[s + 1])),
            ),
        resolves_within(hir, path.last() as int, r, fuel),
    ensures
        resolves_within(hir, path[t] as int, r, (fuel + path.len() - 1 - t) as nat),
    decreases path.len() - 1 - t,
{
    if t == path.len() - 1 {
    } else {
        lemma_path_resolves(hir, path, t + 1, r, fuel);
        assert(import_step(hir, path[t] as int) == Some(Resolvable::Import(ImportId(path[t + 1]))));
    }
}

/// Marking a whole pending chain with one verdict keeps the table sound,
/// provided consecutive chain members step to each other and the verdict
/// agrees with one step of the chain's last member.
proof fn lemma_mark_preserves_consistency<'hir>(
    hir: Hir<'hir>,
    before: Seq<ImportResolution>,
    after: Seq<ImportResolution>,
    path: Seq<usize>,
    cur: usize,
    value: ImportResolution,
)
    requires
        before.len() == hir.imports@.len(),
        before.len() <= usize::MAX,
        after.len() == before.len(),
        resolutions_consistent(hir, before),
        path.len() > 0,
        path.last() == cur,
        forall|t: int|
            0 <= t < path.len() ==> path[t] < before.len() && (#[trigger] before[path[t] as int])
                is Pending,
        forall|t: int| 0 <= t < path.len() ==> after[path[t] as int] == value,
        forall|i: int|
            0 <= i < before.len() && !path.contains(i as usize) ==> after[i] == before[i],
        forall|t: int|
            0 <= t < path.len() - 1 ==> import_step(hir, path[t] as int) == Some(
                Resolvable::Import(ImportId(path[t + 1])),
            ),
        match value {
            ImportResolution::Resolved(r) => !(r is Import) && hir.resolvable_valid(r) && (exists|
                fuel: nat,
            | resolves_within(hir, cur as int, r, fuel)),
            ImportResolution::Failed => import_step(hir, cur as int) is None || (import_step(
                hir,
                cur as int,
            ) matches Some(Resolvable::Import(jj)) && jj.0 < before.len() && after[jj.0 as int] is
                Failed),
            ImportResolution::Pending => false,
        },
    ensures
        resolutions_consistent(hir, after),
{
    assert forall|i: int| 0 <= i < after.len() implies #[trigger] resolution_ok(
        hir,
        after,
        i,
    ) by {
        if path.contains(i as usize) {
            let t = choose|t: int| 0 <= t < path.len() && path[t] == i as usize;
            assert(after[path[t] as int] == value);
            assert(after[i] == value);
            match value {
                ImportResolution::Resolved(r) => {
                    let fuel = choose|fuel: nat| resolves_within(hir, cur as int, r, fuel);
                    lemma_path_resolves(hir, path, t, r, fuel);
                },
                ImportResolution::Failed => {
                    if t < path.len() - 1 {
                        assert(import_step(hir, i) == Some(
                            Resolvable::Import(ImportId(path[t + 1])),
                        ));
                        assert(before[path[t + 1] as int] is Pending);
                        assert(after[path[t + 1] as int] == value);
                        assert(path[t + 1] < before.len());
                    } else {
                        assert(i == cur as int);
                    }
                },
                ImportResolution::Pending => {},
            }
        } else {
            assert(after[i] == before[i]);
            assert(resolution_ok(hir, before, i));
            match before[i] {
                ImportResolution::Pending => {},
                ImportResolution::Resolved(r) => {},
                ImportResolution::Failed => {
                    if !(import_step(hir, i) is None) {
                        match import_step(hir, i) {
                            Some(Resolvable::Import(jj)) => {
                                if path.contains(jj.0) {
                                    let t2 = choose|t2: int|
                                        0 <= t2 < path.len() && path[t2] == jj.0;
                                    assert(before[jj.0 as int] is Pending);
                                    assert(false);
                                }
                                assert(after[jj.0 as int] == before[jj.0 as int]);
                            },
                            _ => {
                                assert(false);
                            },
                        }
                    }
                },
            }
        }
    }
}

/// Resolves the chain of imports starting at the pending import `start`:
/// follows one import step at a time, compressing through already-decided
/// imports, until the chain ends at a concrete target, runs off an unbound
/// name, or revisits an import already on the current path — a cycle. The
/// whole path is then decided at once, so every import is walked at most
/// once across a run, and one chain failure yields exactly one diagnostic:
/// an unresolved-import report for an unbound name, one cycle report naming
/// the cycle members for a revisit, and none when the chain merely reaches
/// an import that already failed (its cause is already reported).
#[verifier::loop_isolation(false)]
fn resolve_chain<'hir>(
    hir: &Hir<'hir>,
    resolutions: &mut Vec<ImportResolution>,
    messages: &mut Messages,
    start: usize,
)
    requires
        hir.wf(),
        old(resolutions)@.len() == hir.imports@.len(),
        start < old(resolutions)@.len(),
        old(resolutions)@[start as int] is Pending,
        resolutions_consistent(*hir, old(resolutions)@),
    ensures
        final(resolutions)@.len() == old(resolutions)@.len(),
        forall|i: int|
            0 <= i < old(resolutions)@.len() && !((#[trigger] old(resolutions)@[i]) is Pending)
                ==> final(resolutions)@[i] == old(resolutions)@[i],
        !(final(resolutions)@[start as int] is Pending),
        resolutions_consistent(*hir, final(resolutions)@),
        old(messages)@.len() <= final(messages)@.len() <= old(messages)@.len() + 1,
        forall|j: int| 0 <= j < old(messages)@.len() ==> final(messages)@[j] == old(messages)@[j],
        forall|j: int|
            old(messages)@.len() <= j < final(messages)@.len() ==> (final(messages)@[j].kind
                == MessageKind::UnresolvedImport || final(messages)@[j].kind
                == MessageKind::ImportCycle),
        forall|j: int|
            old(messages)@.len() <= j < final(messages)@.len()
                && (#[trigger] final(messages)@[j]).kind == MessageKind::ImportCycle
                ==> exists|c: Seq<int>|
                import_cycle(*hir, c) && labels_cycle_members(
                    *hir,
                    final(messages)@[j].labels@,
                    c,
                ),
        forall|j: int|
            old(messages)@.len() <= j < final(messages)@.len()
                && (#[trigger] final(messages)@[j]).kind == MessageKind::UnresolvedImport
                ==> exists|e: int|
                0 <= e < hir.imports@.len() && import_step(*hir, e) is None
                    && final(messages)@[j].name == hir.imports@[e].target.0
                    && final(messages)@[j].span == hir.imports@[e].target.1,
{
    let n = resolutions.len();
    let mut path: Vec<usize> = Vec::new();
    let mut cur: usize = start;
    loop
        invariant
            hir.wf(),
            resolutions@ == old(resolutions)@,
            messages@ == old(messages)@,
            n == resolutions@.len(),
            n == hir.imports@.len(),
            cur < n,
            resolutions@[cur as int] is Pending,
            !path@.contains(cur),
            path@.no_duplicates(),
            forall|t: int|
                0 <= t < path@.len() ==> path@[t] < n && (#[trigger] resolutions@[path@[t] as int])
                    is Pending,
            path@.len() == 0 ==> cur == start,
            path@.len() > 0 ==> path@[0] == start,
            forall|t: int|
                0 <= t < path@.len() - 1 ==> import_step(*hir, path@[t] as int) == Some(
                    Resolvable::Import(ImportId(path@[t + 1])),
                ),
            path@.len() > 0 ==> import_step(*hir, path@.last() as int) == Some(
                Resolvable::Import(ImportId(cur)),
            ),
        decreases n - path@.len(),
    {
        proof {
            let p2 = path@.push(cur);
            assert forall|s: int, t: int| 0 <= s < t < p2.len() implies p2[s] != p2[t] by {
                if t == path@.len() {
                    assert(p2[s] == path@[s]);
                    assert(p2[t] == cur);
                    if path@[s] == cur {
                        assert(path@.contains(cur));
                    }
                } else {
                    assert(p2[s] == path@[s]);
                    assert(p2[t] == path@[t]);
                }
            }
            assert(p2.no_duplicates());
            assert forall|t: int| 0 <= t < p2.len() implies #[trigger] p2[t] < n by {
                if t < path@.len() {
                    assert(p2[t] == path@[t]);
                    assert(resolutions@[path@[t] as int] is Pending);
                } else {
                    assert(p2[t] == cur);
                }
            }
            assert forall|t: int|
                0 <= t < p2.len() implies (#[trigger] resolutions@[p2[t] as int]) is Pending by {
                if t < path@.len() {
                    assert(p2[t] == path@[t]);
                    assert(resolutions@[path@[t] as int] is Pending);
                } else {
                    assert(p2[t] == cur);
                }
            }
            lemma_distinct_bounded(p2, n as nat);
        }
        let ghost path_prev = path@;
        path.push(cur);
        proof {
            assert(forall|t: int| 0 <= t < path@.len() ==> #[trigger] path@[t] < n);
            assert(forall|t: int|
                0 <= t < path@.len() ==> (#[trigger] resolutions@[path@[t] as int]) is Pending);
            assert(path@[0] == start);
            assert(path@.last() == cur);
            assert forall|t: int| 0 <= t < path@.len() - 1 implies import_step(
                *hir,
                path@[t] as int,
            ) == Some(Resolvable::Import(ImportId(path@[t + 1]))) by {
                if t < path_prev.len() - 1 {
                    assert(path@[t] == path_prev[t]);
                    assert(path@[t + 1] == path_prev[t + 1]);
                } else {
                    assert(path@[t] == path_prev.last());
                    assert(path@[t + 1] == cur);
                }
            }
        }
        let ghost before = resolutions@;
        let imp = hir.imports.get(ImportId(cur));
        proof {
            hir.lemma_lookup_valid(imp.scope.0 as int, imp.target.0);
        }
        let step = hir.tr_scopes.find_resolvable(imp.scope, &imp.target);
        match step {
            None => {
                proof {
                    assert(import_step(*hir, cur as int) is None);
                }
                messages.report(Message::unresolved_import(imp.target.0, imp.target.1));
                mark_all(resolutions, &path, ImportResolution::Failed);
                proof {
                    lemma_mark_preserves_consistency(
                        *hir,
                        before,
                        resolutions@,
                        path@,
                        cur,
                        ImportResolution::Failed,
                    );
                    assert(resolutions@[path@[0] as int] == ImportResolution::Failed);
                }
                return;
            },
            Some(found) => {
                let target = *found;
                match target {
                    Resolvable::Type(_) | Resolvable::Module(_) => {
                        mark_all(resolutions, &path, ImportResolution::Resolved(target));
                        proof {
                            assert(resolves_within(*hir, cur as int, target, 1));
                            lemma_mark_preserves_consistency(
                                *hir,
                                before,
                                resolutions@,
                                path@,
                                cur,
                                ImportResolution::Resolved(target),
                            );
                            assert(resolutions@[path@[0] as int] == ImportResolution::Resolved(
                                target,
                            ));
                        }
                        return;
                    },
                    Resolvable::Import(j) => {
                        match resolutions[j.0] {
                            ImportResolution::Resolved(memoized) => {
                                proof {
                                    assert(resolution_ok(*hir, before, j.0 as int));
                                    if path@.contains(j.0) {
                                        let t2 = choose|t2: int|
                                            0 <= t2 < path@.len() && path@[t2] == j.0;
                                        assert(false);
                                    }
                                    let fj = choose|fuel: nat|
                                        resolves_within(*hir, j.0 as int, memoized, fuel);
                                    assert(resolves_within(*hir, cur as int, memoized, fj + 1));
                                }
                                mark_all(
                                    resolutions,
                                    &path,
                                    ImportResolution::Resolved(memoized),
                                );
                                proof {
                                    lemma_mark_preserves_consistency(
                                        *hir,
                                        before,
                                        resolutions@,
                                        path@,
                                        cur,
                                        ImportResolution::Resolved(memoized),
                                    );
                                    assert(resolutions@[path@[0] as int]
                                        == ImportResolution::Resolved(memoized));
                                }
                                return;
                            },
                            ImportResolution::Failed => {
                                proof {
                                    if path@.contains(j.0) {
                                        let t2 = choose|t2: int|
                                            0 <= t2 < path@.len() && path@[t2] == j.0;
                                        assert(false);
                                    }
                                }
                                mark_all(resolutions, &path, ImportResolution::Failed);
                                proof {
                                    lemma_mark_preserves_consistency(
                                        *hir,
                                        before,
                                        resolutions@,
                                        path@,
                                        cur,
                                        ImportResolution::Failed,
                                    );
                                    assert(resolutions@[path@[0] as int]
                                        == ImportResolution::Failed);
                                }
                                return;
                            },
                            ImportResolution::Pending => {
                                match path_position(&path, j.0) {
                                    Some(from) => {
                                        let members = cycle_labels(hir, &path, from);
                                        proof {
                                            let c = Seq::new(
                                                (path@.len() - from) as nat,
                                                |t: int| path@[from + t] as int,
                                            );
                                            assert forall|t: int|
                                                0 <= t < c.len() implies 0 <= #[trigger] c[t]
                                                < hir.imports@.len() by {
                                                assert(path@[from + t] < n);
                                            }
                                            assert forall|t: int|
                                                0 <= t < c.len() - 1 implies import_step(
                                                *hir,
                                                c[t],
                                            ) == Some(
                                                Resolvable::Import(ImportId(c[t + 1] as usize)),
                                            ) by {
                                                assert(import_step(
                                                    *hir,
                                                    path@[from + t] as int,
                                                ) == Some(
                                                    Resolvable::Import(
                                                        ImportId(path@[from + t + 1]),
                                                    ),
                                                ));
                                            }
                                            assert(c.last() == cur as int);
                                            assert(c[0] == path@[from as int] as int);
                                            assert(import_step(*hir, c.last()) == Some(
                                                Resolvable::Import(ImportId(c[0] as usize)),
                                            ));
                                            assert(import_cycle(*hir, c));
                                            assert(labels_cycle_members(*hir, members@, c));
                                        }
                                        messages.report(
                                            Message::import_cycle(imp.name.0, imp.name.1, members),
                                        );
                                        mark_all(resolutions, &path, ImportResolution::Failed);
                                        proof {
                                            assert(path@.contains(j.0));
                                            lemma_mark_preserves_consistency(
                                                *hir,
                                                before,
                                                resolutions@,
                                                path@,
                                                cur,
                                                ImportResolution::Failed,
                                            );
                                            assert(resolutions@[path@[0] as int]
                                                == ImportResolution::Failed);
                                        }
                                        return;
                                    },
                                    None => {
                                        cur = j.0;
                                    },
                                }
                            },
                        }
                    },
                }
            },
        }
    }
}

/// Import flattening, the second pipeline stage: decides every recorded
/// import. Afterwards no import is pending, the table is sound for `hir` —
/// in particular an import whose own lookup lands directly on a concrete
/// target is resolved to it — and the only messages this stage adds are
/// unresolved-import and import-cycle reports.
#[verifier::loop_isolation(false)]
pub fn flatten_imports<'hir>(hir: &Hir<'hir>, messages: &mut Messages) -> (lookup: NameLookup)
    requires
        hir.wf(),
    ensures
        lookup.wf(*hir),
        forall|j: int| 0 <= j < old(messages)@.len() ==> final(messages)@[j] == old(messages)@[j],
        final(messages)@.len() >= old(messages)@.len(),
        forall|j: int|
            old(messages)@.len() <= j < final(messages)@.len() ==> (final(messages)@[j].kind
                == MessageKind::UnresolvedImport || final(messages)@[j].kind
                == MessageKind::ImportCycle),
        forall|j: int|
            old(messages)@.len() <= j < final(messages)@.len()
                && (#[trigger] final(messages)@[j]).kind == MessageKind::ImportCycle
                ==> exists|c: Seq<int>|
                import_cycle(*hir, c) && labels_cycle_members(
                    *hir,
                    final(messages)@[j].labels@,
                    c,
                ),
        forall|j: int|
            old(messages)@.len() <= j < final(messages)@.len()
                && (#[trigger] final(messages)@[j]).kind == MessageKind::UnresolvedImport
                ==> exists|e: int|
                0 <= e < hir.imports@.len() && import_step(*hir, e) is None
                    && final(messages)@[j].name == hir.imports@[e].target.0
                    && final(messages)@[j].span == hir.imports@[e].target.1,
{
    let n = hir.imports.len();
    let mut resolutions: Vec<ImportResolution> = Vec::new();
    let mut i: usize = 0;
    while i < n
        invariant
            i <= n,
            resolutions@.len() == i,
            forall|k: int| 0 <= k < i ==> (#[trigger] resolutions@[k]) is Pending,
        decreases n - i,
    {
        resolutions.push(ImportResolution::Pending);
        i = i + 1;
    }
    let mut s: usize = 0;
    while s < n
        invariant
            s <= n,
            hir.wf(),
            n == hir.imports@.len(),
            resolutions@.len() == n,
            resolutions_consistent(*hir, resolutions@),
            forall|k: int| 0 <= k < s ==> !((#[trigger] resolutions@[k]) is Pending),
            messages@.len() >= old(messages)@.len(),
            forall|j: int| 0 <= j < old(messages)@.len() ==> messages@[j] == old(messages)@[j],
            forall|j: int|
                old(messages)@.len() <= j < messages@.len() ==> (messages@[j].kind
                    == MessageKind::UnresolvedImport || messages@[j].kind
                    == MessageKind::ImportCycle),
            forall|j: int|
                old(messages)@.len() <= j < messages@.len() && (#[trigger] messages@[j]).kind
                    == MessageKind::ImportCycle ==> exists|c: Seq<int>|
                    import_cycle(*hir, c) && labels_cycle_members(*hir, messages@[j].labels@, c),
            forall|j: int|
                old(messages)@.len() <= j < messages@.len() && (#[trigger] messages@[j]).kind
                    == MessageKind::UnresolvedImport ==> exists|e: int|
                    0 <= e < hir.imports@.len() && import_step(*hir, e) is None
                        && messages@[j].name == hir.imports@[e].target.0 && messages@[j].span
                        == hir.imports@[e].target.1,
        decreases n - s,
    {
        let ghost pre_step = resolutions@;
        match resolutions[s] {
            ImportResolution::Pending => {
                resolve_chain(hir, &mut resolutions, messages, s);
            },
            _ => {},
        }
        proof {
            assert forall|k: int| 0 <= k < s + 1 implies !((#[trigger] resolutions@[k])
                is Pending) by {
                if k < s {
                    assert(!(pre_step[k] is Pending));
                    assert(resolutions@[k] == pre_step[k]);
                } else {
                    assert(!(resolutions@[s as int] is Pending));
                }
            }
        }
        s = s + 1;
    }
    NameLookup { resolutions }
}

/// Import steps are deterministic, so a chain from one import can reach
/// only one concrete target.
proof fn lemma_resolves_unique<'hir>(
    hir: Hir<'hir>,
    i: int,
    a: Resolvable,
    fa: nat,
    b: Resolvable,
    fb: nat,
)
    requires
        resolves_within(hir, i, a, fa),
        resolves_within(hir, i, b, fb),
    ensures
        a == b,
    decreases fa,
{
    match import_step(hir, i) {
        Some(Resolvable::Import(j)) => {
            lemma_resolves_unique(hir, j.0 as int, a, (fa - 1) as nat, b, (fb - 1) as nat);
        },
        _ => {},
    }
}

/// Law: an import whose own lookup lands directly on a concrete target —
/// the base case of an acyclic import chain — is resolved to exactly that
/// target by a finished flattening run; it is never failed or left pending.
pub proof fn lemma_direct_import_resolved<'hir>(
    hir: Hir<'hir>,
    lookup: NameLookup,
    i: int,
    r: Resolvable,
)
    requires
        lookup.wf(hir),
        0 <= i < lookup.resolutions@.len(),
        import_step(hir, i) == Some(r),
        !(r is Import),
    ensures
        lookup.resolutions@[i] == ImportResolution::Resolved(r),
{
    assert(resolution_ok(hir, lookup.resolutions@, i));
    match lookup.resolutions@[i] {
        ImportResolution::Pending => {
            assert(false);
        },
        ImportResolution::Resolved(r2) => {
            let f2 = choose|fuel: nat| resolves_within(hir, i, r2, fuel);
            assert(resolves_within(hir, i, r, 1));
            lemma_resolves_unique(hir, i, r2, f2, r, 1);
        },
        ImportResolution::Failed => {
            assert(false);
        },
    }
}

/// Law: an import whose own lookup lands on another import already resolved
/// to `r` is itself resolved to `r`. Together with the base case above this
/// gives, by induction on the chain, that resolving an acyclic chain of
/// imports of any depth yields the chain's final concrete target.
pub proof fn lemma_import_chain_step<'hir>(
    hir: Hir<'hir>,
    lookup: NameLookup,
    i: int,
    j: ImportId,
    r: Resolvable,
)
    requires
        lookup.wf(hir),
        0 <= i < lookup.resolutions@.len(),
        import_step(hir, i) == Some(Resolvable::Import(j)),
        j.0 < lookup.resolutions@.len(),
        lookup.resolutions@[j.0 as int] == ImportResolution::Resolved(r),
    ensures
        lookup.resolutions@[i] == ImportResolution::Resolved(r),
{
    assert(resolution_ok(hir, lookup.resolutions@, i));
    match lookup.resolutions@[i] {
        ImportResolution::Pending => {
            assert(false);
        },
        ImportResolution::Resolved(r2) => {
            let f2 = choose|fuel: nat| resolves_within(hir, i, r2, fuel);
            assert(resolution_ok(hir, lookup.resolutions@, j.0 as int));
            let fj = choose|fuel: nat| resolves_within(hir, j.0 as int, r, fuel);
            assert(resolves_within(hir, i, r, fj + 1));
            lemma_resolves_unique(hir, i, r2, f2, r, fj + 1);
        },
        ImportResolution::Failed => {
            assert(false);
        },
    }
}

} // verus!