use vstd::prelude::*;

use crate::arena::alloc_variants;
use crate::ast::{FieldItem, Item, ItemBase};
use crate::hir::Hir;
use crate::message::{Label, Message, MessageKind, Messages};
use crate::resolving::{Resolvable, ScopeId};
use crate::symbol::{Ident, Span};
use crate::types::{Enum, Field, FieldType, Record, Type, TypeId};

verus! {

/// Spec-level image of a record item's parsed fields: each field keeps its
/// own name and carries the written type name, deferred for refinement.
pub open spec fn fields_of(items: Seq<FieldItem>) -> Seq<Field> {
    items.map_values(|fi: FieldItem| Field { name: fi.name, ty: FieldType::Named(fi.ty) })
}

/// Whether rough lowering introduces a type declaration for this item.
pub open spec fn is_type_item(item: Item) -> bool {
    item.base is Record || item.base is Enum
}

/// The name an item declares (meaningful for records, enums and imports).
pub open spec fn item_name(item: Item) -> Ident {
    match item.base {
        ItemBase::Record(r) => r.name,
        ItemBase::Enum(e) => e.name,
        ItemBase::Import(im) => im.name,
        ItemBase::Other => arbitrary(),
    }
}

/// Whether rough lowering records an import for this item.
pub open spec fn is_import_item(item: Item) -> bool {
    item.base is Import
}

/// The subsequence of items that introduce a type declaration, in source
/// order: exactly these get a `TypeId` during rough lowering.
pub open spec fn type_items(items: Seq<Item>) -> Seq<Item>
    decreases items.len(),
{
    if items.len() == 0 {
        Seq::empty()
    } else {
        let rest = type_items(items.drop_last());
        if is_type_item(items.last()) {
            rest.push(items.last())
        } else {
            rest
        }
    }
}

/// The subsequence of items that record an import, in source order.
pub open spec fn import_items(items: Seq<Item>) -> Seq<Item>
    decreases items.len(),
{
    if items.len() == 0 {
        Seq::empty()
    } else {
        let rest = import_items(items.drop_last());
        if is_import_item(items.last()) {
            rest.push(items.last())
        } else {
            rest
        }
    }
}

/// The skeleton declaration rough lowering builds for a type-introducing
/// item: the reserved key `idx`, the item's own name, fields left as written
/// names for a record, the complete variant list for an enum.
pub open spec fn decl_matches_item<'hir>(t: Type<'hir>, item: Item, scope: ScopeId, idx: int) -> bool {
    &&& t.spec_id().0 == idx
    &&& match item.base {
        ItemBase::Record(r) => t matches Type::Record(rec) && rec.name == r.name && rec.scope
            == scope && rec.fields@ == fields_of(r.fields@),
        ItemBase::Enum(e) => t matches Type::Enum(en) && en.name == e.name && en.variants@.len()
            == e.variants@.len() && (forall|j: int|
            0 <= j < e.variants@.len() ==> en.variants@[j].ident == e.variants@[j]),
        _ => false,
    }
}

/// The import entry rough lowering records for an import item.
pub open spec fn import_matches_item(
    imp: crate::name_resolution::Import,
    item: Item,
    scope: ScopeId,
    idx: int,
) -> bool {
    &&& imp.import_id.0 == idx
    &&& imp.scope == scope
    &&& match item.base {
        ItemBase::Import(im) => imp.name == im.name && imp.target == im.target,
        _ => false,
    }
}

/// The span at which the declaration behind `r` was introduced, where `r`
/// may point into the registries as they stood before a lowering pass over
/// `items`, or at one of the declarations those items add, keyed in source
/// order from the registries' prior lengths.
pub open spec fn binding_def_span<'hir>(hir0: Hir<'hir>, items: Seq<Item>, r: Resolvable) -> Span {
    match r {
        Resolvable::Type(t) => if t.0 < hir0.types@.len() {
            hir0.types@[t.0 as int].spec_name().1
        } else {
            item_name(type_items(items)[t.0 - hir0.types@.len()]).1
        },
        Resolvable::Module(m) => hir0.modules@[m.0 as int].name.1,
        Resolvable::Import(i) => if i.0 < hir0.imports@.len() {
            hir0.imports@[i.0 as int].name.1
        } else {
            item_name(import_items(items)[i.0 - hir0.imports@.len()]).1
        },
    }
}

/// The scope bindings a lowering pass leaves behind, in closed form: each
/// record, enum or import item binds its name to the declaration it
/// registers — ids keyed in source order from the registries' prior lengths
/// — unless the name is already bound, in which case the first binding
/// stays untouched.
pub open spec fn bindings_after(
    items: Seq<Item>,
    entries: Map<u32, Resolvable>,
    types_base: int,
    imports_base: int,
) -> Map<u32, Resolvable>
    decreases items.len(),
{
    if items.len() == 0 {
        entries
    } else {
        let prefix = items.drop_last();
        let done = bindings_after(prefix, entries, types_base, imports_base);
        let it = items.last();
        let key = item_name(it).0.0;
        match it.base {
            ItemBase::Record(_) | ItemBase::Enum(_) => if done.contains_key(key) {
                done
            } else {
                done.insert(
                    key,
                    Resolvable::Type(TypeId((types_base + type_items(prefix).len()) as usize)),
                )
            },
            ItemBase::Import(_) => if done.contains_key(key) {
                done
            } else {
                done.insert(
                    key,
                    Resolvable::Import(
                        crate::name_resolution::ImportId(
                            (imports_base + import_items(prefix).len()) as usize,
                        ),
                    ),
                )
            },
            ItemBase::Other => done,
        }
    }
}

/// The duplicate reports a lowering pass emits over the first `k` of
/// `items`, in order: one per item whose name is already bound when it is
/// introduced, carrying the item's own name with its span and the span of
/// the declaration the scope keeps.
pub open spec fn duplicate_reports<'hir>(
    hir0: Hir<'hir>,
    items: Seq<Item>,
    k: int,
    entries: Map<u32, Resolvable>,
    types_base: int,
    imports_base: int,
) -> Seq<(Ident, Span)>
    decreases k,
{
    if k <= 0 || k > items.len() {
        Seq::empty()
    } else {
        let done = duplicate_reports(hir0, items, k - 1, entries, types_base, imports_base);
        let it = items[k - 1];
        match it.base {
            ItemBase::Other => done,
            _ => {
                let bound = bindings_after(items.take(k - 1), entries, types_base, imports_base);
                let key = item_name(it).0.0;
                if bound.contains_key(key) {
                    done.push((item_name(it), binding_def_span(hir0, items, bound[key])))
                } else {
                    done
                }
            },
        }
    }
}

/// The type-introducing and import subsequences of a prefix are prefixes of
/// the whole sequence's: lowering one more item never reorders or changes
/// what earlier items registered.
pub proof fn lemma_items_take_prefix(items: Seq<Item>, k: int)
    requires
        0 <= k <= items.len(),
    ensures
        type_items(items.take(k)).len() <= type_items(items).len(),
        forall|j: int|
            0 <= j < type_items(items.take(k)).len() ==> #[trigger] type_items(items.take(k))[j]
                == type_items(items)[j],
        import_items(items.take(k)).len() <= import_items(items).len(),
        forall|j: int|
            0 <= j < import_items(items.take(k)).len() ==> #[trigger] import_items(
                items.take(k),
            )[j] == import_items(items)[j],
    decreases items.len() - k,
{
    if k == items.len() {
        assert(items.take(k) =~= items);
    } else {
        assert(items.take(k + 1).drop_last() =~= items.take(k));
        assert(items.take(k + 1).last() == items[k]);
        lemma_items_take_prefix(items, k + 1);
        assert forall|j: int|
            0 <= j < type_items(items.take(k)).len() implies #[trigger] type_items(
            items.take(k),
        )[j] == type_items(items)[j] by {
            assert(type_items(items.take(k))[j] == type_items(items.take(k + 1))[j]);
        }
        assert forall|j: int|
            0 <= j < import_items(items.take(k)).len() implies #[trigger] import_items(
            items.take(k),
        )[j] == import_items(items)[j] by {
            assert(import_items(items.take(k))[j] == import_items(items.take(k + 1))[j]);
        }
    }
}

/// The one diagnostic a duplicate declaration produces: it names the
/// re-declared identifier, points at the offending span, and its single
/// label points at the declaration the scope keeps.
pub open spec fn is_duplicate_message(m: Message, name: Ident, original: Span) -> bool {
    &&& m.kind == MessageKind::DuplicateDeclaration
    &&& m.name == name.0
    &&& m.span == name.1
    &&& m.labels@ == seq![Label { span: original }]
}

/// The recoverable-error discipline of name introduction, relating a
/// scope's entries and the message sink across one introduction. A fresh
/// name is bound; a name already bound in this very scope keeps its first
/// binding, and exactly one duplicate-declaration diagnostic referencing
/// both spans is reported instead.
pub open spec fn bind_effect(
    old_entries: Map<u32, Resolvable>,
    new_entries: Map<u32, Resolvable>,
    old_msgs: Seq<Message>,
    new_msgs: Seq<Message>,
    name: Ident,
    resolvable: Resolvable,
    original: Span,
) -> bool {
    if old_entries.contains_key(name.0.0) {
        &&& new_entries == old_entries
        &&& new_msgs.len() == old_msgs.len() + 1
        &&& forall|j: int| 0 <= j < old_msgs.len() ==> new_msgs[j] == old_msgs[j]
        &&& is_duplicate_message(new_msgs.last(), name, original)
    } else {
        &&& new_entries == old_entries.insert(name.0.0, resolvable)
        &&& new_msgs == old_msgs
    }
}

/// The first pipeline stage: a single top-down walk of the syntax-tree
/// items that creates one skeleton declaration per type-introducing item,
/// records every import, and registers each name in the current scope. It
/// owns the IR it builds; the arena outlives the walk and owns every
/// slice-allocated variant list.
pub struct RoughLowering<'hir> {
    pub arena: &'hir bumpalo::Bump,
    pub hir: Hir<'hir>,
}

impl<'hir> RoughLowering<'hir> {
    /// The scope forest's shape is untouched by lowering into `scope`: no
    /// scope appears or disappears, no parent link moves, and every scope
    /// other than `scope` keeps its entries.
    pub open spec fn scopes_shape_kept(&self, pre: &RoughLowering<'hir>, scope: ScopeId) -> bool {
        &&& self.hir.tr_scopes.root == pre.hir.tr_scopes.root
        &&& self.hir.tr_scopes.scopes@.len() == pre.hir.tr_scopes.scopes@.len()
        &&& forall|i: int|
            0 <= i < pre.hir.tr_scopes.scopes@.len() && i != scope.0
                ==> self.hir.tr_scopes.scopes@[i] == pre.hir.tr_scopes.scopes@[i]
        &&& self.hir.tr_scopes.scopes@[scope.0 as int].parent
            == pre.hir.tr_scopes.scopes@[scope.0 as int].parent
    }

    /// Binds `name` to `resolvable` in `scope` under the first-binding-wins
    /// policy, reporting the duplicate if the name is already bound there.
    fn introduce(
        &mut self,
        scope: ScopeId,
        name: Ident,
        resolvable: Resolvable,
        messages: &mut Messages,
    )
        requires
            old(self).hir.wf(),
            scope.0 < old(self).hir.tr_scopes.scopes@.len(),
            old(self).hir.resolvable_valid(resolvable),
        ensures
            final(self).hir.wf(),
            final(self).arena == old(self).arena,
            final(self).hir.types == old(self).hir.types,
            final(self).hir.modules == old(self).hir.modules,
            final(self).hir.imports == old(self).hir.imports,
            final(self).scopes_shape_kept(old(self), scope),
            bind_effect(
                old(self).hir.tr_scopes.scopes@[scope.0 as int].entries@,
                final(self).hir.tr_scopes.scopes@[scope.0 as int].entries@,
                old(messages)@,
                final(messages)@,
                name,
                resolvable,
                old(self).hir.spec_resolvable_span(
                    old(self).hir.tr_scopes.scopes@[scope.0 as int].entries@[name.0.0],
                ),
            ),
    {
        let previous = self.hir.tr_scopes.bind(scope, name.0, resolvable);
        proof {
            assert forall|i: int|
                0 <= i < self.hir.tr_scopes.scopes@.len() implies #[trigger] self
                .hir
                .scope_bindings_valid(i) by {
                assert(old(self).hir.scope_bindings_valid(i));
                assert forall|n: u32| #[trigger]
                    self.hir.tr_scopes.scopes@[i].entries@.contains_key(n) implies self
                    .hir
                    .resolvable_valid(self.hir.tr_scopes.scopes@[i].entries@[n]) by {
                    if i == scope.0 && previous is None && n == name.0.0 {
                        assert(self.hir.tr_scopes.scopes@[i].entries@[n] == resolvable);
                    } else {
                        assert(old(self).hir.tr_scopes.scopes@[i].entries@.contains_key(n));
                        assert(self.hir.tr_scopes.scopes@[i].entries@[n] == old(
                            self,
                        ).hir.tr_scopes.scopes@[i].entries@[n]);
                    }
                }
            }
        }
        match previous {
            Some(prev) => {
                proof {
                    assert(old(self).hir.scope_bindings_valid(scope.0 as int));
                }
                let original = self.hir.resolvable_span(prev);
                messages.report(Message::already_in_scope(name.0, name.1, original));
            },
            None => {},
        }
    }

    /// Registers the freshly built declaration and introduces its name into
    /// `scope`. The declaration is registered in every case — even a
    /// duplicate gets a valid id and participates in further lowering; only
    /// the scope binding is subject to the first-wins policy, and only a
    /// binding in `scope` itself counts as a collision: a binding in an
    /// enclosing scope alone is legal shadowing and reports nothing. On a
    /// collision the first binding stays and exactly one
    /// duplicate-declaration diagnostic referencing both spans is emitted.
    pub fn introduce_type(&mut self, scope: ScopeId, ty: Type<'hir>, messages: &mut Messages)
        requires
            old(self).hir.wf(),
            scope.0 < old(self).hir.tr_scopes.scopes@.len(),
            ty.spec_id().0 == old(self).hir.types@.len(),
            ty matches Type::Record(r) ==> r.scope.0 < old(self).hir.tr_scopes.scopes@.len(),
        ensures
            final(self).hir.wf(),
            final(self).arena == old(self).arena,
            final(self).hir.modules == old(self).hir.modules,
            final(self).hir.imports == old(self).hir.imports,
            final(self).scopes_shape_kept(old(self), scope),
            final(self).hir.types@ == old(self).hir.types@.push(ty),
            bind_effect(
                old(self).hir.tr_scopes.scopes@[scope.0 as int].entries@,
                final(self).hir.tr_scopes.scopes@[scope.0 as int].entries@,
                old(messages)@,
                final(messages)@,
                ty.spec_name(),
                Resolvable::Type(TypeId(old(self).hir.types@.len() as usize)),
                old(self).hir.spec_resolvable_span(
                    old(self).hir.tr_scopes.scopes@[scope.0 as int].entries@[ty.spec_name().0.0],
                ),
            ),
    {
        let ghost pre = *self;
        let id = self.hir.types.insert(ty);
        proof {
            assert forall|i: int|
                0 <= i < self.hir.tr_scopes.scopes@.len() implies #[trigger] self
                .hir
                .scope_bindings_valid(i) by {
                assert(pre.hir.scope_bindings_valid(i));
                assert forall|n: u32| #[trigger]
                    self.hir.tr_scopes.scopes@[i].entries@.contains_key(n) implies self
                    .hir
                    .resolvable_valid(self.hir.tr_scopes.scopes@[i].entries@[n]) by {
                    assert(pre.hir.resolvable_valid(pre.hir.tr_scopes.scopes@[i].entries@[n]));
                }
            }
            assert(self.hir.wf());
        }
        let name = self.hir.types.get(id).name();
        let ghost mid = *self;
        self.introduce(scope, name, Resolvable::Type(id), messages);
        proof {
            let entries = pre.hir.tr_scopes.scopes@[scope.0 as int].entries@;
            if entries.contains_key(name.0.0) {
                assert(pre.hir.scope_bindings_valid(scope.0 as int));
                assert(mid.hir.spec_resolvable_span(entries[name.0.0])
                    == pre.hir.spec_resolvable_span(entries[name.0.0]));
            }
        }
    }

    /// Lowers one item into `scope`: a record becomes a skeleton `Record`
    /// declaration with its fields deferred as written names; an enum
    /// becomes a complete `Enum` declaration, its variants slice-allocated
    /// in the arena; an import is recorded and its alias provisionally
    /// bound; any other item kind is accepted as a no-op.
    pub fn lower_item(&mut self, item: &Item, scope: ScopeId, messages: &mut Messages)
        requires
            old(self).hir.wf(),
            scope.0 < old(self).hir.tr_scopes.scopes@.len(),
        ensures
            final(self).hir.wf(),
            final(self).arena == old(self).arena,
            final(self).hir.modules == old(self).hir.modules,
            final(self).scopes_shape_kept(old(self), scope),
            ({
                let old_types = old(self).hir.types@;
                let old_imports = old(self).hir.imports@;
                let old_entries = old(self).hir.tr_scopes.scopes@[scope.0 as int].entries@;
                let new_entries = final(self).hir.tr_scopes.scopes@[scope.0 as int].entries@;
                match item.base {
                    ItemBase::Record(_) | ItemBase::Enum(_) => {
                        &&& final(self).hir.types@.len() == old_types.len() + 1
                        &&& forall|i: int|
                            0 <= i < old_types.len() ==> final(self).hir.types@[i] == old_types[i]
                        &&& decl_matches_item(
                            final(self).hir.types@.last(),
                            *item,
                            scope,
                            old_types.len() as int,
                        )
                        &&& final(self).hir.imports@ == old_imports
                        &&& bind_effect(
                            old_entries,
                            new_entries,
                            old(messages)@,
                            final(messages)@,
                            final(self).hir.types@.last().spec_name(),
                            Resolvable::Type(TypeId(old_types.len() as usize)),
                            old(self).hir.spec_resolvable_span(
                                old_entries[final(self).hir.types@.last().spec_name().0.0],
                            ),
                        )
                    },
                    ItemBase::Import(im) => {
                        &&& final(self).hir.types@ == old_types
                        &&& final(self).hir.imports@.len() == old_imports.len() + 1
                        &&& forall|i: int|
                            0 <= i < old_imports.len() ==> final(self).hir.imports@[i]
                                == old_imports[i]
                        &&& import_matches_item(
                            final(self).hir.imports@.last(),
                            *item,
                            scope,
                            old_imports.len() as int,
                        )
                        &&& bind_effect(
                            old_entries,
                            new_entries,
                            old(messages)@,
                            final(messages)@,
                            im.name,
                            Resolvable::Import(
                                crate::name_resolution::ImportId(old_imports.len() as usize),
                            ),
                            old(self).hir.spec_resolvable_span(old_entries[im.name.0.0]),
                        )
                    },
                    ItemBase::Other => {
                        &&& final(self).hir.types@ == old_types
                        &&& final(self).hir.imports@ == old_imports
                        &&& new_entries == old_entries
                        &&& final(messages)@ == old(messages)@
                    },
                }
            }),
    {
        match &item.base {
            ItemBase::Record(r) => {
                let fields = lower_fields(&r.fields);
                let id = TypeId(self.hir.types.len());
                self.introduce_type(
                    scope,
                    Type::Record(Record { type_id: id, name: r.name, scope, fields }),
                    messages,
                );
            },
            ItemBase::Enum(e) => {
                let variants = alloc_variants(self.arena, &e.variants);
                let id = TypeId(self.hir.types.len());
                self.introduce_type(
                    scope,
                    Type::Enum(Enum { type_id: id, name: e.name, variants }),
                    messages,
                );
            },
            ItemBase::Import(im) => {
                let ghost pre = *self;
                let id = self.hir.imports.insert(scope, im.name, im.target);
                proof {
                    assert forall|i: int|
                        0 <= i < self.hir.tr_scopes.scopes@.len() implies #[trigger] self
                        .hir
                        .scope_bindings_valid(i) by {
                        assert(pre.hir.scope_bindings_valid(i));
                        assert forall|n: u32| #[trigger]
                            self.hir.tr_scopes.scopes@[i].entries@.contains_key(n) implies self
                            .hir
                            .resolvable_valid(self.hir.tr_scopes.scopes@[i].entries@[n]) by {
                            assert(pre.hir.resolvable_valid(
                                pre.hir.tr_scopes.scopes@[i].entries@[n],
                            ));
                        }
                    }
                    assert(self.hir.wf());
                }
                let ghost mid = *self;
                self.introduce(scope, im.name, Resolvable::Import(id), messages);
                proof {
                    let entries = pre.hir.tr_scopes.scopes@[scope.0 as int].entries@;
                    if entries.contains_key(im.name.0.0) {
                        assert(pre.hir.scope_bindings_valid(scope.0 as int));
                        assert(mid.hir.spec_resolvable_span(entries[im.name.0.0])
                            == pre.hir.spec_resolvable_span(entries[im.name.0.0]));
                    }
                }
            },
            ItemBase::Other => {},
        }
    }

    /// The rough-lowering pass over a whole compilation unit: every item is
    /// lowered into the unit's root scope, in source order. Afterwards every
    /// type-introducing item has a `TypeId` and every import an `ImportId`,
    /// in source order starting at the registries' previous lengths — even
    /// items whose names collided — which is what makes every name available
    /// to the next stage regardless of declaration order. Bindings that
    /// existed before the walk are never displaced, and the only messages
    /// this pass adds are duplicate-declaration reports.
    pub fn lower(&mut self, items: &Vec<Item>, messages: &mut Messages)
        requires
            old(self).hir.wf(),
        ensures
            final(self).hir.wf(),
            final(self).arena == old(self).arena,
            final(self).hir.modules == old(self).hir.modules,
            final(self).scopes_shape_kept(old(self), old(self).hir.tr_scopes.root),
            final(self).hir.types@.len() == old(self).hir.types@.len() + type_items(
                items@,
            ).len(),
            forall|i: int|
                0 <= i < old(self).hir.types@.len() ==> final(self).hir.types@[i] == old(
                    self,
                ).hir.types@[i],
            forall|k: int|
                0 <= k < type_items(items@).len() ==> decl_matches_item(
                    final(self).hir.types@[old(self).hir.types@.len() + k],
                    type_items(items@)[k],
                    old(self).hir.tr_scopes.root,
                    old(self).hir.types@.len() + k,
                ),
            forall|k: int|
                0 <= k < type_items(items@).len() ==> final(self).hir.tr_scopes.scopes@[old(
                    self,
                ).hir.tr_scopes.root.0 as int].entries@.contains_key(
                    item_name(#[trigger] type_items(items@)[k]).0.0,
                ),
            final(self).hir.imports@.len() == old(self).hir.imports@.len() + import_items(
                items@,
            ).len(),
            forall|i: int|
                0 <= i < old(self).hir.imports@.len() ==> final(self).hir.imports@[i] == old(
                    self,
                ).hir.imports@[i],
            forall|k: int|
                0 <= k < import_items(items@).len() ==> import_matches_item(
                    final(self).hir.imports@[old(self).hir.imports@.len() + k],
                    import_items(items@)[k],
                    old(self).hir.tr_scopes.root,
                    old(self).hir.imports@.len() + k,
                ),
            forall|k: int|
                0 <= k < import_items(items@).len() ==> final(self).hir.tr_scopes.scopes@[old(
                    self,
                ).hir.tr_scopes.root.0 as int].entries@.contains_key(
                    item_name(#[trigger] import_items(items@)[k]).0.0,
                ),
            ({
                let pre_entries = old(self).hir.tr_scopes.scopes@[old(
                    self,
                ).hir.tr_scopes.root.0 as int].entries@;
                let post_entries = final(self).hir.tr_scopes.scopes@[old(
                    self,
                ).hir.tr_scopes.root.0 as int].entries@;
                forall|n: u32| #[trigger]
                    pre_entries.contains_key(n) ==> post_entries.contains_key(n) && post_entries[n]
                        == pre_entries[n]
            }),
            final(self).hir.tr_scopes.scopes@[old(self).hir.tr_scopes.root.0 as int].entries@
                == bindings_after(
                items@,
                old(self).hir.tr_scopes.scopes@[old(self).hir.tr_scopes.root.0 as int].entries@,
                old(self).hir.types@.len() as int,
                old(self).hir.imports@.len() as int,
            ),
            final(messages)@.len() == old(messages)@.len() + duplicate_reports(
                old(self).hir,
                items@,
                items@.len() as int,
                old(self).hir.tr_scopes.scopes@[old(self).hir.tr_scopes.root.0 as int].entries@,
                old(self).hir.types@.len() as int,
                old(self).hir.imports@.len() as int,
            ).len(),
            forall|j: int| 0 <= j < old(messages)@.len() ==> final(messages)@[j] == old(messages)@[j],
            ({
                let reports = duplicate_reports(
                    old(self).hir,
                    items@,
                    items@.len() as int,
                    old(self).hir.tr_scopes.scopes@[old(
                        self,
                    ).hir.tr_scopes.root.0 as int].entries@,
                    old(self).hir.types@.len() as int,
                    old(self).hir.imports@.len() as int,
                );
                forall|j: int|
                    0 <= j < reports.len() ==> is_duplicate_message(
                        final(messages)@[old(messages)@.len() + j],
                        (#[trigger] reports[j]).0,
                        reports[j].1,
                    )
            }),
    {
        let root = self.hir.tr_scopes.root;
        let ghost pre = *self;
        let mut idx: usize = 0;
        while idx < items.len()
            invariant
                idx <= items@.len(),
                self.hir.wf(),
                root == pre.hir.tr_scopes.root,
                root.0 < self.hir.tr_scopes.scopes@.len(),
                self.arena == pre.arena,
                self.hir.modules == pre.hir.modules,
                self.scopes_shape_kept(&pre, root),
                self.hir.types@.len() == pre.hir.types@.len() + type_items(
                    items@.take(idx as int),
                ).len(),
                forall|i: int|
                    0 <= i < pre.hir.types@.len() ==> self.hir.types@[i] == pre.hir.types@[i],
                forall|k: int|
                    0 <= k < type_items(items@.take(idx as int)).len() ==> decl_matches_item(
                        self.hir.types@[pre.hir.types@.len() + k],
                        type_items(items@.take(idx as int))[k],
                        root,
                        pre.hir.types@.len() + k,
                    ),
                self.hir.imports@.len() == pre.hir.imports@.len() + import_items(
                    items@.take(idx as int),
                ).len(),
                forall|i: int|
                    0 <= i < pre.hir.imports@.len() ==> self.hir.imports@[i] == pre.hir.imports@[i],
                forall|k: int|
                    0 <= k < type_items(items@.take(idx as int)).len()
                        ==> self.hir.tr_scopes.scopes@[root.0 as int].entries@.contains_key(
                        item_name(#[trigger] type_items(items@.take(idx as int))[k]).0.0,
                    ),
                forall|k: int|
                    0 <= k < import_items(items@.take(idx as int)).len() ==> import_matches_item(
                        self.hir.imports@[pre.hir.imports@.len() + k],
                        import_items(items@.take(idx as int))[k],
                        root,
                        pre.hir.imports@.len() + k,
                    ),
                forall|k: int|
                    0 <= k < import_items(items@.take(idx as int)).len()
                        ==> self.hir.tr_scopes.scopes@[root.0 as int].entries@.contains_key(
                        item_name(#[trigger] import_items(items@.take(idx as int))[k]).0.0,
                    ),
                forall|n: u32| #[trigger]
                    pre.hir.tr_scopes.scopes@[root.0 as int].entries@.contains_key(n)
                        ==> self.hir.tr_scopes.scopes@[root.0 as int].entries@.contains_key(n)
                        && self.hir.tr_scopes.scopes@[root.0 as int].entries@[n]
                        == pre.hir.tr_scopes.scopes@[root.0 as int].entries@[n],
                self.hir.tr_scopes.scopes@[root.0 as int].entries@ == bindings_after(
                    items@.take(idx as int),
                    pre.hir.tr_scopes.scopes@[root.0 as int].entries@,
                    pre.hir.types@.len() as int,
                    pre.hir.imports@.len() as int,
                ),
                messages@.len() == old(messages)@.len() + duplicate_reports(
                    pre.hir,
                    items@,
                    idx as int,
                    pre.hir.tr_scopes.scopes@[root.0 as int].entries@,
                    pre.hir.types@.len() as int,
                    pre.hir.imports@.len() as int,
                ).len(),
                forall|j: int|
                    0 <= j < old(messages)@.len() ==> messages@[j] == old(messages)@[j],
                ({
                    let reports = duplicate_reports(
                        pre.hir,
                        items@,
                        idx as int,
                        pre.hir.tr_scopes.scopes@[root.0 as int].entries@,
                        pre.hir.types@.len() as int,
                        pre.hir.imports@.len() as int,
                    );
                    forall|j: int|
                        0 <= j < reports.len() ==> is_duplicate_message(
                            messages@[old(messages)@.len() + j],
                            (#[trigger] reports[j]).0,
                            reports[j].1,
                        )
                }),
                forall|j: int|
                    old(messages)@.len() <= j < messages@.len() ==> messages@[j].kind
                        == MessageKind::DuplicateDeclaration,
            decreases items@.len() - idx,
        {
            let ghost step_pre = *self;
            let ghost msgs_pre = messages@;
            self.lower_item(&items[idx], root, messages);
            proof {
                assert(items@.take(idx + 1).drop_last() =~= items@.take(idx as int));
                assert(items@.take(idx + 1).last() == items@[idx as int]);
                let rootn = root.0 as int;
                let pre_e = pre.hir.tr_scopes.scopes@[rootn].entries@;
                let sp_e = step_pre.hir.tr_scopes.scopes@[rootn].entries@;
                let new_e = self.hir.tr_scopes.scopes@[rootn].entries@;
                assert forall|n: u32| pre_e.contains_key(n) implies new_e.contains_key(n)
                    && new_e[n] == pre_e[n] by {
                    assert(sp_e.contains_key(n) && sp_e[n] == pre_e[n]);
                    match items@[idx as int].base {
                        ItemBase::Record(_) | ItemBase::Enum(_) => {
                            let nm = self.hir.types@.last().spec_name();
                            if !sp_e.contains_key(nm.0.0) {
                                assert(new_e == sp_e.insert(
                                    nm.0.0,
                                    Resolvable::Type(
                                        TypeId(step_pre.hir.types@.len() as usize),
                                    ),
                                ));
                            }
                        },
                        ItemBase::Import(im) => {
                            if !sp_e.contains_key(im.name.0.0) {
                                assert(new_e == sp_e.insert(
                                    im.name.0.0,
                                    Resolvable::Import(
                                        crate::name_resolution::ImportId(
                                            step_pre.hir.imports@.len() as usize,
                                        ),
                                    ),
                                ));
                            }
                        },
                        ItemBase::Other => {},
                    }
                }
                let tb = pre.hir.types@.len() as int;
                let ib = pre.hir.imports@.len() as int;
                let e0 = pre.hir.tr_scopes.scopes@[rootn].entries@;
                let it = items@[idx as int];
                let taken = items@.take(idx as int);
                assert(bindings_after(taken, e0, tb, ib) == sp_e);
                if !(it.base is Other) {
                    let key = item_name(it).0.0;
                    if sp_e.contains_key(key) {
                        let prev = sp_e[key];
                        assert(step_pre.hir.scope_bindings_valid(rootn));
                        assert(step_pre.hir.resolvable_valid(prev));
                        match prev {
                            Resolvable::Type(t) => {
                                if t.0 < tb {
                                    assert(step_pre.hir.types@[t.0 as int]
                                        == pre.hir.types@[t.0 as int]);
                                } else {
                                    let k2 = t.0 - tb;
                                    assert(decl_matches_item(
                                        step_pre.hir.types@[tb + k2],
                                        type_items(taken)[k2],
                                        root,
                                        tb + k2,
                                    ));
                                    lemma_items_take_prefix(items@, idx as int);
                                    assert(type_items(taken)[k2] == type_items(items@)[k2]);
                                }
                            },
                            Resolvable::Import(i2) => {
                                if i2.0 < ib {
                                    assert(step_pre.hir.imports@[i2.0 as int]
                                        == pre.hir.imports@[i2.0 as int]);
                                } else {
                                    let k2 = i2.0 - ib;
                                    assert(import_matches_item(
                                        step_pre.hir.imports@[ib + k2],
                                        import_items(taken)[k2],
                                        root,
                                        ib + k2,
                                    ));
                                    lemma_items_take_prefix(items@, idx as int);
                                    assert(import_items(taken)[k2] == import_items(items@)[k2]);
                                }
                            },
                            Resolvable::Module(_) => {},
                        }
                        assert(step_pre.hir.spec_resolvable_span(prev) == binding_def_span(
                            pre.hir,
                            items@,
                            prev,
                        ));
                    }
                }
                match it.base {
                    ItemBase::Record(_) | ItemBase::Enum(_) => {
                        let nm = self.hir.types@.last().spec_name();
                        assert(nm == item_name(it));
                        assert(self.hir.types@.len() - 1 == tb + type_items(taken).len());
                    },
                    ItemBase::Import(_) => {
                        assert(self.hir.imports@.last().name == item_name(it));
                        assert(self.hir.imports@.len() - 1 == ib + import_items(taken).len());
                    },
                    ItemBase::Other => {},
                }
                assert(new_e == bindings_after(items@.take(idx + 1), e0, tb, ib));
                assert(duplicate_reports(pre.hir, items@, idx + 1, e0, tb, ib)
                    =~= if !(it.base is Other) && sp_e.contains_key(item_name(it).0.0) {
                    duplicate_reports(pre.hir, items@, idx as int, e0, tb, ib).push(
                        (item_name(it), binding_def_span(pre.hir, items@, sp_e[item_name(it).0.0])),
                    )
                } else {
                    duplicate_reports(pre.hir, items@, idx as int, e0, tb, ib)
                });
                let reports1 = duplicate_reports(pre.hir, items@, idx + 1, e0, tb, ib);
                assert(messages@.len() == old(messages)@.len() + reports1.len());
                assert forall|j: int| 0 <= j < reports1.len() implies is_duplicate_message(
                    messages@[old(messages)@.len() + j],
                    (#[trigger] reports1[j]).0,
                    reports1[j].1,
                ) by {
                    let reports0 = duplicate_reports(pre.hir, items@, idx as int, e0, tb, ib);
                    if j < reports0.len() {
                        assert(messages@[old(messages)@.len() + j] == msgs_pre[old(
                            messages,
                        )@.len() + j]);
                        assert(reports1[j] == reports0[j]);
                        assert(is_duplicate_message(
                            msgs_pre[old(messages)@.len() + j],
                            reports0[j].0,
                            reports0[j].1,
                        ));
                    } else {
                        assert(messages@[old(messages)@.len() + j] == messages@.last());
                    }
                }
            }
            idx = idx + 1;
        }
        proof {
            assert(items@.take(items@.len() as int) =~= items@);
        }
    }
}

/// Turns parsed record fields into deferred IR fields, in order.
fn lower_fields(items: &Vec<FieldItem>) -> (fields: Vec<Field>)
    ensures
        fields@ == fields_of(items@),
{
    let mut fields: Vec<Field> = Vec::new();
    let mut i: usize = 0;
    while i < items.len()
        invariant
            i <= items@.len(),
            fields@ == fields_of(items@.take(i as int)),
        decreases items@.len() - i,
    {
        let it = items[i];
        fields.push(Field { name: it.name, ty: FieldType::Named(it.ty) });
        proof {
            assert(fields@ =~= fields_of(items@.take(i + 1)));
        }
        i = i + 1;
    }
    proof {
        assert(items@.take(items@.len() as int) =~= items@);
    }
    fields
}

} // verus!
