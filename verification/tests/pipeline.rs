use bumpalo::Bump;

use ohdlc::ast::{EnumItem, FieldItem, ImportItem, Item, ItemBase, RecordItem};
use ohdlc::hir::Hir;
use ohdlc::message::{MessageKind, Messages};
use ohdlc::modules::Modules;
use ohdlc::name_resolution::{flatten_imports, ImportResolution, Imports};
use ohdlc::refine::refine_types;
use ohdlc::resolving::{Resolvable, ResolvingScopes};
use ohdlc::rough::RoughLowering;
use ohdlc::symbol::{Ident, Span, Symbol};
use ohdlc::types::{FieldType, Type, TypeId, Types};

fn span(n: usize) -> Span {
    Span { start: n, end: n + 1 }
}

fn ident(sym: u32, at: usize) -> Ident {
    Ident(Symbol(sym), span(at))
}

fn fresh_hir<'hir>() -> Hir<'hir> {
    Hir {
        types: Types::new(),
        modules: Modules::new(),
        imports: Imports::new(),
        tr_scopes: ResolvingScopes::new(),
    }
}

fn record(name: Ident, fields: Vec<FieldItem>) -> Item {
    Item { base: ItemBase::Record(RecordItem { name, fields }) }
}

fn enumeration(name: Ident, variants: Vec<Ident>) -> Item {
    Item { base: ItemBase::Enum(EnumItem { name, variants }) }
}

fn import(name: Ident, target: Ident) -> Item {
    Item { base: ItemBase::Import(ImportItem { name, target }) }
}

#[test]
fn lookup_prefers_local_binding_over_ancestor() {
    let mut scopes = ResolvingScopes::new();
    let root = scopes.root;
    let child = scopes.sub_scope(root);
    assert!(scopes.bind(root, Symbol(7), Resolvable::Type(TypeId(0))).is_none());
    assert!(scopes.bind(child, Symbol(7), Resolvable::Type(TypeId(1))).is_none());
    let found = scopes.find_resolvable(child, &ident(7, 0)).copied();
    assert!(matches!(found, Some(Resolvable::Type(TypeId(1)))));
}

#[test]
fn lookup_falls_back_to_ancestor_binding() {
    let mut scopes = ResolvingScopes::new();
    let root = scopes.root;
    let child = scopes.sub_scope(root);
    let grandchild = scopes.sub_scope(child);
    assert!(scopes.bind(root, Symbol(9), Resolvable::Type(TypeId(4))).is_none());
    let found = scopes.find_resolvable(grandchild, &ident(9, 0)).copied();
    assert!(matches!(found, Some(Resolvable::Type(TypeId(4)))));
}

#[test]
fn lookup_unbound_everywhere_is_none() {
    let mut scopes = ResolvingScopes::new();
    let root = scopes.root;
    let child = scopes.sub_scope(root);
    assert!(scopes.find_resolvable(child, &ident(42, 0)).is_none());
}

#[test]
fn bind_keeps_first_binding_and_reports_existing() {
    let mut scopes = ResolvingScopes::new();
    let root = scopes.root;
    assert!(scopes.bind(root, Symbol(3), Resolvable::Module(ohdlc::modules::ModuleId(0))).is_none());
    let previous = scopes.bind(root, Symbol(3), Resolvable::Type(TypeId(5)));
    assert!(matches!(previous, Some(Resolvable::Module(ohdlc::modules::ModuleId(0)))));
    let found = scopes.find_resolvable(root, &ident(3, 0)).copied();
    assert!(matches!(found, Some(Resolvable::Module(ohdlc::modules::ModuleId(0)))));
}

#[test]
fn enum_and_record_lower_with_distinct_ids_and_no_diagnostics() {
    let arena = Bump::new();
    let mut lowering = RoughLowering { arena: &arena, hir: fresh_hir() };
    let mut messages = Messages::new();
    // enum Color { Red, Green, Blue } then record Pixel with no fields
    let items = vec![
        enumeration(ident(1, 0), vec![ident(2, 1), ident(3, 2), ident(4, 3)]),
        record(ident(5, 4), vec![]),
    ];
    lowering.lower(&items, &mut messages);
    assert_eq!(messages.len(), 0);
    assert_eq!(lowering.hir.types.len(), 2);
    let color = lowering.hir.types.get(TypeId(0));
    let pixel = lowering.hir.types.get(TypeId(1));
    assert!(color.id() != pixel.id());
    match color {
        Type::Enum(e) => {
            assert_eq!(e.name, ident(1, 99));
            assert_eq!(e.variants.len(), 3);
            assert_eq!(e.variants[0].ident, ident(2, 99));
            assert_eq!(e.variants[1].ident, ident(3, 99));
            assert_eq!(e.variants[2].ident, ident(4, 99));
        },
        _ => panic!("expected an enum declaration"),
    }
    match pixel {
        Type::Record(r) => {
            assert_eq!(r.name, ident(5, 99));
            assert_eq!(r.fields.len(), 0);
        },
        _ => panic!("expected a record declaration"),
    }
    // both names land in the root scope
    let root = lowering.hir.tr_scopes.root;
    let c = lowering.hir.tr_scopes.find_resolvable(root, &ident(1, 0)).copied();
    let p = lowering.hir.tr_scopes.find_resolvable(root, &ident(5, 0)).copied();
    assert!(matches!(c, Some(Resolvable::Type(TypeId(0)))));
    assert!(matches!(p, Some(Resolvable::Type(TypeId(1)))));
    // refinement leaves both unchanged (no references to resolve)
    let lookup = flatten_imports(&lowering.hir, &mut messages);
    let registry = refine_types(lowering.hir, &lookup, &mut messages);
    assert_eq!(messages.len(), 0);
    assert_eq!(registry.types.len(), 2);
    assert_eq!(registry.types.get(TypeId(0)).name(), ident(1, 99));
    assert_eq!(registry.types.get(TypeId(1)).name(), ident(5, 99));
    match registry.types.get(TypeId(0)) {
        Type::Enum(e) => {
            assert_eq!(e.variants.len(), 3);
            assert_eq!(e.variants[0].ident, ident(2, 99));
        },
        _ => panic!("expected an enum declaration"),
    }
    match registry.types.get(TypeId(1)) {
        Type::Record(r) => assert_eq!(r.fields.len(), 0),
        _ => panic!("expected a record declaration"),
    }
}

#[test]
fn duplicate_record_keeps_first_binding_but_registers_both() {
    let arena = Bump::new();
    let mut lowering = RoughLowering { arena: &arena, hir: fresh_hir() };
    let mut messages = Messages::new();
    // record A declared twice, at two different spans
    let items = vec![record(ident(1, 10), vec![]), record(ident(1, 20), vec![])];
    lowering.lower(&items, &mut messages);
    // both declarations got an id; the registry keeps both entries
    assert_eq!(lowering.hir.types.len(), 2);
    // the scope retains the first binding
    let root = lowering.hir.tr_scopes.root;
    let found = lowering.hir.tr_scopes.find_resolvable(root, &ident(1, 0)).copied();
    assert!(matches!(found, Some(Resolvable::Type(TypeId(0)))));
    // exactly one duplicate-declaration diagnostic referencing both spans
    let drained = messages.drain();
    assert_eq!(drained.len(), 1);
    assert_eq!(drained[0].kind, MessageKind::DuplicateDeclaration);
    assert_eq!(drained[0].name, Symbol(1));
    assert_eq!(drained[0].span, span(20));
    assert_eq!(drained[0].labels.len(), 1);
    assert_eq!(drained[0].labels[0].span, span(10));
    assert_eq!(messages.len(), 0);
}

#[test]
fn forward_reference_resolves_after_refinement() {
    let arena = Bump::new();
    let mut lowering = RoughLowering { arena: &arena, hir: fresh_hir() };
    let mut messages = Messages::new();
    // record A { f: B } before record B is declared
    let items = vec![
        record(ident(1, 0), vec![FieldItem { name: ident(2, 1), ty: ident(3, 2) }]),
        record(ident(3, 3), vec![]),
    ];
    lowering.lower(&items, &mut messages);
    let lookup = flatten_imports(&lowering.hir, &mut messages);
    let registry = refine_types(lowering.hir, &lookup, &mut messages);
    assert_eq!(messages.len(), 0);
    match registry.types.get(TypeId(0)) {
        Type::Record(r) => {
            assert_eq!(r.fields.len(), 1);
            assert_eq!(r.fields[0].name, ident(2, 99));
            assert!(matches!(r.fields[0].ty, FieldType::Resolved(TypeId(1))));
        },
        _ => panic!("expected a record declaration"),
    }
}

#[test]
fn unknown_field_type_is_diagnosed_and_left_unresolved() {
    let arena = Bump::new();
    let mut lowering = RoughLowering { arena: &arena, hir: fresh_hir() };
    let mut messages = Messages::new();
    let items = vec![record(ident(1, 0), vec![FieldItem { name: ident(2, 1), ty: ident(9, 2) }])];
    lowering.lower(&items, &mut messages);
    let lookup = flatten_imports(&lowering.hir, &mut messages);
    let registry = refine_types(lowering.hir, &lookup, &mut messages);
    let drained = messages.drain();
    assert_eq!(drained.len(), 1);
    assert_eq!(drained[0].kind, MessageKind::UnknownType);
    assert_eq!(drained[0].name, Symbol(9));
    match registry.types.get(TypeId(0)) {
        Type::Record(r) => assert!(matches!(r.fields[0].ty, FieldType::Unresolved)),
        _ => panic!("expected a record declaration"),
    }
}

#[test]
fn self_import_is_one_cycle_diagnostic() {
    let arena = Bump::new();
    let mut lowering = RoughLowering { arena: &arena, hir: fresh_hir() };
    let mut messages = Messages::new();
    // import A := A resolves to itself: a cycle of length one
    let items = vec![import(ident(1, 0), ident(1, 1))];
    lowering.lower(&items, &mut messages);
    let lookup = flatten_imports(&lowering.hir, &mut messages);
    let drained = messages.drain();
    assert_eq!(drained.len(), 1);
    assert_eq!(drained[0].kind, MessageKind::ImportCycle);
    assert_eq!(lookup.resolutions.len(), 1);
    assert!(matches!(lookup.resolutions[0], ImportResolution::Failed));
}

#[test]
fn two_import_cycle_is_one_cycle_diagnostic() {
    let arena = Bump::new();
    let mut lowering = RoughLowering { arena: &arena, hir: fresh_hir() };
    let mut messages = Messages::new();
    // import A := B and import B := A
    let items = vec![import(ident(1, 0), ident(2, 1)), import(ident(2, 2), ident(1, 3))];
    lowering.lower(&items, &mut messages);
    let lookup = flatten_imports(&lowering.hir, &mut messages);
    let drained = messages.drain();
    assert_eq!(drained.len(), 1);
    assert_eq!(drained[0].kind, MessageKind::ImportCycle);
    assert_eq!(drained[0].labels.len(), 2);
    assert!(matches!(lookup.resolutions[0], ImportResolution::Failed));
    assert!(matches!(lookup.resolutions[1], ImportResolution::Failed));
}

#[test]
fn acyclic_import_chain_resolves_to_final_target() {
    let arena = Bump::new();
    let mut lowering = RoughLowering { arena: &arena, hir: fresh_hir() };
    let mut messages = Messages::new();
    // record R; import A := R; import B := A; import C := B
    let items = vec![
        record(ident(1, 0), vec![]),
        import(ident(2, 1), ident(1, 2)),
        import(ident(3, 3), ident(2, 4)),
        import(ident(4, 5), ident(3, 6)),
    ];
    lowering.lower(&items, &mut messages);
    let lookup = flatten_imports(&lowering.hir, &mut messages);
    assert_eq!(messages.len(), 0);
    for i in 0..3 {
        match lookup.resolutions[i] {
            ImportResolution::Resolved(Resolvable::Type(t)) => assert_eq!(t, TypeId(0)),
            _ => panic!("import {i} should resolve to the record"),
        }
    }
    // a record field written through the deepest alias also resolves
    let mut messages2 = Messages::new();
    let mut lowering2 = RoughLowering { arena: &arena, hir: fresh_hir() };
    let items2 = vec![
        record(ident(1, 0), vec![]),
        import(ident(2, 1), ident(1, 2)),
        record(ident(5, 3), vec![FieldItem { name: ident(6, 4), ty: ident(2, 5) }]),
    ];
    lowering2.lower(&items2, &mut messages2);
    let lookup2 = flatten_imports(&lowering2.hir, &mut messages2);
    let registry2 = refine_types(lowering2.hir, &lookup2, &mut messages2);
    assert_eq!(messages2.len(), 0);
    match registry2.types.get(TypeId(1)) {
        Type::Record(r) => assert!(matches!(r.fields[0].ty, FieldType::Resolved(TypeId(0)))),
        _ => panic!("expected a record declaration"),
    }
}

#[test]
fn unresolved_import_is_diagnosed_once() {
    let arena = Bump::new();
    let mut lowering = RoughLowering { arena: &arena, hir: fresh_hir() };
    let mut messages = Messages::new();
    // import A := Missing, and import B := A failing for the same root cause
    let items = vec![import(ident(1, 0), ident(9, 1)), import(ident(2, 2), ident(1, 3))];
    lowering.lower(&items, &mut messages);
    let lookup = flatten_imports(&lowering.hir, &mut messages);
    let drained = messages.drain();
    assert_eq!(drained.len(), 1);
    assert_eq!(drained[0].kind, MessageKind::UnresolvedImport);
    assert_eq!(drained[0].name, Symbol(9));
    assert!(matches!(lookup.resolutions[0], ImportResolution::Failed));
    assert!(matches!(lookup.resolutions[1], ImportResolution::Failed));
}

#[test]
fn registry_insert_with_passes_the_reserved_key() {
    let mut types: Types = Types::new();
    let id = types.insert_with(|type_id: TypeId| {
        Type::Entity(ohdlc::types::Entity { type_id, name: ident(1, 0) })
    });
    assert_eq!(id, TypeId(0));
    assert_eq!(types.get(id).id(), TypeId(0));
    assert_eq!(types.get(id).name(), ident(1, 99));
    let second = types.insert(Type::Entity(ohdlc::types::Entity {
        type_id: TypeId(1),
        name: ident(2, 1),
    }));
    assert_eq!(second, TypeId(1));
    assert_eq!(types.len(), 2);
}

#[test]
fn message_sink_drains_in_insertion_order() {
    let mut messages = Messages::new();
    messages.report(ohdlc::message::Message::unresolved_import(Symbol(1), span(0)));
    messages.report(ohdlc::message::Message::unknown_type(Symbol(2), span(1)));
    assert_eq!(messages.len(), 2);
    let drained = messages.drain();
    assert_eq!(drained.len(), 2);
    assert_eq!(drained[0].kind, MessageKind::UnresolvedImport);
    assert_eq!(drained[1].kind, MessageKind::UnknownType);
    assert_eq!(drained[0].headline(), "unresolved import");
    assert_eq!(drained[1].headline(), "unknown type");
    assert_eq!(messages.len(), 0);
}

#[test]
fn other_items_are_accepted_as_no_ops() {
    let arena = Bump::new();
    let mut lowering = RoughLowering { arena: &arena, hir: fresh_hir() };
    let mut messages = Messages::new();
    let items = vec![Item { base: ItemBase::Other }, record(ident(1, 0), vec![])];
    lowering.lower(&items, &mut messages);
    assert_eq!(lowering.hir.types.len(), 1);
    assert_eq!(messages.len(), 0);
}

#[test]
fn module_registry_hands_out_consistent_keys() {
    let mut scopes = ResolvingScopes::new();
    let child = scopes.sub_scope(scopes.root);
    let mut modules = Modules::new();
    let id = modules.insert(ident(8, 0), child);
    assert_eq!(id, ohdlc::modules::ModuleId(0));
    let module = modules.get(id);
    assert_eq!(module.module_id, id);
    assert_eq!(module.name, ident(8, 99));
    assert_eq!(module.scope, child);
    assert_eq!(modules.len(), 1);
}

#[test]
fn name_lookup_compresses_imports_to_concrete_targets() {
    let arena = Bump::new();
    let mut lowering = RoughLowering { arena: &arena, hir: fresh_hir() };
    let mut messages = Messages::new();
    // record R; import A := R
    let items = vec![record(ident(1, 0), vec![]), import(ident(2, 1), ident(1, 2))];
    lowering.lower(&items, &mut messages);
    let lookup = flatten_imports(&lowering.hir, &mut messages);
    let root = lowering.hir.tr_scopes.root;
    // the alias resolves through the table to the record, never to an import
    let through_alias = lookup.resolve(&lowering.hir, root, &ident(2, 0));
    assert!(matches!(through_alias, Some(Resolvable::Type(TypeId(0)))));
    // the record's own name resolves directly
    let direct = lookup.resolve(&lowering.hir, root, &ident(1, 0));
    assert!(matches!(direct, Some(Resolvable::Type(TypeId(0)))));
    // an unbound name resolves to nothing
    assert!(lookup.resolve(&lowering.hir, root, &ident(9, 0)).is_none());
}
