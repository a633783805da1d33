use vstd::prelude::*;

use crate::hir::Hir;
use crate::message::{Message, MessageKind, Messages};
use crate::modules::Modules;
use crate::name_resolution::NameLookup;
use crate::resolving::{Resolvable, ScopeId};
use crate::types::{Field, FieldType, Record, Type, Types};

verus! {

/// What the pipeline hands to the backend: the two finalized, append-only
/// stores, addressable by `ModuleId` and `TypeId`, with no dangling id
/// between them.
#[derive(Debug)]
pub struct Registry<'hir> {
    pub modules: Modules,
    pub types: Types<'hir>,
}

/// How one record field comes out of refinement: a written name that the
/// finalized lookup resolves to a type declaration is substituted by that
/// declaration's id; a name that resolves to anything else — nothing, a
/// module, or an import left unresolved by flattening — becomes the
/// `Unresolved` sentinel (and is diagnosed). The field's own name is kept.
pub open spec fn refined_field<'hir>(
    hir: Hir<'hir>,
    lookup: NameLookup,
    scope: ScopeId,
    old_f: Field,
    new_f: Field,
) -> bool {
    &&& new_f.name == old_f.name
    &&& match old_f.ty {
        FieldType::Named(n) => match lookup.spec_resolve(hir, scope.0 as int, n.0) {
            Some(Resolvable::Type(t)) => new_f.ty == FieldType::Resolved(t),
            _ => new_f.ty is Unresolved,
        },
        _ => new_f.ty == old_f.ty,
    }
}

/// How one declaration comes out of refinement: entities and enums pass
/// through unchanged (enums were complete from rough lowering on); a record
/// keeps its id, name and scope and has every field refined.
pub open spec fn refined_decl<'hir>(
    hir: Hir<'hir>,
    lookup: NameLookup,
    old_t: Type<'hir>,
    new_t: Type<'hir>,
) -> bool {
    match old_t {
        Type::Record(r) => new_t matches Type::Record(r2) && r2.type_id == r.type_id && r2.name
            == r.name && r2.scope == r.scope && r2.fields@.len() == r.fields@.len() && (forall|
            j: int,
        |
            0 <= j < r.fields@.len() ==> refined_field(
                hir,
                lookup,
                r.scope,
                r.fields@[j],
                r2.fields@[j],
            )),
        _ => new_t == old_t,
    }
}

/// The written names in one record's fields that do not resolve to a type,
/// in field order: refinement diagnoses exactly these, one report each.
pub open spec fn unknown_fields<'hir>(
    hir: Hir<'hir>,
    lookup: NameLookup,
    scope: ScopeId,
    fields: Seq<Field>,
) -> Seq<crate::symbol::Ident>
    decreases fields.len(),
{
    if fields.len() == 0 {
        Seq::empty()
    } else {
        let done = unknown_fields(hir, lookup, scope, fields.drop_last());
        match fields.last().ty {
            FieldType::Named(n) => match lookup.spec_resolve(hir, scope.0 as int, n.0) {
                Some(Resolvable::Type(_)) => done,
                _ => done.push(n),
            },
            _ => done,
        }
    }
}

/// The unknown names over the first `k` declarations of a registry, in
/// declaration-then-field order: what a whole refinement pass diagnoses.
pub open spec fn unknown_in_types<'hir>(
    hir: Hir<'hir>,
    lookup: NameLookup,
    types: Seq<Type<'hir>>,
    k: int,
) -> Seq<crate::symbol::Ident>
    decreases k,
{
    if k <= 0 || k > types.len() {
        Seq::empty()
    } else {
        let done = unknown_in_types(hir, lookup, types, k - 1);
        match types[k - 1] {
            Type::Record(r) => done + unknown_fields(hir, lookup, r.scope, r.fields@),
            _ => done,
        }
    }
}

/// The one diagnostic an unresolvable field type produces: it names the
/// written identifier and points at its span.
pub open spec fn is_unknown_type_message(m: Message, name: crate::symbol::Ident) -> bool {
    &&& m.kind == MessageKind::UnknownType
    &&& m.name == name.0
    &&& m.span == name.1
    &&& m.labels@ == Seq::<crate::message::Label>::empty()
}

/// Refines one record's fields against the finalized lookup, reporting one
/// unknown-type diagnostic per field whose written name does not resolve to
/// a type, and never giving up on the rest of the record.
#[verifier::loop_isolation(false)]
fn refine_fields<'hir>(
    hir: &Hir<'hir>,
    lookup: &NameLookup,
    scope: ScopeId,
    fields: &Vec<Field>,
    messages: &mut Messages,
) -> (out: Vec<Field>)
    requires
        hir.wf(),
        lookup.wf(*hir),
        scope.0 < hir.tr_scopes.scopes@.len(),
    ensures
        out@.len() == fields@.len(),
        forall|j: int|
            0 <= j < out@.len() ==> refined_field(*hir, *lookup, scope, fields@[j], out@[j]),
        final(messages)@.len() == old(messages)@.len() + unknown_fields(
            *hir,
            *lookup,
            scope,
            fields@,
        ).len(),
        forall|j: int| 0 <= j < old(messages)@.len() ==> final(messages)@[j] == old(messages)@[j],
        ({
            let unknown = unknown_fields(*hir, *lookup, scope, fields@);
            forall|j: int|
                0 <= j < unknown.len() ==> is_unknown_type_message(
                    final(messages)@[old(messages)@.len() + j],
                    #[trigger] unknown[j],
                )
        }),
{
    let mut out: Vec<Field> = Vec::new();
    let mut j: usize = 0;
    while j < fields.len()
        invariant
            j <= fields@.len(),
            out@.len() == j,
            forall|k: int|
                0 <= k < j ==> refined_field(*hir, *lookup, scope, fields@[k], out@[k]),
            messages@.len() == old(messages)@.len() + unknown_fields(
                *hir,
                *lookup,
                scope,
                fields@.take(j as int),
            ).len(),
            forall|k: int| 0 <= k < old(messages)@.len() ==> messages@[k] == old(messages)@[k],
            ({
                let unknown = unknown_fields(*hir, *lookup, scope, fields@.take(j as int));
                forall|k: int|
                    0 <= k < unknown.len() ==> is_unknown_type_message(
                        messages@[old(messages)@.len() + k],
                        #[trigger] unknown[k],
                    )
            }),
        decreases fields@.len() - j,
    {
        let f = fields[j];
        let ty = match f.ty {
            FieldType::Named(n) => {
                match lookup.resolve(hir, scope, &n) {
                    Some(Resolvable::Type(t)) => FieldType::Resolved(t),
                    _ => {
                        messages.report(Message::unknown_type(n.0, n.1));
                        FieldType::Unresolved
                    },
                }
            },
            other => other,
        };
        out.push(Field { name: f.name, ty });
        proof {
            assert(fields@.take(j + 1).drop_last() =~= fields@.take(j as int));
            assert(fields@.take(j + 1).last() == fields@[j as int]);
        }
        j = j + 1;
    }
    proof {
        assert(fields@.take(fields@.len() as int) =~= fields@);
    }
    out
}

/// Type refinement, the third pipeline stage: a second, final pass over the
/// rough type registry that substitutes every deferred field name with the
/// id the finalized lookup resolves it to (or the unresolved sentinel, with
/// a diagnostic). The refined registry has a 1:1 `TypeId` correspondence
/// with the rough one — same length, same id and same name at every key —
/// so every key handed out by rough lowering stays valid and addresses the
/// same logical declaration.
#[verifier::loop_isolation(false)]
pub fn refine_types<'hir>(hir: Hir<'hir>, lookup: &NameLookup, messages: &mut Messages) -> (registry:
    Registry<'hir>)
    requires
        hir.wf(),
        lookup.wf(hir),
    ensures
        registry.modules == hir.modules,
        registry.types.wf(),
        registry.types@.len() == hir.types@.len(),
        forall|i: int|
            0 <= i < registry.types@.len() ==> (#[trigger] registry.types@[i]).spec_id()
                == hir.types@[i].spec_id() && registry.types@[i].spec_name()
                == hir.types@[i].spec_name(),
        forall|i: int|
            0 <= i < registry.types@.len() ==> refined_decl(
                hir,
                *lookup,
                hir.types@[i],
                #[trigger] registry.types@[i],
            ),
        final(messages)@.len() == old(messages)@.len() + unknown_in_types(
            hir,
            *lookup,
            hir.types@,
            hir.types@.len() as int,
        ).len(),
        forall|j: int| 0 <= j < old(messages)@.len() ==> final(messages)@[j] == old(messages)@[j],
        ({
            let unknown = unknown_in_types(hir, *lookup, hir.types@, hir.types@.len() as int);
            forall|j: int|
                0 <= j < unknown.len() ==> is_unknown_type_message(
                    final(messages)@[old(messages)@.len() + j],
                    #[trigger] unknown[j],
                )
        }),
{
    let n = hir.types.len();
    let mut refined: Types<'hir> = Types::new();
    let mut i: usize = 0;
    let hir_ref = &hir;
    while i < n
        invariant
            i <= n,
            n == hir.types@.len(),
            refined.wf(),
            refined@.len() == i,
            forall|k: int|
                0 <= k < i ==> (#[trigger] refined@[k]).spec_id() == hir.types@[k].spec_id()
                    && refined@[k].spec_name() == hir.types@[k].spec_name(),
            forall|k: int|
                0 <= k < i ==> refined_decl(hir, *lookup, hir.types@[k], #[trigger] refined@[k]),
            messages@.len() == old(messages)@.len() + unknown_in_types(
                hir,
                *lookup,
                hir.types@,
                i as int,
            ).len(),
            forall|k: int| 0 <= k < old(messages)@.len() ==> messages@[k] == old(messages)@[k],
            ({
                let unknown = unknown_in_types(hir, *lookup, hir.types@, i as int);
                forall|k: int|
                    0 <= k < unknown.len() ==> is_unknown_type_message(
                        messages@[old(messages)@.len() + k],
                        #[trigger] unknown[k],
                    )
            }),
        decreases n - i,
    {
        let ty = hir_ref.types.get(crate::types::TypeId(i));
        match ty {
            Type::Entity(e) => {
                refined.insert(Type::Entity(*e));
            },
            Type::Enum(en) => {
                refined.insert(Type::Enum(*en));
            },
            Type::Record(r) => {
                let ghost msgs_pre = messages@;
                let fields = refine_fields(hir_ref, lookup, r.scope, &r.fields, messages);
                proof {
                    let done = unknown_in_types(hir, *lookup, hir.types@, i as int);
                    let here = unknown_fields(hir, *lookup, r.scope, r.fields@);
                    assert(unknown_in_types(hir, *lookup, hir.types@, i + 1) == done + here);
                    assert forall|k: int|
                        0 <= k < (done + here).len() implies is_unknown_type_message(
                        messages@[old(messages)@.len() + k],
                        #[trigger] (done + here)[k],
                    ) by {
                        if k < done.len() {
                            assert((done + here)[k] == done[k]);
                            assert(messages@[old(messages)@.len() + k] == msgs_pre[old(
                                messages,
                            )@.len() + k]);
                        } else {
                            assert((done + here)[k] == here[k - done.len()]);
                            assert(messages@[msgs_pre.len() + (k - done.len())]
                                == messages@[old(messages)@.len() + k]);
                        }
                    }
                }
                refined.insert(
                    Type::Record(
                        Record { type_id: r.type_id, name: r.name, scope: r.scope, fields },
                    ),
                );
            },
        }
        i = i + 1;
    }
    Registry { modules: hir.modules, types: refined }
}

} // verus!
