//! What holds of every expansion, whatever the arguments and the trait.

use vstd::prelude::*;
use crate::catalog::{default_catalog, same_template};
use crate::config::{
    apply, apply_all, default_attributes, other_than, AttributesModel, DirectiveModel,
};
use crate::generator::{block_for, blocks, forwards, resolved_params, retained, usable};
use crate::error::ErrorModel;
use crate::grammar::{directives, settings};
use crate::impls_to_do::{analysis, demands_exclusive, fails_at, ImplsToDoModel};
use crate::item_attrs::{is_forcing, lemma_item_attributes};
use crate::lists::lemma_filter_places;
use crate::mask::count_ones;
use crate::model::{ItemModel, ItemTraitModel, TypeToImplModel};
use crate::resolve::{lemma_substitute_resolved, mentions};
use crate::token::Tree;

verus! {

/// Whether one of the descriptors has the template `ty`.
pub open spec fn has_template(types: Seq<TypeToImplModel>, ty: Seq<Tree>) -> bool {
    exists|i: int| 0 <= i < types.len() && same_template((#[trigger] types[i]).ty, ty)
}

/// Whether a directive takes the template `ty` away: it is `unimpl *`, or
/// `unimpl` of that template.
pub open spec fn removes(directive: DirectiveModel, ty: Seq<Tree>) -> bool {
    match directive {
        DirectiveModel::Clear => true,
        DirectiveModel::Remove(other) => same_template(other, ty),
        _ => false,
    }
}

/// Whether a directive names the template `ty`: it takes it away, or is an
/// `impl` of that template.
pub open spec fn mentions_template(directive: DirectiveModel, ty: Seq<Tree>) -> bool {
    match directive {
        DirectiveModel::Add(descriptor) => same_template(descriptor.ty, ty),
        _ => removes(directive, ty),
    }
}

/// Whether no directive of the list takes the template `ty` away.
pub open spec fn never_removed(list: Seq<DirectiveModel>, ty: Seq<Tree>) -> bool {
    forall|k: int| 0 <= k < list.len() ==> !removes(#[trigger] list[k], ty)
}

/// Whether no directive of the list names the template `ty` at all.
pub open spec fn never_named(list: Seq<DirectiveModel>, ty: Seq<Tree>) -> bool {
    forall|k: int| 0 <= k < list.len() ==> !mentions_template(#[trigger] list[k], ty)
}

/// A template that one directive does not take away is still there behind
/// that directive.
pub proof fn lemma_directive_keeps_template(
    start: AttributesModel,
    directive: DirectiveModel,
    ty: Seq<Tree>,
)
    requires
        has_template(start.types, ty),
        !removes(directive, ty),
    ensures
        has_template(apply(start, directive).types, ty),
{
    let i = choose|i: int|
        0 <= i < start.types.len() && same_template((#[trigger] start.types[i]).ty, ty);
    let out = apply(start, directive).types;
    match directive {
        DirectiveModel::Add(descriptor) => {
            if same_template(descriptor.ty, ty) {
                assert(same_template(out[out.len() - 1].ty, ty));
            } else {
                let keep = other_than(descriptor.ty);
                let places = lemma_filter_places(start.types, keep);
                assert(keep(start.types[i]));
                let k = choose|k: int| 0 <= k < places.len() && places[k] == i;
                assert(same_template(out[k].ty, ty));
            }
        },
        DirectiveModel::Remove(other) => {
            let keep = other_than(other);
            let places = lemma_filter_places(start.types, keep);
            assert(keep(start.types[i]));
            let k = choose|k: int| 0 <= k < places.len() && places[k] == i;
            assert(same_template(out[k].ty, ty));
        },
        _ => {
            assert(same_template(out[i].ty, ty));
        },
    }
}

/// A template that no directive of a list takes away is still there behind
/// the list.
pub proof fn lemma_unremoved_stays(
    start: AttributesModel,
    list: Seq<DirectiveModel>,
    ty: Seq<Tree>,
)
    requires
        has_template(start.types, ty),
        never_removed(list, ty),
    ensures
        has_template(apply_all(start, list).types, ty),
    decreases list.len(),
{
    if list.len() > 0 {
        let before = list.drop_last();
        assert forall|k: int| 0 <= k < before.len() implies !removes(#[trigger] before[k], ty) by {
            assert(before[k] == list[k]);
        }
        lemma_unremoved_stays(start, before, ty);
        lemma_directive_keeps_template(apply_all(start, before), list.last(), ty);
    }
}

/// A descriptor whose template no directive of a list names is still there
/// behind the list, as it was.
pub proof fn lemma_unnamed_stays(
    start: AttributesModel,
    list: Seq<DirectiveModel>,
    descriptor: TypeToImplModel,
)
    requires
        start.types.contains(descriptor),
        never_named(list, descriptor.ty),
    ensures
        apply_all(start, list).types.contains(descriptor),
    decreases list.len(),
{
    if list.len() > 0 {
        let before = list.drop_last();
        assert forall|k: int| 0 <= k < before.len() implies !mentions_template(
            #[trigger] before[k],
            descriptor.ty,
        ) by {
            assert(before[k] == list[k]);
        }
        lemma_unnamed_stays(start, before, descriptor);
        let middle = apply_all(start, before);
        let i = choose|i: int| 0 <= i < middle.types.len() && middle.types[i] == descriptor;
        let out = apply(middle, list.last()).types;
        assert(list.last() == list[list.len() - 1]);
        match list.last() {
            DirectiveModel::Add(added) => {
                let keep = other_than(added.ty);
                let places = lemma_filter_places(middle.types, keep);
                assert(keep(middle.types[i]));
                let k = choose|k: int| 0 <= k < places.len() && places[k] == i;
                assert(out[k] == descriptor);
            },
            DirectiveModel::Remove(other) => {
                let keep = other_than(other);
                let places = lemma_filter_places(middle.types, keep);
                assert(keep(middle.types[i]));
                let k = choose|k: int| 0 <= k < places.len() && places[k] == i;
                assert(out[k] == descriptor);
            },
            _ => {
                assert(out[i] == descriptor);
            },
        }
    }
}

/// Arguments that never say `unimpl *` leave every wrapper type of the
/// catalog in the settings, but for those that they `unimpl` one by one.
pub proof fn lemma_defaults_stay(arguments: Seq<Tree>, parking_lot: bool, i: int)
    requires
        0 <= i < default_catalog(parking_lot).len(),
        directives(arguments) matches Ok(list) && never_removed(
            list,
            default_catalog(parking_lot)[i].ty,
        ),
    ensures
        settings(arguments, parking_lot) matches Ok(attrs) && has_template(
            attrs.types,
            default_catalog(parking_lot)[i].ty,
        ),
{
    let list = directives(arguments)->Ok_0;
    let start = default_attributes(parking_lot);
    assert(same_template(start.types[i].ty, default_catalog(parking_lot)[i].ty));
    lemma_unremoved_stays(start, list, default_catalog(parking_lot)[i].ty);
}

/// Directives count in their order: after `unimpl` of a template and then
/// `impl` of it, the template is among the wrapper types; after `impl` and
/// then `unimpl`, it is not.
pub proof fn lemma_order_counts(start: AttributesModel, descriptor: TypeToImplModel)
    ensures
        has_template(
            apply(
                apply(start, DirectiveModel::Remove(descriptor.ty)),
                DirectiveModel::Add(descriptor),
            ).types,
            descriptor.ty,
        ),
        !has_template(
            apply(
                apply(start, DirectiveModel::Add(descriptor)),
                DirectiveModel::Remove(descriptor.ty),
            ).types,
            descriptor.ty,
        ),
{
    let first = apply(
        apply(start, DirectiveModel::Remove(descriptor.ty)),
        DirectiveModel::Add(descriptor),
    ).types;
    assert(same_template(first[first.len() - 1].ty, descriptor.ty));
    let added = apply(start, DirectiveModel::Add(descriptor)).types;
    let keep = other_than(descriptor.ty);
    let places = lemma_filter_places(added, keep);
    let second = added.filter(keep);
    assert forall|i: int| 0 <= i < second.len() implies !same_template(
        (#[trigger] second[i]).ty,
        descriptor.ty,
    ) by {
        assert(keep(added[places[i]]));
    }
}

/// Without arguments the settings are the defaults: the parameter is called
/// `T`, and the wrapper types are those of the catalog.
pub proof fn lemma_no_arguments(parking_lot: bool)
    ensures
        settings(Seq::empty(), parking_lot) == Ok::<AttributesModel, ErrorModel>(
            default_attributes(parking_lot),
        ),
{
}

/// `unimpl *` and then one `impl` leave exactly the wrapper type of that
/// `impl`, whatever the settings were before.
pub proof fn lemma_clear_then_add(start: AttributesModel, descriptor: TypeToImplModel)
    ensures
        apply_all(start, seq![DirectiveModel::Clear, DirectiveModel::Add(descriptor)]).types
            == seq![descriptor],
        apply_all(start, seq![DirectiveModel::Clear, DirectiveModel::Add(descriptor)]).types.len()
            == 1,
{
    reveal(Seq::filter);
    let list = seq![DirectiveModel::Clear, DirectiveModel::Add(descriptor)];
    assert(list.drop_last() =~= seq![DirectiveModel::Clear]);
    assert(list.drop_last().drop_last() =~= Seq::<DirectiveModel>::empty());
    let cleared = apply_all(start, list.drop_last());
    assert(cleared == apply(apply_all(start, list.drop_last().drop_last()), DirectiveModel::Clear));
    assert(cleared.types =~= Seq::<TypeToImplModel>::empty());
    assert(cleared.types.filter(other_than(descriptor.ty)) =~= Seq::<TypeToImplModel>::empty());
    assert(apply_all(start, list).types =~= seq![descriptor]);
}

/// Where a method of the trait takes `self` exclusively, every
/// implementation is for a wrapper type that can hand out exclusive access,
/// and each such wrapper type of the settings has one implementation, in
/// the order of the settings: the implementation at `k` is the one for the
/// wrapper type at `places[k]`.
pub proof fn lemma_exclusive_blocks(attrs: AttributesModel, todo: ImplsToDoModel) -> (places: Seq<
    int,
>)
    requires
        todo.requires_mutable,
    ensures
        places.len() == blocks(attrs, todo).len(),
        forall|k: int|
            0 <= k < places.len() ==> 0 <= #[trigger] places[k] < attrs.types.len()
                && attrs.types[places[k]].mutable && blocks(attrs, todo)[k] == block_for(
                attrs.types[places[k]],
                attrs.generic,
                todo,
            ),
        forall|k: int, l: int| 0 <= k < l < places.len() ==> places[k] < places[l],
        forall|i: int|
            0 <= i < attrs.types.len() && (#[trigger] attrs.types[i]).mutable ==> exists|k: int|
                0 <= k < places.len() && places[k] == i,
{
    let keep = usable(true);
    let places = lemma_filter_places(attrs.types, keep);
    assert forall|i: int|
        0 <= i < attrs.types.len() && (#[trigger] attrs.types[i]).mutable implies exists|k: int|
        0 <= k < places.len() && places[k] == i by {
        assert(keep(attrs.types[i]));
    }
    places
}

/// Where a trait can be handled, the bits of its mask are set as the kinds
/// of its items ask: for every associated type and constant, for no item of
/// no known kind, and for a method unless it has a default body and no
/// `include_impl` among its attributes.
pub proof fn lemma_mask(def: ItemTraitModel, i: int)
    requires
        analysis(def) is Ok,
        0 <= i < def.items.len(),
    ensures
        analysis(def)->Ok_0.item_mask.len() == def.items.len(),
        analysis(def)->Ok_0.item_mask[i] == match def.items[i] {
            ItemModel::Method(method) => !method.has_default || exists|k: int|
                0 <= k < method.attributes.len() && is_forcing(#[trigger] method.attributes[k]),
            ItemModel::Type(_) => true,
            ItemModel::Const(_) => true,
            ItemModel::Other(_) => false,
        },
{
    assert(!fails_at(def.items, i));
    match def.items[i] {
        ItemModel::Method(method) => {
            lemma_item_attributes(method.attributes, i as usize);
        },
        _ => {},
    }
}

/// What is to be done for a trait asks for exclusive access just where a
/// method of the trait takes `self` exclusively, forwarded or not.
pub proof fn lemma_requires_mutable(def: ItemTraitModel)
    requires
        analysis(def) is Ok,
    ensures
        analysis(def)->Ok_0.requires_mutable == exists|i: int|
            0 <= i < def.items.len() && demands_exclusive(#[trigger] def.items[i]),
        analysis(def)->Ok_0.well_formed(),
{
}

/// For a trait with a method that takes `self` exclusively, every
/// implementation is for a wrapper type that can hand out exclusive access,
/// and each such wrapper type of the settings has one implementation.
pub proof fn lemma_exclusive_trait(attrs: AttributesModel, def: ItemTraitModel, i: int) -> (places:
    Seq<int>)
    requires
        analysis(def) is Ok,
        0 <= i < def.items.len(),
        demands_exclusive(def.items[i]),
    ensures
        places.len() == blocks(attrs, analysis(def)->Ok_0).len(),
        forall|k: int|
            0 <= k < places.len() ==> 0 <= #[trigger] places[k] < attrs.types.len()
                && attrs.types[places[k]].mutable,
        forall|k: int, l: int| 0 <= k < l < places.len() ==> places[k] < places[l],
        forall|j: int|
            0 <= j < attrs.types.len() && (#[trigger] attrs.types[j]).mutable ==> exists|k: int|
                0 <= k < places.len() && places[k] == j,
{
    lemma_requires_mutable(def);
    lemma_exclusive_blocks(attrs, analysis(def)->Ok_0)
}

/// Where no method of the trait takes `self` exclusively, every wrapper type
/// of the settings has an implementation, in the order of the settings.
pub proof fn lemma_shared_blocks(attrs: AttributesModel, todo: ImplsToDoModel)
    requires
        !todo.requires_mutable,
    ensures
        blocks(attrs, todo).len() == attrs.types.len(),
        forall|k: int|
            0 <= k < attrs.types.len() ==> #[trigger] blocks(attrs, todo)[k] == block_for(
                attrs.types[k],
                attrs.generic,
                todo,
            ),
{
    let keep = usable(false);
    lemma_filter_all(attrs.types, keep);
}

/// A filter that every element passes changes nothing.
pub proof fn lemma_filter_all<A>(s: Seq<A>, keep: spec_fn(A) -> bool)
    requires
        forall|i: int| 0 <= i < s.len() ==> keep(#[trigger] s[i]),
    ensures
        s.filter(keep) == s,
    decreases s.len(),
{
    reveal(Seq::filter);
    if s.len() > 0 {
        assert forall|i: int| 0 <= i < s.drop_last().len() implies keep(
            #[trigger] s.drop_last()[i],
        ) by {
            assert(s.drop_last()[i] == s[i]);
        }
        lemma_filter_all(s.drop_last(), keep);
        assert(s.drop_last().push(s.last()) =~= s);
    }
}

/// Among the first `n` items, as many are forwarded as bits are set.
pub proof fn lemma_forwards_len(
    todo: ImplsToDoModel,
    t: Seq<char>,
    closure: Option<Seq<Tree>>,
    n: int,
)
    requires
        0 <= n <= todo.item_mask.len(),
    ensures
        forwards(todo, t, closure, n).len() == count_ones(todo.item_mask.subrange(0, n)),
    decreases n,
{
    if n > 0 {
        lemma_forwards_len(todo, t, closure, n - 1);
        assert(todo.item_mask.subrange(0, n).drop_last() =~= todo.item_mask.subrange(0, n - 1));
    }
}

/// Every implementation forwards as many items as the trait has items to
/// forward: as many as bits of the mask are set.
pub proof fn lemma_block_items(attrs: AttributesModel, todo: ImplsToDoModel, k: int)
    requires
        todo.well_formed(),
        0 <= k < blocks(attrs, todo).len(),
    ensures
        blocks(attrs, todo)[k].items.len() == count_ones(todo.item_mask),
{
    let n = todo.def.items.len() as int;
    lemma_forwards_len(todo, attrs.generic, retained(attrs, todo)[k].closure, n);
    assert(todo.item_mask.subrange(0, n) =~= todo.item_mask);
}

/// Nothing that stands in for the wrapped type is left in the header of an
/// implementation: no wildcard in the type that it is for, and no `Self` in
/// the bounds of its parameters and in its `where` clause, as long as the
/// wrapped type is not itself called `_` or `Self`.
pub proof fn lemma_block_resolved(
    descriptor: TypeToImplModel,
    t: Seq<char>,
    todo: ImplsToDoModel,
    i: int,
)
    requires
        0 <= i < todo.def.generics.len(),
    ensures
        t != "_"@ ==> !mentions(block_for(descriptor, t, todo).ty, "_"@),
        t != "Self"@ ==> !mentions(block_for(descriptor, t, todo).where_clause, "Self"@),
        t != "Self"@ ==> !mentions(resolved_params(todo.def.generics, t)[i].declaration, "Self"@),
{
    if t != "_"@ {
        lemma_substitute_resolved(descriptor.ty, "_"@, t);
    }
    if t != "Self"@ {
        lemma_substitute_resolved(todo.def.where_clause, "Self"@, t);
        lemma_substitute_resolved(todo.def.generics[i].declaration, "Self"@, t);
    }
}

} // verus!
