//! The name of the parameter for the wrapped type is only a name: with
//! another name, an expansion is the same but for that name.
//!
//! This is shown twice. Whatever the names are, two expansions under two
//! names differ only where the first has the one name and the second the
//! other ([`lemma_rename_only`]). And every expansion is one skeleton with
//! the name filled in: the expansion under a word that is new to the trait
//! and the wrapper types, with the name for that word
//! ([`lemma_rename_expansion`]).

use vstd::prelude::*;
use crate::catalog::path_separator;
use crate::config::AttributesModel;
use crate::generator::{
    attribute_tokens, block_for, block_tokens, blocks, call_arguments, constant_value,
    declaration, declared_items, expansion, forwarded, forwarded_const,
    forwarded_method, forwarded_type, forwarding_call, forwards, item_path, no_lifetime,
    qualified, receiver_argument, resolved_params, retained, turbofish, written_blocks,
};
use crate::impls_to_do::ImplsToDoModel;
use crate::inject::{declarations, injected, names, of_kind, trait_path, wrapped_param};
use crate::item_attrs::ItemAttributesModel;
use crate::lists::{angle_bracketed, concat, lemma_filter_places, separated};
use crate::model::{
    AssociatedConstModel, AssociatedTypeModel, GenericParamModel, ItemModel, ItemTraitModel,
    MethodModel, ParamKind, TypeToImplModel,
};
use crate::resolve::{behind_tick, substitute, substitute_tree};
use crate::token::{Delimiter, Tree};

verus! {

/// One tree with the word `to` for every word `from`.
pub open spec fn rename_tree(tree: Tree, from: Seq<char>, to: Seq<char>) -> Tree
    decreases tree,
{
    match tree {
        Tree::Word(w) => if w == from {
            Tree::Word(to)
        } else {
            tree
        },
        Tree::Group(d, inner) => Tree::Group(
            d,
            Seq::new(
                inner.len(),
                |i: int|
                    if 0 <= i < inner.len() {
                        rename_tree(inner[i], from, to)
                    } else {
                        tree
                    },
            ),
        ),
        _ => tree,
    }
}

/// The trees with the word `to` for every word `from`, at any depth.
pub open spec fn renamed(trees: Seq<Tree>, from: Seq<char>, to: Seq<char>) -> Seq<Tree> {
    Seq::new(trees.len(), |i: int| rename_tree(trees[i], from, to))
}

/// Each run of trees with the word `to` for every word `from`.
pub open spec fn renamed_runs(runs: Seq<Seq<Tree>>, from: Seq<char>, to: Seq<char>) -> Seq<
    Seq<Tree>,
> {
    Seq::new(runs.len(), |i: int| renamed(runs[i], from, to))
}

/// Whether the word stands somewhere in the tree.
pub open spec fn tree_holds(tree: Tree, word: Seq<char>) -> bool
    decreases tree,
{
    match tree {
        Tree::Word(w) => w == word,
        Tree::Group(d, inner) => exists|i: int|
            0 <= i < inner.len() && tree_holds(#[trigger] inner[i], word),
        _ => false,
    }
}

/// Whether the word stands somewhere in the trees, at any depth.
pub open spec fn holds(trees: Seq<Tree>, word: Seq<char>) -> bool {
    exists|i: int| 0 <= i < trees.len() && tree_holds(#[trigger] trees[i], word)
}

/// Whether the word stands in none of the runs.
pub open spec fn free_of(runs: Seq<Seq<Tree>>, word: Seq<char>) -> bool {
    forall|i: int| 0 <= i < runs.len() ==> !holds(#[trigger] runs[i], word)
}

/// A group is renamed member by member.
pub proof fn lemma_rename_group(d: Delimiter, inner: Seq<Tree>, from: Seq<char>, to: Seq<char>)
    ensures
        rename_tree(Tree::Group(d, inner), from, to) == Tree::Group(d, renamed(inner, from, to)),
{
    assert(rename_tree(Tree::Group(d, inner), from, to)->Group_1 =~= renamed(inner, from, to));
}

/// Renaming a word that a tree does not hold changes nothing.
pub proof fn lemma_rename_tree_absent(tree: Tree, from: Seq<char>, to: Seq<char>)
    requires
        !tree_holds(tree, from),
    ensures
        rename_tree(tree, from, to) == tree,
    decreases tree,
{
    match tree {
        Tree::Group(d, inner) => {
            lemma_rename_group(d, inner, from, to);
            assert forall|i: int| 0 <= i < inner.len() implies renamed(inner, from, to)[i]
                == inner[i] by {
                if tree_holds(inner[i], from) {
                    assert(tree_holds(tree, from));
                }
                lemma_rename_tree_absent(inner[i], from, to);
            }
            assert(renamed(inner, from, to) =~= inner);
        },
        _ => {},
    }
}

/// Renaming a word that the trees do not hold changes nothing.
pub proof fn lemma_rename_absent(trees: Seq<Tree>, from: Seq<char>, to: Seq<char>)
    requires
        !holds(trees, from),
    ensures
        renamed(trees, from, to) == trees,
{
    assert forall|i: int| 0 <= i < trees.len() implies renamed(trees, from, to)[i] == trees[i] by {
        if tree_holds(trees[i], from) {
            assert(holds(trees, from));
        }
        lemma_rename_tree_absent(trees[i], from, to);
    }
    assert(renamed(trees, from, to) =~= trees);
}

/// Renaming a word that no run holds changes no run.
pub proof fn lemma_rename_runs_absent(runs: Seq<Seq<Tree>>, from: Seq<char>, to: Seq<char>)
    requires
        free_of(runs, from),
    ensures
        renamed_runs(runs, from, to) == runs,
{
    assert forall|i: int| 0 <= i < runs.len() implies renamed_runs(runs, from, to)[i]
        == runs[i] by {
        lemma_rename_absent(runs[i], from, to);
    }
    assert(renamed_runs(runs, from, to) =~= runs);
}

/// Two runs one after another are renamed each for itself.
pub proof fn lemma_rename_add(a: Seq<Tree>, b: Seq<Tree>, from: Seq<char>, to: Seq<char>)
    ensures
        renamed(a + b, from, to) == renamed(a, from, to) + renamed(b, from, to),
{
    assert(renamed(a + b, from, to) =~= renamed(a, from, to) + renamed(b, from, to));
}

/// Runs joined are renamed each for itself.
pub proof fn lemma_rename_concat(parts: Seq<Seq<Tree>>, from: Seq<char>, to: Seq<char>)
    ensures
        renamed(concat(parts), from, to) == concat(renamed_runs(parts, from, to)),
    decreases parts.len(),
{
    let out = renamed_runs(parts, from, to);
    if parts.len() > 0 {
        lemma_rename_concat(parts.drop_last(), from, to);
        lemma_rename_add(concat(parts.drop_last()), parts.last(), from, to);
        assert(out.drop_last() =~= renamed_runs(parts.drop_last(), from, to));
    } else {
        assert(renamed(concat(parts), from, to) =~= Seq::<Tree>::empty());
    }
}

/// Runs joined by commas are renamed each for itself.
pub proof fn lemma_rename_separated(parts: Seq<Seq<Tree>>, from: Seq<char>, to: Seq<char>)
    ensures
        renamed(separated(parts), from, to) == separated(renamed_runs(parts, from, to)),
    decreases parts.len(),
{
    let out = renamed_runs(parts, from, to);
    if parts.len() > 1 {
        lemma_rename_separated(parts.drop_last(), from, to);
        let comma = seq![Tree::Mark(',', false)];
        lemma_rename_add(separated(parts.drop_last()) + comma, parts.last(), from, to);
        lemma_rename_add(separated(parts.drop_last()), comma, from, to);
        assert(renamed(comma, from, to) =~= comma);
        assert(out.drop_last() =~= renamed_runs(parts.drop_last(), from, to));
    } else if parts.len() == 0 {
        assert(renamed(separated(parts), from, to) =~= Seq::<Tree>::empty());
    }
}

/// Runs in angle brackets are renamed each for itself.
pub proof fn lemma_rename_angle_bracketed(parts: Seq<Seq<Tree>>, from: Seq<char>, to: Seq<char>)
    ensures
        renamed(angle_bracketed(parts), from, to) == angle_bracketed(
            renamed_runs(parts, from, to),
        ),
{
    if parts.len() > 0 {
        lemma_rename_separated(parts, from, to);
        let open = seq![Tree::Mark('<', false)];
        let close = seq![Tree::Mark('>', false)];
        lemma_rename_add(open + separated(parts), close, from, to);
        lemma_rename_add(open, separated(parts), from, to);
        assert(renamed(open, from, to) =~= open);
        assert(renamed(close, from, to) =~= close);
    } else {
        assert(renamed(angle_bracketed(parts), from, to) =~= Seq::<Tree>::empty());
    }
}

/// A tree in which a stand-in was resolved to one name, renamed to another,
/// is the tree with the stand-in resolved to the other name.
pub proof fn lemma_rename_resolved_tree(
    tree: Tree,
    lifetime: bool,
    target: Seq<char>,
    from: Seq<char>,
    to: Seq<char>,
)
    requires
        !tree_holds(tree, from),
    ensures
        rename_tree(substitute_tree(tree, lifetime, target, from), from, to) == substitute_tree(
            tree,
            lifetime,
            target,
            to,
        ),
    decreases tree,
{
    match tree {
        Tree::Group(d, inner) => {
            crate::resolve::lemma_substitute_group(d, inner, lifetime, target, from);
            crate::resolve::lemma_substitute_group(d, inner, lifetime, target, to);
            lemma_rename_group(d, substitute(inner, target, from), from, to);
            assert forall|i: int| 0 <= i < inner.len() implies renamed(
                substitute(inner, target, from),
                from,
                to,
            )[i] == substitute(inner, target, to)[i] by {
                if tree_holds(inner[i], from) {
                    assert(tree_holds(tree, from));
                }
                lemma_rename_resolved_tree(inner[i], behind_tick(inner, i), target, from, to);
            }
            assert(renamed(substitute(inner, target, from), from, to) =~= substitute(
                inner,
                target,
                to,
            ));
        },
        _ => {},
    }
}

/// Trees in which a stand-in was resolved to one name, renamed to another,
/// are the trees with the stand-in resolved to the other name.
pub proof fn lemma_rename_resolved(
    trees: Seq<Tree>,
    target: Seq<char>,
    from: Seq<char>,
    to: Seq<char>,
)
    requires
        !holds(trees, from),
    ensures
        renamed(substitute(trees, target, from), from, to) == substitute(trees, target, to),
{
    assert forall|i: int| 0 <= i < trees.len() implies renamed(
        substitute(trees, target, from),
        from,
        to,
    )[i] == substitute(trees, target, to)[i] by {
        if tree_holds(trees[i], from) {
            assert(holds(trees, from));
        }
        lemma_rename_resolved_tree(trees[i], behind_tick(trees, i), target, from, to);
    }
    assert(renamed(substitute(trees, target, from), from, to) =~= substitute(trees, target, to));
}

/// Whether the word stands in no declaration and no name of the parameters.
pub open spec fn free_params(params: Seq<GenericParamModel>, word: Seq<char>) -> bool {
    forall|i: int|
        0 <= i < params.len() ==> !holds((#[trigger] params[i]).declaration, word) && !holds(
            params[i].name,
            word,
        )
}

/// Whether the word stands nowhere in an item and in what its attributes
/// say, and is not the name of the item.
pub open spec fn free_item(item: ItemModel, attributes: ItemAttributesModel, word: Seq<char>)
    -> bool {
    &&& free_of(attributes.kept, word)
    &&& attributes.generics matches Some(arguments) ==> !holds(arguments, word)
    &&& match item {
        ItemModel::Method(method) => {
            &&& method.name != word
            &&& !holds(method.source, word)
            &&& !holds(method.signature, word)
            &&& free_params(method.generics, word)
            &&& free_of(method.arguments, word)
        },
        ItemModel::Type(ty) => {
            &&& ty.name != word
            &&& !holds(ty.source, word)
            &&& free_params(ty.generics, word)
            &&& !holds(ty.where_clause, word)
        },
        ItemModel::Const(constant) => {
            &&& constant.name != word
            &&& !holds(constant.source, word)
            &&& !holds(constant.ty, word)
            &&& constant.default matches Some(value) ==> !holds(value, word)
        },
        ItemModel::Other(source) => !holds(source, word),
    }
}

/// Whether the word stands nowhere in the head of a trait, and is not the
/// name of the trait.
pub open spec fn free_head(def: ItemTraitModel, word: Seq<char>) -> bool {
    &&& def.name != word
    &&& !holds(def.head, word)
    &&& free_params(def.generics, word)
    &&& !holds(def.where_clause, word)
    &&& !holds(def.inner, word)
}

/// Whether the word stands nowhere in a trait and in what the attributes of
/// its items say.
pub open spec fn free_trait(todo: ImplsToDoModel, word: Seq<char>) -> bool {
    &&& free_head(todo.def, word)
    &&& forall|i: int|
        0 <= i < todo.def.items.len() ==> free_item(
            #[trigger] todo.def.items[i],
            todo.item_attrs[i],
            word,
        )
}

/// Whether the word stands nowhere in a descriptor.
pub open spec fn free_descriptor(descriptor: TypeToImplModel, word: Seq<char>) -> bool {
    &&& !holds(descriptor.ty, word)
    &&& free_params(descriptor.generics, word)
    &&& descriptor.closure matches Some(accessor) ==> !holds(accessor, word)
}

/// Whether the word is none of those that every implementation is written
/// with.
pub open spec fn unreserved(word: Seq<char>) -> bool {
    &&& word != "impl"@
    &&& word != "for"@
    &&& word != "as"@
    &&& word != "self"@
    &&& word != "const"@
    &&& word != "type"@
}

/// Whether the word is new to an expansion: it stands nowhere in the trait
/// and in the wrapper types, and an implementation is not written with it.
pub open spec fn is_new(attrs: AttributesModel, todo: ImplsToDoModel, word: Seq<char>) -> bool {
    &&& unreserved(word)
    &&& free_trait(todo, word)
    &&& forall|k: int|
        0 <= k < attrs.types.len() ==> free_descriptor(#[trigger] attrs.types[k], word)
}

/// A tree alone is renamed as a tree.
pub proof fn lemma_rename_one(tree: Tree, from: Seq<char>, to: Seq<char>)
    ensures
        renamed(seq![tree], from, to) == seq![rename_tree(tree, from, to)],
{
    assert(renamed(seq![tree], from, to) =~= seq![rename_tree(tree, from, to)]);
}

/// The names and the declarations of parameters that do not hold a word do
/// not hold it.
pub proof fn lemma_free_params(params: Seq<GenericParamModel>, word: Seq<char>)
    requires
        free_params(params, word),
    ensures
        free_of(names(params), word),
        free_of(declarations(params), word),
{
    assert forall|i: int| 0 <= i < params.len() implies !holds(#[trigger] names(params)[i], word) by {
        assert(!holds(params[i].name, word));
    }
    assert forall|i: int| 0 <= i < params.len() implies !holds(
        #[trigger] declarations(params)[i],
        word,
    ) by {
        assert(!holds(params[i].declaration, word));
    }
}

/// Parameters picked from parameters that do not hold a word do not hold it.
pub proof fn lemma_free_filter(
    params: Seq<GenericParamModel>,
    keep: spec_fn(GenericParamModel) -> bool,
    word: Seq<char>,
)
    requires
        free_params(params, word),
    ensures
        free_params(params.filter(keep), word),
{
    let places = lemma_filter_places(params, keep);
    let kept = params.filter(keep);
    assert forall|i: int| 0 <= i < kept.len() implies !holds(
        (#[trigger] kept[i]).declaration,
        word,
    ) && !holds(kept[i].name, word) by {
        assert(params[places[i]] == kept[i]);
    }
}

/// The path of a trait that does not hold a word is not changed by renaming
/// the word.
pub proof fn lemma_rename_trait_path(def: ItemTraitModel, from: Seq<char>, to: Seq<char>)
    requires
        free_head(def, from),
    ensures
        renamed(trait_path(def.name, def.generics), from, to) == trait_path(def.name, def.generics),
{
    lemma_free_params(def.generics, from);
    lemma_rename_angle_bracketed(names(def.generics), from, to);
    lemma_rename_runs_absent(names(def.generics), from, to);
    lemma_rename_add(seq![Tree::Word(def.name)], angle_bracketed(names(def.generics)), from, to);
    lemma_rename_one(Tree::Word(def.name), from, to);
}

/// The attributes of an item that do not hold a word are not changed by
/// renaming the word.
pub proof fn lemma_rename_attributes(kept: Seq<Seq<Tree>>, from: Seq<char>, to: Seq<char>)
    requires
        free_of(kept, from),
    ensures
        renamed(attribute_tokens(kept), from, to) == attribute_tokens(kept),
    decreases kept.len(),
{
    if kept.len() > 0 {
        assert forall|i: int| 0 <= i < kept.drop_last().len() implies !holds(
            #[trigger] kept.drop_last()[i],
            from,
        ) by {
            assert(kept.drop_last()[i] == kept[i]);
        }
        lemma_rename_attributes(kept.drop_last(), from, to);
        let last = seq![Tree::Mark('#', false), Tree::Group(Delimiter::Bracket, kept.last())];
        lemma_rename_add(attribute_tokens(kept.drop_last()), last, from, to);
        lemma_rename_group(Delimiter::Bracket, kept.last(), from, to);
        assert(!holds(kept[kept.len() - 1], from));
        lemma_rename_absent(kept.last(), from, to);
        assert(renamed(last, from, to) =~= last);
    } else {
        assert(renamed(attribute_tokens(kept), from, to) =~= Seq::<Tree>::empty());
    }
}

/// The path of an item as the wrapped type has it follows the name of the
/// wrapped type.
pub proof fn lemma_rename_item_path(
    def: ItemTraitModel,
    name: Seq<char>,
    from: Seq<char>,
    to: Seq<char>,
)
    requires
        free_head(def, from),
        unreserved(from),
        name != from,
    ensures
        renamed(item_path(from, def, name), from, to) == item_path(to, def, name),
{
    lemma_rename_trait_path(def, from, to);
    let path = trait_path(def.name, def.generics);
    let open = seq![Tree::Mark('<', false), Tree::Word(from), Tree::Word("as"@)];
    let close = seq![Tree::Mark('>', false)];
    let tail = path_separator() + seq![Tree::Word(name)];
    lemma_rename_add(open + path, close, from, to);
    lemma_rename_add(open, path, from, to);
    lemma_rename_add(qualified(from, def), tail, from, to);
    assert(renamed(open, from, to) =~= seq![
        Tree::Mark('<', false),
        Tree::Word(to),
        Tree::Word("as"@),
    ]);
    assert(renamed(close, from, to) =~= close);
    assert(renamed(tail, from, to) =~= tail);
    assert(item_path(from, def, name) =~= qualified(from, def) + tail);
    assert(item_path(to, def, name) =~= qualified(to, def) + tail);
}

/// The generic arguments of a forwarding call do not depend on the name of
/// the wrapped type.
pub proof fn lemma_rename_turbofish(
    method: MethodModel,
    attributes: ItemAttributesModel,
    from: Seq<char>,
    to: Seq<char>,
)
    requires
        free_item(ItemModel::Method(method), attributes, from),
    ensures
        renamed(turbofish(method, attributes), from, to) == turbofish(method, attributes),
{
    assert(renamed(path_separator(), from, to) =~= path_separator());
    match attributes.generics {
        Some(arguments) => {
            lemma_rename_add(path_separator(), arguments, from, to);
            lemma_rename_absent(arguments, from, to);
        },
        None => {
            let own = method.generics.filter(no_lifetime());
            lemma_free_filter(method.generics, no_lifetime(), from);
            lemma_free_params(own, from);
            lemma_rename_angle_bracketed(names(own), from, to);
            lemma_rename_runs_absent(names(own), from, to);
            lemma_rename_add(path_separator(), angle_bracketed(names(own)), from, to);
            if own.len() == 0 {
                assert(renamed(Seq::<Tree>::empty(), from, to) =~= Seq::<Tree>::empty());
            }
        },
    }
}

/// The arguments of a forwarding call do not depend on the name of the
/// wrapped type.
pub proof fn lemma_rename_call_arguments(
    method: MethodModel,
    closure: Option<Seq<Tree>>,
    from: Seq<char>,
    to: Seq<char>,
)
    requires
        free_of(method.arguments, from),
        closure matches Some(accessor) ==> !holds(accessor, from),
        unreserved(from),
    ensures
        renamed(call_arguments(method, closure), from, to) == call_arguments(method, closure),
{
    let parts = receiver_argument(method.receiver, closure) + method.arguments;
    assert forall|i: int| 0 <= i < parts.len() implies !holds(#[trigger] parts[i], from) by {
        let first = receiver_argument(method.receiver, closure);
        if i < first.len() {
            match closure {
                Some(accessor) => {},
                None => {
                    let this = seq![Tree::Word("self"@)];
                    assert(parts[i] == this);
                    assert forall|k: int| 0 <= k < this.len() implies !tree_holds(
                        #[trigger] this[k],
                        from,
                    ) by {}
                },
            }
        } else {
            assert(parts[i] == method.arguments[i - first.len()]);
        }
    }
    lemma_rename_separated(parts, from, to);
    lemma_rename_runs_absent(parts, from, to);
}

/// A forwarded method follows the name of the wrapped type.
pub proof fn lemma_rename_method(
    method: MethodModel,
    attributes: ItemAttributesModel,
    def: ItemTraitModel,
    closure: Option<Seq<Tree>>,
    from: Seq<char>,
    to: Seq<char>,
)
    requires
        free_item(ItemModel::Method(method), attributes, from),
        free_head(def, from),
        closure matches Some(accessor) ==> !holds(accessor, from),
        unreserved(from),
    ensures
        renamed(forwarded_method(method, attributes, from, def, closure), from, to)
            == forwarded_method(method, attributes, to, def, closure),
{
    lemma_rename_item_path(def, method.name, from, to);
    lemma_rename_turbofish(method, attributes, from, to);
    lemma_rename_call_arguments(method, closure, from, to);
    let arguments = seq![Tree::Group(Delimiter::Parenthesis, call_arguments(method, closure))];
    lemma_rename_group(Delimiter::Parenthesis, call_arguments(method, closure), from, to);
    lemma_rename_one(arguments[0], from, to);
    assert(seq![arguments[0]] =~= arguments);
    let path = item_path(from, def, method.name);
    let fish = turbofish(method, attributes);
    lemma_rename_add(path + fish, arguments, from, to);
    lemma_rename_add(path, fish, from, to);
    let call = forwarding_call(method, attributes, from, def, closure);
    assert(renamed(call, from, to) == forwarding_call(method, attributes, to, def, closure));
    let body = seq![Tree::Group(Delimiter::Brace, call)];
    lemma_rename_group(Delimiter::Brace, call, from, to);
    lemma_rename_one(body[0], from, to);
    assert(seq![body[0]] =~= body);
    lemma_rename_attributes(attributes.kept, from, to);
    lemma_rename_absent(method.signature, from, to);
    lemma_rename_add(attribute_tokens(attributes.kept) + method.signature, body, from, to);
    lemma_rename_add(attribute_tokens(attributes.kept), method.signature, from, to);
}

/// A forwarded constant follows the name of the wrapped type.
pub proof fn lemma_rename_const(
    constant: AssociatedConstModel,
    attributes: ItemAttributesModel,
    def: ItemTraitModel,
    from: Seq<char>,
    to: Seq<char>,
)
    requires
        free_item(ItemModel::Const(constant), attributes, from),
        free_head(def, from),
        unreserved(from),
    ensures
        renamed(forwarded_const(constant, attributes, from, def), from, to) == forwarded_const(
            constant,
            attributes,
            to,
            def,
        ),
{
    lemma_rename_item_path(def, constant.name, from, to);
    let value = constant_value(constant, attributes, from, def);
    assert(renamed(value, from, to) == constant_value(constant, attributes, to, def)) by {
        match constant.default {
            Some(given) => {
                lemma_rename_absent(given, from, to);
            },
            None => {},
        }
    }
    lemma_rename_attributes(attributes.kept, from, to);
    lemma_rename_absent(constant.ty, from, to);
    let a = attribute_tokens(attributes.kept);
    let b = seq![Tree::Word("const"@), Tree::Word(constant.name), Tree::Mark(':', false)];
    let c = constant.ty;
    let d = seq![Tree::Mark('=', false)];
    let e = seq![Tree::Mark(';', false)];
    assert(renamed(b, from, to) =~= b);
    assert(renamed(d, from, to) =~= d);
    assert(renamed(e, from, to) =~= e);
    lemma_rename_add(a + b + c + d + value, e, from, to);
    lemma_rename_add(a + b + c + d, value, from, to);
    lemma_rename_add(a + b + c, d, from, to);
    lemma_rename_add(a + b, c, from, to);
    lemma_rename_add(a, b, from, to);
}

/// A forwarded type follows the name of the wrapped type.
pub proof fn lemma_rename_type(
    ty: AssociatedTypeModel,
    attributes: ItemAttributesModel,
    def: ItemTraitModel,
    from: Seq<char>,
    to: Seq<char>,
)
    requires
        free_item(ItemModel::Type(ty), attributes, from),
        free_head(def, from),
        unreserved(from),
    ensures
        renamed(forwarded_type(ty, attributes, from, def), from, to) == forwarded_type(
            ty,
            attributes,
            to,
            def,
        ),
{
    lemma_rename_item_path(def, ty.name, from, to);
    lemma_rename_attributes(attributes.kept, from, to);
    lemma_free_params(ty.generics, from);
    lemma_rename_angle_bracketed(declarations(ty.generics), from, to);
    lemma_rename_runs_absent(declarations(ty.generics), from, to);
    lemma_rename_angle_bracketed(names(ty.generics), from, to);
    lemma_rename_runs_absent(names(ty.generics), from, to);
    lemma_rename_absent(ty.where_clause, from, to);
    let a = attribute_tokens(attributes.kept);
    let b = seq![Tree::Word("type"@), Tree::Word(ty.name)];
    let c = angle_bracketed(declarations(ty.generics));
    let d = seq![Tree::Mark('=', false)];
    let e = item_path(from, def, ty.name);
    let f = angle_bracketed(names(ty.generics));
    let g = ty.where_clause;
    let h = seq![Tree::Mark(';', false)];
    assert(renamed(b, from, to) =~= b);
    assert(renamed(d, from, to) =~= d);
    assert(renamed(h, from, to) =~= h);
    lemma_rename_add(a + b + c + d + e + f + g, h, from, to);
    lemma_rename_add(a + b + c + d + e + f, g, from, to);
    lemma_rename_add(a + b + c + d + e, f, from, to);
    lemma_rename_add(a + b + c + d, e, from, to);
    lemma_rename_add(a + b + c, d, from, to);
    lemma_rename_add(a + b, c, from, to);
    lemma_rename_add(a, b, from, to);
}

/// A forwarded item follows the name of the wrapped type.
pub proof fn lemma_rename_item(
    item: ItemModel,
    attributes: ItemAttributesModel,
    def: ItemTraitModel,
    closure: Option<Seq<Tree>>,
    from: Seq<char>,
    to: Seq<char>,
)
    requires
        free_item(item, attributes, from),
        free_head(def, from),
        closure matches Some(accessor) ==> !holds(accessor, from),
        unreserved(from),
    ensures
        renamed(forwarded(item, attributes, from, def, closure), from, to) == forwarded(
            item,
            attributes,
            to,
            def,
            closure,
        ),
{
    match item {
        ItemModel::Method(method) => lemma_rename_method(
            method,
            attributes,
            def,
            closure,
            from,
            to,
        ),
        ItemModel::Type(ty) => lemma_rename_type(ty, attributes, def, from, to),
        ItemModel::Const(constant) => lemma_rename_const(constant, attributes, def, from, to),
        ItemModel::Other(_) => {
            assert(renamed(Seq::<Tree>::empty(), from, to) =~= Seq::<Tree>::empty());
        },
    }
}

/// The forwarded items follow the name of the wrapped type.
pub proof fn lemma_rename_forwards(
    todo: ImplsToDoModel,
    closure: Option<Seq<Tree>>,
    n: int,
    from: Seq<char>,
    to: Seq<char>,
)
    requires
        0 <= n <= todo.def.items.len(),
        free_trait(todo, from),
        closure matches Some(accessor) ==> !holds(accessor, from),
        unreserved(from),
    ensures
        renamed_runs(forwards(todo, from, closure, n), from, to) == forwards(todo, to, closure, n),
    decreases n,
{
    if n > 0 {
        lemma_rename_forwards(todo, closure, n - 1, from, to);
        assert(free_item(todo.def.items[n - 1], todo.item_attrs[n - 1], from));
        lemma_rename_item(todo.def.items[n - 1], todo.item_attrs[n - 1], todo.def, closure, from, to);
    }
    assert(renamed_runs(forwards(todo, from, closure, n), from, to) =~= forwards(
        todo,
        to,
        closure,
        n,
    ));
}

/// The declarations of the parameters of an implementation follow the name
/// of the wrapped type.
pub proof fn lemma_rename_injected(
    def: ItemTraitModel,
    extra: Seq<GenericParamModel>,
    from: Seq<char>,
    to: Seq<char>,
)
    requires
        free_head(def, from),
        free_params(extra, from),
        unreserved(from),
    ensures
        renamed_runs(
            declarations(
                injected(from, def.name, def.generics, extra, resolved_params(def.generics, from)),
            ),
            from,
            to,
        ) == declarations(
            injected(to, def.name, def.generics, extra, resolved_params(def.generics, to)),
        ),
{
    let old = injected(from, def.name, def.generics, extra, resolved_params(def.generics, from));
    let new = injected(to, def.name, def.generics, extra, resolved_params(def.generics, to));
    let lifetimes = extra.filter(of_kind(ParamKind::Lifetime));
    let consts = extra.filter(of_kind(ParamKind::Const));
    let types = extra.filter(of_kind(ParamKind::Type));
    lemma_free_filter(extra, of_kind(ParamKind::Lifetime), from);
    lemma_free_filter(extra, of_kind(ParamKind::Const), from);
    lemma_free_filter(extra, of_kind(ParamKind::Type), from);
    lemma_rename_trait_path(def, from, to);
    let n = lifetimes.len();
    let m = n + def.generics.len();
    let o = m + consts.len();
    let l = o + types.len();
    assert(old.len() == l + 1 && new.len() == l + 1);
    assert forall|i: int| 0 <= i < old.len() implies renamed(old[i].declaration, from, to)
        == new[i].declaration by {
        if i < n {
            assert(old[i] == lifetimes[i] && new[i] == lifetimes[i]);
            lemma_rename_absent(lifetimes[i].declaration, from, to);
        } else if i < m {
            let given = def.generics[i - n];
            assert(old[i] == resolved_params(def.generics, from)[i - n]);
            assert(new[i] == resolved_params(def.generics, to)[i - n]);
            lemma_rename_resolved(given.declaration, "Self"@, from, to);
        } else if i < o {
            assert(old[i] == consts[i - m] && new[i] == consts[i - m]);
            lemma_rename_absent(consts[i - m].declaration, from, to);
        } else if i < l {
            assert(old[i] == types[i - o] && new[i] == types[i - o]);
            lemma_rename_absent(types[i - o].declaration, from, to);
        } else {
            assert(old[i] == wrapped_param(from, def.name, def.generics));
            assert(new[i] == wrapped_param(to, def.name, def.generics));
            let head = seq![Tree::Word(from), Tree::Mark(':', false)];
            lemma_rename_add(head, trait_path(def.name, def.generics), from, to);
            assert(renamed(head, from, to) =~= seq![Tree::Word(to), Tree::Mark(':', false)]);
        }
    }
    assert(renamed_runs(declarations(old), from, to) =~= declarations(new));
}

/// An implementation follows the name of the wrapped type.
pub proof fn lemma_rename_block(
    descriptor: TypeToImplModel,
    todo: ImplsToDoModel,
    from: Seq<char>,
    to: Seq<char>,
)
    requires
        free_trait(todo, from),
        free_descriptor(descriptor, from),
        unreserved(from),
    ensures
        renamed(block_tokens(block_for(descriptor, from, todo)), from, to) == block_tokens(
            block_for(descriptor, to, todo),
        ),
{
    let old = block_for(descriptor, from, todo);
    let new = block_for(descriptor, to, todo);
    lemma_rename_injected(todo.def, descriptor.generics, from, to);
    lemma_rename_angle_bracketed(declarations(old.generics), from, to);
    lemma_rename_trait_path(todo.def, from, to);
    lemma_rename_resolved(descriptor.ty, "_"@, from, to);
    lemma_rename_resolved(todo.def.where_clause, "Self"@, from, to);
    lemma_rename_forwards(todo, descriptor.closure, todo.def.items.len() as int, from, to);
    lemma_rename_concat(old.items, from, to);
    let a = seq![Tree::Word("impl"@)];
    let b = angle_bracketed(declarations(old.generics));
    let c = old.path;
    let d = seq![Tree::Word("for"@)];
    let e = old.ty;
    let f = old.where_clause;
    let g = seq![Tree::Group(Delimiter::Brace, concat(old.items))];
    lemma_rename_group(Delimiter::Brace, concat(old.items), from, to);
    lemma_rename_one(g[0], from, to);
    assert(seq![g[0]] =~= g);
    assert(renamed(a, from, to) =~= a);
    assert(renamed(d, from, to) =~= d);
    lemma_rename_add(a + b + c + d + e + f, g, from, to);
    lemma_rename_add(a + b + c + d + e, f, from, to);
    lemma_rename_add(a + b + c + d, e, from, to);
    lemma_rename_add(a + b + c, d, from, to);
    lemma_rename_add(a + b, c, from, to);
    lemma_rename_add(a, b, from, to);
}

/// The trait as it is declared again does not hold a word that is new to it.
pub proof fn lemma_rename_declaration(todo: ImplsToDoModel, from: Seq<char>, to: Seq<char>)
    requires
        todo.well_formed(),
        free_trait(todo, from),
    ensures
        renamed(declaration(todo), from, to) == declaration(todo),
{
    let items = declared_items(todo);
    assert forall|i: int| 0 <= i < items.len() implies renamed(#[trigger] items[i], from, to)
        == items[i] by {
        let item = todo.def.items[i];
        let attributes = todo.item_attrs[i];
        assert(free_item(item, attributes, from));
        lemma_rename_attributes(attributes.kept, from, to);
        match item {
            ItemModel::Method(method) => {
                lemma_rename_add(attribute_tokens(attributes.kept), method.source, from, to);
                lemma_rename_absent(method.source, from, to);
            },
            ItemModel::Type(ty) => {
                lemma_rename_add(attribute_tokens(attributes.kept), ty.source, from, to);
                lemma_rename_absent(ty.source, from, to);
            },
            ItemModel::Const(constant) => {
                lemma_rename_add(attribute_tokens(attributes.kept), constant.source, from, to);
                lemma_rename_absent(constant.source, from, to);
            },
            ItemModel::Other(source) => {
                lemma_rename_absent(source, from, to);
            },
        }
    }
    assert(renamed_runs(items, from, to) =~= items);
    lemma_rename_concat(items, from, to);
    lemma_rename_absent(todo.def.inner, from, to);
    lemma_rename_add(todo.def.inner, concat(items), from, to);
    let body = seq![Tree::Group(Delimiter::Brace, todo.def.inner + concat(items))];
    lemma_rename_group(Delimiter::Brace, todo.def.inner + concat(items), from, to);
    lemma_rename_one(body[0], from, to);
    assert(seq![body[0]] =~= body);
    lemma_rename_absent(todo.def.head, from, to);
    lemma_rename_add(todo.def.head, body, from, to);
}

/// The settings with another name for the wrapped type.
pub open spec fn renamed_settings(attrs: AttributesModel, to: Seq<char>) -> AttributesModel {
    AttributesModel { generic: to, ..attrs }
}

/// Every expansion is one skeleton with the name of the wrapped type filled
/// in. Let `marker` be a word that is new to the expansion: it stands
/// nowhere in the trait and in the wrapper types, and is not a word that
/// implementations are written with. Then the expansion under any name `to`
/// is the expansion under `marker` with `to` for every `marker`: the name
/// stands at the same places whatever it is, and nothing else depends on
/// it. Nothing is asked of the name of the settings, nor of `to`.
pub proof fn lemma_rename_expansion(
    attrs: AttributesModel,
    todo: ImplsToDoModel,
    marker: Seq<char>,
    to: Seq<char>,
)
    requires
        todo.well_formed(),
        is_new(attrs, todo, marker),
    ensures
        expansion(renamed_settings(attrs, to), todo) == renamed(
            expansion(renamed_settings(attrs, marker), todo),
            marker,
            to,
        ),
{
    let from = marker;
    let base = renamed_settings(attrs, marker);
    let other = renamed_settings(attrs, to);
    let kept = retained(base, todo);
    assert(retained(other, todo) == kept);
    let places = lemma_filter_places(attrs.types, crate::generator::usable(todo.requires_mutable));
    let old = written_blocks(blocks(base, todo));
    let new = written_blocks(blocks(other, todo));
    assert forall|k: int| 0 <= k < old.len() implies renamed(#[trigger] old[k], from, to)
        == new[k] by {
        assert(attrs.types[places[k]] == kept[k]);
        lemma_rename_block(kept[k], todo, from, to);
    }
    assert(renamed_runs(old, from, to) =~= new);
    lemma_rename_concat(old, from, to);
    lemma_rename_declaration(todo, from, to);
    lemma_rename_add(declaration(todo), concat(old), from, to);
}

/// The directive `T = name` gives the settings that name and changes
/// nothing else, also behind other directives.
pub proof fn lemma_rename_directive(
    start: AttributesModel,
    list: Seq<crate::config::DirectiveModel>,
    name: Seq<char>,
)
    ensures
        crate::config::apply_all(start, list.push(crate::config::DirectiveModel::Rename(name)))
            == renamed_settings(crate::config::apply_all(start, list), name),
{
    assert(list.push(crate::config::DirectiveModel::Rename(name)).drop_last() =~= list);
}

/// Whether two trees are the same, but that the second may have the word
/// `to` where the first has the word `from`.
pub open spec fn tree_differs_only(a: Tree, b: Tree, from: Seq<char>, to: Seq<char>) -> bool
    decreases a,
{
    match (a, b) {
        (Tree::Group(d, xs), Tree::Group(e, ys)) => d == e && xs.len() == ys.len() && forall|
            i: int,
        |
            0 <= i < xs.len() ==> tree_differs_only(#[trigger] xs[i], ys[i], from, to),
        _ => a == b || (a == Tree::Word(from) && b == Tree::Word(to)),
    }
}

/// Whether two runs of trees are the same, but that the second may have the
/// word `to` where the first has the word `from`.
pub open spec fn differs_only(a: Seq<Tree>, b: Seq<Tree>, from: Seq<char>, to: Seq<char>) -> bool {
    a.len() == b.len() && forall|i: int|
        0 <= i < a.len() ==> tree_differs_only(#[trigger] a[i], b[i], from, to)
}

/// Whether two lists of runs are the same, but that the second may have the
/// word `to` where the first has the word `from`.
pub open spec fn runs_differ_only(
    a: Seq<Seq<Tree>>,
    b: Seq<Seq<Tree>>,
    from: Seq<char>,
    to: Seq<char>,
) -> bool {
    a.len() == b.len() && forall|i: int|
        0 <= i < a.len() ==> differs_only(#[trigger] a[i], b[i], from, to)
}

/// A tree differs from itself in nothing.
pub proof fn lemma_differ_tree_same(tree: Tree, from: Seq<char>, to: Seq<char>)
    ensures
        tree_differs_only(tree, tree, from, to),
    decreases tree,
{
    match tree {
        Tree::Group(d, inner) => {
            assert forall|i: int| 0 <= i < inner.len() implies tree_differs_only(
                #[trigger] inner[i],
                inner[i],
                from,
                to,
            ) by {
                lemma_differ_tree_same(inner[i], from, to);
            }
        },
        _ => {},
    }
}

/// A run differs from itself in nothing.
pub proof fn lemma_differ_same(trees: Seq<Tree>, from: Seq<char>, to: Seq<char>)
    ensures
        differs_only(trees, trees, from, to),
{
    assert forall|i: int| 0 <= i < trees.len() implies tree_differs_only(
        #[trigger] trees[i],
        trees[i],
        from,
        to,
    ) by {
        lemma_differ_tree_same(trees[i], from, to);
    }
}

/// A list of runs differs from itself in nothing.
pub proof fn lemma_differ_runs_same(runs: Seq<Seq<Tree>>, from: Seq<char>, to: Seq<char>)
    ensures
        runs_differ_only(runs, runs, from, to),
{
    assert forall|i: int| 0 <= i < runs.len() implies differs_only(
        #[trigger] runs[i],
        runs[i],
        from,
        to,
    ) by {
        lemma_differ_same(runs[i], from, to);
    }
}

/// Runs one after another differ only as the runs do.
pub proof fn lemma_differ_add(
    a: Seq<Tree>,
    b: Seq<Tree>,
    c: Seq<Tree>,
    d: Seq<Tree>,
    from: Seq<char>,
    to: Seq<char>,
)
    requires
        differs_only(a, c, from, to),
        differs_only(b, d, from, to),
    ensures
        differs_only(a + b, c + d, from, to),
{
    assert forall|i: int| 0 <= i < (a + b).len() implies tree_differs_only(
        #[trigger] (a + b)[i],
        (c + d)[i],
        from,
        to,
    ) by {
        if i < a.len() {
            assert(tree_differs_only(a[i], c[i], from, to));
        } else {
            assert(tree_differs_only(b[i - a.len()], d[i - a.len()], from, to));
        }
    }
}

/// Groups differ only as their members do.
pub proof fn lemma_differ_group(
    d: Delimiter,
    a: Seq<Tree>,
    b: Seq<Tree>,
    from: Seq<char>,
    to: Seq<char>,
)
    requires
        differs_only(a, b, from, to),
    ensures
        differs_only(seq![Tree::Group(d, a)], seq![Tree::Group(d, b)], from, to),
{
    assert(tree_differs_only(Tree::Group(d, a), Tree::Group(d, b), from, to));
}

/// Runs joined differ only as the runs do.
pub proof fn lemma_differ_concat(
    a: Seq<Seq<Tree>>,
    b: Seq<Seq<Tree>>,
    from: Seq<char>,
    to: Seq<char>,
)
    requires
        runs_differ_only(a, b, from, to),
    ensures
        differs_only(concat(a), concat(b), from, to),
    decreases a.len(),
{
    if a.len() > 0 {
        assert forall|i: int| 0 <= i < a.drop_last().len() implies differs_only(
            #[trigger] a.drop_last()[i],
            b.drop_last()[i],
            from,
            to,
        ) by {
            assert(differs_only(a[i], b[i], from, to));
        }
        lemma_differ_concat(a.drop_last(), b.drop_last(), from, to);
        assert(differs_only(a[a.len() - 1], b[b.len() - 1], from, to));
        lemma_differ_add(concat(a.drop_last()), a.last(), concat(b.drop_last()), b.last(), from, to);
    }
}

/// Runs joined by commas differ only as the runs do.
pub proof fn lemma_differ_separated(
    a: Seq<Seq<Tree>>,
    b: Seq<Seq<Tree>>,
    from: Seq<char>,
    to: Seq<char>,
)
    requires
        runs_differ_only(a, b, from, to),
    ensures
        differs_only(separated(a), separated(b), from, to),
    decreases a.len(),
{
    if a.len() > 1 {
        assert forall|i: int| 0 <= i < a.drop_last().len() implies differs_only(
            #[trigger] a.drop_last()[i],
            b.drop_last()[i],
            from,
            to,
        ) by {
            assert(differs_only(a[i], b[i], from, to));
        }
        lemma_differ_separated(a.drop_last(), b.drop_last(), from, to);
        let comma = seq![Tree::Mark(',', false)];
        lemma_differ_same(comma, from, to);
        lemma_differ_add(separated(a.drop_last()), comma, separated(b.drop_last()), comma, from, to);
        assert(differs_only(a[a.len() - 1], b[b.len() - 1], from, to));
        lemma_differ_add(
            separated(a.drop_last()) + comma,
            a.last(),
            separated(b.drop_last()) + comma,
            b.last(),
            from,
            to,
        );
    } else if a.len() == 1 {
        assert(differs_only(a[0], b[0], from, to));
    }
}

/// Runs in angle brackets differ only as the runs do.
pub proof fn lemma_differ_angle_bracketed(
    a: Seq<Seq<Tree>>,
    b: Seq<Seq<Tree>>,
    from: Seq<char>,
    to: Seq<char>,
)
    requires
        runs_differ_only(a, b, from, to),
    ensures
        differs_only(angle_bracketed(a), angle_bracketed(b), from, to),
{
    if a.len() > 0 {
        lemma_differ_separated(a, b, from, to);
        let open = seq![Tree::Mark('<', false)];
        let close = seq![Tree::Mark('>', false)];
        lemma_differ_same(open, from, to);
        lemma_differ_same(close, from, to);
        lemma_differ_add(open, separated(a), open, separated(b), from, to);
        lemma_differ_add(open + separated(a), close, open + separated(b), close, from, to);
    }
}

/// A tree with a stand-in resolved to one name and to another differs only
/// in the names.
pub proof fn lemma_differ_resolved_tree(
    tree: Tree,
    lifetime: bool,
    target: Seq<char>,
    from: Seq<char>,
    to: Seq<char>,
)
    ensures
        tree_differs_only(
            substitute_tree(tree, lifetime, target, from),
            substitute_tree(tree, lifetime, target, to),
            from,
            to,
        ),
    decreases tree,
{
    match tree {
        Tree::Group(d, inner) => {
            crate::resolve::lemma_substitute_group(d, inner, lifetime, target, from);
            crate::resolve::lemma_substitute_group(d, inner, lifetime, target, to);
            let a = substitute(inner, target, from);
            let b = substitute(inner, target, to);
            assert forall|i: int| 0 <= i < a.len() implies tree_differs_only(
                #[trigger] a[i],
                b[i],
                from,
                to,
            ) by {
                lemma_differ_resolved_tree(inner[i], behind_tick(inner, i), target, from, to);
            }
        },
        _ => {},
    }
}

/// Trees with a stand-in resolved to one name and to another differ only in
/// the names.
pub proof fn lemma_differ_resolved(
    trees: Seq<Tree>,
    target: Seq<char>,
    from: Seq<char>,
    to: Seq<char>,
)
    ensures
        differs_only(substitute(trees, target, from), substitute(trees, target, to), from, to),
{
    let a = substitute(trees, target, from);
    let b = substitute(trees, target, to);
    assert forall|i: int| 0 <= i < a.len() implies tree_differs_only(
        #[trigger] a[i],
        b[i],
        from,
        to,
    ) by {
        lemma_differ_resolved_tree(trees[i], behind_tick(trees, i), target, from, to);
    }
}

/// The path of an item under two names differs only in the names.
pub proof fn lemma_differ_item_path(
    def: ItemTraitModel,
    name: Seq<char>,
    from: Seq<char>,
    to: Seq<char>,
)
    ensures
        differs_only(item_path(from, def, name), item_path(to, def, name), from, to),
{
    let path = trait_path(def.name, def.generics);
    let a = seq![Tree::Mark('<', false), Tree::Word(from), Tree::Word("as"@)];
    let b = seq![Tree::Mark('<', false), Tree::Word(to), Tree::Word("as"@)];
    let close = seq![Tree::Mark('>', false)];
    let tail = path_separator() + seq![Tree::Word(name)];
    assert(differs_only(a, b, from, to));
    lemma_differ_same(path, from, to);
    lemma_differ_same(close, from, to);
    lemma_differ_same(tail, from, to);
    lemma_differ_add(a, path, b, path, from, to);
    lemma_differ_add(a + path, close, b + path, close, from, to);
    lemma_differ_add(qualified(from, def), tail, qualified(to, def), tail, from, to);
    assert(item_path(from, def, name) =~= qualified(from, def) + tail);
    assert(item_path(to, def, name) =~= qualified(to, def) + tail);
}

/// A forwarded item under two names differs only in the names.
pub proof fn lemma_differ_item(
    item: ItemModel,
    attributes: ItemAttributesModel,
    def: ItemTraitModel,
    closure: Option<Seq<Tree>>,
    from: Seq<char>,
    to: Seq<char>,
)
    ensures
        differs_only(
            forwarded(item, attributes, from, def, closure),
            forwarded(item, attributes, to, def, closure),
            from,
            to,
        ),
{
    let kept = attribute_tokens(attributes.kept);
    lemma_differ_same(kept, from, to);
    match item {
        ItemModel::Method(method) => {
            lemma_differ_item_path(def, method.name, from, to);
            let fish = turbofish(method, attributes);
            let arguments = seq![
                Tree::Group(Delimiter::Parenthesis, call_arguments(method, closure)),
            ];
            lemma_differ_same(fish, from, to);
            lemma_differ_same(arguments, from, to);
            let p = item_path(from, def, method.name);
            let q = item_path(to, def, method.name);
            lemma_differ_add(p, fish, q, fish, from, to);
            lemma_differ_add(p + fish, arguments, q + fish, arguments, from, to);
            let old = forwarding_call(method, attributes, from, def, closure);
            let new = forwarding_call(method, attributes, to, def, closure);
            lemma_differ_group(Delimiter::Brace, old, new, from, to);
            lemma_differ_same(method.signature, from, to);
            lemma_differ_add(kept, method.signature, kept, method.signature, from, to);
            lemma_differ_add(
                kept + method.signature,
                seq![Tree::Group(Delimiter::Brace, old)],
                kept + method.signature,
                seq![Tree::Group(Delimiter::Brace, new)],
                from,
                to,
            );
        },
        ItemModel::Type(ty) => {
            lemma_differ_item_path(def, ty.name, from, to);
            let b = seq![Tree::Word("type"@), Tree::Word(ty.name)];
            let c = angle_bracketed(declarations(ty.generics));
            let d = seq![Tree::Mark('=', false)];
            let e = item_path(from, def, ty.name);
            let e2 = item_path(to, def, ty.name);
            let f = angle_bracketed(names(ty.generics));
            let g = ty.where_clause;
            let h = seq![Tree::Mark(';', false)];
            let head = kept + b + c + d;
            lemma_differ_same(head, from, to);
            lemma_differ_same(f, from, to);
            lemma_differ_same(g, from, to);
            lemma_differ_same(h, from, to);
            lemma_differ_add(head, e, head, e2, from, to);
            lemma_differ_add(head + e, f, head + e2, f, from, to);
            lemma_differ_add(head + e + f, g, head + e2 + f, g, from, to);
            lemma_differ_add(head + e + f + g, h, head + e2 + f + g, h, from, to);
        },
        ItemModel::Const(constant) => {
            lemma_differ_item_path(def, constant.name, from, to);
            let head = kept + seq![
                Tree::Word("const"@),
                Tree::Word(constant.name),
                Tree::Mark(':', false),
            ] + constant.ty + seq![Tree::Mark('=', false)];
            let old = constant_value(constant, attributes, from, def);
            let new = constant_value(constant, attributes, to, def);
            if old == new {
                lemma_differ_same(old, from, to);
            }
            let h = seq![Tree::Mark(';', false)];
            lemma_differ_same(head, from, to);
            lemma_differ_same(h, from, to);
            lemma_differ_add(head, old, head, new, from, to);
            lemma_differ_add(head + old, h, head + new, h, from, to);
        },
        ItemModel::Other(_) => {
            lemma_differ_same(Seq::<Tree>::empty(), from, to);
        },
    }
}

/// The forwarded items under two names differ only in the names.
pub proof fn lemma_differ_forwards(
    todo: ImplsToDoModel,
    closure: Option<Seq<Tree>>,
    n: int,
    from: Seq<char>,
    to: Seq<char>,
)
    ensures
        runs_differ_only(
            forwards(todo, from, closure, n),
            forwards(todo, to, closure, n),
            from,
            to,
        ),
    decreases n,
{
    if n > 0 {
        lemma_differ_forwards(todo, closure, n - 1, from, to);
        lemma_differ_item(todo.def.items[n - 1], todo.item_attrs[n - 1], todo.def, closure, from, to);
        let a = forwards(todo, from, closure, n);
        let b = forwards(todo, to, closure, n);
        let c = forwards(todo, from, closure, n - 1);
        let d = forwards(todo, to, closure, n - 1);
        assert forall|i: int| 0 <= i < a.len() implies differs_only(
            #[trigger] a[i],
            b[i],
            from,
            to,
        ) by {
            if i < c.len() {
                assert(differs_only(c[i], d[i], from, to));
            }
        }
    }
}

/// An implementation under two names differs only in the names, and has as
/// many parameters and as many items under the one as under the other.
pub proof fn lemma_differ_block(
    descriptor: TypeToImplModel,
    todo: ImplsToDoModel,
    from: Seq<char>,
    to: Seq<char>,
)
    ensures
        differs_only(
            block_tokens(block_for(descriptor, from, todo)),
            block_tokens(block_for(descriptor, to, todo)),
            from,
            to,
        ),
        block_for(descriptor, from, todo).generics.len() == block_for(
            descriptor,
            to,
            todo,
        ).generics.len(),
        block_for(descriptor, from, todo).items.len() == block_for(descriptor, to, todo).items.len(),
{
    let old = block_for(descriptor, from, todo);
    let new = block_for(descriptor, to, todo);
    let def = todo.def;
    let lifetimes = descriptor.generics.filter(of_kind(ParamKind::Lifetime));
    let consts = descriptor.generics.filter(of_kind(ParamKind::Const));
    let types = descriptor.generics.filter(of_kind(ParamKind::Type));
    let n = lifetimes.len();
    let m = n + def.generics.len();
    let l = m + consts.len() + types.len();
    assert(old.generics.len() == l + 1 && new.generics.len() == l + 1);
    let a = declarations(old.generics);
    let b = declarations(new.generics);
    assert forall|i: int| 0 <= i < a.len() implies differs_only(#[trigger] a[i], b[i], from, to) by {
        if i < n {
            assert(old.generics[i] == lifetimes[i] && new.generics[i] == lifetimes[i]);
            lemma_differ_same(a[i], from, to);
        } else if i < m {
            assert(old.generics[i] == resolved_params(def.generics, from)[i - n]);
            assert(new.generics[i] == resolved_params(def.generics, to)[i - n]);
            lemma_differ_resolved(def.generics[i - n].declaration, "Self"@, from, to);
        } else if i < l {
            assert(old.generics[i] == new.generics[i]);
            lemma_differ_same(a[i], from, to);
        } else {
            assert(old.generics[i] == wrapped_param(from, def.name, def.generics));
            assert(new.generics[i] == wrapped_param(to, def.name, def.generics));
            let path = trait_path(def.name, def.generics);
            let x = seq![Tree::Word(from), Tree::Mark(':', false)];
            let y = seq![Tree::Word(to), Tree::Mark(':', false)];
            assert(differs_only(x, y, from, to));
            lemma_differ_same(path, from, to);
            lemma_differ_add(x, path, y, path, from, to);
        }
    }
    lemma_differ_angle_bracketed(a, b, from, to);
    lemma_differ_resolved(descriptor.ty, "_"@, from, to);
    lemma_differ_resolved(def.where_clause, "Self"@, from, to);
    lemma_differ_forwards(todo, descriptor.closure, def.items.len() as int, from, to);
    lemma_differ_concat(old.items, new.items, from, to);
    lemma_differ_group(Delimiter::Brace, concat(old.items), concat(new.items), from, to);
    let start = seq![Tree::Word("impl"@)];
    let middle = old.path + seq![Tree::Word("for"@)];
    lemma_differ_same(start, from, to);
    lemma_differ_same(middle, from, to);
    let p = angle_bracketed(a);
    let q = angle_bracketed(b);
    lemma_differ_add(start, p, start, q, from, to);
    lemma_differ_add(start + p, middle, start + q, middle, from, to);
    lemma_differ_add(start + p + middle, old.ty, start + q + middle, new.ty, from, to);
    lemma_differ_add(
        start + p + middle + old.ty,
        old.where_clause,
        start + q + middle + new.ty,
        new.where_clause,
        from,
        to,
    );
    lemma_differ_add(
        start + p + middle + old.ty + old.where_clause,
        seq![Tree::Group(Delimiter::Brace, concat(old.items))],
        start + q + middle + new.ty + new.where_clause,
        seq![Tree::Group(Delimiter::Brace, concat(new.items))],
        from,
        to,
    );
    assert(block_tokens(old) =~= start + p + middle + old.ty + old.where_clause + seq![
        Tree::Group(Delimiter::Brace, concat(old.items)),
    ]);
    assert(block_tokens(new) =~= start + q + middle + new.ty + new.where_clause + seq![
        Tree::Group(Delimiter::Brace, concat(new.items)),
    ]);
}

/// Renaming the parameter for the wrapped type changes only that name.
/// Whatever the trait, the wrapper types and the two names: the expansion
/// under the name `to` differs from that of the settings only where the one
/// has the name of the settings and the other has `to`; there are as many
/// implementations under the one name as under the other, and each has as
/// many parameters and as many items.
pub proof fn lemma_rename_only(attrs: AttributesModel, todo: ImplsToDoModel, to: Seq<char>)
    ensures
        differs_only(
            expansion(attrs, todo),
            expansion(renamed_settings(attrs, to), todo),
            attrs.generic,
            to,
        ),
        blocks(renamed_settings(attrs, to), todo).len() == blocks(attrs, todo).len(),
        forall|k: int|
            0 <= k < blocks(attrs, todo).len() ==> (#[trigger] blocks(
                renamed_settings(attrs, to),
                todo,
            )[k]).items.len() == blocks(attrs, todo)[k].items.len() && blocks(
                renamed_settings(attrs, to),
                todo,
            )[k].generics.len() == blocks(attrs, todo)[k].generics.len(),
{
    let from = attrs.generic;
    let other = renamed_settings(attrs, to);
    let kept = retained(attrs, todo);
    assert(retained(other, todo) == kept);
    let old = written_blocks(blocks(attrs, todo));
    let new = written_blocks(blocks(other, todo));
    assert forall|k: int| 0 <= k < old.len() implies differs_only(
        #[trigger] old[k],
        new[k],
        from,
        to,
    ) by {
        lemma_differ_block(kept[k], todo, from, to);
    }
    assert forall|k: int| 0 <= k < blocks(attrs, todo).len() implies (#[trigger] blocks(
        other,
        todo,
    )[k]).items.len() == blocks(attrs, todo)[k].items.len() && blocks(other, todo)[k].generics.len()
        == blocks(attrs, todo)[k].generics.len() by {
        lemma_differ_block(kept[k], todo, from, to);
    }
    lemma_differ_concat(old, new, from, to);
    lemma_differ_same(declaration(todo), from, to);
    lemma_differ_add(declaration(todo), concat(old), declaration(todo), concat(new), from, to);
}

} // verus!
