//! What an expansion writes: the trait as it was declared, and behind it one
//! implementation of the trait for each wrapper type.
//!
//! An implementation forwards every item to the implementation of the
//! wrapped type `T`:
//!
//! ```text
//! fn bar(&self, baz: Quz) -> Qux { <T as Foo>::bar(self, baz) }
//! const BAR: Baz = <T as Foo>::BAR;
//! type Bar<B> = <T as Foo>::Bar<B> where B: 'static;
//! ```
//!
//! Wrapper types that cannot hand out exclusive access are left out when a
//! method of the trait takes `self` exclusively. The implementations stand
//! in the order of the wrapper types in the settings.

use vstd::prelude::*;
use vstd::string::*;
use crate::catalog::{path_separator, push_path_separator};
use crate::config::{Attributes, AttributesModel};
use crate::impls_to_do::{ImplsToDo, ImplsToDoModel};
use crate::inject::{
    declarations, inject_additional_types, injected, names, param_declarations, param_names,
    trait_path, trait_path_tokens,
};
use crate::item_attrs::{ItemAttributes, ItemAttributesModel};
use crate::lists::{
    angle_bracketed, angle_bracketed_tokens, concat, concat_tokens, lemma_filter_push, separated,
    separated_tokens,
};
use crate::mask::mask_index;
use crate::model::{
    copy_param, AssociatedConst, AssociatedConstModel, AssociatedType, AssociatedTypeModel,
    GenericParam, GenericParamModel, Item, ItemModel, ItemTrait, ItemTraitModel, Method,
    MethodModel, ParamKind, Receiver, TypeToImpl, TypeToImplModel,
};
use crate::resolve::{substitute, InferResolver, SelfResolver};
use crate::token::{
    append_tokens, copy_tokens, group, mark, push_token, word, Delimiter, Token, Tree,
};

verus! {

/// The attributes as they stand on an item: each between `#[` and `]`.
pub open spec fn attribute_tokens(kept: Seq<Seq<Tree>>) -> Seq<Tree>
    decreases kept.len(),
{
    if kept.len() == 0 {
        Seq::empty()
    } else {
        attribute_tokens(kept.drop_last()) + seq![
            Tree::Mark('#', false),
            Tree::Group(Delimiter::Bracket, kept.last()),
        ]
    }
}

/// The wrapped type seen as an implementor of the trait: `<T as Foo<A>>`.
pub open spec fn qualified(t: Seq<char>, def: ItemTraitModel) -> Seq<Tree> {
    seq![Tree::Mark('<', false), Tree::Word(t), Tree::Word("as"@)] + trait_path(
        def.name,
        def.generics,
    ) + seq![Tree::Mark('>', false)]
}

/// An item of the trait as the wrapped type has it: `<T as Foo<A>>::name`.
pub open spec fn item_path(t: Seq<char>, def: ItemTraitModel, name: Seq<char>) -> Seq<Tree> {
    qualified(t, def) + path_separator() + seq![Tree::Word(name)]
}

/// Holds of the parameters that are no lifetimes.
pub open spec fn no_lifetime() -> spec_fn(GenericParamModel) -> bool {
    |param: GenericParamModel| param.kind != ParamKind::Lifetime
}

/// The generic arguments of a forwarding call: those that an attribute of
/// the method gives, else the method's own type and constant parameters,
/// else none.
pub open spec fn turbofish(method: MethodModel, attributes: ItemAttributesModel) -> Seq<Tree> {
    match attributes.generics {
        Some(arguments) => path_separator() + arguments,
        None => {
            let own = method.generics.filter(no_lifetime());
            if own.len() == 0 {
                Seq::empty()
            } else {
                path_separator() + angle_bracketed(names(own))
            }
        },
    }
}

/// What is passed for `self`: the accessor of the wrapper type, or `self`
/// itself; nothing for a method without a receiver.
pub open spec fn receiver_argument(receiver: Option<Receiver>, closure: Option<Seq<Tree>>) -> Seq<
    Seq<Tree>,
> {
    match receiver {
        None => Seq::empty(),
        Some(_) => match closure {
            Some(accessor) => seq![accessor],
            None => seq![seq![Tree::Word("self"@)]],
        },
    }
}

/// The arguments of a forwarding call: what is passed for `self`, then the
/// other parameters as the method names them.
pub open spec fn call_arguments(method: MethodModel, closure: Option<Seq<Tree>>) -> Seq<Tree> {
    separated(receiver_argument(method.receiver, closure) + method.arguments)
}

/// The call that forwards a method.
pub open spec fn forwarding_call(
    method: MethodModel,
    attributes: ItemAttributesModel,
    t: Seq<char>,
    def: ItemTraitModel,
    closure: Option<Seq<Tree>>,
) -> Seq<Tree> {
    item_path(t, def, method.name) + turbofish(method, attributes) + seq![
        Tree::Group(Delimiter::Parenthesis, call_arguments(method, closure)),
    ]
}

/// A method, forwarded: its attributes, its signature, and a body that is
/// the forwarding call.
pub open spec fn forwarded_method(
    method: MethodModel,
    attributes: ItemAttributesModel,
    t: Seq<char>,
    def: ItemTraitModel,
    closure: Option<Seq<Tree>>,
) -> Seq<Tree> {
    attribute_tokens(attributes.kept) + method.signature + seq![
        Tree::Group(Delimiter::Brace, forwarding_call(method, attributes, t, def, closure)),
    ]
}

/// The value of a forwarded constant: the default that the trait gives, as
/// it does not depend on the implementor; the constant of the wrapped type
/// where the trait gives none, or an attribute of the constant overrides.
pub open spec fn constant_value(
    constant: AssociatedConstModel,
    attributes: ItemAttributesModel,
    t: Seq<char>,
    def: ItemTraitModel,
) -> Seq<Tree> {
    match constant.default {
        Some(value) if attributes.generics is None => value,
        _ => item_path(t, def, constant.name),
    }
}

/// An associated constant, forwarded.
pub open spec fn forwarded_const(
    constant: AssociatedConstModel,
    attributes: ItemAttributesModel,
    t: Seq<char>,
    def: ItemTraitModel,
) -> Seq<Tree> {
    attribute_tokens(attributes.kept) + seq![
        Tree::Word("const"@),
        Tree::Word(constant.name),
        Tree::Mark(':', false),
    ] + constant.ty + seq![Tree::Mark('=', false)] + constant_value(constant, attributes, t, def)
        + seq![Tree::Mark(';', false)]
}

/// An associated type, forwarded: an alias of the type that the wrapped
/// type has, whether or not the trait gives a default.
pub open spec fn forwarded_type(
    ty: AssociatedTypeModel,
    attributes: ItemAttributesModel,
    t: Seq<char>,
    def: ItemTraitModel,
) -> Seq<Tree> {
    attribute_tokens(attributes.kept) + seq![Tree::Word("type"@), Tree::Word(ty.name)]
        + angle_bracketed(declarations(ty.generics)) + seq![Tree::Mark('=', false)] + item_path(
        t,
        def,
        ty.name,
    ) + angle_bracketed(names(ty.generics)) + ty.where_clause + seq![Tree::Mark(';', false)]
}

/// An item, forwarded. An item of no known kind gives nothing.
pub open spec fn forwarded(
    item: ItemModel,
    attributes: ItemAttributesModel,
    t: Seq<char>,
    def: ItemTraitModel,
    closure: Option<Seq<Tree>>,
) -> Seq<Tree> {
    match item {
        ItemModel::Method(method) => forwarded_method(method, attributes, t, def, closure),
        ItemModel::Type(ty) => forwarded_type(ty, attributes, t, def),
        ItemModel::Const(constant) => forwarded_const(constant, attributes, t, def),
        ItemModel::Other(_) => Seq::empty(),
    }
}

/// The forwarded items among the first `n` items of the trait: one for each
/// item whose bit is set, in the order of the items.
pub open spec fn forwards(todo: ImplsToDoModel, t: Seq<char>, closure: Option<Seq<Tree>>, n: int)
    -> Seq<Seq<Tree>>
    decreases n,
{
    if n <= 0 {
        Seq::empty()
    } else if todo.item_mask[n - 1] {
        forwards(todo, t, closure, n - 1).push(
            forwarded(todo.def.items[n - 1], todo.item_attrs[n - 1], t, todo.def, closure),
        )
    } else {
        forwards(todo, t, closure, n - 1)
    }
}

/// The parameters with the wrapped type for `Self` in their declarations.
pub open spec fn resolved_params(params: Seq<GenericParamModel>, t: Seq<char>) -> Seq<
    GenericParamModel,
> {
    Seq::new(
        params.len(),
        |i: int|
            GenericParamModel {
                declaration: substitute(params[i].declaration, "Self"@, t),
                ..params[i]
            },
    )
}

/// One implementation of the trait.
#[derive(Debug, PartialEq, Eq)]
pub struct ImplBlock {
    /// The generic parameters of the implementation.
    pub generics: Vec<GenericParam>,
    /// The trait, with its own parameters as arguments.
    pub path: Vec<Token>,
    /// The wrapper type that the trait is implemented for.
    pub ty: Vec<Token>,
    /// The `where` clause; empty without one.
    pub where_clause: Vec<Token>,
    /// The forwarded items.
    pub items: Vec<Vec<Token>>,
}

/// The value of an [`ImplBlock`].
pub ghost struct ImplBlockModel {
    pub generics: Seq<GenericParamModel>,
    pub path: Seq<Tree>,
    pub ty: Seq<Tree>,
    pub where_clause: Seq<Tree>,
    pub items: Seq<Seq<Tree>>,
}

impl DeepView for ImplBlock {
    type V = ImplBlockModel;

    open spec fn deep_view(&self) -> ImplBlockModel {
        ImplBlockModel {
            generics: self.generics.deep_view(),
            path: self.path.deep_view(),
            ty: self.ty.deep_view(),
            where_clause: self.where_clause.deep_view(),
            items: self.items.deep_view(),
        }
    }
}

/// The implementation of the trait for one wrapper type. The wrapped type
/// `t` stands for the wildcard in the template, and for `Self` in the
/// bounds of the trait's parameters and in its `where` clause, which speak
/// of the implementor that is wrapped, not of the wrapper.
pub open spec fn block_for(descriptor: TypeToImplModel, t: Seq<char>, todo: ImplsToDoModel)
    -> ImplBlockModel {
    ImplBlockModel {
        generics: injected(
            t,
            todo.def.name,
            todo.def.generics,
            descriptor.generics,
            resolved_params(todo.def.generics, t),
        ),
        path: trait_path(todo.def.name, todo.def.generics),
        ty: substitute(descriptor.ty, "_"@, t),
        where_clause: substitute(todo.def.where_clause, "Self"@, t),
        items: forwards(todo, t, descriptor.closure, todo.def.items.len() as int),
    }
}

/// An implementation, written out.
pub open spec fn block_tokens(block: ImplBlockModel) -> Seq<Tree> {
    seq![Tree::Word("impl"@)] + angle_bracketed(declarations(block.generics)) + block.path + seq![
        Tree::Word("for"@),
    ] + block.ty + block.where_clause + seq![Tree::Group(Delimiter::Brace, concat(block.items))]
}

/// Holds of the wrapper types that the trait can be implemented for: all of
/// them, unless the trait needs exclusive access; then those that can hand
/// it out.
pub open spec fn usable(requires_mutable: bool) -> spec_fn(TypeToImplModel) -> bool {
    |descriptor: TypeToImplModel| descriptor.mutable || !requires_mutable
}

/// The wrapper types that the trait is implemented for, in their order.
pub open spec fn retained(attrs: AttributesModel, todo: ImplsToDoModel) -> Seq<TypeToImplModel> {
    attrs.types.filter(usable(todo.requires_mutable))
}

/// The implementations: one for each retained wrapper type.
pub open spec fn blocks(attrs: AttributesModel, todo: ImplsToDoModel) -> Seq<ImplBlockModel> {
    Seq::new(
        retained(attrs, todo).len(),
        |k: int| block_for(retained(attrs, todo)[k], attrs.generic, todo),
    )
}

/// An item as it is declared again: as written, without the attributes that
/// were meant for the generator.
pub open spec fn declared_item(item: ItemModel, attributes: ItemAttributesModel) -> Seq<Tree> {
    match item {
        ItemModel::Method(method) => attribute_tokens(attributes.kept) + method.source,
        ItemModel::Type(ty) => attribute_tokens(attributes.kept) + ty.source,
        ItemModel::Const(constant) => attribute_tokens(attributes.kept) + constant.source,
        ItemModel::Other(source) => source,
    }
}

/// The items as they are declared again.
pub open spec fn declared_items(todo: ImplsToDoModel) -> Seq<Seq<Tree>> {
    Seq::new(
        todo.def.items.len(),
        |i: int| declared_item(todo.def.items[i], todo.item_attrs[i]),
    )
}

/// The trait as it is declared again.
pub open spec fn declaration(todo: ImplsToDoModel) -> Seq<Tree> {
    todo.def.head + seq![
        Tree::Group(Delimiter::Brace, todo.def.inner + concat(declared_items(todo))),
    ]
}

/// The implementations, written out one after another.
pub open spec fn written_blocks(list: Seq<ImplBlockModel>) -> Seq<Seq<Tree>> {
    Seq::new(list.len(), |k: int| block_tokens(list[k]))
}

/// All that an expansion writes: the trait, then the implementations.
pub open spec fn expansion(attrs: AttributesModel, todo: ImplsToDoModel) -> Seq<Tree> {
    declaration(todo) + concat(written_blocks(blocks(attrs, todo)))
}

/// Writes the attributes out, each between `#[` and `]`.
fn write_attributes(kept: &Vec<Vec<Token>>) -> (out: Vec<Token>)
    ensures
        out.deep_view() == attribute_tokens(kept.deep_view()),
{
    let mut out: Vec<Token> = Vec::new();
    let mut i: usize = 0;
    assert(out.deep_view() =~= Seq::<Tree>::empty());
    assert(kept.deep_view().subrange(0, 0) =~= Seq::<Seq<Tree>>::empty());
    while i < kept.len()
        invariant
            i <= kept.len(),
            out.deep_view() == attribute_tokens(kept.deep_view().subrange(0, i as int)),
        decreases kept.len() - i,
    {
        let ghost before = out.deep_view();
        push_token(&mut out, mark('#'));
        push_token(&mut out, group(Delimiter::Bracket, copy_tokens(&kept[i])));
        proof {
            let next = kept.deep_view().subrange(0, i + 1);
            assert(next.drop_last() =~= kept.deep_view().subrange(0, i as int));
            assert(next.last() == kept[i as int].deep_view());
            assert(out.deep_view() =~= before + seq![
                Tree::Mark('#', false),
                Tree::Group(Delimiter::Bracket, kept[i as int].deep_view()),
            ]);
        }
        i += 1;
    }
    assert(kept.deep_view().subrange(0, kept.len() as int) =~= kept.deep_view());
    out
}

/// Writes `<T as Foo<A>>::name`.
fn write_item_path(t: &str, def: &ItemTrait, name: &str) -> (out: Vec<Token>)
    ensures
        out.deep_view() == item_path(t@, def.deep_view(), name@),
{
    let mut out: Vec<Token> = Vec::new();
    push_token(&mut out, mark('<'));
    push_token(&mut out, word(t));
    push_token(&mut out, word("as"));
    append_tokens(&mut out, &trait_path_tokens(def.name.as_str(), &def.generics));
    push_token(&mut out, mark('>'));
    assert(out.deep_view() =~= qualified(t@, def.deep_view()));
    push_path_separator(&mut out);
    push_token(&mut out, word(name));
    assert(out.deep_view() =~= item_path(t@, def.deep_view(), name@));
    out
}

/// Copies of the parameters that are no lifetimes, in their order.
fn own_arguments(params: &Vec<GenericParam>) -> (out: Vec<GenericParam>)
    ensures
        out.deep_view() == params.deep_view().filter(no_lifetime()),
{
    let ghost keep = no_lifetime();
    let mut out: Vec<GenericParam> = Vec::new();
    let mut i: usize = 0;
    proof {
        reveal(Seq::filter);
        assert(params.deep_view().subrange(0, 0) =~= Seq::<GenericParamModel>::empty());
        assert(out.deep_view() =~= Seq::<GenericParamModel>::empty());
    }
    while i < params.len()
        invariant
            i <= params.len(),
            keep == no_lifetime(),
            out.deep_view() == params.deep_view().subrange(0, i as int).filter(keep),
        decreases params.len() - i,
    {
        proof {
            lemma_filter_push(
                params.deep_view().subrange(0, i as int),
                params[i as int].deep_view(),
                keep,
            );
            assert(params.deep_view().subrange(0, i + 1) =~= params.deep_view().subrange(
                0,
                i as int,
            ).push(params[i as int].deep_view()));
        }
        if params[i].kind != ParamKind::Lifetime {
            let ghost before = out.deep_view();
            out.push(copy_param(&params[i]));
            assert(out.deep_view() =~= before.push(params[i as int].deep_view()));
        }
        i += 1;
    }
    assert(params.deep_view().subrange(0, params.len() as int) =~= params.deep_view());
    out
}

/// Writes the generic arguments of a forwarding call.
fn write_turbofish(method: &Method, attributes: &ItemAttributes) -> (out: Vec<Token>)
    ensures
        out.deep_view() == turbofish(method.deep_view(), attributes.deep_view()),
{
    let mut out: Vec<Token> = Vec::new();
    match &attributes.generics {
        Some(arguments) => {
            push_path_separator(&mut out);
            append_tokens(&mut out, arguments);
            assert(out.deep_view() =~= path_separator() + arguments.deep_view());
        },
        None => {
            let own = own_arguments(&method.generics);
            if own.len() > 0 {
                push_path_separator(&mut out);
                append_tokens(&mut out, &angle_bracketed_tokens(&param_names(&own)));
                assert(out.deep_view() =~= path_separator() + angle_bracketed(
                    names(own.deep_view()),
                ));
            } else {
                assert(out.deep_view() =~= Seq::<Tree>::empty());
            }
        },
    }
    out
}

/// Writes the arguments of a forwarding call.
fn write_call_arguments(method: &Method, closure: &Option<Vec<Token>>) -> (out: Vec<Token>)
    ensures
        out.deep_view() == call_arguments(method.deep_view(), closure.deep_view()),
{
    let mut parts: Vec<Vec<Token>> = Vec::new();
    assert(parts.deep_view() =~= Seq::<Seq<Tree>>::empty());
    match method.receiver {
        None => {},
        Some(_) => {
            match closure {
                Some(accessor) => {
                    parts.push(copy_tokens(accessor));
                    assert(parts.deep_view() =~= seq![accessor.deep_view()]);
                },
                None => {
                    let mut this: Vec<Token> = Vec::new();
                    push_token(&mut this, word("self"));
                    assert(this.deep_view() =~= seq![Tree::Word("self"@)]);
                    parts.push(this);
                    assert(parts.deep_view() =~= seq![seq![Tree::Word("self"@)]]);
                },
            }
        },
    }
    let ghost first = parts.deep_view();
    assert(first == receiver_argument(method.deep_view().receiver, closure.deep_view()));
    let mut i: usize = 0;
    assert(method.arguments.deep_view().subrange(0, 0) =~= Seq::<Seq<Tree>>::empty());
    assert(first + Seq::<Seq<Tree>>::empty() =~= first);
    while i < method.arguments.len()
        invariant
            i <= method.arguments.len(),
            parts.deep_view() == first + method.arguments.deep_view().subrange(0, i as int),
        decreases method.arguments.len() - i,
    {
        let ghost before = parts.deep_view();
        parts.push(copy_tokens(&method.arguments[i]));
        assert(parts.deep_view() =~= before.push(method.arguments[i as int].deep_view()));
        i += 1;
        assert(parts.deep_view() =~= first + method.arguments.deep_view().subrange(0, i as int));
    }
    assert(method.arguments.deep_view().subrange(0, method.arguments.len() as int)
        =~= method.arguments.deep_view());
    separated_tokens(&parts)
}

/// Writes a method that forwards to the wrapped type.
fn forward_method(
    method: &Method,
    attributes: &ItemAttributes,
    t: &str,
    def: &ItemTrait,
    closure: &Option<Vec<Token>>,
) -> (out: Vec<Token>)
    ensures
        out.deep_view() == forwarded_method(
            method.deep_view(),
            attributes.deep_view(),
            t@,
            def.deep_view(),
            closure.deep_view(),
        ),
{
    let mut call = write_item_path(t, def, method.name.as_str());
    append_tokens(&mut call, &write_turbofish(method, attributes));
    push_token(&mut call, group(Delimiter::Parenthesis, write_call_arguments(method, closure)));
    assert(call.deep_view() =~= forwarding_call(
        method.deep_view(),
        attributes.deep_view(),
        t@,
        def.deep_view(),
        closure.deep_view(),
    ));
    let mut out = write_attributes(&attributes.kept);
    append_tokens(&mut out, &method.signature);
    push_token(&mut out, group(Delimiter::Brace, call));
    assert(out.deep_view() =~= forwarded_method(
        method.deep_view(),
        attributes.deep_view(),
        t@,
        def.deep_view(),
        closure.deep_view(),
    ));
    out
}

/// Writes an associated constant that forwards to the wrapped type.
fn forward_const(constant: &AssociatedConst, attributes: &ItemAttributes, t: &str, def: &ItemTrait)
    -> (out: Vec<Token>)
    ensures
        out.deep_view() == forwarded_const(
            constant.deep_view(),
            attributes.deep_view(),
            t@,
            def.deep_view(),
        ),
{
    let value = match (&constant.default, &attributes.generics) {
        (Some(value), None) => copy_tokens(value),
        _ => write_item_path(t, def, constant.name.as_str()),
    };
    assert(value.deep_view() == constant_value(
        constant.deep_view(),
        attributes.deep_view(),
        t@,
        def.deep_view(),
    ));
    let mut out = write_attributes(&attributes.kept);
    push_token(&mut out, word("const"));
    push_token(&mut out, word(constant.name.as_str()));
    push_token(&mut out, mark(':'));
    append_tokens(&mut out, &constant.ty);
    push_token(&mut out, mark('='));
    append_tokens(&mut out, &value);
    push_token(&mut out, mark(';'));
    assert(out.deep_view() =~= forwarded_const(
        constant.deep_view(),
        attributes.deep_view(),
        t@,
        def.deep_view(),
    ));
    out
}

/// Writes an associated type that forwards to the wrapped type.
fn forward_type(ty: &AssociatedType, attributes: &ItemAttributes, t: &str, def: &ItemTrait) -> (out:
    Vec<Token>)
    ensures
        out.deep_view() == forwarded_type(
            ty.deep_view(),
            attributes.deep_view(),
            t@,
            def.deep_view(),
        ),
{
    let mut out = write_attributes(&attributes.kept);
    push_token(&mut out, word("type"));
    push_token(&mut out, word(ty.name.as_str()));
    append_tokens(&mut out, &angle_bracketed_tokens(&param_declarations(&ty.generics)));
    push_token(&mut out, mark('='));
    append_tokens(&mut out, &write_item_path(t, def, ty.name.as_str()));
    append_tokens(&mut out, &angle_bracketed_tokens(&param_names(&ty.generics)));
    append_tokens(&mut out, &ty.where_clause);
    push_token(&mut out, mark(';'));
    assert(out.deep_view() =~= forwarded_type(
        ty.deep_view(),
        attributes.deep_view(),
        t@,
        def.deep_view(),
    ));
    out
}

/// Writes one item that forwards to the wrapped type.
pub fn forward(
    item: &Item,
    attributes: &ItemAttributes,
    t: &str,
    def: &ItemTrait,
    closure: &Option<Vec<Token>>,
) -> (out: Vec<Token>)
    ensures
        out.deep_view() == forwarded(
            item.deep_view(),
            attributes.deep_view(),
            t@,
            def.deep_view(),
            closure.deep_view(),
        ),
{
    match item {
        Item::Method(method) => forward_method(method, attributes, t, def, closure),
        Item::Type(ty) => forward_type(ty, attributes, t, def),
        Item::Const(constant) => forward_const(constant, attributes, t, def),
        Item::Other(_) => {
            let out: Vec<Token> = Vec::new();
            assert(out.deep_view() =~= Seq::<Tree>::empty());
            out
        },
    }
}

/// Writes the parameters with the wrapped type for `Self` in their
/// declarations.
fn resolve_params(params: &Vec<GenericParam>, resolver: &SelfResolver) -> (out: Vec<GenericParam>)
    ensures
        out.deep_view() == resolved_params(params.deep_view(), resolver.ident@),
{
    let mut out: Vec<GenericParam> = Vec::new();
    let mut i: usize = 0;
    while i < params.len()
        invariant
            i <= params.len(),
            out.len() == i,
            forall|k: int|
                0 <= k < i ==> out[k].deep_view() == resolved_params(
                    params.deep_view(),
                    resolver.ident@,
                )[k],
        decreases params.len() - i,
    {
        out.push(
            GenericParam {
                kind: params[i].kind,
                declaration: resolver.visit(&params[i].declaration),
                name: copy_tokens(&params[i].name),
            },
        );
        i += 1;
    }
    assert(out.deep_view() =~= resolved_params(params.deep_view(), resolver.ident@));
    out
}

impl ImplBlock {
    /// Writes the implementation out.
    pub fn to_tokens(&self) -> (out: Vec<Token>)
        ensures
            out.deep_view() == block_tokens(self.deep_view()),
    {
        let mut out: Vec<Token> = Vec::new();
        push_token(&mut out, word("impl"));
        append_tokens(&mut out, &angle_bracketed_tokens(&param_declarations(&self.generics)));
        append_tokens(&mut out, &self.path);
        push_token(&mut out, word("for"));
        append_tokens(&mut out, &self.ty);
        append_tokens(&mut out, &self.where_clause);
        push_token(&mut out, group(Delimiter::Brace, concat_tokens(&self.items)));
        assert(out.deep_view() =~= block_tokens(self.deep_view()));
        out
    }
}

/// All that one expansion is made from.
pub struct Generator {
    /// What the arguments of the attribute ask for.
    pub attrs: Attributes,
    /// What is to be done for the trait.
    pub todo: ImplsToDo,
}

impl Generator {
    /// Writes the forwarded items of one implementation.
    fn forward_items(&self, closure: &Option<Vec<Token>>) -> (out: Vec<Vec<Token>>)
        requires
            self.todo.deep_view().well_formed(),
        ensures
            out.deep_view() == forwards(
                self.todo.deep_view(),
                self.attrs.generic@,
                closure.deep_view(),
                self.todo.deep_view().def.items.len() as int,
            ),
    {
        let ghost todo = self.todo.deep_view();
        let mut out: Vec<Vec<Token>> = Vec::new();
        let mut i: usize = 0;
        assert(out.deep_view() =~= Seq::<Seq<Tree>>::empty());
        while i < self.todo.def.items.len()
            invariant
                i <= self.todo.def.items.len(),
                todo == self.todo.deep_view(),
                todo.well_formed(),
                todo.def.items.len() == self.todo.def.items.len(),
                out.deep_view() == forwards(todo, self.attrs.generic@, closure.deep_view(), i as int),
            decreases self.todo.def.items.len() - i,
        {
            assert(self.todo.item_attrs.len() == todo.item_attrs.len());
            if mask_index(&self.todo.item_mask, i) {
                let ghost before = out.deep_view();
                let item = forward(
                    &self.todo.def.items[i],
                    &self.todo.item_attrs[i],
                    self.attrs.generic.as_str(),
                    &self.todo.def,
                    closure,
                );
                assert(self.todo.def.items[i as int].deep_view() == todo.def.items[i as int]);
                assert(self.todo.item_attrs[i as int].deep_view() == todo.item_attrs[i as int]);
                out.push(item);
                assert(out.deep_view() =~= before.push(item.deep_view()));
            }
            i += 1;
        }
        out
    }

    /// The implementation of the trait for one wrapper type.
    pub fn block(&self, descriptor: &TypeToImpl) -> (block: ImplBlock)
        requires
            self.todo.deep_view().well_formed(),
        ensures
            block.deep_view() == block_for(
                descriptor.deep_view(),
                self.attrs.generic@,
                self.todo.deep_view(),
            ),
    {
        let t = self.attrs.generic.as_str();
        let def = &self.todo.def;
        let infer_resolver = InferResolver { ty: self.attrs.generic.clone() };
        let self_resolver = SelfResolver { ident: self.attrs.generic.clone() };
        let mut generics = resolve_params(&def.generics, &self_resolver);
        inject_additional_types(t, def, &descriptor.generics, &mut generics);
        ImplBlock {
            generics,
            path: trait_path_tokens(def.name.as_str(), &def.generics),
            ty: infer_resolver.visit(&descriptor.ty),
            where_clause: self_resolver.visit(&def.where_clause),
            items: self.forward_items(&descriptor.closure),
        }
    }

    /// The implementations: one for each wrapper type of the settings that
    /// the trait can be implemented for, in the order of the settings.
    pub fn blocks(&self) -> (list: Vec<ImplBlock>)
        requires
            self.todo.deep_view().well_formed(),
        ensures
            list.deep_view() == blocks(self.attrs.deep_view(), self.todo.deep_view()),
    {
        let ghost attrs = self.attrs.deep_view();
        let ghost todo = self.todo.deep_view();
        let ghost keep = usable(todo.requires_mutable);
        let mut list: Vec<ImplBlock> = Vec::new();
        let mut i: usize = 0;
        proof {
            reveal(Seq::filter);
            assert(attrs.types.subrange(0, 0) =~= Seq::<TypeToImplModel>::empty());
        }
        while i < self.attrs.types.len()
            invariant
                i <= self.attrs.types.len(),
                attrs == self.attrs.deep_view(),
                todo == self.todo.deep_view(),
                todo.well_formed(),
                keep == usable(todo.requires_mutable),
                list.len() == attrs.types.subrange(0, i as int).filter(keep).len(),
                forall|k: int|
                    0 <= k < list.len() ==> list[k].deep_view() == block_for(
                        attrs.types.subrange(0, i as int).filter(keep)[k],
                        attrs.generic,
                        todo,
                    ),
            decreases self.attrs.types.len() - i,
        {
            let descriptor = &self.attrs.types[i];
            proof {
                lemma_filter_push(attrs.types.subrange(0, i as int), descriptor.deep_view(), keep);
                assert(attrs.types.subrange(0, i + 1) =~= attrs.types.subrange(0, i as int).push(
                    descriptor.deep_view(),
                ));
            }
            if descriptor.mutable || !self.todo.requires_mutable {
                list.push(self.block(descriptor));
            }
            i += 1;
        }
        proof {
            assert(attrs.types.subrange(0, self.attrs.types.len() as int) =~= attrs.types);
            assert(list.deep_view() =~= blocks(attrs, todo));
        }
        list
    }

    /// The trait as it is declared again: as written, without the
    /// attributes that were meant for the generator.
    pub fn declaration(&self) -> (out: Vec<Token>)
        requires
            self.todo.deep_view().well_formed(),
        ensures
            out.deep_view() == declaration(self.todo.deep_view()),
    {
        let ghost todo = self.todo.deep_view();
        let mut items: Vec<Vec<Token>> = Vec::new();
        let mut i: usize = 0;
        while i < self.todo.def.items.len()
            invariant
                i <= self.todo.def.items.len(),
                todo == self.todo.deep_view(),
                todo.well_formed(),
                todo.def.items.len() == self.todo.def.items.len(),
                items.len() == i,
                forall|k: int|
                    0 <= k < i ==> items[k].deep_view() == declared_item(
                        todo.def.items[k],
                        todo.item_attrs[k],
                    ),
            decreases self.todo.def.items.len() - i,
        {
            assert(self.todo.item_attrs.len() == todo.item_attrs.len());
            assert(self.todo.def.items[i as int].deep_view() == todo.def.items[i as int]);
            assert(self.todo.item_attrs[i as int].deep_view() == todo.item_attrs[i as int]);
            let item = match &self.todo.def.items[i] {
                Item::Method(method) => {
                    let mut item = write_attributes(&self.todo.item_attrs[i].kept);
                    append_tokens(&mut item, &method.source);
                    item
                },
                Item::Type(ty) => {
                    let mut item = write_attributes(&self.todo.item_attrs[i].kept);
                    append_tokens(&mut item, &ty.source);
                    item
                },
                Item::Const(constant) => {
                    let mut item = write_attributes(&self.todo.item_attrs[i].kept);
                    append_tokens(&mut item, &constant.source);
                    item
                },
                Item::Other(source) => copy_tokens(source),
            };
            items.push(item);
            i += 1;
        }
        assert(items.deep_view() =~= declared_items(todo));
        let mut body = copy_tokens(&self.todo.def.inner);
        append_tokens(&mut body, &concat_tokens(&items));
        let mut out = copy_tokens(&self.todo.def.head);
        push_token(&mut out, group(Delimiter::Brace, body));
        assert(out.deep_view() =~= declaration(todo));
        out
    }

    /// Writes the expansion: the trait, and behind it the implementations.
    pub fn to_tokens(&self) -> (out: Vec<Token>)
        requires
            self.todo.deep_view().well_formed(),
        ensures
            out.deep_view() == expansion(self.attrs.deep_view(), self.todo.deep_view()),
    {
        let mut out = self.declaration();
        let list = self.blocks();
        let mut written: Vec<Vec<Token>> = Vec::new();
        let mut k: usize = 0;
        while k < list.len()
            invariant
                k <= list.len(),
                written.len() == k,
                forall|j: int|
                    0 <= j < k ==> written[j].deep_view() == block_tokens(list[j].deep_view()),
            decreases list.len() - k,
        {
            written.push(list[k].to_tokens());
            k += 1;
        }
        assert(written.deep_view() =~= written_blocks(list.deep_view()));
        append_tokens(&mut out, &concat_tokens(&written));
        out
    }
}

} // verus!
