//! Whole expansions, from the text of a trait to the text of its
//! implementations. `syn` reads the trait, as it does in a macro.

use auto_traits::config::Attributes;
use auto_traits::error::{Error, ErrorKind};
use auto_traits::generator::{Generator, ImplBlock};
use auto_traits::impls_to_do::ImplsToDo;
use auto_traits::model::{
    AssociatedConst, AssociatedType, GenericParam, Item, ItemTrait, Method, ParamKind, Receiver,
};
use auto_traits::pointer_impls::pointer_impls;
use auto_traits::token::{render, Delimiter, Token};
use quote::ToTokens;

fn lex(stream: proc_macro2::TokenStream) -> Vec<Token> {
    let mut out = Vec::new();
    for tree in stream {
        match tree {
            proc_macro2::TokenTree::Group(group) => {
                let inner = lex(group.stream());
                let delimiter = match group.delimiter() {
                    proc_macro2::Delimiter::Brace => Delimiter::Brace,
                    proc_macro2::Delimiter::Bracket => Delimiter::Bracket,
                    _ => Delimiter::Parenthesis,
                };
                out.push(Token::Group(delimiter, inner));
            },
            proc_macro2::TokenTree::Ident(ident) => out.push(Token::Word(ident.to_string())),
            proc_macro2::TokenTree::Punct(punct) => {
                out.push(Token::Mark(punct.as_char(), punct.spacing() == proc_macro2::Spacing::Joint))
            },
            proc_macro2::TokenTree::Literal(literal) => out.push(Token::Literal(literal.to_string())),
        }
    }
    out
}

fn tokens_of<T: ToTokens>(syntax: &T) -> Vec<Token> {
    lex(syntax.to_token_stream())
}

fn attributes_of(attrs: &[syn::Attribute]) -> Vec<Vec<Token>> {
    attrs.iter().map(|attr| tokens_of(&attr.meta)).collect()
}

fn param_of(param: &syn::GenericParam) -> GenericParam {
    match param {
        syn::GenericParam::Lifetime(lifetime) => GenericParam {
            kind: ParamKind::Lifetime,
            declaration: tokens_of(lifetime),
            name: tokens_of(&lifetime.lifetime),
        },
        syn::GenericParam::Type(ty) => {
            let mut bare = ty.clone();
            bare.eq_token = None;
            bare.default = None;
            GenericParam { kind: ParamKind::Type, declaration: tokens_of(&bare), name: tokens_of(&ty.ident) }
        },
        syn::GenericParam::Const(constant) => {
            let mut bare = constant.clone();
            bare.eq_token = None;
            bare.default = None;
            GenericParam {
                kind: ParamKind::Const,
                declaration: tokens_of(&bare),
                name: tokens_of(&constant.ident),
            }
        },
    }
}

fn params_of(generics: &syn::Generics) -> Vec<GenericParam> {
    generics.params.iter().map(param_of).collect()
}

fn method_of(method: &syn::TraitItemFn) -> Method {
    let mut bare = method.clone();
    bare.attrs.clear();
    let receiver = method.sig.receiver().map(|receiver| Receiver {
        reference: receiver.reference.is_some(),
        mutable: receiver.mutability.is_some(),
    });
    let arguments = method
        .sig
        .inputs
        .iter()
        .filter_map(|input| match input {
            syn::FnArg::Typed(typed) => Some(tokens_of(&typed.pat)),
            syn::FnArg::Receiver(_) => None,
        })
        .collect();
    Method {
        attributes: attributes_of(&method.attrs),
        source: tokens_of(&bare),
        signature: tokens_of(&method.sig),
        name: method.sig.ident.to_string(),
        generics: params_of(&method.sig.generics),
        receiver,
        arguments,
        has_default: method.default.is_some(),
    }
}

fn type_of(ty: &syn::TraitItemType) -> AssociatedType {
    let mut bare = ty.clone();
    bare.attrs.clear();
    AssociatedType {
        attributes: attributes_of(&ty.attrs),
        source: tokens_of(&bare),
        name: ty.ident.to_string(),
        generics: params_of(&ty.generics),
        bounds: tokens_of(&ty.bounds),
        where_clause: tokens_of(&ty.generics.where_clause),
        has_default: ty.default.is_some(),
    }
}

fn const_of(constant: &syn::TraitItemConst) -> AssociatedConst {
    let mut bare = constant.clone();
    bare.attrs.clear();
    AssociatedConst {
        attributes: attributes_of(&constant.attrs),
        source: tokens_of(&bare),
        name: constant.ident.to_string(),
        generics: params_of(&constant.generics),
        ty: tokens_of(&constant.ty),
        default: constant.default.as_ref().map(|(_, value)| tokens_of(value)),
    }
}

fn item_of(item: &syn::TraitItem) -> Item {
    match item {
        syn::TraitItem::Fn(method) => Item::Method(method_of(method)),
        syn::TraitItem::Type(ty) => Item::Type(type_of(ty)),
        syn::TraitItem::Const(constant) => Item::Const(const_of(constant)),
        other => Item::Other(tokens_of(other)),
    }
}

fn trait_of(def: &syn::ItemTrait) -> ItemTrait {
    let mut head = tokens_of(def);
    head.pop();
    let inner = def.attrs.iter().filter(|attr| matches!(attr.style, syn::AttrStyle::Inner(_)));
    ItemTrait {
        head,
        name: def.ident.to_string(),
        generics: params_of(&def.generics),
        where_clause: tokens_of(&def.generics.where_clause),
        inner: inner.flat_map(tokens_of).collect(),
        items: def.items.iter().map(item_of).collect(),
    }
}

fn tokens(text: &str) -> Vec<Token> {
    lex(text.parse().unwrap())
}

fn read_trait(text: &str) -> ItemTrait {
    trait_of(&syn::parse_str::<syn::ItemTrait>(text).unwrap())
}

/// The tokens of the text with one gap between every two, whatever the
/// gaps in the text were.
fn normal(text: &str) -> String {
    let mut out = String::new();
    spell(text.parse().unwrap(), &mut out);
    out
}

fn spell(stream: proc_macro2::TokenStream, out: &mut String) {
    for tree in stream {
        match tree {
            proc_macro2::TokenTree::Group(group) => {
                let (open, close) = match group.delimiter() {
                    proc_macro2::Delimiter::Parenthesis => ("( ", ") "),
                    proc_macro2::Delimiter::Brace => ("{ ", "} "),
                    proc_macro2::Delimiter::Bracket => ("[ ", "] "),
                    proc_macro2::Delimiter::None => ("", ""),
                };
                out.push_str(open);
                spell(group.stream(), out);
                out.push_str(close);
            },
            proc_macro2::TokenTree::Punct(punct) if punct.as_char() == '\'' => out.push('\''),
            other => {
                out.push_str(&other.to_string());
                out.push(' ');
            },
        }
    }
}

fn expand(arguments: &str, def: &str) -> Result<String, Error> {
    pointer_impls(&tokens(arguments), read_trait(def), false).map(|out| normal(&render(&out)))
}

fn generator(arguments: &str, def: &str) -> Generator {
    Generator {
        attrs: Attributes::parse(&tokens(arguments), false).unwrap(),
        todo: ImplsToDo::parse(read_trait(def)).unwrap(),
    }
}

fn targets(blocks: &[ImplBlock]) -> Vec<String> {
    blocks.iter().map(|block| normal(&render(&block.ty))).collect()
}

const ALL: [&str; 10] = [
    "&'a T",
    "&'a mut T",
    "::std::boxed::Box<T>",
    "::std::rc::Rc<T>",
    "::std::sync::Arc<T>",
    "::std::cell::Ref<'a, T>",
    "::std::cell::RefMut<'a, T>",
    "::std::sync::MutexGuard<'a, T>",
    "::std::sync::RwLockReadGuard<'a, T>",
    "::std::sync::RwLockWriteGuard<'a, T>",
];

#[test]
fn shared_method_gives_a_block_for_every_default_wrapper() {
    let blocks = generator("", "trait Hello { fn hello(&self, what: &str) -> String; }").blocks();
    let expected: Vec<String> = ALL.iter().map(|ty| normal(ty)).collect();
    assert_eq!(targets(&blocks), expected);
    for block in &blocks {
        assert_eq!(block.items.len(), 1);
    }
}

#[test]
fn exclusive_method_leaves_only_wrappers_with_exclusive_access() {
    let blocks = generator("", "trait Bump { fn bump(&mut self); }").blocks();
    let expected: Vec<String> = [
        "&'a mut T",
        "::std::boxed::Box<T>",
        "::std::cell::RefMut<'a, T>",
        "::std::sync::MutexGuard<'a, T>",
        "::std::sync::RwLockWriteGuard<'a, T>",
    ]
    .iter()
    .map(|ty| normal(ty))
    .collect();
    let found = targets(&blocks);
    assert_eq!(found, expected);
    assert!(!found.contains(&normal("&'a T")));
    assert!(!found.contains(&normal("::std::rc::Rc<T>")));
    assert!(!found.contains(&normal("::std::sync::Arc<T>")));
}

#[test]
fn custom_pointer_with_accessor_is_the_only_block() {
    let text = expand(
        "unimpl *, impl MyPointer<_> = self.0.get()",
        "trait Hello { fn hello(&self) -> &str; fn twice(&self, n: usize) -> String; }",
    )
    .unwrap();
    assert_eq!(
        text,
        normal(
            "trait Hello { fn hello(&self) -> &str; fn twice(&self, n: usize) -> String; }
             impl<T: Hello> Hello for MyPointer<T> {
                 fn hello(&self) -> &str { <T as Hello>::hello(self.0.get()) }
                 fn twice(&self, n: usize) -> String { <T as Hello>::twice(self.0.get(), n) }
             }"
        )
    );
}

#[test]
fn default_receiver_is_self() {
    let text = expand("unimpl *, impl Wrap<_>", "trait Hello { fn hello(&self) -> &str; }").unwrap();
    assert_eq!(
        text,
        normal(
            "trait Hello { fn hello(&self) -> &str; }
             impl<T: Hello> Hello for Wrap<T> { fn hello(&self) -> &str { <T as Hello>::hello(self) } }"
        )
    );
}

#[test]
fn method_without_receiver_passes_only_its_arguments() {
    let text = expand(
        "unimpl *, impl Wrap<_> = &self.0",
        "trait Passer { fn pass<'s>(what: &'s str) -> &'s str; }",
    )
    .unwrap();
    assert_eq!(
        text,
        normal(
            "trait Passer { fn pass<'s>(what: &'s str) -> &'s str; }
             impl<T: Passer> Passer for Wrap<T> {
                 fn pass<'s>(what: &'s str) -> &'s str { <T as Passer>::pass(what) }
             }"
        )
    );
}

#[test]
fn reference_block_declares_its_lifetime_first() {
    let text = expand(
        "unimpl *, impl<'a> &'a _",
        "trait Foos<'x, F: ?Sized> { fn foo(&self) -> &'x F; }",
    )
    .unwrap();
    assert_eq!(
        text,
        normal(
            "trait Foos<'x, F: ?Sized> { fn foo(&self) -> &'x F; }
             impl<'a, 'x, F: ?Sized, T: Foos<'x, F>> Foos<'x, F> for &'a T {
                 fn foo(&self) -> &'x F { <T as Foos<'x, F>>::foo(self) }
             }"
        )
    );
}

#[test]
fn extra_type_and_const_parameters_follow_those_of_the_trait() {
    let generator = generator(
        "unimpl *, impl<'p, P: Clone, const N: usize> Pair<'p, P, N, _>",
        "trait Foo<'x, A> { fn foo(&self); }",
    );
    let blocks = generator.blocks();
    assert_eq!(blocks.len(), 1);
    let kinds: Vec<ParamKind> = blocks[0].generics.iter().map(|param| param.kind).collect();
    assert_eq!(
        kinds,
        vec![
            ParamKind::Lifetime,
            ParamKind::Lifetime,
            ParamKind::Type,
            ParamKind::Const,
            ParamKind::Type,
            ParamKind::Type
        ]
    );
    assert_eq!(
        normal(&render(&blocks[0].to_tokens())),
        normal(
            "impl<'p, 'x, A, const N: usize, P: Clone, T: Foo<'x, A>> Foo<'x, A> for Pair<'p, P, N, T> {
                 fn foo(&self) { <T as Foo<'x, A>>::foo(self) }
             }"
        )
    );
}

#[test]
fn default_of_a_trait_parameter_is_left_out_of_the_block() {
    let text = expand("unimpl *, impl Wrap<_>", "trait Foo<A = u8> { fn foo(&self) -> A; }").unwrap();
    assert_eq!(
        text,
        normal(
            "trait Foo<A = u8> { fn foo(&self) -> A; }
             impl<A, T: Foo<A>> Foo<A> for Wrap<T> { fn foo(&self) -> A { <T as Foo<A>>::foo(self) } }"
        )
    );
}

#[test]
fn placeholder_can_be_renamed() {
    let text = expand("T = U, unimpl *, impl Wrap<_>", "trait Bars<T: ?Sized> { fn bar(&self) -> &T; }")
        .unwrap();
    assert_eq!(
        text,
        normal(
            "trait Bars<T: ?Sized> { fn bar(&self) -> &T; }
             impl<T: ?Sized, U: Bars<T>> Bars<T> for Wrap<U> {
                 fn bar(&self) -> &T { <U as Bars<T>>::bar(self) }
             }"
        )
    );
}

#[test]
fn renaming_changes_only_the_name() {
    let def = "trait Hello where Self: Sized { type Out; const N: usize; fn hello(&self, x: u8) -> Self::Out; }";
    let with_t = expand("", def).unwrap();
    let with_u = expand("T = Wrapped", def).unwrap();
    assert_ne!(with_t, with_u);
    let renamed: Vec<String> = tokens(&with_t)
        .iter()
        .map(|token| render(&rename(std::slice::from_ref(token), "T", "Wrapped")))
        .collect();
    assert_eq!(normal(&renamed.concat()), with_u);
}

#[test]
fn every_name_fills_the_same_places() {
    let def = "trait Hello<A: From<Self>> where Self: Sized { type Out; fn hello(&self, a: A) -> Self::Out; }";
    let skeleton = expand("T = Marker9", def).unwrap();
    for name in ["T", "U", "std", "a", "A", "Hello", "hello", "Out"] {
        let filled: Vec<String> = tokens(&skeleton)
            .iter()
            .map(|token| render(&rename(std::slice::from_ref(token), "Marker9", name)))
            .collect();
        assert_eq!(expand(&format!("T = {name}"), def).unwrap(), normal(&filled.concat()));
    }
}

fn rename(list: &[Token], from: &str, to: &str) -> Vec<Token> {
    list.iter()
        .map(|token| match token {
            Token::Word(word) if word == from => Token::Word(to.to_string()),
            Token::Word(word) => Token::Word(word.clone()),
            Token::Mark(symbol, joint) => Token::Mark(*symbol, *joint),
            Token::Literal(text) => Token::Literal(text.clone()),
            Token::Group(delimiter, inner) => Token::Group(*delimiter, rename(inner, from, to)),
        })
        .collect()
}

#[test]
fn self_in_the_where_clause_becomes_the_wrapped_type() {
    let text = expand(
        "unimpl *, impl Wrap<_>",
        "trait DisplayFoo: Foos where Self::Foo: Display {}",
    )
    .unwrap();
    assert_eq!(
        text,
        normal(
            "trait DisplayFoo: Foos where Self::Foo: Display {}
             impl<T: DisplayFoo> DisplayFoo for Wrap<T> where T::Foo: Display {}"
        )
    );
}

#[test]
fn self_in_the_bound_of_a_parameter_becomes_the_wrapped_type() {
    let text = expand("unimpl *, impl Wrap<_>", "trait Into2<A: From<Self>> { fn go(self) -> A; }")
        .unwrap();
    assert_eq!(
        text,
        normal(
            "trait Into2<A: From<Self>> { fn go(self) -> A; }
             impl<A: From<T>, T: Into2<A>> Into2<A> for Wrap<T> {
                 fn go(self) -> A { <T as Into2<A>>::go(self) }
             }"
        )
    );
}

#[test]
fn associated_type_is_an_alias_even_with_a_default() {
    let text = expand(
        "unimpl *, impl Wrap<_>",
        "trait Foos { type Foo: ?Sized; type Item<'i, B: Clone> where Self: 'i; fn foo(&self) -> &Self::Foo; }",
    )
    .unwrap();
    assert_eq!(
        text,
        normal(
            "trait Foos { type Foo: ?Sized; type Item<'i, B: Clone> where Self: 'i; fn foo(&self) -> &Self::Foo; }
             impl<T: Foos> Foos for Wrap<T> {
                 type Foo = <T as Foos>::Foo;
                 type Item<'i, B: Clone> = <T as Foos>::Item<'i, B> where Self: 'i;
                 fn foo(&self) -> &Self::Foo { <T as Foos>::foo(self) }
             }"
        )
    );
}

#[test]
fn constant_without_default_is_forwarded() {
    let text = expand("unimpl *, impl Wrap<_>", "trait Sized2 { const SIZE: usize; }").unwrap();
    assert_eq!(
        text,
        normal(
            "trait Sized2 { const SIZE: usize; }
             impl<T: Sized2> Sized2 for Wrap<T> { const SIZE: usize = <T as Sized2>::SIZE; }"
        )
    );
}

#[test]
fn constant_with_default_keeps_the_default() {
    let text = expand("unimpl *, impl Wrap<_>", "trait Sized2 { const SIZE: usize = 4 + 4; }").unwrap();
    assert_eq!(
        text,
        normal(
            "trait Sized2 { const SIZE: usize = 4 + 4; }
             impl<T: Sized2> Sized2 for Wrap<T> { const SIZE: usize = 4 + 4; }"
        )
    );
}

#[test]
fn constant_with_default_and_override_is_forwarded() {
    let text = expand(
        "unimpl *, impl Wrap<_>",
        "trait Sized2 { #[pointer_impl(generics = <>)] const SIZE: usize = 8; }",
    )
    .unwrap();
    assert_eq!(
        text,
        normal(
            "trait Sized2 { const SIZE: usize = 8; }
             impl<T: Sized2> Sized2 for Wrap<T> { const SIZE: usize = <T as Sized2>::SIZE; }"
        )
    );
}

#[test]
fn method_with_default_body_is_left_to_the_trait() {
    let text = expand(
        "unimpl *, impl Wrap<_>",
        "trait Foo { fn foo(&self) -> &str; fn bar(&self) -> &str { \"bar\" } }",
    )
    .unwrap();
    assert_eq!(
        text,
        normal(
            "trait Foo { fn foo(&self) -> &str; fn bar(&self) -> &str { \"bar\" } }
             impl<T: Foo> Foo for Wrap<T> { fn foo(&self) -> &str { <T as Foo>::foo(self) } }"
        )
    );
}

#[test]
fn marked_method_with_default_body_is_forwarded() {
    let text = expand(
        "unimpl *, impl Wrap<_>",
        "trait Foo { #[include_impl] #[inline] fn bar(&self) -> &str { \"bar\" } }",
    )
    .unwrap();
    assert_eq!(
        text,
        normal(
            "trait Foo { #[inline] fn bar(&self) -> &str { \"bar\" } }
             impl<T: Foo> Foo for Wrap<T> { #[inline] fn bar(&self) -> &str { <T as Foo>::bar(self) } }"
        )
    );
}

#[test]
fn default_method_with_exclusive_receiver_still_excludes_shared_wrappers() {
    let generator = generator("", "trait Foo { fn foo(&self); fn reset(&mut self) {} }");
    assert!(generator.todo.requires_mutable);
    assert_eq!(generator.todo.item_mask.get(1), Some(false));
    let blocks = generator.blocks();
    assert_eq!(blocks.len(), 5);
    for block in &blocks {
        assert_eq!(block.items.len(), 1);
    }
}

#[test]
fn generic_method_names_its_type_arguments() {
    let text = expand(
        "unimpl *, impl Wrap<_>",
        "trait Conv { fn conv<'l, A: Clone, const N: usize>(&self, a: &'l A) -> [A; N]; }",
    )
    .unwrap();
    assert_eq!(
        text,
        normal(
            "trait Conv { fn conv<'l, A: Clone, const N: usize>(&self, a: &'l A) -> [A; N]; }
             impl<T: Conv> Conv for Wrap<T> {
                 fn conv<'l, A: Clone, const N: usize>(&self, a: &'l A) -> [A; N] {
                     <T as Conv>::conv::<A, N>(self, a)
                 }
             }"
        )
    );
}

#[test]
fn override_gives_the_generic_arguments_of_the_call() {
    let text = expand(
        "unimpl *, impl Wrap<_>",
        "trait Conv { #[pointer_impl(generics = <A, 3>)] fn conv<A, const N: usize>(&self) -> [A; N]; }",
    )
    .unwrap();
    assert_eq!(
        text,
        normal(
            "trait Conv { fn conv<A, const N: usize>(&self) -> [A; N]; }
             impl<T: Conv> Conv for Wrap<T> {
                 fn conv<A, const N: usize>(&self) -> [A; N] { <T as Conv>::conv::<A, 3>(self) }
             }"
        )
    );
}

#[test]
fn macro_in_a_trait_is_declared_again_and_not_forwarded() {
    let def = read_trait("trait Foo { make_items!(a, b); fn foo(&self); }");
    assert_eq!(auto_traits::impls_to_do::ignored_items(&def), vec![0]);
    let text = expand("unimpl *, impl Wrap<_>", "trait Foo { make_items!(a, b); fn foo(&self); }")
        .unwrap();
    assert_eq!(
        text,
        normal(
            "trait Foo { make_items!(a, b); fn foo(&self); }
             impl<T: Foo> Foo for Wrap<T> { fn foo(&self) { <T as Foo>::foo(self) } }"
        )
    );
}

#[test]
fn every_block_forwards_as_many_items_as_the_mask_counts() {
    let generator = generator(
        "impl Wrap<_>",
        "trait Foo { type A; const C: u8; fn a(&self); fn b(&self) {} skip!(); #[include_impl] fn c() {} }",
    );
    assert_eq!(generator.todo.item_mask.len(), 6);
    assert_eq!(generator.todo.item_mask.count_ones(), 4);
    let blocks = generator.blocks();
    assert_eq!(blocks.len(), 11);
    for block in &blocks {
        assert_eq!(block.items.len(), generator.todo.item_mask.count_ones());
    }
}

#[test]
fn generic_constant_is_not_supported() {
    let failure = expand("", "trait Foo { fn a(&self); const C<A>: usize; }").unwrap_err();
    assert_eq!(failure, Error::GenericConstant(1));
    assert_eq!(failure.kind(), ErrorKind::Unsupported);
    assert_eq!(
        failure.message(),
        "Associated constants with generics are not supported by `#[pointer_impls]`"
    );
}

#[test]
fn unknown_item_attribute_fails() {
    let failure = expand("", "trait Foo { #[pointer_impl(speed = 3)] fn a(&self); }").unwrap_err();
    assert_eq!(failure, Error::UnknownAttribute(0, tokens("speed")));
    assert_eq!(failure.kind(), ErrorKind::Syntax);
    assert_eq!(failure.message(), "Unknown pointer_impl attribute speed");
}

#[test]
fn malformed_generic_arguments_fail() {
    let failure =
        expand("", "trait Foo { fn z(); #[pointer_impl(generics = A, B)] fn a(&self); }").unwrap_err();
    assert_eq!(failure, Error::MalformedArguments(1));
}

#[test]
fn failure_in_the_arguments_comes_before_one_in_the_trait() {
    let failure = expand("impl", "trait Foo { const C<A>: usize; }").unwrap_err();
    assert_eq!(failure, Error::ExpectedType(1));
}

#[test]
fn expansion_is_a_declaration_and_its_implementations() {
    let def = read_trait("pub trait Hello<X>: Sized { fn hello(&self, what: X) -> String; }");
    let out = pointer_impls(&tokens(""), def, false).unwrap();
    let file = syn::parse_str::<syn::File>(&render(&out)).unwrap();
    assert_eq!(file.items.len(), 11);
    assert!(matches!(file.items[0], syn::Item::Trait(_)));
    for item in &file.items[1..] {
        assert!(matches!(item, syn::Item::Impl(_)));
    }
}

#[test]
fn parking_lot_adds_three_guards() {
    let out = pointer_impls(&tokens(""), read_trait("trait Foo { fn foo(&mut self); }"), true).unwrap();
    let file = syn::parse_str::<syn::File>(&render(&out)).unwrap();
    assert_eq!(file.items.len(), 1 + 5 + 2);
    let text = normal(&render(&out));
    assert!(text.contains(&normal("for ::parking_lot::MutexGuard<'a, T>")));
    assert!(text.contains(&normal("for ::parking_lot::RwLockWriteGuard<'a, T>")));
    assert!(!text.contains(&normal("for ::parking_lot::RwLockReadGuard<'a, T>")));
}

#[test]
fn wildcard_is_resolved_at_any_depth() {
    let blocks = generator(
        "unimpl *, impl [(_, Vec<_>); 2], impl &'_ fn(_) -> *const _",
        "trait Foo { fn foo(&self); }",
    )
    .blocks();
    assert_eq!(targets(&blocks), vec![normal("[(T, Vec<T>); 2]"), normal("&'_ fn(T) -> *const T")]);
}

#[test]
fn wrapped_type_without_wildcard_is_left_as_written() {
    let blocks = generator("unimpl *, impl Handle", "trait Foo { fn foo(&self); }").blocks();
    assert_eq!(targets(&blocks), vec![normal("Handle")]);
}

#[test]
fn delimiters_are_told_apart() {
    assert_eq!(
        tokens("( ) [ ] { }"),
        vec![
            Token::Group(Delimiter::Parenthesis, vec![]),
            Token::Group(Delimiter::Bracket, vec![]),
            Token::Group(Delimiter::Brace, vec![]),
        ]
    );
}

#[test]
fn expansions_of_intricate_traits_are_valid_syntax() {
    for (def, takes_self) in [
        ("/// Documented.\n #[must_use] pub unsafe trait A<'x, X: 'x + ?Sized = str, const N: usize = 2>: Sized + Send where X: Clone { }", false),
        ("pub(crate) trait B { type Item<'i>: Iterator<Item = &'i u8> where Self: 'i; const C: [u8; 2] = [1, 2]; }", false),
        ("trait C { fn a(self: Box<Self>, (x, y): (u8, u8), z: impl Fn(u8) -> u8, #[cfg(all())] w: &mut [u8]) -> Option<u8>; }", true),
        ("trait D { async fn a<'k, K>(&'k self, k: K) -> K where K: Send + 'k; unsafe extern \"C\" fn b(&self); const fn c(); }", true),
        ("trait E<T> { fn a(&mut self) -> T; #[include_impl] fn b(&self) -> u8 { 1 } fn c(&self) { } make!(); }", true),
        ("trait F: for<'f> Fn(&'f u8) -> &'f u8 { /** Kept. */ #[pointer_impl(generics = <{ 1 + 1 }>)] fn a<const K: usize>(&self) -> [u8; K]; }", true),
    ] {
        let out = pointer_impls(
            &tokens("T = Inner, impl mut <'q, Q: ?Sized> Both<'q, Q, _> = (*self).inner()"),
            read_trait(def),
            true,
        )
        .unwrap();
        let text = render(&out);
        let file = syn::parse_str::<syn::File>(&text).unwrap_or_else(|failure| panic!("{failure}: {text}"));
        assert!(matches!(file.items[0], syn::Item::Trait(_)));
        assert!(file.items.len() > 6, "{text}");
        assert_eq!(text.contains("(* self ) . inner () "), takes_self);
        assert!(text.contains("Inner : "));
    }
}

#[test]
fn declaration_is_written_again_but_for_the_attributes_taken_off() {
    for def in [
        "pub trait A<'x, X: 'x + ?Sized = str>: Sized where X: Clone { type T: Copy = u8; const C: u8 = 1; fn f(&self) {} m!{} }",
        "#[a] unsafe trait B { #![b] #[c] fn f(); }",
    ] {
        let text = expand("unimpl *", def).unwrap();
        assert_eq!(text, normal(&syn::parse_str::<syn::ItemTrait>(def).unwrap().to_token_stream().to_string()));
    }
    let text = expand("unimpl *", "trait A { #[inline] #[include_impl] #[pointer_impl()] fn f(&self) {} }").unwrap();
    assert_eq!(text, normal("trait A { #[inline] fn f(&self) {} }"));
}

#[test]
fn wrappers_of_the_custom_pointer_example_are_implemented() {
    let text = expand(
        "unimpl *, impl Pointer1<_>, impl Pointer2<_> = &self.0",
        "trait HelloWorld { fn hello_world(&self) -> &str; }",
    )
    .unwrap();
    assert_eq!(
        text,
        normal(
            "trait HelloWorld { fn hello_world(&self) -> &str; }
             impl<T: HelloWorld> HelloWorld for Pointer1<T> {
                 fn hello_world(&self) -> &str { <T as HelloWorld>::hello_world(self) }
             }
             impl<T: HelloWorld> HelloWorld for Pointer2<T> {
                 fn hello_world(&self) -> &str { <T as HelloWorld>::hello_world(&self.0) }
             }"
        )
    );
}
