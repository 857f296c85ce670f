//! The arguments of the attribute: what they are read as, and what they
//! make of the default wrapper types.

use auto_traits::catalog::default_types;
use auto_traits::config::{Attributes, Directive};
use auto_traits::error::{Error, ErrorKind};
use auto_traits::grammar::{parse_directives, read_directive, read_param, read_params};
use auto_traits::model::{ParamKind, TypeToImpl};
use auto_traits::token::{render, same_plain_tokens, Delimiter, Token};

fn lex(stream: proc_macro2::TokenStream) -> Vec<Token> {
    let mut out = Vec::new();
    for tree in stream {
        match tree {
            proc_macro2::TokenTree::Group(group) => {
                let inner = lex(group.stream());
                let delimiter = match group.delimiter() {
                    proc_macro2::Delimiter::Brace => Delimiter::Brace,
                    proc_macro2::Delimiter::Bracket => Delimiter::Bracket,
                    _ => Delimiter::Parenthesis,
                };
                out.push(Token::Group(delimiter, inner));
            },
            proc_macro2::TokenTree::Ident(ident) => out.push(Token::Word(ident.to_string())),
            proc_macro2::TokenTree::Punct(punct) => {
                out.push(Token::Mark(punct.as_char(), punct.spacing() == proc_macro2::Spacing::Joint))
            },
            proc_macro2::TokenTree::Literal(literal) => out.push(Token::Literal(literal.to_string())),
        }
    }
    out
}

fn tokens(text: &str) -> Vec<Token> {
    lex(text.parse().unwrap())
}

fn settings(arguments: &str) -> Attributes {
    Attributes::parse(&tokens(arguments), false).unwrap()
}

fn failure(arguments: &str) -> Error {
    Attributes::parse(&tokens(arguments), false).unwrap_err()
}

fn templates(types: &[TypeToImpl]) -> Vec<String> {
    types.iter().map(|descriptor| render(&descriptor.ty)).collect()
}

const DEFAULTS: [&str; 10] = [
    "& 'a _ ",
    "& 'a mut _ ",
    ":: std :: boxed :: Box < _ > ",
    ":: std :: rc :: Rc < _ > ",
    ":: std :: sync :: Arc < _ > ",
    ":: std :: cell :: Ref < 'a , _ > ",
    ":: std :: cell :: RefMut < 'a , _ > ",
    ":: std :: sync :: MutexGuard < 'a , _ > ",
    ":: std :: sync :: RwLockReadGuard < 'a , _ > ",
    ":: std :: sync :: RwLockWriteGuard < 'a , _ > ",
];

#[test]
fn catalog_holds_the_ten_standard_wrappers() {
    let types = default_types(false);
    assert_eq!(templates(&types), DEFAULTS);
    let mutable: Vec<bool> = types.iter().map(|descriptor| descriptor.mutable).collect();
    assert_eq!(mutable, [false, true, true, false, false, false, true, true, false, true]);
    let lifetimes: Vec<usize> = types.iter().map(|descriptor| descriptor.generics.len()).collect();
    assert_eq!(lifetimes, [1, 1, 0, 0, 0, 1, 1, 1, 1, 1]);
    for descriptor in &types {
        assert_eq!(descriptor.closure, None);
        for param in &descriptor.generics {
            assert_eq!(param.kind, ParamKind::Lifetime);
            assert_eq!(render(&param.declaration), "'a ");
            assert_eq!(render(&param.name), "'a ");
        }
    }
}

#[test]
fn catalog_with_parking_lot_holds_three_more() {
    let types = default_types(true);
    assert_eq!(types.len(), 13);
    assert_eq!(templates(&types[..10]), DEFAULTS);
    assert_eq!(
        templates(&types[10..]),
        [
            ":: parking_lot :: MutexGuard < 'a , _ > ",
            ":: parking_lot :: RwLockReadGuard < 'a , _ > ",
            ":: parking_lot :: RwLockWriteGuard < 'a , _ > ",
        ]
    );
    let mutable: Vec<bool> = types[10..].iter().map(|descriptor| descriptor.mutable).collect();
    assert_eq!(mutable, [true, false, true]);
}

#[test]
fn catalog_templates_are_what_a_user_writes() {
    let types = default_types(true);
    let written = [
        "&'a _",
        "&'a mut _",
        "::std::boxed::Box<_>",
        "::std::rc::Rc<_>",
        "::std::sync::Arc<_>",
        "::std::cell::Ref<'a, _>",
        "::std::cell::RefMut<'a, _>",
        "::std::sync::MutexGuard<'a, _>",
        "::std::sync::RwLockReadGuard<'a, _>",
        "::std::sync::RwLockWriteGuard<'a, _>",
        "::parking_lot::MutexGuard<'a, _>",
        "::parking_lot::RwLockReadGuard<'a, _>",
        "::parking_lot::RwLockWriteGuard<'a, _>",
    ];
    for (descriptor, text) in types.iter().zip(written) {
        assert!(same_plain_tokens(&descriptor.ty, &tokens(text)));
    }
    assert!(!same_plain_tokens(&types[0].ty, &types[1].ty));
    assert!(!same_plain_tokens(&types[3].ty, &types[4].ty));
    assert!(!same_plain_tokens(&tokens("A<(B, C)>"), &tokens("A<[B, C]>")));
    assert!(!same_plain_tokens(&tokens("A<(B, C)>"), &tokens("A<(B, D)>")));
    assert!(!same_plain_tokens(&tokens("A<1>"), &tokens("A<2>")));
    assert!(same_plain_tokens(&tokens("A<B<_>>"), &tokens("A < B < _ > >")));
}

#[test]
fn no_arguments_give_the_defaults() {
    let attrs = settings("");
    assert_eq!(attrs.generic, "T");
    assert_eq!(attrs.types, default_types(false));
    assert_eq!(Attributes::new(true).types, default_types(true));
}

#[test]
fn rename_changes_only_the_name_of_the_parameter() {
    let attrs = settings("T = Wrapped");
    assert_eq!(attrs.generic, "Wrapped");
    assert_eq!(attrs.types, default_types(false));
}

#[test]
fn last_rename_wins() {
    assert_eq!(settings("T = A, T = B").generic, "B");
}

#[test]
fn unimpl_removes_the_wrapper_with_that_template() {
    let attrs = settings("unimpl ::std::boxed::Box<_>");
    let mut expected = DEFAULTS.to_vec();
    expected.remove(2);
    assert_eq!(templates(&attrs.types), expected);
}

#[test]
fn unimpl_of_an_unknown_template_changes_nothing() {
    assert_eq!(settings("unimpl Box<_>").types, default_types(false));
}

#[test]
fn defaults_that_are_not_removed_stay() {
    let attrs = settings(
        "impl Mine<_>, unimpl &'a _, T = U, impl mut ::std::rc::Rc<_> = self.get_mut(), unimpl Other<_>",
    );
    let found = templates(&attrs.types);
    for (i, template) in DEFAULTS.iter().enumerate() {
        assert_eq!(found.contains(&template.to_string()), i != 0);
    }
    assert_eq!(found.len(), 10);
}

#[test]
fn unimpl_star_clears_every_wrapper() {
    assert_eq!(settings("unimpl *").types, vec![]);
    assert_eq!(settings("impl Mine<_>, unimpl *").types, vec![]);
}

#[test]
fn unimpl_star_then_one_impl_leaves_one_wrapper() {
    let attrs = settings("unimpl *, impl MyPointer<_> = self.0.get()");
    assert_eq!(attrs.types.len(), 1);
    assert_eq!(render(&attrs.types[0].ty), "MyPointer < _ > ");
    assert_eq!(attrs.types[0].mutable, false);
    assert_eq!(attrs.types[0].generics, vec![]);
    assert_eq!(attrs.types[0].closure, Some(tokens("self.0.get()")));
}

#[test]
fn impl_adds_a_wrapper_behind_the_others() {
    let attrs = settings("impl mut Mine<_>");
    assert_eq!(attrs.types.len(), 11);
    assert_eq!(attrs.types[..10], default_types(false)[..]);
    assert_eq!(
        attrs.types[10],
        TypeToImpl { ty: tokens("Mine<_>"), mutable: true, generics: vec![], closure: None }
    );
}

#[test]
fn later_impl_overrides_an_earlier_one_for_the_same_template() {
    let attrs = settings("impl ::std::rc::Rc<_>, impl mut ::std::rc::Rc<_> = Rc::get_mut(self).unwrap()");
    assert_eq!(attrs.types.len(), 10);
    let mut expected = DEFAULTS.to_vec();
    let rc = expected.remove(3);
    expected.push(rc);
    assert_eq!(templates(&attrs.types), expected);
    assert!(attrs.types[9].mutable);
    assert_eq!(attrs.types[9].closure, Some(tokens("Rc::get_mut(self).unwrap()")));
}

#[test]
fn templates_are_the_same_whatever_their_gaps() {
    let attrs = settings("unimpl :: std ::boxed:: Box< _ >, unimpl &  'a   mut _");
    assert_eq!(attrs.types.len(), 8);
}

#[test]
fn impl_takes_generic_parameters_of_its_own() {
    let attrs = settings("unimpl *, impl mut <'g, #[cfg(all())] G: Iterator<Item = u8>, const N: usize> Guard<'g, G, N, _>");
    assert_eq!(attrs.types.len(), 1);
    let descriptor = &attrs.types[0];
    assert!(descriptor.mutable);
    assert!(same_plain_tokens(&descriptor.ty, &tokens("Guard<'g, G, N, _>")));
    let kinds: Vec<ParamKind> = descriptor.generics.iter().map(|param| param.kind).collect();
    assert_eq!(kinds, [ParamKind::Lifetime, ParamKind::Type, ParamKind::Const]);
    let names: Vec<String> = descriptor.generics.iter().map(|param| render(&param.name)).collect();
    assert_eq!(names, ["'g ", "G ", "N "]);
    let written = ["'g", "#[cfg(all())] G: Iterator<Item = u8>", "const N: usize"];
    for (param, text) in descriptor.generics.iter().zip(written) {
        assert!(same_plain_tokens(&param.declaration, &tokens(text)));
    }
}

#[test]
fn accessor_ends_at_the_comma_that_ends_the_directive() {
    let list = parse_directives(&tokens("impl A<_> = self.pair::<u8, u16>(1, 2).0, impl B<_> = [a, b], T = U,"))
        .unwrap();
    assert_eq!(list.len(), 3);
    match &list[0] {
        Directive::Add(descriptor) => {
            assert!(same_plain_tokens(&descriptor.ty, &tokens("A<_>")));
            assert_eq!(descriptor.closure, Some(tokens("self.pair::<u8, u16>(1, 2).0")));
        },
        other => panic!("{other:?}"),
    }
    match &list[1] {
        Directive::Add(descriptor) => {
            assert!(same_plain_tokens(&descriptor.ty, &tokens("B<_>")));
            assert_eq!(descriptor.closure, Some(tokens("[a, b]")));
        },
        other => panic!("{other:?}"),
    }
    assert_eq!(list[2], Directive::Rename("U".to_string()));
}

#[test]
fn template_takes_commas_inside_angle_brackets() {
    let list = parse_directives(&tokens("unimpl Map<K, (A, B), _>, unimpl *")).unwrap();
    assert_eq!(list.len(), 2);
    match &list[0] {
        Directive::Remove(ty) => assert!(same_plain_tokens(ty, &tokens("Map<K, (A, B), _>"))),
        other => panic!("{other:?}"),
    }
    assert_eq!(list[1], Directive::Clear);
}

#[test]
fn one_directive_is_read_from_where_it_begins() {
    let list = tokens("T = A, unimpl *, impl X");
    assert_eq!(read_directive(&list, 0), Ok((Directive::Rename("A".to_string()), 3)));
    assert_eq!(read_directive(&list, 4), Ok((Directive::Clear, 6)));
    assert_eq!(
        read_directive(&list, 7),
        Ok((Directive::Add(TypeToImpl { ty: tokens("X"), mutable: false, generics: vec![], closure: None }), 9))
    );
    assert_eq!(read_directive(&list, 9), Err(Error::ExpectedDirective(9)));
    assert_eq!(read_directive(&list, 1), Err(Error::ExpectedDirective(1)));
}

#[test]
fn trailing_comma_is_accepted_and_leading_comma_is_not() {
    assert_eq!(settings("unimpl *,").types, vec![]);
    assert_eq!(failure(", unimpl *"), Error::ExpectedDirective(0));
    assert_eq!(failure("unimpl *,, T = U"), Error::ExpectedDirective(3));
}

#[test]
fn unknown_directive_is_refused() {
    assert_eq!(failure("implement Foo<_>"), Error::ExpectedDirective(0));
    assert_eq!(failure("unimpl *, 3"), Error::ExpectedDirective(3));
    assert_eq!(failure("(impl X)"), Error::ExpectedDirective(0));
    assert_eq!(failure("U = T"), Error::ExpectedDirective(0));
}

#[test]
fn directives_are_separated_by_commas() {
    assert_eq!(failure("impl Foo<_> impl Bar<_>"), Error::ExpectedComma(5));
    assert_eq!(failure("unimpl Foo<_> = self.0"), Error::ExpectedComma(5));
    assert_eq!(failure("T = U V"), Error::ExpectedComma(3));
    assert_eq!(failure("unimpl * *"), Error::ExpectedComma(2));
}

#[test]
fn rename_needs_an_equals_sign_and_an_identifier() {
    assert_eq!(failure("T"), Error::ExpectedEquals(1));
    assert_eq!(failure("T U"), Error::ExpectedEquals(1));
    assert_eq!(failure("T ="), Error::ExpectedIdentifier(2));
    assert_eq!(failure("T = 3"), Error::ExpectedIdentifier(2));
    assert_eq!(failure("T = for"), Error::ExpectedIdentifier(2));
    assert_eq!(failure("T = _"), Error::ExpectedIdentifier(2));
    assert_eq!(failure("T = (U)"), Error::ExpectedIdentifier(2));
}

#[test]
fn impl_and_unimpl_need_a_type() {
    assert_eq!(failure("impl"), Error::ExpectedType(1));
    assert_eq!(failure("impl mut"), Error::ExpectedType(2));
    assert_eq!(failure("impl mut = self"), Error::ExpectedType(2));
    assert_eq!(failure("impl<'a> , T = U"), Error::ExpectedType(5));
    assert_eq!(failure("unimpl"), Error::ExpectedType(1));
    assert_eq!(failure("unimpl 3"), Error::ExpectedType(1));
    assert_eq!(failure("T = U, unimpl ,"), Error::ExpectedType(5));
}

#[test]
fn accessor_must_be_an_expression() {
    assert_eq!(failure("impl Foo<_> ="), Error::ExpectedExpression(6));
    assert_eq!(failure("impl Foo<_> = , T = U"), Error::ExpectedExpression(6));
    assert_eq!(failure("impl Foo = ;"), Error::ExpectedExpression(3));
}

#[test]
fn generic_parameters_must_parse() {
    assert_eq!(failure("impl <'a Foo<'a, _>"), Error::MalformedGenerics(1));
    assert_eq!(failure("impl mut <3> Foo<_>"), Error::MalformedGenerics(2));
    assert_eq!(failure("impl <Foo as Bar>::Baz<_>"), Error::MalformedGenerics(1));
}

#[test]
fn every_failure_has_its_kind_its_place_and_its_message() {
    let all = [
        (Error::ExpectedDirective(1), "Expected either 'impl' or 'unimpl'"),
        (Error::ExpectedComma(2), "Expected ','"),
        (Error::ExpectedEquals(3), "Expected '='"),
        (Error::ExpectedIdentifier(4), "Expected an identifier"),
        (Error::ExpectedType(5), "Expected a type"),
        (Error::ExpectedExpression(6), "Expected an expression"),
        (Error::MalformedGenerics(7), "Expected generic parameters"),
        (Error::MalformedAttribute(8), "Expected a path and '='"),
        (Error::UnknownAttribute(9, tokens("bogus")), "Unknown pointer_impl attribute bogus"),
        (Error::MalformedArguments(10), "Expected generic arguments"),
    ];
    for (i, (error, message)) in all.iter().enumerate() {
        assert_eq!(error.kind(), ErrorKind::Syntax);
        assert_eq!(error.place(), i + 1);
        assert_eq!(error.message(), *message);
    }
    assert_eq!(
        Error::UnknownAttribute(0, tokens("a::b<C>")).message(),
        "Unknown pointer_impl attribute a :: b < C >"
    );
    assert_eq!(Error::UnknownAttribute(0, vec![]).message(), "Unknown pointer_impl attribute ");
    let unsupported = Error::GenericConstant(11);
    assert_eq!(unsupported.kind(), ErrorKind::Unsupported);
    assert_eq!(unsupported.place(), 11);
    assert_eq!(
        unsupported.message(),
        "Associated constants with generics are not supported by `#[pointer_impls]`"
    );
}

#[test]
fn parameter_kind_is_read_behind_the_attributes() {
    let lifetime = read_param(tokens("#[a] #[b(c)] 'l: 'm + 'n"));
    assert_eq!(lifetime.kind, ParamKind::Lifetime);
    assert_eq!(lifetime.name, tokens("'l"));
    assert_eq!(lifetime.declaration, tokens("#[a] #[b(c)] 'l: 'm + 'n"));
    let constant = read_param(tokens("const N: usize = 3"));
    assert_eq!(constant.kind, ParamKind::Const);
    assert_eq!(constant.name, tokens("N"));
    let ty = read_param(tokens("T: Clone"));
    assert_eq!(ty.kind, ParamKind::Type);
    assert_eq!(ty.name, tokens("T"));
    let nothing = read_param(vec![]);
    assert_eq!(nothing.kind, ParamKind::Type);
    assert_eq!(nothing.name, vec![]);
    let cut = read_param(tokens("const"));
    assert_eq!(cut.kind, ParamKind::Const);
    assert_eq!(cut.name, vec![]);
    let bracket = read_param(tokens("#(a) T"));
    assert_eq!(bracket.name, tokens("#"));
}

#[test]
fn parameters_are_separated_by_commas() {
    let params = read_params(&tokens("'a, T: Into<(u8, u16)>, const N: usize,")).unwrap();
    let names: Vec<String> = params.iter().map(|param| render(&param.name)).collect();
    assert_eq!(names, ["'a ", "T ", "N "]);
    assert_eq!(read_params(&vec![]), Some(vec![]));
    assert_eq!(read_params(&tokens("'a 'b")), None);
    assert_eq!(read_params(&tokens("3")), None);
    assert_eq!(read_params(&tokens(", T")), None);
}

#[test]
fn applying_directives_one_by_one_is_applying_them_all() {
    let mut one_by_one = Attributes::new(false);
    one_by_one.apply(Directive::Remove(tokens("&'a _")));
    one_by_one.apply(Directive::Rename("W".to_string()));
    one_by_one.apply(Directive::Add(TypeToImpl {
        ty: tokens("X<_>"),
        mutable: true,
        generics: vec![],
        closure: None,
    }));
    let mut at_once = Attributes::new(false);
    at_once.apply_all(vec![
        Directive::Remove(tokens("&'a _")),
        Directive::Rename("W".to_string()),
        Directive::Add(TypeToImpl { ty: tokens("X<_>"), mutable: true, generics: vec![], closure: None }),
    ]);
    assert_eq!(one_by_one, at_once);
    assert_eq!(one_by_one, settings("unimpl &'a _, T = W, impl mut X<_>"));
    assert_eq!(one_by_one.types.len(), 10);
}

#[test]
fn group_delimiters_are_part_of_a_template() {
    let attrs = settings("unimpl *, impl [_; 2], impl (_, u8), unimpl [_; 2]");
    assert_eq!(attrs.types.len(), 1);
    assert_eq!(attrs.types[0].ty, vec![Token::Group(Delimiter::Parenthesis, tokens("_, u8"))]);
}
