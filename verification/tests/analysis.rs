//! A trait described by hand: what is to be done for it, what its
//! attributes say, and what its implementations are made of.

use auto_traits::config::Attributes;
use auto_traits::error::Error;
use auto_traits::generator::{forward, Generator, ImplBlock};
use auto_traits::impls_to_do::{access_of, ignored_items, Access, ImplsToDo};
use auto_traits::inject::{
    append_params, inject_additional_types, param_declarations, param_names, params_of_kind,
    trait_path_tokens,
};
use auto_traits::item_attrs::ItemAttributes;
use auto_traits::model::{
    copy_param, copy_params, copy_type_to_impl, AssociatedConst, AssociatedType, GenericParam, Item,
    ItemTrait, Method, ParamKind, Receiver, TypeToImpl,
};
use auto_traits::token::{render, same_plain_tokens, Delimiter, Token};

fn lex(stream: proc_macro2::TokenStream) -> Vec<Token> {
    let mut out = Vec::new();
    for tree in stream {
        match tree {
            proc_macro2::TokenTree::Group(group) => {
                let inner = lex(group.stream());
                let delimiter = match group.delimiter() {
                    proc_macro2::Delimiter::Brace => Delimiter::Brace,
                    proc_macro2::Delimiter::Bracket => Delimiter::Bracket,
                    _ => Delimiter::Parenthesis,
                };
                out.push(Token::Group(delimiter, inner));
            },
            proc_macro2::TokenTree::Ident(ident) => out.push(Token::Word(ident.to_string())),
            proc_macro2::TokenTree::Punct(punct) => {
                out.push(Token::Mark(punct.as_char(), punct.spacing() == proc_macro2::Spacing::Joint))
            },
            proc_macro2::TokenTree::Literal(literal) => out.push(Token::Literal(literal.to_string())),
        }
    }
    out
}

fn tokens(text: &str) -> Vec<Token> {
    lex(text.parse().unwrap())
}

const ABSENT: Option<Receiver> = None;
const SHARED: Option<Receiver> = Some(Receiver { reference: true, mutable: false });
const EXCLUSIVE: Option<Receiver> = Some(Receiver { reference: true, mutable: true });

fn method(name: &str, receiver: Option<Receiver>, has_default: bool, attributes: &[&str]) -> Item {
    let this = match receiver {
        None => "",
        Some(Receiver { reference: true, mutable: false }) => "&self",
        Some(Receiver { reference: true, mutable: true }) => "&mut self",
        Some(Receiver { reference: false, mutable: false }) => "self",
        Some(Receiver { reference: false, mutable: true }) => "mut self",
    };
    let signature = format!("fn {name}({this})");
    let source = if has_default { format!("{signature} {{}}") } else { format!("{signature};") };
    Item::Method(Method {
        attributes: attributes.iter().map(|text| tokens(text)).collect(),
        source: tokens(&source),
        signature: tokens(&signature),
        name: name.to_string(),
        generics: vec![],
        receiver,
        arguments: vec![],
        has_default,
    })
}

fn constant(name: &str, generics: Vec<GenericParam>, default: Option<&str>) -> Item {
    Item::Const(AssociatedConst {
        attributes: vec![],
        source: tokens(&format!("const {name}: u8;")),
        name: name.to_string(),
        generics,
        ty: tokens("u8"),
        default: default.map(tokens),
    })
}

fn associated(name: &str) -> Item {
    Item::Type(AssociatedType {
        attributes: vec![tokens("doc = \"An item.\"")],
        source: tokens(&format!("type {name};")),
        name: name.to_string(),
        generics: vec![],
        bounds: vec![],
        where_clause: vec![],
        has_default: false,
    })
}

fn param(kind: ParamKind, declaration: &str, name: &str) -> GenericParam {
    GenericParam { kind, declaration: tokens(declaration), name: tokens(name) }
}

fn def(items: Vec<Item>) -> ItemTrait {
    ItemTrait {
        head: tokens("trait Foo"),
        name: "Foo".to_string(),
        generics: vec![],
        where_clause: vec![],
        inner: vec![],
        items,
    }
}

#[test]
fn mask_has_one_bit_for_each_item() {
    let todo = ImplsToDo::parse(def(vec![
        method("a", SHARED, false, &[]),
        method("b", SHARED, true, &[]),
        method("c", SHARED, true, &["include_impl"]),
        associated("D"),
        constant("E", vec![], Some("1")),
        Item::Other(tokens("skip!();")),
    ]))
    .unwrap();
    assert_eq!(todo.item_mask.len(), 6);
    let bits: Vec<Option<bool>> = (0..7).map(|i| todo.item_mask.get(i)).collect();
    assert_eq!(
        bits,
        [Some(true), Some(false), Some(true), Some(true), Some(true), Some(false), None]
    );
    assert_eq!(todo.item_mask.count_ones(), 4);
    assert_eq!(todo.item_attrs.len(), 6);
    assert!(!todo.requires_mutable);
    assert_eq!(todo.def.items.len(), 6);
}

#[test]
fn empty_trait_has_an_empty_mask() {
    let todo = ImplsToDo::parse(def(vec![])).unwrap();
    assert_eq!(todo.item_mask.len(), 0);
    assert_eq!(todo.item_mask.count_ones(), 0);
    assert_eq!(todo.item_mask.get(0), None);
    assert!(!todo.requires_mutable);
}

#[test]
fn exclusive_receiver_counts_even_where_the_method_is_not_forwarded() {
    for items in [
        vec![method("a", EXCLUSIVE, false, &[])],
        vec![method("a", SHARED, false, &[]), method("b", EXCLUSIVE, true, &[])],
        vec![method("a", Some(Receiver { reference: false, mutable: true }), false, &[])],
    ] {
        assert!(ImplsToDo::parse(def(items)).unwrap().requires_mutable);
    }
    for items in [
        vec![method("a", SHARED, false, &[]), method("b", ABSENT, false, &[])],
        vec![method("a", Some(Receiver { reference: false, mutable: false }), false, &[])],
        vec![associated("A"), Item::Other(tokens("fn x(&mut self);"))],
    ] {
        assert!(!ImplsToDo::parse(def(items)).unwrap().requires_mutable);
    }
}

#[test]
fn access_is_read_off_the_receiver() {
    assert_eq!(access_of(ABSENT), Access::Absent);
    assert_eq!(access_of(SHARED), Access::Shared);
    assert_eq!(access_of(EXCLUSIVE), Access::Exclusive);
    assert_eq!(access_of(Some(Receiver { reference: false, mutable: false })), Access::Shared);
    assert_eq!(access_of(Some(Receiver { reference: false, mutable: true })), Access::Exclusive);
}

#[test]
fn constant_with_generics_is_found_among_the_items_handed_on_as_written() {
    for (text, generic) in [
        ("const C<A>: usize;", true),
        ("#[a] #[b(c)] const C<const N: usize>: [u8; N] = [0; N];", true),
        ("const C: Vec<u8>;", false),
        ("const fn c<A>();", false),
        ("const", false),
        ("const C", false),
        ("#[a] c!(const C<A>: u8;);", false),
        ("", false),
    ] {
        let found = ImplsToDo::parse(def(vec![associated("A"), Item::Other(tokens(text))])).map(|_| ());
        assert_eq!(found, if generic { Err(Error::GenericConstant(1)) } else { Ok(()) });
    }
}

#[test]
fn first_item_that_cannot_be_handled_is_reported() {
    let generic = vec![param(ParamKind::Type, "A", "A")];
    let failure = ImplsToDo::parse(def(vec![
        associated("A"),
        method("b", SHARED, false, &["pointer_impl(speed = 3)"]),
        constant("C", copy_params(&generic), None),
    ]))
    .map(|_| ())
    .unwrap_err();
    assert_eq!(failure, Error::UnknownAttribute(1, tokens("speed")));
    let failure = ImplsToDo::parse(def(vec![
        associated("A"),
        constant("C", generic, None),
        method("b", SHARED, false, &["pointer_impl(generics)"]),
    ]))
    .map(|_| ())
    .unwrap_err();
    assert_eq!(failure, Error::GenericConstant(1));
}

#[test]
fn items_of_no_known_kind_are_listed() {
    let items = def(vec![
        Item::Other(tokens("a!();")),
        associated("A"),
        Item::Other(tokens("b!();")),
        Item::Other(tokens("c!();")),
        method("d", SHARED, false, &[]),
    ]);
    assert_eq!(ignored_items(&items), [0, 2, 3]);
    assert_eq!(ignored_items(&def(vec![])), []);
    assert_eq!(ignored_items(&def(vec![associated("A")])), []);
}

#[test]
fn attributes_for_the_generator_are_taken_off() {
    let attributes = vec![
        tokens("doc = \"text\""),
        tokens("include_impl"),
        tokens("inline"),
        tokens("pointer_impl(generics = <A>)"),
        tokens("pointer_impl()"),
        tokens("pointer_impl(generics = <B, 2>)"),
        tokens("pointer_impl"),
        tokens("include_impl(x)"),
        tokens("other::pointer_impl(generics = 3)"),
    ];
    let read = ItemAttributes::try_from(&attributes, 7).unwrap();
    assert!(read.forced);
    assert_eq!(read.generics, Some(tokens("<B, 2>")));
    assert_eq!(
        read.kept,
        [
            tokens("doc = \"text\""),
            tokens("inline"),
            tokens("pointer_impl"),
            tokens("include_impl(x)"),
            tokens("other::pointer_impl(generics = 3)"),
        ]
    );
}

#[test]
fn item_without_attributes_says_nothing() {
    assert_eq!(
        ItemAttributes::try_from(&vec![], 0),
        Ok(ItemAttributes { kept: vec![], forced: false, generics: None })
    );
    assert_eq!(
        ItemAttributes::try_from(&vec![tokens("pointer_impl[]"), tokens("pointer_impl{}")], 0),
        Ok(ItemAttributes { kept: vec![], forced: false, generics: None })
    );
}

#[test]
fn attributes_that_are_not_understood_fail() {
    for (text, path) in [
        ("pointer_impl(bogus = 1)", "bogus"),
        ("pointer_impl(generic = <A>)", "generic"),
        ("pointer_impl(speed =)", "speed"),
        ("pointer_impl(a::generics = <A>)", "a::generics"),
        ("pointer_impl(::generics = <A>)", "::generics"),
        ("pointer_impl(generics<A> = <A>)", "generics<A>"),
    ] {
        let failure = ItemAttributes::try_from(&vec![tokens("inline"), tokens(text)], 3).unwrap_err();
        match &failure {
            Error::UnknownAttribute(3, written) => assert!(same_plain_tokens(written, &tokens(path))),
            other => panic!("{other:?}"),
        }
        assert!(failure.message().starts_with("Unknown pointer_impl attribute "));
    }
    assert_eq!(
        ItemAttributes::try_from(&vec![tokens("pointer_impl(bogus = 1)")], 0).unwrap_err().message(),
        "Unknown pointer_impl attribute bogus"
    );
    for text in [
        "pointer_impl(generics)",
        "pointer_impl(generics(A))",
        "pointer_impl(<A>)",
        "pointer_impl(A, generics = <A>)",
        "pointer_impl(= <A>)",
        "pointer_impl(3 = 4)",
    ] {
        assert_eq!(
            ItemAttributes::try_from(&vec![tokens("inline"), tokens(text)], 3),
            Err(Error::MalformedAttribute(3))
        );
    }
    for text in [
        "pointer_impl(generics =)",
        "pointer_impl(generics = A)",
        "pointer_impl(generics = <A)",
        "pointer_impl(generics = <A>, generics = <B>)",
    ] {
        assert_eq!(
            ItemAttributes::try_from(&vec![tokens(text), tokens("pointer_impl(nonsense)")], 4),
            Err(Error::MalformedArguments(4))
        );
    }
}

#[test]
fn injection_puts_lifetimes_first_and_the_wrapped_type_last() {
    let mut interface = def(vec![]);
    interface.generics =
        vec![param(ParamKind::Lifetime, "'x", "'x"), param(ParamKind::Type, "A: Clone", "A")];
    let extra = vec![
        param(ParamKind::Type, "P", "P"),
        param(ParamKind::Lifetime, "'p", "'p"),
        param(ParamKind::Const, "const N: usize", "N"),
        param(ParamKind::Lifetime, "'q: 'p", "'q"),
    ];
    let mut generics = copy_params(&interface.generics);
    inject_additional_types("T", &interface, &extra, &mut generics);
    let declarations: Vec<String> =
        param_declarations(&generics).iter().map(|tokens| render(tokens)).collect();
    assert_eq!(
        declarations,
        ["'p ", "'q : 'p ", "'x ", "A : Clone ", "const N : usize ", "P ", "T : Foo < 'x , A > "]
    );
    let names: Vec<String> = param_names(&generics).iter().map(|tokens| render(tokens)).collect();
    assert_eq!(names, ["'p ", "'q ", "'x ", "A ", "N ", "P ", "T "]);
    assert_eq!(generics[6].kind, ParamKind::Type);
}

#[test]
fn injection_into_nothing_gives_the_wrapped_type_alone() {
    let mut generics = vec![];
    inject_additional_types("Inner", &def(vec![]), &vec![], &mut generics);
    assert_eq!(generics, [param(ParamKind::Type, "Inner: Foo", "Inner")]);
    assert_eq!(render(&trait_path_tokens("Foo", &vec![])), "Foo ");
}

#[test]
fn parameters_are_sorted_by_kind_in_their_order() {
    let params = vec![
        param(ParamKind::Type, "A", "A"),
        param(ParamKind::Lifetime, "'a", "'a"),
        param(ParamKind::Type, "B", "B"),
        param(ParamKind::Const, "const N: u8", "N"),
    ];
    assert_eq!(params_of_kind(&params, ParamKind::Type), [copy_param(&params[0]), copy_param(&params[2])]);
    assert_eq!(params_of_kind(&params, ParamKind::Lifetime), [copy_param(&params[1])]);
    assert_eq!(params_of_kind(&params, ParamKind::Const), [copy_param(&params[3])]);
    let mut all = params_of_kind(&params, ParamKind::Const);
    append_params(&mut all, &params);
    assert_eq!(all.len(), 5);
    assert_eq!(all[1..], params[..]);
}

#[test]
fn forwarding_writes_one_item() {
    let interface = def(vec![]);
    let attributes = ItemAttributes { kept: vec![tokens("inline")], forced: false, generics: None };
    let item = method("go", EXCLUSIVE, false, &[]);
    assert_eq!(
        render(&forward(&item, &attributes, "T", &interface, &None)),
        "# [inline ] fn go (& mut self ) {< T as Foo > :: go (self ) } "
    );
    assert_eq!(
        render(&forward(&item, &attributes, "T", &interface, &Some(tokens("&mut self.0")))),
        "# [inline ] fn go (& mut self ) {< T as Foo > :: go (& mut self . 0 ) } "
    );
    let nothing = ItemAttributes { kept: vec![], forced: false, generics: None };
    assert_eq!(
        render(&forward(&associated("Out"), &nothing, "T", &interface, &None)),
        "type Out = < T as Foo > :: Out ; "
    );
    assert_eq!(
        render(&forward(&constant("N", vec![], None), &nothing, "T", &interface, &None)),
        "const N : u8 = < T as Foo > :: N ; "
    );
    assert_eq!(
        render(&forward(&constant("N", vec![], Some("1 + 2")), &nothing, "T", &interface, &None)),
        "const N : u8 = 1 + 2 ; "
    );
    assert_eq!(forward(&Item::Other(tokens("x!();")), &nothing, "T", &interface, &None), vec![]);
}

#[test]
fn block_is_written_with_its_items_in_braces() {
    let block = ImplBlock {
        generics: vec![param(ParamKind::Lifetime, "'a", "'a"), param(ParamKind::Type, "T: Foo", "T")],
        path: tokens("Foo"),
        ty: tokens("&'a T"),
        where_clause: tokens("where T: Sized"),
        items: vec![tokens("type A = u8;"), tokens("fn b() {}")],
    };
    assert_eq!(
        render(&block.to_tokens()),
        "impl < 'a , T : Foo > Foo for &'a T where T : Sized {type A = u8 ; fn b () {} } "
    );
    let bare = ImplBlock { generics: vec![], path: tokens("Foo"), ty: tokens("X"), where_clause: vec![], items: vec![] };
    assert_eq!(render(&bare.to_tokens()), "impl Foo for X {} ");
}

#[test]
fn generator_writes_the_declaration_and_then_the_blocks() {
    let mut attrs = Attributes::new(false);
    attrs.types = vec![
        TypeToImpl { ty: tokens("Shared<_>"), mutable: false, generics: vec![], closure: None },
        TypeToImpl { ty: tokens("Owned<_>"), mutable: true, generics: vec![], closure: None },
    ];
    let copy = copy_type_to_impl(&attrs.types[1]);
    assert_eq!(copy, attrs.types[1]);
    let todo = ImplsToDo::parse(def(vec![
        method("a", EXCLUSIVE, false, &["include_impl", "must_use"]),
        Item::Other(vec![Token::Group(Delimiter::Brace, vec![])]),
    ]))
    .unwrap();
    let generator = Generator { attrs, todo };
    assert_eq!(render(&generator.declaration()), "trait Foo {# [must_use ] fn a (& mut self ) ; {} } ");
    let blocks = generator.blocks();
    assert_eq!(blocks.len(), 1);
    assert_eq!(blocks[0], generator.block(&generator.attrs.types[1]));
    assert_eq!(
        render(&generator.to_tokens()),
        "trait Foo {# [must_use ] fn a (& mut self ) ; {} } impl < T : Foo > Foo for Owned < T > {# [must_use ] fn a (& mut self ) {< T as Foo > :: a (self ) } } "
    );
}
