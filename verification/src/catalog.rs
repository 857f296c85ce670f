//! The wrapper types that a trait is implemented for when nothing else is
//! asked: references, owning and counting pointers, borrow and lock guards.

use vstd::prelude::*;
use crate::model::{GenericParam, GenericParamModel, ParamKind, TypeToImpl, TypeToImplModel};
use crate::token::{joint, mark, plain, push_token, tick, word, Token, Tree};

verus! {

/// The wildcard that marks where the wrapped type goes.
pub open spec fn wildcard() -> Tree {
    Tree::Word("_"@)
}

/// The lifetime `'a`.
pub open spec fn lifetime_a() -> Seq<Tree> {
    seq![tick(), Tree::Word("a"@)]
}

/// The parameter that declares `'a`.
pub open spec fn lifetime_param_a() -> GenericParamModel {
    GenericParamModel { kind: ParamKind::Lifetime, declaration: lifetime_a(), name: lifetime_a() }
}

/// The path separator `::`.
pub open spec fn path_separator() -> Seq<Tree> {
    seq![Tree::Mark(':', true), Tree::Mark(':', false)]
}

/// `&'a _` or `&'a mut _`.
pub open spec fn reference_template(exclusive: bool) -> Seq<Tree> {
    if exclusive {
        seq![Tree::Mark('&', false)] + lifetime_a() + seq![Tree::Word("mut"@), wildcard()]
    } else {
        seq![Tree::Mark('&', false)] + lifetime_a() + seq![wildcard()]
    }
}

/// The arguments of a wrapper: `<_>` or `<'a, _>`.
pub open spec fn wrapper_arguments(with_lifetime: bool) -> Seq<Tree> {
    if with_lifetime {
        seq![Tree::Mark('<', false)] + lifetime_a() + seq![
            Tree::Mark(',', false),
            wildcard(),
            Tree::Mark('>', false),
        ]
    } else {
        seq![Tree::Mark('<', false), wildcard(), Tree::Mark('>', false)]
    }
}

/// `::library::module::Name<_>`, with `'a` before the wildcard where asked,
/// and without the module where there is none.
pub open spec fn path_template(
    library: Seq<char>,
    module: Option<Seq<char>>,
    name: Seq<char>,
    with_lifetime: bool,
) -> Seq<Tree> {
    path_separator() + seq![Tree::Word(library)] + (match module {
        Some(m) => path_separator() + seq![Tree::Word(m)],
        None => Seq::empty(),
    }) + path_separator() + seq![Tree::Word(name)] + wrapper_arguments(with_lifetime)
}

/// A descriptor of the catalog: it has no accessor, and declares `'a` where
/// its template uses it.
pub open spec fn builtin(ty: Seq<Tree>, mutable: bool, with_lifetime: bool) -> TypeToImplModel {
    TypeToImplModel {
        ty,
        mutable,
        generics: if with_lifetime {
            seq![lifetime_param_a()]
        } else {
            Seq::empty()
        },
        closure: None,
    }
}

/// The descriptors of the standard library's wrappers.
pub open spec fn standard_catalog() -> Seq<TypeToImplModel> {
    seq![
        builtin(reference_template(false), false, true),
        builtin(reference_template(true), true, true),
        builtin(path_template("std"@, Some("boxed"@), "Box"@, false), true, false),
        builtin(path_template("std"@, Some("rc"@), "Rc"@, false), false, false),
        builtin(path_template("std"@, Some("sync"@), "Arc"@, false), false, false),
        builtin(path_template("std"@, Some("cell"@), "Ref"@, true), false, true),
        builtin(path_template("std"@, Some("cell"@), "RefMut"@, true), true, true),
        builtin(path_template("std"@, Some("sync"@), "MutexGuard"@, true), true, true),
        builtin(path_template("std"@, Some("sync"@), "RwLockReadGuard"@, true), false, true),
        builtin(path_template("std"@, Some("sync"@), "RwLockWriteGuard"@, true), true, true),
    ]
}

/// The descriptors of `parking_lot`'s guards.
pub open spec fn parking_lot_catalog() -> Seq<TypeToImplModel> {
    seq![
        builtin(path_template("parking_lot"@, None, "MutexGuard"@, true), true, true),
        builtin(path_template("parking_lot"@, None, "RwLockReadGuard"@, true), false, true),
        builtin(path_template("parking_lot"@, None, "RwLockWriteGuard"@, true), true, true),
    ]
}

/// The catalog: the standard library's wrappers, and `parking_lot`'s guards
/// behind them where they are asked for.
pub open spec fn default_catalog(parking_lot: bool) -> Seq<TypeToImplModel> {
    if parking_lot {
        standard_catalog() + parking_lot_catalog()
    } else {
        standard_catalog()
    }
}

/// Whether two templates are the same: the same tokens, whatever the gaps
/// between them.
pub open spec fn same_template(a: Seq<Tree>, b: Seq<Tree>) -> bool {
    plain(a) == plain(b)
}

/// No two descriptors have the same template.
pub open spec fn distinct(types: Seq<TypeToImplModel>) -> bool {
    forall|i: int, j: int|
        0 <= i < types.len() && 0 <= j < types.len() && i != j ==> !same_template(
            (#[trigger] types[i]).ty,
            (#[trigger] types[j]).ty,
        )
}

/// The lengths of the names that the catalog's templates are written with.
proof fn lemma_names_differ()
    ensures
        "std"@.len() == 3,
        "parking_lot"@.len() == 11,
        "boxed"@.len() == 5,
        "rc"@.len() == 2,
        "sync"@.len() == 4,
        "cell"@.len() == 4,
        "Box"@.len() == 3,
        "Rc"@.len() == 2,
        "Arc"@.len() == 3,
        "Ref"@.len() == 3,
        "RefMut"@.len() == 6,
        "MutexGuard"@.len() == 10,
        "RwLockReadGuard"@.len() == 15,
        "RwLockWriteGuard"@.len() == 16,
{
    reveal_strlit("std");
    reveal_strlit("parking_lot");
    reveal_strlit("boxed");
    reveal_strlit("rc");
    reveal_strlit("sync");
    reveal_strlit("cell");
    reveal_strlit("Box");
    reveal_strlit("Rc");
    reveal_strlit("Arc");
    reveal_strlit("Ref");
    reveal_strlit("RefMut");
    reveal_strlit("MutexGuard");
    reveal_strlit("RwLockReadGuard");
    reveal_strlit("RwLockWriteGuard");
}

/// A template of the catalog that names a module has 12 trees without a
/// lifetime and 15 with one, the module at 5 and the name at 8.
proof fn lemma_module_path(library: Seq<char>, module: Seq<char>, name: Seq<char>, with: bool)
    ensures
        path_template(library, Some(module), name, with).len() == (if with {
            15int
        } else {
            12int
        }),
        path_template(library, Some(module), name, with)[2] == Tree::Word(library),
        path_template(library, Some(module), name, with)[5] == Tree::Word(module),
        path_template(library, Some(module), name, with)[8] == Tree::Word(name),
{
}

/// A template of the catalog that names no module has 12 trees with a
/// lifetime, the library at 2 and the name at 5.
proof fn lemma_plain_path(library: Seq<char>, name: Seq<char>)
    ensures
        path_template(library, None, name, true).len() == 12,
        path_template(library, None, name, true)[2] == Tree::Word(library),
        path_template(library, None, name, true)[5] == Tree::Word(name),
{
}

/// The catalog holds 10 descriptors, or 13 with `parking_lot`'s, and no two
/// of them have the same template.
pub proof fn lemma_catalog_distinct(parking_lot: bool)
    ensures
        default_catalog(parking_lot).len() == (if parking_lot {
            13int
        } else {
            10int
        }),
        distinct(default_catalog(parking_lot)),
{
    lemma_names_differ();
    let c = default_catalog(parking_lot);
    assert(c[0].ty.len() == 4);
    assert(c[1].ty.len() == 5);
    lemma_module_path("std"@, "boxed"@, "Box"@, false);
    lemma_module_path("std"@, "rc"@, "Rc"@, false);
    lemma_module_path("std"@, "sync"@, "Arc"@, false);
    lemma_module_path("std"@, "cell"@, "Ref"@, true);
    lemma_module_path("std"@, "cell"@, "RefMut"@, true);
    lemma_module_path("std"@, "sync"@, "MutexGuard"@, true);
    lemma_module_path("std"@, "sync"@, "RwLockReadGuard"@, true);
    lemma_module_path("std"@, "sync"@, "RwLockWriteGuard"@, true);
    lemma_plain_path("parking_lot"@, "MutexGuard"@);
    lemma_plain_path("parking_lot"@, "RwLockReadGuard"@);
    lemma_plain_path("parking_lot"@, "RwLockWriteGuard"@);
    assert forall|i: int, j: int| 0 <= i < c.len() && 0 <= j < c.len() && i != j implies !same_template(
        (#[trigger] c[i]).ty,
        (#[trigger] c[j]).ty,
    ) by {
        let a = plain(c[i].ty);
        let b = plain(c[j].ty);
        if a == b {
            assert(a.len() == b.len());
            assert(a[2] == b[2]);
            assert(a[5] == b[5]);
            if a.len() == 15 {
                assert(a[8] == b[8]);
            }
        }
    }
}

/// The tokens of `'a`.
fn lifetime_a_tokens() -> (tokens: Vec<Token>)
    ensures
        tokens.deep_view() == lifetime_a(),
{
    let mut tokens: Vec<Token> = Vec::new();
    push_token(&mut tokens, joint('\''));
    push_token(&mut tokens, word("a"));
    assert(tokens.deep_view() =~= lifetime_a());
    tokens
}

/// Appends `'a` to `tokens`.
fn push_lifetime_a(tokens: &mut Vec<Token>)
    ensures
        final(tokens).deep_view() == old(tokens).deep_view() + lifetime_a(),
{
    push_token(tokens, joint('\''));
    push_token(tokens, word("a"));
    assert(tokens.deep_view() =~= old(tokens).deep_view() + lifetime_a());
}

/// Appends `::` to `tokens`.
pub(crate) fn push_path_separator(tokens: &mut Vec<Token>)
    ensures
        final(tokens).deep_view() == old(tokens).deep_view() + path_separator(),
{
    push_token(tokens, joint(':'));
    push_token(tokens, mark(':'));
    assert(tokens.deep_view() =~= old(tokens).deep_view() + path_separator());
}

/// The tokens of a reference to the wildcard.
fn reference_tokens(exclusive: bool) -> (tokens: Vec<Token>)
    ensures
        tokens.deep_view() == reference_template(exclusive),
{
    let mut tokens: Vec<Token> = Vec::new();
    push_token(&mut tokens, mark('&'));
    push_lifetime_a(&mut tokens);
    if exclusive {
        push_token(&mut tokens, word("mut"));
    }
    push_token(&mut tokens, word("_"));
    assert(tokens.deep_view() =~= reference_template(exclusive));
    tokens
}

/// The tokens of a path to a wrapper around the wildcard.
fn path_tokens(library: &str, module: Option<&str>, name: &str, with_lifetime: bool) -> (tokens:
    Vec<Token>)
    ensures
        tokens.deep_view() == path_template(
            library@,
            match module {
                Some(m) => Some(m@),
                None => None,
            },
            name@,
            with_lifetime,
        ),
{
    let mut tokens: Vec<Token> = Vec::new();
    push_path_separator(&mut tokens);
    push_token(&mut tokens, word(library));
    match module {
        Some(m) => {
            push_path_separator(&mut tokens);
            push_token(&mut tokens, word(m));
        },
        None => {},
    }
    push_path_separator(&mut tokens);
    push_token(&mut tokens, word(name));
    push_token(&mut tokens, mark('<'));
    if with_lifetime {
        push_lifetime_a(&mut tokens);
        push_token(&mut tokens, mark(','));
    }
    push_token(&mut tokens, word("_"));
    push_token(&mut tokens, mark('>'));
    assert(tokens.deep_view() =~= path_template(
        library@,
        match module {
            Some(m) => Some(m@),
            None => None,
        },
        name@,
        with_lifetime,
    ));
    tokens
}

/// A descriptor of the catalog.
fn builtin_descriptor(ty: Vec<Token>, mutable: bool, with_lifetime: bool) -> (descriptor:
    TypeToImpl)
    ensures
        descriptor.deep_view() == builtin(ty.deep_view(), mutable, with_lifetime),
{
    let mut generics: Vec<GenericParam> = Vec::new();
    if with_lifetime {
        generics.push(
            GenericParam {
                kind: ParamKind::Lifetime,
                declaration: lifetime_a_tokens(),
                name: lifetime_a_tokens(),
            },
        );
        assert(generics.deep_view() =~= seq![lifetime_param_a()]);
    } else {
        assert(generics.deep_view() =~= Seq::<GenericParamModel>::empty());
    }
    TypeToImpl { ty, mutable, generics, closure: None }
}

/// Appends one descriptor to a list.
pub fn push_type(types: &mut Vec<TypeToImpl>, descriptor: TypeToImpl)
    ensures
        final(types).deep_view() == old(types).deep_view().push(descriptor.deep_view()),
{
    types.push(descriptor);
    assert(types.deep_view() =~= old(types).deep_view().push(descriptor.deep_view()));
}

/// The default set of wrapper types, each with the wildcard `_` for the
/// wrapped type: `&'a _`, `&'a mut _`, `Box`, `Rc`, `Arc`, `Ref`, `RefMut`,
/// `MutexGuard`, `RwLockReadGuard`, `RwLockWriteGuard` and, where
/// `parking_lot` is set, that library's three guards. The exclusive
/// reference, `Box`, `RefMut`, and the guards that lock for writing can hand
/// out exclusive access; the others cannot.
pub fn default_types(parking_lot: bool) -> (types: Vec<TypeToImpl>)
    ensures
        types.deep_view() == default_catalog(parking_lot),
        distinct(types.deep_view()),
{
    let mut types: Vec<TypeToImpl> = Vec::new();
    assert(types.deep_view() =~= Seq::<TypeToImplModel>::empty());
    push_type(&mut types, builtin_descriptor(reference_tokens(false), false, true));
    push_type(&mut types, builtin_descriptor(reference_tokens(true), true, true));
    push_type(
        &mut types,
        builtin_descriptor(path_tokens("std", Some("boxed"), "Box", false), true, false),
    );
    push_type(
        &mut types,
        builtin_descriptor(path_tokens("std", Some("rc"), "Rc", false), false, false),
    );
    push_type(
        &mut types,
        builtin_descriptor(path_tokens("std", Some("sync"), "Arc", false), false, false),
    );
    push_type(
        &mut types,
        builtin_descriptor(path_tokens("std", Some("cell"), "Ref", true), false, true),
    );
    push_type(
        &mut types,
        builtin_descriptor(path_tokens("std", Some("cell"), "RefMut", true), true, true),
    );
    push_type(
        &mut types,
        builtin_descriptor(path_tokens("std", Some("sync"), "MutexGuard", true), true, true),
    );
    push_type(
        &mut types,
        builtin_descriptor(path_tokens("std", Some("sync"), "RwLockReadGuard", true), false, true),
    );
    push_type(
        &mut types,
        builtin_descriptor(path_tokens("std", Some("sync"), "RwLockWriteGuard", true), true, true),
    );
    assert(types.deep_view() =~= standard_catalog());
    if parking_lot {
        push_type(
            &mut types,
            builtin_descriptor(path_tokens("parking_lot", None, "MutexGuard", true), true, true),
        );
        push_type(
            &mut types,
            builtin_descriptor(
                path_tokens("parking_lot", None, "RwLockReadGuard", true),
                false,
                true,
            ),
        );
        push_type(
            &mut types,
            builtin_descriptor(
                path_tokens("parking_lot", None, "RwLockWriteGuard", true),
                true,
                true,
            ),
        );
        assert(types.deep_view() =~= standard_catalog() + parking_lot_catalog());
    }
    proof {
        lemma_catalog_distinct(parking_lot);
    }
    types
}

} // verus!
