//! The generic parameters of one implementation: those of the trait, those
//! that the wrapper type needs, and the parameter for the wrapped type.

use vstd::prelude::*;
use crate::lists::{
    angle_bracketed, angle_bracketed_tokens, lemma_filter_places, lemma_filter_push,
};
use crate::model::{copy_param, GenericParam, GenericParamModel, ItemTrait, ParamKind};
use crate::token::{append_tokens, copy_tokens, mark, push_token, word, Token, Tree};

verus! {

/// Holds of the parameters of one kind.
pub open spec fn of_kind(kind: ParamKind) -> spec_fn(GenericParamModel) -> bool {
    |param: GenericParamModel| param.kind == kind
}

/// The names of the parameters, each as an argument list writes it.
pub open spec fn names(params: Seq<GenericParamModel>) -> Seq<Seq<Tree>> {
    Seq::new(params.len(), |i: int| params[i].name)
}

/// The declarations of the parameters.
pub open spec fn declarations(params: Seq<GenericParamModel>) -> Seq<Seq<Tree>> {
    Seq::new(params.len(), |i: int| params[i].declaration)
}

/// The trait with its own parameters as arguments: `Name<'a, T, N>`.
pub open spec fn trait_path(name: Seq<char>, generics: Seq<GenericParamModel>) -> Seq<Tree> {
    seq![Tree::Word(name)] + angle_bracketed(names(generics))
}

/// The parameter for the wrapped type: it is called `t`, and is bound to
/// implement the trait with the trait's own parameters as arguments.
pub open spec fn wrapped_param(t: Seq<char>, name: Seq<char>, generics: Seq<GenericParamModel>)
    -> GenericParamModel {
    GenericParamModel {
        kind: ParamKind::Type,
        declaration: seq![Tree::Word(t), Tree::Mark(':', false)] + trait_path(name, generics),
        name: seq![Tree::Word(t)],
    }
}

/// The parameters of an implementation: the lifetimes that the wrapper type
/// needs, so that they are declared before anything uses them; the
/// parameters given, in their order; the constants and then the types that
/// the wrapper type needs; and last the parameter for the wrapped type.
pub open spec fn injected(
    t: Seq<char>,
    name: Seq<char>,
    trait_generics: Seq<GenericParamModel>,
    extra: Seq<GenericParamModel>,
    generics: Seq<GenericParamModel>,
) -> Seq<GenericParamModel> {
    extra.filter(of_kind(ParamKind::Lifetime)) + generics + extra.filter(
        of_kind(ParamKind::Const),
    ) + extra.filter(of_kind(ParamKind::Type)) + seq![wrapped_param(t, name, trait_generics)]
}

/// Every lifetime stands before every parameter that is none.
pub open spec fn lifetimes_first(params: Seq<GenericParamModel>) -> bool {
    forall|i: int, j: int|
        0 <= i < j < params.len() && (#[trigger] params[j]).kind == ParamKind::Lifetime ==> (
        #[trigger] params[i]).kind == ParamKind::Lifetime
}

/// Injection keeps a declaration in order: where the lifetimes of the
/// parameters given stand first, those of the result stand first.
pub proof fn lemma_injected_in_order(
    t: Seq<char>,
    name: Seq<char>,
    trait_generics: Seq<GenericParamModel>,
    extra: Seq<GenericParamModel>,
    generics: Seq<GenericParamModel>,
)
    requires
        lifetimes_first(generics),
    ensures
        lifetimes_first(injected(t, name, trait_generics, extra, generics)),
{
    let lifetimes = extra.filter(of_kind(ParamKind::Lifetime));
    let consts = extra.filter(of_kind(ParamKind::Const));
    let types = extra.filter(of_kind(ParamKind::Type));
    let a = lemma_filter_places(extra, of_kind(ParamKind::Lifetime));
    let b = lemma_filter_places(extra, of_kind(ParamKind::Const));
    let c = lemma_filter_places(extra, of_kind(ParamKind::Type));
    let out = injected(t, name, trait_generics, extra, generics);
    assert forall|i: int, j: int|
        0 <= i < j < out.len() && (#[trigger] out[j]).kind == ParamKind::Lifetime implies (
    #[trigger] out[i]).kind == ParamKind::Lifetime by {
        let n = lifetimes.len();
        let m = n + generics.len();
        let o = m + consts.len();
        if j < n {
            assert(extra[a[i]] == lifetimes[i]);
        } else if j < m {
            if i < n {
                assert(extra[a[i]] == lifetimes[i]);
            } else {
                assert(out[j] == generics[j - n]);
                assert(out[i] == generics[i - n]);
            }
        } else if j < o {
            assert(extra[b[j - m]] == consts[j - m]);
        } else if j < o + types.len() {
            assert(extra[c[j - o]] == types[j - o]);
        }
    }
}

/// Copies of the parameters of one kind, in their order.
pub fn params_of_kind(params: &Vec<GenericParam>, kind: ParamKind) -> (out: Vec<GenericParam>)
    ensures
        out.deep_view() == params.deep_view().filter(of_kind(kind)),
{
    let ghost keep = of_kind(kind);
    let mut out: Vec<GenericParam> = Vec::new();
    let mut i: usize = 0;
    proof {
        reveal(Seq::filter);
        assert(params.deep_view().subrange(0, 0) =~= Seq::<GenericParamModel>::empty());
        assert(out.deep_view() =~= Seq::<GenericParamModel>::empty());
    }
    while i < params.len()
        invariant
            i <= params.len(),
            keep == of_kind(kind),
            out.deep_view() == params.deep_view().subrange(0, i as int).filter(keep),
        decreases params.len() - i,
    {
        proof {
            lemma_filter_push(
                params.deep_view().subrange(0, i as int),
                params[i as int].deep_view(),
                keep,
            );
            assert(params.deep_view().subrange(0, i + 1) =~= params.deep_view().subrange(
                0,
                i as int,
            ).push(params[i as int].deep_view()));
        }
        if params[i].kind == kind {
            let ghost before = out.deep_view();
            out.push(copy_param(&params[i]));
            assert(out.deep_view() =~= before.push(params[i as int].deep_view()));
        }
        i += 1;
    }
    assert(params.deep_view().subrange(0, params.len() as int) =~= params.deep_view());
    out
}

/// Appends copies of `more` to `params`.
pub fn append_params(params: &mut Vec<GenericParam>, more: &Vec<GenericParam>)
    ensures
        final(params).deep_view() == old(params).deep_view() + more.deep_view(),
{
    let ghost before = params.deep_view();
    let mut i: usize = 0;
    assert(more.deep_view().subrange(0, 0) =~= Seq::<GenericParamModel>::empty());
    assert(before + Seq::<GenericParamModel>::empty() =~= before);
    while i < more.len()
        invariant
            i <= more.len(),
            params.deep_view() == before + more.deep_view().subrange(0, i as int),
        decreases more.len() - i,
    {
        let ghost previous = params.deep_view();
        params.push(copy_param(&more[i]));
        i += 1;
        assert(params.deep_view() =~= previous.push(more[i - 1].deep_view()));
        assert(params.deep_view() =~= before + more.deep_view().subrange(0, i as int));
    }
    assert(more.deep_view().subrange(0, more.len() as int) =~= more.deep_view());
}

/// The names of the parameters.
pub fn param_names(params: &Vec<GenericParam>) -> (out: Vec<Vec<Token>>)
    ensures
        out.deep_view() == names(params.deep_view()),
{
    let mut out: Vec<Vec<Token>> = Vec::new();
    let mut i: usize = 0;
    while i < params.len()
        invariant
            i <= params.len(),
            out.len() == i,
            forall|k: int| 0 <= k < i ==> out[k].deep_view() == params[k].deep_view().name,
        decreases params.len() - i,
    {
        out.push(copy_tokens(&params[i].name));
        i += 1;
    }
    assert(out.deep_view() =~= names(params.deep_view()));
    out
}

/// The declarations of the parameters.
pub fn param_declarations(params: &Vec<GenericParam>) -> (out: Vec<Vec<Token>>)
    ensures
        out.deep_view() == declarations(params.deep_view()),
{
    let mut out: Vec<Vec<Token>> = Vec::new();
    let mut i: usize = 0;
    while i < params.len()
        invariant
            i <= params.len(),
            out.len() == i,
            forall|k: int| 0 <= k < i ==> out[k].deep_view() == params[k].deep_view().declaration,
        decreases params.len() - i,
    {
        out.push(copy_tokens(&params[i].declaration));
        i += 1;
    }
    assert(out.deep_view() =~= declarations(params.deep_view()));
    out
}

/// The tokens of the trait with its own parameters as arguments.
pub fn trait_path_tokens(name: &str, generics: &Vec<GenericParam>) -> (out: Vec<Token>)
    ensures
        out.deep_view() == trait_path(name@, generics.deep_view()),
{
    let mut out: Vec<Token> = Vec::new();
    push_token(&mut out, word(name));
    let arguments = angle_bracketed_tokens(&param_names(generics));
    append_tokens(&mut out, &arguments);
    assert(out.deep_view() =~= trait_path(name@, generics.deep_view()));
    out
}

/// Makes the parameters of `generics` those of an implementation of the
/// trait `todo` for a wrapper type that needs the parameters
/// `type_to_impl_gen`: puts that type's lifetimes before them, its constants
/// and types behind them, and last the parameter `t` for the wrapped type,
/// bound to implement the trait.
pub fn inject_additional_types(
    t: &str,
    todo: &ItemTrait,
    type_to_impl_gen: &Vec<GenericParam>,
    generics: &mut Vec<GenericParam>,
)
    ensures
        final(generics).deep_view() == injected(
            t@,
            todo.deep_view().name,
            todo.deep_view().generics,
            type_to_impl_gen.deep_view(),
            old(generics).deep_view(),
        ),
{
    let mut all = params_of_kind(type_to_impl_gen, ParamKind::Lifetime);
    append_params(&mut all, generics);
    append_params(&mut all, &params_of_kind(type_to_impl_gen, ParamKind::Const));
    append_params(&mut all, &params_of_kind(type_to_impl_gen, ParamKind::Type));
    let mut declaration: Vec<Token> = Vec::new();
    push_token(&mut declaration, word(t));
    push_token(&mut declaration, mark(':'));
    append_tokens(&mut declaration, &trait_path_tokens(todo.name.as_str(), &todo.generics));
    let mut name: Vec<Token> = Vec::new();
    push_token(&mut name, word(t));
    let wrapped = GenericParam { kind: ParamKind::Type, declaration, name };
    proof {
        assert(wrapped.deep_view().declaration =~= wrapped_param(
            t@,
            todo.deep_view().name,
            todo.deep_view().generics,
        ).declaration);
        assert(wrapped.deep_view().name =~= seq![Tree::Word(t@)]);
    }
    let ghost before = all.deep_view();
    all.push(wrapped);
    assert(all.deep_view() =~= before.push(wrapped.deep_view()));
    *generics = all;
}

} // verus!
