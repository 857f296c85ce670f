//! What counts as a type, an expression, a generic parameter list: questions
//! that only a parser of the whole language can answer. Each is put to `syn`,
//! and the contracts of this crate speak of the answers by name.
//!
//! `syn` reads text through `proc-macro2`. This crate builds both without
//! their `proc-macro` feature: text is then read by `proc-macro2`'s own
//! lexer and never by that of a compiler, inside a macro as outside of one.

use vstd::prelude::*;
use vstd::string::*;
use crate::token::{copy_range, render, trees_text, Token, Tree};

verus! {

/// Whether `syn` parses the whole of `text` as a type.
pub uninterp spec fn parses_as_type(text: Seq<char>) -> bool;

/// Whether `syn` parses the whole of `text` as an expression.
pub uninterp spec fn parses_as_expression(text: Seq<char>) -> bool;

/// Whether `syn` parses the whole of `text` as a generic parameter list.
pub uninterp spec fn parses_as_generics(text: Seq<char>) -> bool;

/// Whether `syn` parses the whole of `text` as one generic parameter.
pub uninterp spec fn parses_as_generic_param(text: Seq<char>) -> bool;

/// Whether `syn` parses the whole of `text` as generic arguments in angle
/// brackets.
pub uninterp spec fn parses_as_generic_arguments(text: Seq<char>) -> bool;

/// Whether `syn` parses the whole of `text` as an identifier.
pub uninterp spec fn parses_as_identifier(text: Seq<char>) -> bool;

/// Whether `syn` parses the whole of `text` as a path.
pub uninterp spec fn parses_as_path(text: Seq<char>) -> bool;

/// `syn::parse_str::<syn::Type>`: whether it accepts `text`. The text is
/// read by `proc-macro2`'s own lexer, the only one that this crate is built
/// with, so the answer depends on the text alone.
#[verifier::external_body]
pub(crate) fn is_type(text: &str) -> (yes: bool)
    ensures
        yes == parses_as_type(text@),
{
    syn::parse_str::<syn::Type>(text).is_ok()
}

/// `syn::parse_str::<syn::Expr>`: whether it accepts `text`. The text is
/// read by `proc-macro2`'s own lexer, the only one that this crate is built
/// with, so the answer depends on the text alone.
#[verifier::external_body]
pub(crate) fn is_expression(text: &str) -> (yes: bool)
    ensures
        yes == parses_as_expression(text@),
{
    syn::parse_str::<syn::Expr>(text).is_ok()
}

/// `syn::parse_str::<syn::Generics>`: whether it accepts `text`. The text is
/// read by `proc-macro2`'s own lexer, the only one that this crate is built
/// with, so the answer depends on the text alone.
#[verifier::external_body]
pub(crate) fn is_generics(text: &str) -> (yes: bool)
    ensures
        yes == parses_as_generics(text@),
{
    syn::parse_str::<syn::Generics>(text).is_ok()
}

/// `syn::parse_str::<syn::GenericParam>`: whether it accepts `text`. The text is
/// read by `proc-macro2`'s own lexer, the only one that this crate is built
/// with, so the answer depends on the text alone.
#[verifier::external_body]
pub(crate) fn is_generic_param(text: &str) -> (yes: bool)
    ensures
        yes == parses_as_generic_param(text@),
{
    syn::parse_str::<syn::GenericParam>(text).is_ok()
}

/// `syn::parse_str::<syn::AngleBracketedGenericArguments>`: whether it accepts `text`. The text is
/// read by `proc-macro2`'s own lexer, the only one that this crate is built
/// with, so the answer depends on the text alone.
#[verifier::external_body]
pub(crate) fn is_generic_arguments(text: &str) -> (yes: bool)
    ensures
        yes == parses_as_generic_arguments(text@),
{
    syn::parse_str::<syn::AngleBracketedGenericArguments>(text).is_ok()
}

/// `syn::parse_str::<syn::Ident>`: whether it accepts `text`. The text is
/// read by `proc-macro2`'s own lexer, the only one that this crate is built
/// with, so the answer depends on the text alone.
#[verifier::external_body]
pub(crate) fn is_identifier(text: &str) -> (yes: bool)
    ensures
        yes == parses_as_identifier(text@),
{
    syn::parse_str::<syn::Ident>(text).is_ok()
}

/// `syn::parse_str::<syn::Path>`: whether it accepts `text`. The text is
/// read by `proc-macro2`'s own lexer, the only one that this crate is built
/// with, so the answer depends on the text alone.
#[verifier::external_body]
pub(crate) fn is_path(text: &str) -> (yes: bool)
    ensures
        yes == parses_as_path(text@),
{
    syn::parse_str::<syn::Path>(text).is_ok()
}

/// The kinds of syntax that a run of tokens can be asked to be.
#[derive(Clone, Copy, Debug, PartialEq, Eq, Structural)]
pub enum Syntax {
    Type,
    Expression,
    Generics,
    GenericParam,
    Path,
}

/// Whether the trees, written out, are syntax of the given kind.
pub open spec fn is_syntax(kind: Syntax, trees: Seq<Tree>) -> bool {
    match kind {
        Syntax::Type => parses_as_type(trees_text(trees)),
        Syntax::Expression => parses_as_expression(trees_text(trees)),
        Syntax::Generics => parses_as_generics(trees_text(trees)),
        Syntax::GenericParam => parses_as_generic_param(trees_text(trees)),
        Syntax::Path => parses_as_path(trees_text(trees)),
    }
}

/// Whether `tokens`, written out, are syntax of the given kind.
pub fn recognizes(kind: Syntax, tokens: &Vec<Token>) -> (yes: bool)
    ensures
        yes == is_syntax(kind, tokens.deep_view()),
{
    let text = render(tokens);
    match kind {
        Syntax::Type => is_type(text.as_str()),
        Syntax::Expression => is_expression(text.as_str()),
        Syntax::Generics => is_generics(text.as_str()),
        Syntax::GenericParam => is_generic_param(text.as_str()),
        Syntax::Path => is_path(text.as_str()),
    }
}

/// Where the longest run of trees that starts at `start`, ends at or before
/// `end`, is not empty and is syntax of the given kind ends; `None` where
/// there is no such run.
pub open spec fn longest_before(kind: Syntax, trees: Seq<Tree>, start: int, end: int) -> Option<
    int,
>
    decreases end - start,
{
    if end <= start {
        None
    } else if is_syntax(kind, trees.subrange(start, end)) {
        Some(end)
    } else {
        longest_before(kind, trees, start, end - 1)
    }
}

/// Where the longest run of trees that starts at `start`, is not empty and
/// is syntax of the given kind ends.
pub open spec fn longest(kind: Syntax, trees: Seq<Tree>, start: int) -> Option<int> {
    longest_before(kind, trees, start, trees.len() as int)
}

/// The longest run of a kind is a run of that kind, it is not empty, and no
/// longer run from the same start is of that kind.
pub proof fn lemma_longest(kind: Syntax, trees: Seq<Tree>, start: int)
    ensures
        match longest(kind, trees, start) {
            Some(e) => {
                &&& start < e <= trees.len()
                &&& is_syntax(kind, trees.subrange(start, e))
                &&& forall|l: int|
                    e < l <= trees.len() ==> !is_syntax(kind, #[trigger] trees.subrange(start, l))
            },
            None => forall|l: int|
                start < l <= trees.len() ==> !is_syntax(kind, #[trigger] trees.subrange(start, l)),
        },
{
    lemma_longest_before(kind, trees, start, trees.len() as int);
}

/// What `longest_before` finds is a run of the kind, and no longer one is.
pub proof fn lemma_longest_before(kind: Syntax, trees: Seq<Tree>, start: int, end: int)
    ensures
        match longest_before(kind, trees, start, end) {
            Some(e) => {
                &&& start < e <= end
                &&& is_syntax(kind, trees.subrange(start, e))
                &&& forall|l: int| e < l <= end ==> !is_syntax(kind, #[trigger] trees.subrange(start, l))
            },
            None => forall|l: int|
                start < l <= end ==> !is_syntax(kind, #[trigger] trees.subrange(start, l)),
        },
    decreases end - start,
{
    if end > start && !is_syntax(kind, trees.subrange(start, end)) {
        lemma_longest_before(kind, trees, start, end - 1);
    }
}

/// Finds the end of the longest run of tokens from `start` that is syntax of
/// the given kind.
pub fn find_longest(kind: Syntax, tokens: &Vec<Token>, start: usize) -> (found: Option<usize>)
    requires
        start <= tokens.len(),
    ensures
        match found {
            Some(e) => longest(kind, tokens.deep_view(), start as int) == Some(e as int) && start
                < e <= tokens.len(),
            None => longest(kind, tokens.deep_view(), start as int) is None,
        },
{
    let mut end: usize = tokens.len();
    while end > start
        invariant
            start <= end <= tokens.len(),
            longest(kind, tokens.deep_view(), start as int) == longest_before(
                kind,
                tokens.deep_view(),
                start as int,
                end as int,
            ),
        decreases end,
    {
        let run = copy_range(tokens, start, end);
        if recognizes(kind, &run) {
            return Some(end);
        }
        end -= 1;
    }
    None
}

} // verus!
