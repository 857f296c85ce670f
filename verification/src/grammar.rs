//! The arguments of the attribute, as a list of directives:
//!
//! ```text
//! arguments  := (directive ("," directive)* ","?)?
//! directive  := "T" "=" IDENT
//!             | "impl" "mut"? generics? type ("=" expression)?
//!             | "unimpl" (type | "*")
//! ```
//!
//! A type, an expression, or a generic parameter list is the longest run of
//! tokens from where it begins that `syn` parses as one.

use vstd::prelude::*;
use vstd::string::*;
use crate::config::{
    apply_all, default_attributes, Attributes, AttributesModel, Directive, DirectiveModel,
};
use crate::catalog::distinct;
use crate::error::{Error, ErrorModel};
use crate::model::{GenericParam, GenericParamModel, ParamKind, TypeToImpl, TypeToImplModel};
use crate::syntax::{
    find_longest, is_identifier, lemma_longest, longest, parses_as_identifier, Syntax,
};
use crate::token::{copy_range, is_mark, is_word, Delimiter, Token, Tree};

verus! {

/// Whether the tree at `i` is the word `text`.
pub open spec fn is_word_at(trees: Seq<Tree>, i: int, text: Seq<char>) -> bool {
    0 <= i < trees.len() && trees[i] == Tree::Word(text)
}

/// Whether the tree at `i` is the mark `symbol`, joint or not.
pub open spec fn is_mark_at(trees: Seq<Tree>, i: int, symbol: char) -> bool {
    0 <= i < trees.len() && (trees[i] matches Tree::Mark(c, _) && c == symbol)
}

/// Whether an attribute begins at `i`: a `#` and a group in square brackets.
pub open spec fn is_attribute_at(trees: Seq<Tree>, i: int) -> bool {
    is_mark_at(trees, i, '#') && i + 1 < trees.len() && (trees[i + 1] matches Tree::Group(d, _)
        && d == Delimiter::Bracket)
}

/// The place behind the attributes that begin at `from`.
pub open spec fn behind_attributes(trees: Seq<Tree>, from: int) -> int
    decreases trees.len() - from,
{
    if is_attribute_at(trees, from) {
        behind_attributes(trees, from + 2)
    } else {
        from
    }
}

/// The trees from `from` up to `to`, as far as there are any.
pub open spec fn clip(trees: Seq<Tree>, from: int, to: int) -> Seq<Tree> {
    let end = if to < trees.len() {
        to
    } else {
        trees.len() as int
    };
    if 0 <= from <= end {
        trees.subrange(from, end)
    } else {
        Seq::empty()
    }
}

/// The generic parameter that a run of trees declares. Behind its
/// attributes, a tick begins a lifetime and `const` a constant; anything
/// else is a type. The parameter is declared as it is written.
pub open spec fn param_of(trees: Seq<Tree>) -> GenericParamModel {
    let at = behind_attributes(trees, 0);
    if is_mark_at(trees, at, '\'') {
        GenericParamModel {
            kind: ParamKind::Lifetime,
            declaration: trees,
            name: clip(trees, at, at + 2),
        }
    } else if is_word_at(trees, at, "const"@) {
        GenericParamModel {
            kind: ParamKind::Const,
            declaration: trees,
            name: clip(trees, at + 1, at + 2),
        }
    } else {
        GenericParamModel { kind: ParamKind::Type, declaration: trees, name: clip(trees, at, at + 1) }
    }
}

/// The parameters that the trees from `pos` on declare, separated by commas;
/// `None` where they are not a list of parameters.
pub open spec fn params_from(trees: Seq<Tree>, pos: int) -> Option<Seq<GenericParamModel>>
    decreases trees.len() - pos,
    via params_from_ends
{
    if pos >= trees.len() {
        Some(Seq::empty())
    } else {
        match longest(Syntax::GenericParam, trees, pos) {
            Some(end) => {
                let first = seq![param_of(trees.subrange(pos, end))];
                if end == trees.len() {
                    Some(first)
                } else if !is_mark_at(trees, end, ',') {
                    None
                } else {
                    match params_from(trees, end + 1) {
                        Some(rest) => Some(first + rest),
                        None => None,
                    }
                }
            },
            None => None,
        }
    }
}

/// A parameter ends behind where it begins, so the list is read to its end.
#[via_fn]
proof fn params_from_ends(trees: Seq<Tree>, pos: int) {
    lemma_longest(Syntax::GenericParam, trees, pos);
}

/// What one directive is, and where it ends.
pub type Parsed = Result<(DirectiveModel, int), ErrorModel>;

/// The directive `T = IDENT`, read from behind the `T`.
pub open spec fn rename_at(trees: Seq<Tree>, pos: int) -> Parsed {
    if !is_mark_at(trees, pos, '=') {
        Err(ErrorModel::ExpectedEquals(pos as usize))
    } else if pos + 1 < trees.len() && trees[pos + 1] is Word && parses_as_identifier(
        trees[pos + 1]->Word_0,
    ) {
        Ok((DirectiveModel::Rename(trees[pos + 1]->Word_0), pos + 2))
    } else {
        Err(ErrorModel::ExpectedIdentifier((pos + 1) as usize))
    }
}

/// The directive `unimpl ..`, read from behind the `unimpl`.
pub open spec fn remove_at(trees: Seq<Tree>, pos: int) -> Parsed {
    if is_mark_at(trees, pos, '*') {
        Ok((DirectiveModel::Clear, pos + 1))
    } else {
        match longest(Syntax::Type, trees, pos) {
            Some(end) => Ok((DirectiveModel::Remove(trees.subrange(pos, end)), end)),
            None => Err(ErrorModel::ExpectedType(pos as usize)),
        }
    }
}

/// The generic parameters of an `impl` directive, and where they end: none
/// where no `<` stands at `pos`.
pub open spec fn generics_at(trees: Seq<Tree>, pos: int) -> Result<
    (Seq<GenericParamModel>, int),
    ErrorModel,
> {
    if !is_mark_at(trees, pos, '<') {
        Ok((Seq::empty(), pos))
    } else {
        match longest(Syntax::Generics, trees, pos) {
            Some(end) if pos + 2 <= end => {
                match params_from(trees.subrange(pos + 1, end - 1), 0) {
                    Some(params) => Ok((params, end)),
                    None => Err(ErrorModel::MalformedGenerics(pos as usize)),
                }
            },
            _ => Err(ErrorModel::MalformedGenerics(pos as usize)),
        }
    }
}

/// The template and the accessor of an `impl` directive, read from `pos`.
pub open spec fn target_at(
    trees: Seq<Tree>,
    pos: int,
    mutable: bool,
    generics: Seq<GenericParamModel>,
) -> Parsed {
    match longest(Syntax::Type, trees, pos) {
        None => Err(ErrorModel::ExpectedType(pos as usize)),
        Some(end) => {
            let ty = trees.subrange(pos, end);
            if is_mark_at(trees, end, '=') {
                match longest(Syntax::Expression, trees, end + 1) {
                    None => Err(ErrorModel::ExpectedExpression((end + 1) as usize)),
                    Some(stop) => Ok(
                        (
                            DirectiveModel::Add(
                                TypeToImplModel {
                                    ty,
                                    mutable,
                                    generics,
                                    closure: Some(trees.subrange(end + 1, stop)),
                                },
                            ),
                            stop,
                        ),
                    ),
                }
            } else {
                Ok(
                    (
                        DirectiveModel::Add(TypeToImplModel { ty, mutable, generics, closure: None }),
                        end,
                    ),
                )
            }
        },
    }
}

/// The directive `impl ..`, read from behind the `impl`.
pub open spec fn add_at(trees: Seq<Tree>, pos: int) -> Parsed {
    let mutable = is_word_at(trees, pos, "mut"@);
    let from = if mutable {
        pos + 1
    } else {
        pos
    };
    match generics_at(trees, from) {
        Err(e) => Err(e),
        Ok((generics, at)) => target_at(trees, at, mutable, generics),
    }
}

/// The directive that begins at `pos`.
pub open spec fn directive_at(trees: Seq<Tree>, pos: int) -> Parsed {
    if is_word_at(trees, pos, "impl"@) {
        add_at(trees, pos + 1)
    } else if is_word_at(trees, pos, "T"@) {
        rename_at(trees, pos + 1)
    } else if is_word_at(trees, pos, "unimpl"@) {
        remove_at(trees, pos + 1)
    } else {
        Err(ErrorModel::ExpectedDirective(pos as usize))
    }
}

/// The directives that the trees from `pos` on hold. A comma separates two
/// directives, and one may follow the last.
pub open spec fn directives_from(trees: Seq<Tree>, pos: int) -> Result<Seq<DirectiveModel>, ErrorModel>
    decreases trees.len() - pos,
    via directives_from_ends
{
    if pos >= trees.len() {
        Ok(Seq::empty())
    } else {
        match directive_at(trees, pos) {
            Err(e) => Err(e),
            Ok((directive, end)) => {
                if end == trees.len() {
                    Ok(seq![directive])
                } else if !is_mark_at(trees, end, ',') {
                    Err(ErrorModel::ExpectedComma(end as usize))
                } else {
                    match directives_from(trees, end + 1) {
                        Err(e) => Err(e),
                        Ok(rest) => Ok(seq![directive] + rest),
                    }
                }
            },
        }
    }
}

/// A directive ends behind where it begins, and within the trees.
pub proof fn lemma_directive_advances(trees: Seq<Tree>, pos: int)
    requires
        0 <= pos,
    ensures
        directive_at(trees, pos) matches Ok((_, end)) ==> pos < end <= trees.len(),
{
    lemma_longest(Syntax::Type, trees, pos + 1);
    let from = if is_word_at(trees, pos + 1, "mut"@) {
        pos + 2
    } else {
        pos + 1
    };
    lemma_longest(Syntax::Generics, trees, from);
    match generics_at(trees, from) {
        Ok((_, at)) => {
            lemma_longest(Syntax::Type, trees, at);
            match longest(Syntax::Type, trees, at) {
                Some(end) => lemma_longest(Syntax::Expression, trees, end + 1),
                None => {},
            }
        },
        Err(_) => {},
    }
}

/// A directive ends behind where it begins, so the list is read to its end.
#[via_fn]
proof fn directives_from_ends(trees: Seq<Tree>, pos: int) {
    if 0 <= pos {
        lemma_directive_advances(trees, pos);
    }
}

/// The directives that the arguments hold, or the first failure.
pub open spec fn directives(trees: Seq<Tree>) -> Result<Seq<DirectiveModel>, ErrorModel> {
    directives_from(trees, 0)
}

/// The settings that the arguments ask for: the defaults, changed by the
/// directives from left to right.
pub open spec fn settings(trees: Seq<Tree>, parking_lot: bool) -> Result<AttributesModel, ErrorModel> {
    match directives(trees) {
        Ok(list) => Ok(apply_all(default_attributes(parking_lot), list)),
        Err(e) => Err(e),
    }
}

/// Whether a result of reading one directive is what the grammar says.
pub open spec fn same_parsed(read: Result<(Directive, usize), Error>, parsed: Parsed) -> bool {
    match (read, parsed) {
        (Ok((directive, end)), Ok((model, at))) => directive.deep_view() == model && end == at,
        (Err(e), Err(f)) => e.deep_view() == f,
        _ => false,
    }
}

/// Whether the token at `i` is the word `text`.
pub(crate) fn word_at(tokens: &Vec<Token>, i: usize, text: &str) -> (yes: bool)
    ensures
        yes == is_word_at(tokens.deep_view(), i as int, text@),
{
    i < tokens.len() && is_word(&tokens[i], text)
}

/// Whether the token at `i` is the mark `symbol`.
pub(crate) fn mark_at(tokens: &Vec<Token>, i: usize, symbol: char) -> (yes: bool)
    ensures
        yes == is_mark_at(tokens.deep_view(), i as int, symbol),
{
    i < tokens.len() && is_mark(&tokens[i], symbol)
}

/// Whether an attribute begins at `i`.
fn attribute_at(tokens: &Vec<Token>, i: usize) -> (yes: bool)
    ensures
        yes == is_attribute_at(tokens.deep_view(), i as int),
        yes ==> i + 2 <= tokens.len(),
{
    if !mark_at(tokens, i, '#') {
        return false;
    }
    assert(i < tokens.deep_view().len() == tokens.len());
    if i + 1 >= tokens.len() {
        return false;
    }
    match &tokens[i + 1] {
        Token::Group(d, _) => *d == Delimiter::Bracket,
        _ => false,
    }
}

/// The place behind the attributes that begin at `from`.
pub(crate) fn skip_attributes(tokens: &Vec<Token>, from: usize) -> (at: usize)
    requires
        from <= tokens.len(),
    ensures
        at == behind_attributes(tokens.deep_view(), from as int),
        from <= at <= tokens.len(),
{
    let mut at: usize = from;
    while attribute_at(tokens, at)
        invariant
            from <= at <= tokens.len(),
            behind_attributes(tokens.deep_view(), from as int) == behind_attributes(
                tokens.deep_view(),
                at as int,
            ),
        decreases tokens.len() - at,
    {
        at += 2;
    }
    at
}

/// A copy of `count` tokens from `from` on, as far as there are any.
fn copy_clip(tokens: &Vec<Token>, from: usize, count: usize) -> (out: Vec<Token>)
    requires
        from <= tokens.len(),
    ensures
        out.deep_view() == clip(tokens.deep_view(), from as int, from + count),
{
    let end = if count < tokens.len() - from {
        from + count
    } else {
        tokens.len()
    };
    copy_range(tokens, from, end)
}

/// The generic parameter that `tokens` declare.
pub fn read_param(tokens: Vec<Token>) -> (param: GenericParam)
    ensures
        param.deep_view() == param_of(tokens.deep_view()),
{
    let at = skip_attributes(&tokens, 0);
    if mark_at(&tokens, at, '\'') {
        let name = copy_clip(&tokens, at, 2);
        GenericParam { kind: ParamKind::Lifetime, declaration: tokens, name }
    } else if word_at(&tokens, at, "const") {
        assert(at < tokens.deep_view().len() == tokens.len());
        let name = copy_clip(&tokens, at + 1, 1);
        GenericParam { kind: ParamKind::Const, declaration: tokens, name }
    } else {
        let name = copy_clip(&tokens, at, 1);
        GenericParam { kind: ParamKind::Type, declaration: tokens, name }
    }
}

/// A list of parameters behind the ones read so far.
pub open spec fn params_behind(
    read: Seq<GenericParamModel>,
    rest: Option<Seq<GenericParamModel>>,
) -> Option<Seq<GenericParamModel>> {
    match rest {
        Some(more) => Some(read + more),
        None => None,
    }
}

/// The generic parameters that `tokens` declare, separated by commas.
pub fn read_params(tokens: &Vec<Token>) -> (params: Option<Vec<GenericParam>>)
    ensures
        params.deep_view() == params_from(tokens.deep_view(), 0),
{
    let ghost trees = tokens.deep_view();
    let mut params: Vec<GenericParam> = Vec::new();
    let mut pos: usize = 0;
    assert(params.deep_view() =~= Seq::<GenericParamModel>::empty());
    assert(params_from(trees, 0) == params_behind(params.deep_view(), params_from(trees, 0))) by {
        match params_from(trees, 0) {
            Some(more) => assert(Seq::<GenericParamModel>::empty() + more =~= more),
            None => {},
        }
    }
    while pos < tokens.len()
        invariant
            pos <= tokens.len(),
            trees == tokens.deep_view(),
            params_from(trees, 0) == params_behind(
                params.deep_view(),
                params_from(trees, pos as int),
            ),
        decreases tokens.len() - pos,
    {
        let end = match find_longest(Syntax::GenericParam, tokens, pos) {
            Some(end) => end,
            None => {
                return None;
            },
        };
        let ghost before = params.deep_view();
        let param = read_param(copy_range(tokens, pos, end));
        params.push(param);
        assert(params.deep_view() =~= before + seq![param_of(trees.subrange(pos as int, end as int))]);
        if end == tokens.len() {
            assert(params.deep_view() + Seq::<GenericParamModel>::empty() =~= params.deep_view());
            return Some(params);
        }
        if !mark_at(tokens, end, ',') {
            return None;
        }
        proof {
            match params_from(trees, end + 1) {
                Some(rest) => {
                    assert(before + (seq![param_of(trees.subrange(pos as int, end as int))] + rest)
                        =~= params.deep_view() + rest);
                },
                None => {},
            }
        }
        pos = end + 1;
    }
    assert(params.deep_view() + Seq::<GenericParamModel>::empty() =~= params.deep_view());
    Some(params)
}

/// Reads `= IDENT` behind a `T`.
fn read_rename(tokens: &Vec<Token>, pos: usize) -> (read: Result<(Directive, usize), Error>)
    requires
        pos <= tokens.len(),
    ensures
        same_parsed(read, rename_at(tokens.deep_view(), pos as int)),
{
    if !mark_at(tokens, pos, '=') {
        return Err(Error::ExpectedEquals(pos));
    }
    if pos + 1 < tokens.len() {
        match &tokens[pos + 1] {
            Token::Word(name) => {
                if is_identifier(name.as_str()) {
                    return Ok((Directive::Rename(name.clone()), pos + 2));
                }
            },
            _ => {},
        }
    }
    Err(Error::ExpectedIdentifier(pos + 1))
}

/// Reads a type or `*` behind an `unimpl`.
fn read_remove(tokens: &Vec<Token>, pos: usize) -> (read: Result<(Directive, usize), Error>)
    requires
        pos <= tokens.len(),
    ensures
        same_parsed(read, remove_at(tokens.deep_view(), pos as int)),
{
    if mark_at(tokens, pos, '*') {
        return Ok((Directive::Clear, pos + 1));
    }
    match find_longest(Syntax::Type, tokens, pos) {
        Some(end) => Ok((Directive::Remove(copy_range(tokens, pos, end)), end)),
        None => Err(Error::ExpectedType(pos)),
    }
}

/// Reads the generic parameters of an `impl` directive, if it has any.
fn read_generics(tokens: &Vec<Token>, pos: usize) -> (read: Result<
    (Vec<GenericParam>, usize),
    Error,
>)
    requires
        pos <= tokens.len(),
    ensures
        match (read, generics_at(tokens.deep_view(), pos as int)) {
            (Ok((params, end)), Ok((models, at))) => params.deep_view() == models && end == at
                && pos <= end <= tokens.len(),
            (Err(e), Err(f)) => e.deep_view() == f,
            _ => false,
        },
{
    if !mark_at(tokens, pos, '<') {
        let params: Vec<GenericParam> = Vec::new();
        assert(params.deep_view() =~= Seq::<GenericParamModel>::empty());
        return Ok((params, pos));
    }
    match find_longest(Syntax::Generics, tokens, pos) {
        Some(end) => {
            if end - pos < 2 {
                return Err(Error::MalformedGenerics(pos));
            }
            let inner = copy_range(tokens, pos + 1, end - 1);
            match read_params(&inner) {
                Some(params) => Ok((params, end)),
                None => Err(Error::MalformedGenerics(pos)),
            }
        },
        None => Err(Error::MalformedGenerics(pos)),
    }
}

/// Reads the template of an `impl` directive and, behind a `=`, its accessor.
fn read_target(tokens: &Vec<Token>, pos: usize, mutable: bool, generics: Vec<GenericParam>) -> (read:
    Result<(Directive, usize), Error>)
    requires
        pos <= tokens.len(),
    ensures
        same_parsed(read, target_at(tokens.deep_view(), pos as int, mutable, generics.deep_view())),
{
    let end = match find_longest(Syntax::Type, tokens, pos) {
        Some(end) => end,
        None => {
            return Err(Error::ExpectedType(pos));
        },
    };
    let ty = copy_range(tokens, pos, end);
    if mark_at(tokens, end, '=') {
        match find_longest(Syntax::Expression, tokens, end + 1) {
            Some(stop) => {
                let closure = Some(copy_range(tokens, end + 1, stop));
                Ok((Directive::Add(TypeToImpl { ty, mutable, generics, closure }), stop))
            },
            None => Err(Error::ExpectedExpression(end + 1)),
        }
    } else {
        Ok((Directive::Add(TypeToImpl { ty, mutable, generics, closure: None }), end))
    }
}

/// Reads what follows an `impl`.
fn read_add(tokens: &Vec<Token>, pos: usize) -> (read: Result<(Directive, usize), Error>)
    requires
        pos <= tokens.len(),
    ensures
        same_parsed(read, add_at(tokens.deep_view(), pos as int)),
{
    let mutable = word_at(tokens, pos, "mut");
    let from = if mutable {
        pos + 1
    } else {
        pos
    };
    match read_generics(tokens, from) {
        Err(e) => Err(e),
        Ok((generics, at)) => read_target(tokens, at, mutable, generics),
    }
}

/// Reads the directive that begins at `pos`.
pub fn read_directive(tokens: &Vec<Token>, pos: usize) -> (read: Result<(Directive, usize), Error>)
    requires
        pos <= tokens.len(),
    ensures
        same_parsed(read, directive_at(tokens.deep_view(), pos as int)),
{
    if word_at(tokens, pos, "impl") {
        read_add(tokens, pos + 1)
    } else if word_at(tokens, pos, "T") {
        read_rename(tokens, pos + 1)
    } else if word_at(tokens, pos, "unimpl") {
        read_remove(tokens, pos + 1)
    } else {
        Err(Error::ExpectedDirective(pos))
    }
}

/// A list of directives behind the ones read so far.
pub open spec fn directives_behind(
    read: Seq<DirectiveModel>,
    rest: Result<Seq<DirectiveModel>, ErrorModel>,
) -> Result<Seq<DirectiveModel>, ErrorModel> {
    match rest {
        Ok(more) => Ok(read + more),
        Err(e) => Err(e),
    }
}

/// Whether a result of reading is what the grammar says.
pub open spec fn same_directives(
    read: Result<Vec<Directive>, Error>,
    parsed: Result<Seq<DirectiveModel>, ErrorModel>,
) -> bool {
    match (read, parsed) {
        (Ok(list), Ok(models)) => list.deep_view() == models,
        (Err(e), Err(f)) => e.deep_view() == f,
        _ => false,
    }
}

/// Reads the directives that the arguments of the attribute hold. Where the
/// arguments are not written as the grammar asks, the first place at which
/// they are not is reported.
pub fn parse_directives(tokens: &Vec<Token>) -> (read: Result<Vec<Directive>, Error>)
    ensures
        same_directives(read, directives(tokens.deep_view())),
{
    let ghost trees = tokens.deep_view();
    let mut list: Vec<Directive> = Vec::new();
    let mut pos: usize = 0;
    assert(list.deep_view() =~= Seq::<DirectiveModel>::empty());
    assert(directives(trees) == directives_behind(list.deep_view(), directives_from(trees, 0)))
        by {
        match directives_from(trees, 0) {
            Ok(more) => assert(Seq::<DirectiveModel>::empty() + more =~= more),
            Err(_) => {},
        }
    }
    while pos < tokens.len()
        invariant
            pos <= tokens.len(),
            trees == tokens.deep_view(),
            directives(trees) == directives_behind(
                list.deep_view(),
                directives_from(trees, pos as int),
            ),
        decreases tokens.len() - pos,
    {
        let (directive, end) = match read_directive(tokens, pos) {
            Ok(found) => found,
            Err(e) => {
                return Err(e);
            },
        };
        let ghost before = list.deep_view();
        let ghost model = directive.deep_view();
        list.push(directive);
        assert(list.deep_view() =~= before + seq![model]);
        proof {
            lemma_directive_advances(trees, pos as int);
        }
        if end == tokens.len() {
            assert(list.deep_view() + Seq::<DirectiveModel>::empty() =~= list.deep_view());
            return Ok(list);
        }
        if !mark_at(tokens, end, ',') {
            return Err(Error::ExpectedComma(end));
        }
        proof {
            match directives_from(trees, end + 1) {
                Ok(rest) => {
                    assert(before + (seq![model] + rest) =~= list.deep_view() + rest);
                },
                Err(_) => {},
            }
        }
        pos = end + 1;
    }
    assert(list.deep_view() + Seq::<DirectiveModel>::empty() =~= list.deep_view());
    Ok(list)
}

impl Attributes {
    /// Reads the settings from the arguments of the attribute: the defaults,
    /// changed by the directives from left to right.
    pub fn parse(tokens: &Vec<Token>, parking_lot: bool) -> (read: Result<Attributes, Error>)
        ensures
            match (read, settings(tokens.deep_view(), parking_lot)) {
                (Ok(attributes), Ok(model)) => attributes.deep_view() == model && distinct(
                    model.types,
                ),
                (Err(e), Err(f)) => e.deep_view() == f,
                _ => false,
            },
    {
        match parse_directives(tokens) {
            Ok(list) => {
                let mut attributes = Attributes::new(parking_lot);
                attributes.apply_all(list);
                Ok(attributes)
            },
            Err(e) => Err(e),
        }
    }
}

} // verus!
