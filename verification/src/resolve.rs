//! Putting the name of the wrapped type where a stand-in for it is written:
//! for the wildcard `_` in the template of a wrapper, and for `Self` in the
//! bounds of a trait.
//!
//! Both are one transform of token trees, which replaces a word wherever it
//! occurs, however deep in groups. The name of a lifetime is no occurrence:
//! `'_` stays as it is.

use vstd::prelude::*;
use crate::token::{
    copy_token, group, is_word, lemma_group_view, tick, word, Delimiter, Token, Tree,
};

verus! {

/// Whether a tick stands right before the tree at `i`.
pub open spec fn behind_tick(trees: Seq<Tree>, i: int) -> bool {
    0 < i <= trees.len() && trees[i - 1] == tick()
}

/// One tree with every occurrence of the word `target` replaced by the word
/// `with`. A tree that stands behind a tick is left as it is.
pub open spec fn substitute_tree(tree: Tree, lifetime: bool, target: Seq<char>, with: Seq<char>)
    -> Tree
    decreases tree,
{
    match tree {
        Tree::Word(w) => if w == target && !lifetime {
            Tree::Word(with)
        } else {
            tree
        },
        Tree::Group(d, inner) => Tree::Group(
            d,
            Seq::new(
                inner.len(),
                |i: int|
                    if 0 <= i < inner.len() {
                        substitute_tree(inner[i], behind_tick(inner, i), target, with)
                    } else {
                        tree
                    },
            ),
        ),
        _ => tree,
    }
}

/// The trees with every occurrence of the word `target` replaced by the word
/// `with`.
pub open spec fn substitute(trees: Seq<Tree>, target: Seq<char>, with: Seq<char>) -> Seq<Tree> {
    Seq::new(
        trees.len(),
        |i: int| substitute_tree(trees[i], behind_tick(trees, i), target, with),
    )
}

/// Whether the word `target` occurs in the tree.
pub open spec fn tree_mentions(tree: Tree, lifetime: bool, target: Seq<char>) -> bool
    decreases tree,
{
    match tree {
        Tree::Word(w) => w == target && !lifetime,
        Tree::Group(d, inner) => exists|i: int|
            0 <= i < inner.len() && tree_mentions(
                #[trigger] inner[i],
                behind_tick(inner, i),
                target,
            ),
        _ => false,
    }
}

/// Whether the word `target` occurs in the trees, at any depth.
pub open spec fn mentions(trees: Seq<Tree>, target: Seq<char>) -> bool {
    exists|i: int|
        0 <= i < trees.len() && tree_mentions(#[trigger] trees[i], behind_tick(trees, i), target)
}

/// A group is substituted member by member.
pub proof fn lemma_substitute_group(
    d: Delimiter,
    inner: Seq<Tree>,
    lifetime: bool,
    target: Seq<char>,
    with: Seq<char>,
)
    ensures
        substitute_tree(Tree::Group(d, inner), lifetime, target, with) == Tree::Group(
            d,
            substitute(inner, target, with),
        ),
{
    assert(substitute_tree(Tree::Group(d, inner), lifetime, target, with)->Group_1 =~= substitute(
        inner,
        target,
        with,
    ));
}

/// A tree in which the target does not occur is left as it is.
pub proof fn lemma_tree_unmentioned(tree: Tree, lifetime: bool, target: Seq<char>, with: Seq<char>)
    requires
        !tree_mentions(tree, lifetime, target),
    ensures
        substitute_tree(tree, lifetime, target, with) == tree,
    decreases tree,
{
    match tree {
        Tree::Group(d, inner) => {
            lemma_substitute_group(d, inner, lifetime, target, with);
            assert forall|i: int| 0 <= i < inner.len() implies substitute(inner, target, with)[i]
                == inner[i] by {
                if tree_mentions(inner[i], behind_tick(inner, i), target) {
                    assert(tree_mentions(tree, lifetime, target));
                }
                lemma_tree_unmentioned(inner[i], behind_tick(inner, i), target, with);
            }
            assert(substitute(inner, target, with) =~= inner);
        },
        _ => {},
    }
}

/// Resolving trees in which the stand-in does not occur changes nothing.
pub proof fn lemma_substitute_unmentioned(trees: Seq<Tree>, target: Seq<char>, with: Seq<char>)
    requires
        !mentions(trees, target),
    ensures
        substitute(trees, target, with) == trees,
{
    assert forall|i: int| 0 <= i < trees.len() implies substitute(trees, target, with)[i]
        == trees[i] by {
        assert(!tree_mentions(trees[i], behind_tick(trees, i), target));
        lemma_tree_unmentioned(trees[i], behind_tick(trees, i), target, with);
    }
    assert(substitute(trees, target, with) =~= trees);
}

/// Substitution keeps what every tree is: a tick stays a tick, and nothing
/// else becomes one.
pub proof fn lemma_substitute_keeps_ticks(trees: Seq<Tree>, target: Seq<char>, with: Seq<char>)
    ensures
        substitute(trees, target, with).len() == trees.len(),
        forall|i: int|
            0 <= i <= trees.len() ==> behind_tick(substitute(trees, target, with), i)
                == #[trigger] behind_tick(trees, i),
{
    let out = substitute(trees, target, with);
    assert forall|i: int| 0 <= i <= trees.len() implies behind_tick(out, i) == #[trigger] behind_tick(
        trees,
        i,
    ) by {
        if 0 < i {
            assert(out[i - 1] == substitute_tree(
                trees[i - 1],
                behind_tick(trees, i - 1),
                target,
                with,
            ));
        }
    }
}

/// After substitution by another word, the target occurs nowhere in a tree.
pub proof fn lemma_tree_resolved(tree: Tree, lifetime: bool, target: Seq<char>, with: Seq<char>)
    requires
        with != target,
    ensures
        !tree_mentions(substitute_tree(tree, lifetime, target, with), lifetime, target),
    decreases tree,
{
    match tree {
        Tree::Group(d, inner) => {
            lemma_substitute_group(d, inner, lifetime, target, with);
            let out = substitute(inner, target, with);
            lemma_substitute_keeps_ticks(inner, target, with);
            assert forall|i: int| 0 <= i < out.len() implies !tree_mentions(
                out[i],
                behind_tick(out, i),
                target,
            ) by {
                lemma_tree_resolved(inner[i], behind_tick(inner, i), target, with);
            }
        },
        _ => {},
    }
}

/// After resolution, the stand-in occurs nowhere: none is left for what is
/// generated from the trees.
pub proof fn lemma_substitute_resolved(trees: Seq<Tree>, target: Seq<char>, with: Seq<char>)
    requires
        with != target,
    ensures
        !mentions(substitute(trees, target, with), target),
{
    let out = substitute(trees, target, with);
    lemma_substitute_keeps_ticks(trees, target, with);
    assert forall|i: int| 0 <= i < out.len() implies !tree_mentions(
        out[i],
        behind_tick(out, i),
        target,
    ) by {
        lemma_tree_resolved(trees[i], behind_tick(trees, i), target, with);
    }
}

/// Whether `token` is the tick that opens a lifetime.
fn is_tick(token: &Token) -> (yes: bool)
    ensures
        yes == (token.deep_view() == tick()),
{
    match token {
        Token::Mark(c, j) => *c == '\'' && *j,
        _ => false,
    }
}

/// The tokens with every occurrence of the word `target` replaced by the
/// word `with`, at any depth.
#[verifier::loop_isolation(false)]
pub fn substitute_tokens(tokens: &Vec<Token>, target: &str, with: &str) -> (out: Vec<Token>)
    ensures
        out.deep_view() == substitute(tokens.deep_view(), target@, with@),
    decreases tokens,
{
    let mut out: Vec<Token> = Vec::new();
    let mut i: usize = 0;
    while i < tokens.len()
        invariant
            i <= tokens.len(),
            out.len() == i,
            forall|k: int|
                0 <= k < i ==> out[k].deep_view() == substitute_tree(
                    tokens[k].deep_view(),
                    behind_tick(tokens.deep_view(), k),
                    target@,
                    with@,
                ),
        decreases tokens.len() - i,
    {
        let lifetime = i > 0 && is_tick(&tokens[i - 1]);
        assert(lifetime == behind_tick(tokens.deep_view(), i as int));
        let token = match &tokens[i] {
            Token::Word(_) => {
                if !lifetime && is_word(&tokens[i], target) {
                    word(with)
                } else {
                    copy_token(&tokens[i])
                }
            },
            Token::Group(d, inner) => {
                let resolved = substitute_tokens(inner, target, with);
                proof {
                    lemma_group_view(*d, *inner);
                    lemma_substitute_group(*d, inner.deep_view(), lifetime, target@, with@);
                }
                group(*d, resolved)
            },
            _ => copy_token(&tokens[i]),
        };
        out.push(token);
        i += 1;
    }
    assert(out.deep_view() =~= substitute(tokens.deep_view(), target@, with@));
    out
}

/// Resolves the wildcards of a template: every `_` becomes the word
/// `generic`.
pub struct InferResolver {
    pub ty: String,
}

impl InferResolver {
    /// The tokens with `generic` for every wildcard.
    pub fn visit(&self, tokens: &Vec<Token>) -> (out: Vec<Token>)
        ensures
            out.deep_view() == substitute(tokens.deep_view(), "_"@, self.ty@),
    {
        substitute_tokens(tokens, "_", self.ty.as_str())
    }
}

/// Resolves the mentions of the implementing type: every `Self` becomes the
/// word `ident`.
pub struct SelfResolver {
    pub ident: String,
}

impl SelfResolver {
    /// The tokens with `ident` for every `Self`.
    pub fn visit(&self, tokens: &Vec<Token>) -> (out: Vec<Token>)
        ensures
            out.deep_view() == substitute(tokens.deep_view(), "Self"@, self.ident@),
    {
        substitute_tokens(tokens, "Self", self.ident.as_str())
    }
}

} // verus!
