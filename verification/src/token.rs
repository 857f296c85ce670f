//! Token trees: the form in which every piece of syntax is held.
//!
//! A [`Token`] is executable data; its mathematical value is a [`Tree`], and
//! every contract of this crate speaks of trees.

use vstd::prelude::*;
use vstd::string::*;

verus! {

/// The bracket pair that encloses a group of tokens.
#[derive(Clone, Copy, Debug, PartialEq, Eq, Structural)]
pub enum Delimiter {
    /// `( .. )`
    Parenthesis,
    /// `{ .. }`
    Brace,
    /// `[ .. ]`
    Bracket,
}

/// One token tree.
#[derive(Debug, PartialEq, Eq)]
pub enum Token {
    /// An identifier or a keyword; the wildcard `_` is a word too.
    Word(String),
    /// One punctuation character. The flag says that the next token follows
    /// without a gap, as after the `'` of a lifetime or the `-` of `->`.
    Mark(char, bool),
    /// A literal, held as it was written.
    Literal(String),
    /// A delimited sequence of token trees.
    Group(Delimiter, Vec<Token>),
}

/// The mathematical value of a token tree.
pub ghost enum Tree {
    Word(Seq<char>),
    Mark(char, bool),
    Literal(Seq<char>),
    Group(Delimiter, Seq<Tree>),
}

impl Token {
    /// The tree that this token stands for.
    pub open spec fn tree(self) -> Tree
        decreases self,
    {
        match self {
            Token::Word(w) => Tree::Word(w@),
            Token::Mark(c, joint) => Tree::Mark(c, joint),
            Token::Literal(l) => Tree::Literal(l@),
            Token::Group(d, inner) => Tree::Group(
                d,
                Seq::new(
                    inner@.len(),
                    |i: int|
                        if 0 <= i < inner@.len() {
                            inner@[i].tree()
                        } else {
                            Tree::Mark(' ', false)
                        },
                ),
            ),
        }
    }
}

impl DeepView for Token {
    type V = Tree;

    open spec fn deep_view(&self) -> Tree {
        self.tree()
    }
}

/// The value of a group is the group of its members' values.
pub proof fn lemma_group_view(d: Delimiter, inner: Vec<Token>)
    ensures
        Token::Group(d, inner).deep_view() == Tree::Group(d, inner.deep_view()),
{
    assert(Token::Group(d, inner).tree()->Group_1 =~= inner.deep_view());
}

/// The tick that opens a lifetime.
pub open spec fn tick() -> Tree {
    Tree::Mark('\'', true)
}

/// One tree without its gaps: no mark of it is joint.
pub open spec fn plain_tree(tree: Tree) -> Tree
    decreases tree,
{
    match tree {
        Tree::Mark(c, _) => Tree::Mark(c, false),
        Tree::Group(d, inner) => Tree::Group(
            d,
            Seq::new(
                inner.len(),
                |i: int|
                    if 0 <= i < inner.len() {
                        plain_tree(inner[i])
                    } else {
                        tree
                    },
            ),
        ),
        _ => tree,
    }
}

/// The trees without their gaps. Two runs of trees with the same plain form
/// are the same tokens, written with other gaps between them.
pub open spec fn plain(trees: Seq<Tree>) -> Seq<Tree> {
    Seq::new(trees.len(), |i: int| plain_tree(trees[i]))
}

/// A group without its gaps is the group of its members without theirs.
pub proof fn lemma_plain_group(d: Delimiter, inner: Seq<Tree>)
    ensures
        plain_tree(Tree::Group(d, inner)) == Tree::Group(d, plain(inner)),
{
    assert(plain_tree(Tree::Group(d, inner))->Group_1 =~= plain(inner));
}

/// The character that opens a group.
pub open spec fn opening(d: Delimiter) -> Seq<char> {
    match d {
        Delimiter::Parenthesis => "("@,
        Delimiter::Brace => "{"@,
        Delimiter::Bracket => "["@,
    }
}

/// The characters that close a group: the bracket and a gap.
pub open spec fn closing(d: Delimiter) -> Seq<char> {
    match d {
        Delimiter::Parenthesis => ") "@,
        Delimiter::Brace => "} "@,
        Delimiter::Bracket => "] "@,
    }
}

/// The source text of one tree. Every token is followed by a gap, but for a
/// joint mark and the bracket that opens a group.
pub open spec fn tree_text(tree: Tree) -> Seq<char>
    decreases tree, 0nat,
{
    match tree {
        Tree::Word(w) => w + " "@,
        Tree::Mark(c, joint) => if joint {
            seq![c]
        } else {
            seq![c] + " "@
        },
        Tree::Literal(l) => l + " "@,
        Tree::Group(d, inner) => opening(d) + trees_text(inner) + closing(d),
    }
}

/// The source text of a sequence of trees: their texts in order.
pub open spec fn trees_text(trees: Seq<Tree>) -> Seq<char>
    decreases trees, 1nat,
{
    if trees.len() == 0 {
        Seq::empty()
    } else {
        trees_text(trees.drop_last()) + tree_text(trees.last())
    }
}

/// The source text of one tree without the gap behind it.
pub open spec fn tree_text_tight(tree: Tree) -> Seq<char> {
    match tree {
        Tree::Word(w) => w,
        Tree::Mark(c, _) => seq![c],
        Tree::Literal(l) => l,
        Tree::Group(d, inner) => opening(d) + trees_text(inner) + match d {
            Delimiter::Parenthesis => ")"@,
            Delimiter::Brace => "}"@,
            Delimiter::Bracket => "]"@,
        },
    }
}

/// The source text of a sequence of trees without the gap behind the last.
pub open spec fn written(trees: Seq<Tree>) -> Seq<char> {
    if trees.len() == 0 {
        Seq::empty()
    } else {
        trees_text(trees.drop_last()) + tree_text_tight(trees.last())
    }
}

/// A word token.
pub fn word(text: &str) -> (token: Token)
    ensures
        token.deep_view() == Tree::Word(text@),
{
    Token::Word(String::from_str(text))
}

/// A mark that stands alone.
pub fn mark(symbol: char) -> (token: Token)
    ensures
        token.deep_view() == Tree::Mark(symbol, false),
{
    Token::Mark(symbol, false)
}

/// A mark that the next token follows without a gap.
pub fn joint(symbol: char) -> (token: Token)
    ensures
        token.deep_view() == Tree::Mark(symbol, true),
{
    Token::Mark(symbol, true)
}

/// A group around `inner`.
pub fn group(delimiter: Delimiter, inner: Vec<Token>) -> (token: Token)
    ensures
        token.deep_view() == Tree::Group(delimiter, inner.deep_view()),
{
    proof {
        lemma_group_view(delimiter, inner);
    }
    Token::Group(delimiter, inner)
}

/// `String::push`, which vstd leaves without a specification: appends one
/// character.
#[verifier::external_body]
pub(crate) fn push_char(text: &mut String, c: char)
    ensures
        final(text)@ == old(text)@.push(c),
{
    text.push(c)
}

/// Whether `token` is the word `text`.
pub fn is_word(token: &Token, text: &str) -> (yes: bool)
    ensures
        yes == (token.deep_view() == Tree::Word(text@)),
{
    match token {
        Token::Word(w) => *w == String::from_str(text),
        _ => false,
    }
}

/// Whether `token` is the mark `symbol`, joint or not.
pub fn is_mark(token: &Token, symbol: char) -> (yes: bool)
    ensures
        yes == (token.deep_view() matches Tree::Mark(c, _) && c == symbol),
{
    match token {
        Token::Mark(c, _) => *c == symbol,
        _ => false,
    }
}

/// A copy of one token.
#[verifier::loop_isolation(false)]
pub fn copy_token(token: &Token) -> (out: Token)
    ensures
        out.deep_view() == token.deep_view(),
    decreases token,
{
    match token {
        Token::Word(w) => Token::Word(w.clone()),
        Token::Mark(c, j) => Token::Mark(*c, *j),
        Token::Literal(l) => Token::Literal(l.clone()),
        Token::Group(d, inner) => {
            let mut copy: Vec<Token> = Vec::new();
            let mut i: usize = 0;
            while i < inner.len()
                invariant
                    i <= inner.len(),
                    copy.len() == i,
                    forall|k: int| 0 <= k < i ==> copy[k].deep_view() == inner[k].deep_view(),
                decreases inner.len() - i,
            {
                copy.push(copy_token(&inner[i]));
                i += 1;
            }
            proof {
                assert(copy.deep_view() =~= inner.deep_view());
                lemma_group_view(*d, copy);
                lemma_group_view(*d, *inner);
            }
            Token::Group(*d, copy)
        },
    }
}

/// A copy of the tokens from `from` up to `to`.
pub fn copy_range(tokens: &Vec<Token>, from: usize, to: usize) -> (out: Vec<Token>)
    requires
        from <= to <= tokens.len(),
    ensures
        out.deep_view() == tokens.deep_view().subrange(from as int, to as int),
{
    let mut out: Vec<Token> = Vec::new();
    let mut i: usize = from;
    while i < to
        invariant
            from <= i <= to <= tokens.len(),
            out.len() == i - from,
            forall|k: int| 0 <= k < i - from ==> out[k].deep_view() == tokens[from + k].deep_view(),
        decreases to - i,
    {
        out.push(copy_token(&tokens[i]));
        i += 1;
    }
    assert(out.deep_view() =~= tokens.deep_view().subrange(from as int, to as int));
    out
}

/// A copy of a token sequence.
pub fn copy_tokens(tokens: &Vec<Token>) -> (out: Vec<Token>)
    ensures
        out.deep_view() == tokens.deep_view(),
{
    let out = copy_range(tokens, 0, tokens.len());
    assert(tokens.deep_view().subrange(0, tokens.len() as int) =~= tokens.deep_view());
    out
}

/// Appends copies of `more` to `tokens`.
pub fn append_tokens(tokens: &mut Vec<Token>, more: &Vec<Token>)
    ensures
        final(tokens).deep_view() == old(tokens).deep_view() + more.deep_view(),
{
    let ghost before = tokens.deep_view();
    let mut i: usize = 0;
    while i < more.len()
        invariant
            i <= more.len(),
            tokens.deep_view() == before + more.deep_view().subrange(0, i as int),
        decreases more.len() - i,
    {
        let ghost previous = tokens.deep_view();
        tokens.push(copy_token(&more[i]));
        i += 1;
        assert(tokens.deep_view() =~= previous.push(more[i - 1].deep_view()));
        assert(tokens.deep_view() =~= before + more.deep_view().subrange(0, i as int));
    }
    assert(more.deep_view().subrange(0, more.len() as int) =~= more.deep_view());
}

/// Appends one token to `tokens`.
pub fn push_token(tokens: &mut Vec<Token>, token: Token)
    ensures
        final(tokens).deep_view() == old(tokens).deep_view().push(token.deep_view()),
{
    tokens.push(token);
    assert(tokens.deep_view() =~= old(tokens).deep_view().push(token.deep_view()));
}

/// Whether two tokens are the same but for their gaps.
#[verifier::loop_isolation(false)]
pub fn same_plain_token(a: &Token, b: &Token) -> (same: bool)
    ensures
        same == (plain_tree(a.deep_view()) == plain_tree(b.deep_view())),
    decreases a,
{
    match (a, b) {
        (Token::Word(x), Token::Word(y)) => *x == *y,
        (Token::Mark(c, _), Token::Mark(e, _)) => *c == *e,
        (Token::Literal(x), Token::Literal(y)) => *x == *y,
        (Token::Group(d, xs), Token::Group(e, ys)) => {
            proof {
                lemma_group_view(*d, *xs);
                lemma_group_view(*e, *ys);
                lemma_plain_group(*d, xs.deep_view());
                lemma_plain_group(*e, ys.deep_view());
            }
            if *d != *e || xs.len() != ys.len() {
                assert(xs.len() != ys.len() ==> plain(xs.deep_view()).len() != plain(
                    ys.deep_view(),
                ).len());
                return false;
            }
            let mut i: usize = 0;
            while i < xs.len()
                invariant
                    i <= xs.len(),
                    xs.len() == ys.len(),
                    forall|k: int|
                        0 <= k < i ==> plain_tree(xs[k].deep_view()) == plain_tree(
                            ys[k].deep_view(),
                        ),
                decreases xs.len() - i,
            {
                if !same_plain_token(&xs[i], &ys[i]) {
                    assert(plain(xs.deep_view())[i as int] != plain(ys.deep_view())[i as int]);
                    return false;
                }
                i += 1;
            }
            assert(plain(xs.deep_view()) =~= plain(ys.deep_view()));
            true
        },
        _ => false,
    }
}

/// Whether two token sequences are the same but for their gaps.
pub fn same_plain_tokens(a: &Vec<Token>, b: &Vec<Token>) -> (same: bool)
    ensures
        same == (plain(a.deep_view()) == plain(b.deep_view())),
{
    if a.len() != b.len() {
        assert(plain(a.deep_view()).len() != plain(b.deep_view()).len());
        return false;
    }
    let mut i: usize = 0;
    while i < a.len()
        invariant
            i <= a.len(),
            a.len() == b.len(),
            forall|k: int|
                0 <= k < i ==> plain_tree(a[k].deep_view()) == plain_tree(b[k].deep_view()),
        decreases a.len() - i,
    {
        if !same_plain_token(&a[i], &b[i]) {
            assert(plain(a.deep_view())[i as int] != plain(b.deep_view())[i as int]);
            return false;
        }
        i += 1;
    }
    assert(plain(a.deep_view()) =~= plain(b.deep_view()));
    true
}

/// The text of a sequence grows by the text of a tree pushed onto it.
pub proof fn lemma_text_push(trees: Seq<Tree>, tree: Tree)
    ensures
        trees_text(trees.push(tree)) == trees_text(trees) + tree_text(tree),
{
    assert(trees.push(tree).drop_last() =~= trees);
}

/// Appends the source text of one token to `text`.
#[verifier::loop_isolation(false)]
pub fn render_token(token: &Token, text: &mut String)
    ensures
        final(text)@ == old(text)@ + tree_text(token.deep_view()),
    decreases token,
{
    match token {
        Token::Word(w) => {
            text.append(w.as_str());
            text.append(" ");
            assert(text@ =~= old(text)@ + (w@ + " "@));
        },
        Token::Mark(c, j) => {
            push_char(text, *c);
            if !*j {
                text.append(" ");
            }
            assert(text@ =~= old(text)@ + tree_text(token.deep_view()));
        },
        Token::Literal(l) => {
            text.append(l.as_str());
            text.append(" ");
            assert(text@ =~= old(text)@ + (l@ + " "@));
        },
        Token::Group(d, inner) => {
            match d {
                Delimiter::Parenthesis => text.append("("),
                Delimiter::Brace => text.append("{"),
                Delimiter::Bracket => text.append("["),
            }
            let mut i: usize = 0;
            while i < inner.len()
                invariant
                    i <= inner.len(),
                    text@ == old(text)@ + opening(*d) + trees_text(
                        inner.deep_view().subrange(0, i as int),
                    ),
                decreases inner.len() - i,
            {
                let ghost before = inner.deep_view().subrange(0, i as int);
                render_token(&inner[i], text);
                i += 1;
                proof {
                    assert(inner.deep_view().subrange(0, i as int) =~= before.push(
                        inner[i - 1].deep_view(),
                    ));
                    lemma_text_push(before, inner[i - 1].deep_view());
                    assert(text@ =~= old(text)@ + opening(*d) + trees_text(
                        inner.deep_view().subrange(0, i as int),
                    ));
                }
            }
            match d {
                Delimiter::Parenthesis => text.append(") "),
                Delimiter::Brace => text.append("} "),
                Delimiter::Bracket => text.append("] "),
            }
            proof {
                assert(inner.deep_view().subrange(0, inner.len() as int) =~= inner.deep_view());
                lemma_group_view(*d, *inner);
                assert(text@ =~= old(text)@ + (opening(*d) + trees_text(inner.deep_view())
                    + closing(*d)));
            }
        },
    }
}

/// The source text of a token sequence.
pub fn render(tokens: &Vec<Token>) -> (text: String)
    ensures
        text@ == trees_text(tokens.deep_view()),
{
    let mut text = String::new();
    let mut i: usize = 0;
    while i < tokens.len()
        invariant
            i <= tokens.len(),
            text@ == trees_text(tokens.deep_view().subrange(0, i as int)),
        decreases tokens.len() - i,
    {
        let ghost before = tokens.deep_view().subrange(0, i as int);
        render_token(&tokens[i], &mut text);
        i += 1;
        proof {
            assert(tokens.deep_view().subrange(0, i as int) =~= before.push(
                tokens[i - 1].deep_view(),
            ));
            lemma_text_push(before, tokens[i - 1].deep_view());
        }
    }
    assert(tokens.deep_view().subrange(0, tokens.len() as int) =~= tokens.deep_view());
    text
}

/// The source text of a token sequence without the gap behind the last.
pub fn write_out(tokens: &Vec<Token>) -> (text: String)
    ensures
        text@ == written(tokens.deep_view()),
{
    if tokens.len() == 0 {
        return String::new();
    }
    let last = tokens.len() - 1;
    let mut text = render(&copy_range(tokens, 0, last));
    assert(tokens.deep_view().drop_last() =~= tokens.deep_view().subrange(0, last as int));
    let ghost before = text@;
    match &tokens[last] {
        Token::Word(w) => {
            text.append(w.as_str());
        },
        Token::Mark(c, _) => {
            push_char(&mut text, *c);
            assert(text@ =~= before + seq![*c]);
        },
        Token::Literal(l) => {
            text.append(l.as_str());
        },
        Token::Group(d, inner) => {
            proof {
                lemma_group_view(*d, *inner);
            }
            match d {
                Delimiter::Parenthesis => text.append("("),
                Delimiter::Brace => text.append("{"),
                Delimiter::Bracket => text.append("["),
            }
            let inside = render(inner);
            text.append(inside.as_str());
            match d {
                Delimiter::Parenthesis => text.append(")"),
                Delimiter::Brace => text.append("}"),
                Delimiter::Bracket => text.append("]"),
            }
            assert(text@ =~= before + tree_text_tight(tokens[last as int].deep_view()));
        },
    }
    text
}

} // verus!
