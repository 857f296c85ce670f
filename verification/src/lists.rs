//! Facts about filtered sequences, and the joining of token runs.

use vstd::prelude::*;
use crate::token::{append_tokens, push_token, mark, Token, Tree};

verus! {

/// Filtering a list with one more element.
pub proof fn lemma_filter_push<A>(s: Seq<A>, x: A, keep: spec_fn(A) -> bool)
    ensures
        s.push(x).filter(keep) == if keep(x) {
            s.filter(keep).push(x)
        } else {
            s.filter(keep)
        },
{
    reveal(Seq::filter);
    assert(s.push(x).drop_last() =~= s);
}

/// What is left of a list after filtering are elements of the list, in
/// their order: each stands at a place of its own in the list.
pub proof fn lemma_filter_places<A>(s: Seq<A>, keep: spec_fn(A) -> bool) -> (places: Seq<int>)
    ensures
        places.len() == s.filter(keep).len(),
        forall|k: int|
            0 <= k < places.len() ==> 0 <= #[trigger] places[k] < s.len() && s[places[k]]
                == s.filter(keep)[k] && keep(s[places[k]]),
        forall|k: int, l: int| 0 <= k < l < places.len() ==> places[k] < places[l],
        forall|i: int|
            0 <= i < s.len() && keep(#[trigger] s[i]) ==> exists|k: int|
                0 <= k < places.len() && places[k] == i,
    decreases s.len(),
{
    reveal(Seq::filter);
    if s.len() == 0 {
        Seq::empty()
    } else {
        let before = lemma_filter_places(s.drop_last(), keep);
        let places = if keep(s.last()) {
            before.push(s.len() - 1)
        } else {
            before
        };
        assert forall|i: int| 0 <= i < s.len() && keep(#[trigger] s[i]) implies exists|k: int|
            0 <= k < places.len() && places[k] == i by {
            if i < s.len() - 1 {
                assert(s.drop_last()[i] == s[i]);
                let k = choose|k: int| 0 <= k < before.len() && before[k] == i;
                assert(places[k] == i);
            } else {
                assert(places[places.len() - 1] == i);
            }
        }
        places
    }
}

/// The runs of trees one after another.
pub open spec fn concat(parts: Seq<Seq<Tree>>) -> Seq<Tree>
    decreases parts.len(),
{
    if parts.len() == 0 {
        Seq::empty()
    } else {
        concat(parts.drop_last()) + parts.last()
    }
}

/// The runs of trees one after another, with a comma between every two.
pub open spec fn separated(parts: Seq<Seq<Tree>>) -> Seq<Tree>
    decreases parts.len(),
{
    if parts.len() == 0 {
        Seq::empty()
    } else if parts.len() == 1 {
        parts[0]
    } else {
        separated(parts.drop_last()) + seq![Tree::Mark(',', false)] + parts.last()
    }
}

/// The runs of trees between `<` and `>`, with a comma between every two;
/// nothing at all where there is no run.
pub open spec fn angle_bracketed(parts: Seq<Seq<Tree>>) -> Seq<Tree> {
    if parts.len() == 0 {
        Seq::empty()
    } else {
        seq![Tree::Mark('<', false)] + separated(parts) + seq![Tree::Mark('>', false)]
    }
}

/// Joining one more run.
pub proof fn lemma_concat_push(parts: Seq<Seq<Tree>>, part: Seq<Tree>)
    ensures
        concat(parts.push(part)) == concat(parts) + part,
{
    assert(parts.push(part).drop_last() =~= parts);
}

/// Joining one more run behind a comma.
pub proof fn lemma_separated_push(parts: Seq<Seq<Tree>>, part: Seq<Tree>)
    ensures
        separated(parts.push(part)) == if parts.len() == 0 {
            part
        } else {
            separated(parts) + seq![Tree::Mark(',', false)] + part
        },
{
    assert(parts.push(part).drop_last() =~= parts);
}

/// The runs of tokens one after another.
pub fn concat_tokens(parts: &Vec<Vec<Token>>) -> (out: Vec<Token>)
    ensures
        out.deep_view() == concat(parts.deep_view()),
{
    let mut out: Vec<Token> = Vec::new();
    let mut i: usize = 0;
    assert(out.deep_view() =~= Seq::<Tree>::empty());
    assert(parts.deep_view().subrange(0, 0) =~= Seq::<Seq<Tree>>::empty());
    while i < parts.len()
        invariant
            i <= parts.len(),
            out.deep_view() == concat(parts.deep_view().subrange(0, i as int)),
        decreases parts.len() - i,
    {
        proof {
            lemma_concat_push(parts.deep_view().subrange(0, i as int), parts[i as int].deep_view());
            assert(parts.deep_view().subrange(0, i + 1) =~= parts.deep_view().subrange(
                0,
                i as int,
            ).push(parts[i as int].deep_view()));
        }
        append_tokens(&mut out, &parts[i]);
        i += 1;
    }
    assert(parts.deep_view().subrange(0, parts.len() as int) =~= parts.deep_view());
    out
}

/// The runs of tokens one after another, with a comma between every two.
pub fn separated_tokens(parts: &Vec<Vec<Token>>) -> (out: Vec<Token>)
    ensures
        out.deep_view() == separated(parts.deep_view()),
{
    let mut out: Vec<Token> = Vec::new();
    let mut i: usize = 0;
    assert(out.deep_view() =~= Seq::<Tree>::empty());
    assert(parts.deep_view().subrange(0, 0) =~= Seq::<Seq<Tree>>::empty());
    while i < parts.len()
        invariant
            i <= parts.len(),
            out.deep_view() == separated(parts.deep_view().subrange(0, i as int)),
        decreases parts.len() - i,
    {
        proof {
            lemma_separated_push(
                parts.deep_view().subrange(0, i as int),
                parts[i as int].deep_view(),
            );
            assert(parts.deep_view().subrange(0, i + 1) =~= parts.deep_view().subrange(
                0,
                i as int,
            ).push(parts[i as int].deep_view()));
        }
        if i > 0 {
            push_token(&mut out, mark(','));
        }
        let ghost before = out.deep_view();
        append_tokens(&mut out, &parts[i]);
        proof {
            if i == 0 {
                assert(before + parts[i as int].deep_view() =~= parts[i as int].deep_view());
            } else {
                assert(before =~= separated(parts.deep_view().subrange(0, i as int)) + seq![
                    Tree::Mark(',', false),
                ]);
            }
        }
        i += 1;
    }
    assert(parts.deep_view().subrange(0, parts.len() as int) =~= parts.deep_view());
    out
}

/// The runs of tokens between `<` and `>`, with a comma between every two;
/// nothing at all where there is no run.
pub fn angle_bracketed_tokens(parts: &Vec<Vec<Token>>) -> (out: Vec<Token>)
    ensures
        out.deep_view() == angle_bracketed(parts.deep_view()),
{
    let mut out: Vec<Token> = Vec::new();
    if parts.len() == 0 {
        assert(out.deep_view() =~= Seq::<Tree>::empty());
        return out;
    }
    push_token(&mut out, mark('<'));
    let inner = separated_tokens(parts);
    append_tokens(&mut out, &inner);
    push_token(&mut out, mark('>'));
    assert(out.deep_view() =~= angle_bracketed(parts.deep_view()));
    out
}

} // verus!
