//! The attributes of an item that are meant for the generator:
//!
//! - `#[include_impl]` has a method with a default body forwarded all the
//!   same;
//! - `#[pointer_impl(generics = <..>)]` gives the generic arguments of the
//!   forwarding call. `generics` is the only name that it can give a value
//!   to; for any other the failure tells the name.
//!
//! Both are taken off the item. Every other attribute is kept.

use vstd::prelude::*;
use crate::error::{Error, ErrorModel};
use crate::grammar::is_mark_at;
use crate::syntax::{
    find_longest, is_generic_arguments, longest, parses_as_generic_arguments, Syntax,
};
use crate::token::{copy_range, copy_tokens, is_mark, is_word, render, trees_text, Token, Tree};

verus! {

/// What the attributes of one item say to the generator.
#[derive(Debug, PartialEq, Eq)]
pub struct ItemAttributes {
    /// The attributes that stay on the item, each without its `#[` and `]`.
    pub kept: Vec<Vec<Token>>,
    /// Whether `#[include_impl]` is among the attributes.
    pub forced: bool,
    /// The generic arguments that the last `pointer_impl` attribute gives.
    pub generics: Option<Vec<Token>>,
}

/// The value of [`ItemAttributes`].
pub ghost struct ItemAttributesModel {
    pub kept: Seq<Seq<Tree>>,
    pub forced: bool,
    pub generics: Option<Seq<Tree>>,
}

impl DeepView for ItemAttributes {
    type V = ItemAttributesModel;

    open spec fn deep_view(&self) -> ItemAttributesModel {
        ItemAttributesModel {
            kept: self.kept.deep_view(),
            forced: self.forced,
            generics: self.generics.deep_view(),
        }
    }
}

/// What an item without attributes says: nothing.
pub open spec fn no_attributes() -> ItemAttributesModel {
    ItemAttributesModel { kept: Seq::empty(), forced: false, generics: None }
}

/// Whether an attribute is `include_impl`.
pub open spec fn is_forcing(attribute: Seq<Tree>) -> bool {
    attribute.len() == 1 && attribute[0] == Tree::Word("include_impl"@)
}

/// The arguments of an attribute `pointer_impl(..)`; `None` for any other.
pub open spec fn tool_arguments(attribute: Seq<Tree>) -> Option<Seq<Tree>> {
    if attribute.len() == 2 && attribute[0] == Tree::Word("pointer_impl"@) {
        match attribute[1] {
            Tree::Group(_, inner) => Some(inner),
            _ => None,
        }
    } else {
        None
    }
}

/// What the arguments of a `pointer_impl` attribute ask for. Without
/// arguments it asks for nothing. Else the arguments give a value to a name:
/// they begin with a path, the longest that `syn` parses as one, and a `=`,
/// and what follows is the value. The only name known is `generics`, whose
/// value is a list of generic arguments. Any other name is a failure that
/// carries the path as written.
pub open spec fn override_of(arguments: Seq<Tree>, item: usize) -> Result<
    Option<Seq<Tree>>,
    ErrorModel,
> {
    if arguments.len() == 0 {
        Ok(None)
    } else {
        match longest(Syntax::Path, arguments, 0) {
            Some(end) if is_mark_at(arguments, end, '=') => {
                if end == 1 && arguments[0] == Tree::Word("generics"@) {
                    let value = arguments.subrange(end + 1, arguments.len() as int);
                    if parses_as_generic_arguments(trees_text(value)) {
                        Ok(Some(value))
                    } else {
                        Err(ErrorModel::MalformedArguments(item))
                    }
                } else {
                    Err(ErrorModel::UnknownAttribute(item, arguments.subrange(0, end)))
                }
            },
            _ => Err(ErrorModel::MalformedAttribute(item)),
        }
    }
}

/// What is known after one more attribute.
pub open spec fn with_attribute(known: ItemAttributesModel, attribute: Seq<Tree>, item: usize)
    -> Result<ItemAttributesModel, ErrorModel> {
    if is_forcing(attribute) {
        Ok(ItemAttributesModel { forced: true, ..known })
    } else {
        match tool_arguments(attribute) {
            Some(arguments) => match override_of(arguments, item) {
                Ok(Some(value)) => Ok(ItemAttributesModel { generics: Some(value), ..known }),
                Ok(None) => Ok(known),
                Err(e) => Err(e),
            },
            None => Ok(ItemAttributesModel { kept: known.kept.push(attribute), ..known }),
        }
    }
}

/// What the attributes of the item at index `item` say, read from first to
/// last, or the failure of the first that is not understood.
pub open spec fn item_attributes(attributes: Seq<Seq<Tree>>, item: usize) -> Result<
    ItemAttributesModel,
    ErrorModel,
>
    decreases attributes.len(),
{
    if attributes.len() == 0 {
        Ok(no_attributes())
    } else {
        match item_attributes(attributes.drop_last(), item) {
            Ok(known) => with_attribute(known, attributes.last(), item),
            Err(e) => Err(e),
        }
    }
}

/// Whether a result of reading attributes is what they say.
pub open spec fn same_attributes(
    read: Result<ItemAttributes, Error>,
    said: Result<ItemAttributesModel, ErrorModel>,
) -> bool {
    match (read, said) {
        (Ok(attributes), Ok(model)) => attributes.deep_view() == model,
        (Err(e), Err(f)) => e.deep_view() == f,
        _ => false,
    }
}

/// The arguments of `pointer_impl(..)`, if `attribute` is one.
fn read_tool_arguments(attribute: &Vec<Token>) -> (arguments: Option<Vec<Token>>)
    ensures
        arguments.deep_view() == tool_arguments(attribute.deep_view()),
{
    if attribute.len() == 2 && is_word(&attribute[0], "pointer_impl") {
        match &attribute[1] {
            Token::Group(d, inner) => {
                proof {
                    crate::token::lemma_group_view(*d, *inner);
                }
                Some(copy_tokens(inner))
            },
            _ => None,
        }
    } else {
        None
    }
}

/// What the arguments of a `pointer_impl` attribute ask for.
fn read_override(arguments: &Vec<Token>, item: usize) -> (read: Result<Option<Vec<Token>>, Error>)
    ensures
        match (read, override_of(arguments.deep_view(), item)) {
            (Ok(value), Ok(model)) => value.deep_view() == model,
            (Err(e), Err(f)) => e.deep_view() == f,
            _ => false,
        },
{
    if arguments.len() == 0 {
        return Ok(None);
    }
    let end = match find_longest(Syntax::Path, arguments, 0) {
        Some(end) => end,
        None => {
            return Err(Error::MalformedAttribute(item));
        },
    };
    if end >= arguments.len() || !is_mark(&arguments[end], '=') {
        return Err(Error::MalformedAttribute(item));
    }
    if end == 1 && is_word(&arguments[0], "generics") {
        let value = copy_range(arguments, end + 1, arguments.len());
        let text = render(&value);
        if is_generic_arguments(text.as_str()) {
            Ok(Some(value))
        } else {
            Err(Error::MalformedArguments(item))
        }
    } else {
        Err(Error::UnknownAttribute(item, copy_range(arguments, 0, end)))
    }
}

impl ItemAttributes {
    /// Reads the attributes of the item at index `item`: sorts those meant
    /// for the generator from those that stay.
    pub fn try_from(attributes: &Vec<Vec<Token>>, item: usize) -> (read: Result<
        ItemAttributes,
        Error,
    >)
        ensures
            same_attributes(read, item_attributes(attributes.deep_view(), item)),
    {
        let ghost all = attributes.deep_view();
        let mut known = ItemAttributes { kept: Vec::new(), forced: false, generics: None };
        let mut i: usize = 0;
        proof {
            assert(known.kept.deep_view() =~= Seq::<Seq<Tree>>::empty());
            assert(all.subrange(0, 0) =~= Seq::<Seq<Tree>>::empty());
        }
        while i < attributes.len()
            invariant
                i <= attributes.len(),
                all == attributes.deep_view(),
                item_attributes(all.subrange(0, i as int), item) == Ok::<
                    ItemAttributesModel,
                    ErrorModel,
                >(known.deep_view()),
            decreases attributes.len() - i,
        {
            let attribute = &attributes[i];
            proof {
                assert(all.subrange(0, i + 1).drop_last() =~= all.subrange(0, i as int));
                assert(all.subrange(0, i + 1).last() == attribute.deep_view());
                if i + 1 == attributes.len() {
                    assert(all.subrange(0, i + 1) =~= all);
                }
            }
            if attribute.len() == 1 && is_word(&attribute[0], "include_impl") {
                known.forced = true;
            } else {
                match read_tool_arguments(attribute) {
                    Some(arguments) => match read_override(&arguments, item) {
                        Ok(Some(value)) => {
                            known.generics = Some(value);
                        },
                        Ok(None) => {},
                        Err(e) => {
                            proof {
                                lemma_failure_stays(all, i + 1, item);
                            }
                            return Err(e);
                        },
                    },
                    None => {
                        let ghost before = known.kept.deep_view();
                        known.kept.push(copy_tokens(attribute));
                        assert(known.kept.deep_view() =~= before.push(attribute.deep_view()));
                    },
                }
            }
            i += 1;
        }
        assert(all.subrange(0, attributes.len() as int) =~= all);
        Ok(known)
    }
}

/// Once reading has failed, more attributes do not change the failure.
pub proof fn lemma_failure_stays(attributes: Seq<Seq<Tree>>, n: int, item: usize)
    requires
        0 <= n <= attributes.len(),
        item_attributes(attributes.subrange(0, n), item) is Err,
    ensures
        item_attributes(attributes, item) == item_attributes(attributes.subrange(0, n), item),
    decreases attributes.len() - n,
{
    if n < attributes.len() {
        assert(attributes.subrange(0, n + 1).drop_last() =~= attributes.subrange(0, n));
        lemma_failure_stays(attributes, n + 1, item);
    } else {
        assert(attributes.subrange(0, n) =~= attributes);
    }
}

/// Holds of the attributes that stay on the item: those that are neither
/// `include_impl` nor `pointer_impl(..)`.
pub open spec fn stays() -> spec_fn(Seq<Tree>) -> bool {
    |attribute: Seq<Tree>| !is_forcing(attribute) && tool_arguments(attribute) is None
}

/// Where reading succeeds, the attributes that are kept are those that stay,
/// in their order, and the item is forced just where one of its attributes
/// is `include_impl`.
pub proof fn lemma_item_attributes(attributes: Seq<Seq<Tree>>, item: usize)
    requires
        item_attributes(attributes, item) is Ok,
    ensures
        item_attributes(attributes, item)->Ok_0.kept == attributes.filter(stays()),
        item_attributes(attributes, item)->Ok_0.forced == exists|i: int|
            0 <= i < attributes.len() && is_forcing(#[trigger] attributes[i]),
    decreases attributes.len(),
{
    reveal(Seq::filter);
    if attributes.len() > 0 {
        let before = attributes.drop_last();
        lemma_item_attributes(before, item);
        let known = item_attributes(before, item)->Ok_0;
        if known.forced {
            let i = choose|i: int| 0 <= i < before.len() && is_forcing(#[trigger] before[i]);
            assert(is_forcing(attributes[i]));
        }
        if is_forcing(attributes.last()) {
            assert(is_forcing(attributes[attributes.len() - 1]));
        }
        if exists|i: int| 0 <= i < attributes.len() && is_forcing(#[trigger] attributes[i]) {
            let i = choose|i: int| 0 <= i < attributes.len() && is_forcing(#[trigger] attributes[i]);
            if i < before.len() {
                assert(is_forcing(before[i]));
            }
        }
    }
}

} // verus!
