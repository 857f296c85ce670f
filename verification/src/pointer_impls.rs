//! The expansion of `#[pointer_impls(..)]` on a trait.

use vstd::prelude::*;
use crate::config::Attributes;
use crate::error::{Error, ErrorModel};
use crate::generator::{expansion, Generator};
use crate::grammar::settings;
use crate::impls_to_do::{analysis, ImplsToDo};
use crate::mask::mask_limit;
use crate::model::{ItemTrait, ItemTraitModel};
use crate::token::{Token, Tree};

verus! {

/// What the attribute expands to: the declaration of the trait and its
/// implementations for the wrapper types, or the first failure. The
/// arguments of the attribute are read before the trait is looked at.
pub open spec fn expanded(attr: Seq<Tree>, item: ItemTraitModel, parking_lot: bool) -> Result<
    Seq<Tree>,
    ErrorModel,
> {
    match settings(attr, parking_lot) {
        Err(e) => Err(e),
        Ok(attrs) => match analysis(item) {
            Err(e) => Err(e),
            Ok(todo) => Ok(expansion(attrs, todo)),
        },
    }
}

/// Expands the attribute: `attr` holds its arguments, `item` the trait that
/// it stands on. With `parking_lot` set, the guards of that library are
/// among the wrapper types that the trait is implemented for by default.
///
/// Either all is written or nothing is: on a failure there is no output.
pub fn pointer_impls(attr: &Vec<Token>, item: ItemTrait, parking_lot: bool) -> (out: Result<
    Vec<Token>,
    Error,
>)
    requires
        item.items.len() <= mask_limit(),
    ensures
        match (out, expanded(attr.deep_view(), item.deep_view(), parking_lot)) {
            (Ok(tokens), Ok(trees)) => tokens.deep_view() == trees,
            (Err(e), Err(f)) => e.deep_view() == f,
            _ => false,
        },
{
    let attrs = match Attributes::parse(attr, parking_lot) {
        Ok(attrs) => attrs,
        Err(e) => {
            return Err(e);
        },
    };
    let todo = match ImplsToDo::parse(item) {
        Ok(todo) => todo,
        Err(e) => {
            return Err(e);
        },
    };
    let generator = Generator { attrs, todo };
    Ok(generator.to_tokens())
}

} // verus!
