//! What is to be done for a trait: which of its items are forwarded, what
//! their attributes say, and whether the trait needs exclusive access.

use vstd::prelude::*;
use crate::error::{Error, ErrorModel};
use crate::item_attrs::{
    item_attributes, no_attributes, ItemAttributes, ItemAttributesModel,
};
use crate::mask::{mask_limit, mask_push, mask_with_capacity, ItemMask};
use crate::model::{Item, ItemModel, ItemTrait, ItemTraitModel, Receiver};
use crate::grammar::{behind_attributes, is_mark_at, is_word_at, mark_at, skip_attributes, word_at};
use crate::token::Token;
use crate::token::Tree;

verus! {

/// What is to be done for a trait.
pub struct ImplsToDo {
    /// The declaration of the trait.
    pub def: ItemTrait,
    /// One bit for each item: whether it is forwarded.
    pub item_mask: ItemMask,
    /// For each item, what its attributes say.
    pub item_attrs: Vec<ItemAttributes>,
    /// Whether a method of the trait takes `self` exclusively.
    pub requires_mutable: bool,
}

/// The value of [`ImplsToDo`].
pub ghost struct ImplsToDoModel {
    pub def: ItemTraitModel,
    pub item_mask: Seq<bool>,
    pub item_attrs: Seq<ItemAttributesModel>,
    pub requires_mutable: bool,
}

impl DeepView for ImplsToDo {
    type V = ImplsToDoModel;

    open spec fn deep_view(&self) -> ImplsToDoModel {
        ImplsToDoModel {
            def: self.def.deep_view(),
            item_mask: self.item_mask@,
            item_attrs: self.item_attrs.deep_view(),
            requires_mutable: self.requires_mutable,
        }
    }
}

/// How a method reaches the value that it is called on.
#[derive(Clone, Copy, Debug, PartialEq, Eq, Structural)]
pub enum Access {
    /// The method has no `self`.
    Absent,
    /// `self` and `&self`.
    Shared,
    /// `&mut self` and `mut self`.
    Exclusive,
}

/// How a method with this `self` parameter reaches its value: exclusively
/// where `mut` is written, else shared.
pub open spec fn access(receiver: Option<Receiver>) -> Access {
    match receiver {
        None => Access::Absent,
        Some(this) => if this.mutable {
            Access::Exclusive
        } else {
            Access::Shared
        },
    }
}

/// Whether an item as written declares a constant with generic parameters:
/// behind its attributes stand `const`, a name and `<`.
pub open spec fn declares_generic_constant(source: Seq<Tree>) -> bool {
    let at = behind_attributes(source, 0);
    is_word_at(source, at, "const"@) && at + 1 < source.len() && source[at + 1] is Word
        && is_mark_at(source, at + 2, '<')
}

/// What the attributes of the item at `index` say, or why the item cannot
/// be handled. An associated constant with generic parameters of its own is
/// not supported, whether it is described as a constant or handed on as
/// written. Any other item of no known kind has no attributes to read.
pub open spec fn attributes_of(item: ItemModel, index: usize) -> Result<
    ItemAttributesModel,
    ErrorModel,
> {
    match item {
        ItemModel::Method(method) => item_attributes(method.attributes, index),
        ItemModel::Type(ty) => item_attributes(ty.attributes, index),
        ItemModel::Const(constant) => if constant.generics.len() > 0 {
            Err(ErrorModel::GenericConstant(index))
        } else {
            item_attributes(constant.attributes, index)
        },
        ItemModel::Other(source) => if declares_generic_constant(source) {
            Err(ErrorModel::GenericConstant(index))
        } else {
            Ok(no_attributes())
        },
    }
}

/// Whether an item is forwarded. A method is, unless it has a default body
/// and no `#[include_impl]`; associated types and constants always are; an
/// item of no known kind never is.
pub open spec fn is_included(item: ItemModel, attributes: ItemAttributesModel) -> bool {
    match item {
        ItemModel::Method(method) => !method.has_default || attributes.forced,
        ItemModel::Type(_) => true,
        ItemModel::Const(_) => true,
        ItemModel::Other(_) => false,
    }
}

/// Whether an item is a method that takes `self` exclusively.
pub open spec fn demands_exclusive(item: ItemModel) -> bool {
    item matches ItemModel::Method(method) && access(method.receiver) == Access::Exclusive
}

/// Whether the item at `i` cannot be handled.
pub open spec fn fails_at(items: Seq<ItemModel>, i: int) -> bool {
    0 <= i < items.len() && attributes_of(items[i], i as usize) is Err
}

/// Whether the item at `i` is the first that cannot be handled.
pub open spec fn fails_first_at(items: Seq<ItemModel>, i: int) -> bool {
    fails_at(items, i) && forall|j: int| 0 <= j < i ==> !fails_at(items, j)
}

/// What is to be done for a trait all of whose items can be handled.
pub open spec fn to_do(def: ItemTraitModel) -> ImplsToDoModel {
    let items = def.items;
    ImplsToDoModel {
        def,
        item_mask: Seq::new(
            items.len(),
            |i: int| is_included(items[i], attributes_of(items[i], i as usize)->Ok_0),
        ),
        item_attrs: Seq::new(items.len(), |i: int| attributes_of(items[i], i as usize)->Ok_0),
        requires_mutable: exists|i: int| 0 <= i < items.len() && demands_exclusive(#[trigger] items[i]),
    }
}

/// What is to be done for a trait, or the failure of the first of its items
/// that cannot be handled.
pub open spec fn analysis(def: ItemTraitModel) -> Result<ImplsToDoModel, ErrorModel> {
    if exists|i: int| fails_at(def.items, i) {
        let first = choose|i: int| fails_first_at(def.items, i);
        Err(attributes_of(def.items[first], first as usize)->Err_0)
    } else {
        Ok(to_do(def))
    }
}

impl ImplsToDoModel {
    /// There is one bit and one reading of attributes for each item.
    pub open spec fn well_formed(self) -> bool {
        self.item_mask.len() == self.def.items.len() && self.item_attrs.len()
            == self.def.items.len()
    }
}

/// The indices of the items of no known kind, in rising order: the items
/// that are declared again and forwarded nowhere.
pub open spec fn is_ignored_list(items: Seq<ItemModel>, list: Seq<usize>) -> bool {
    &&& forall|k: int, l: int| 0 <= k < l < list.len() ==> list[k] < list[l]
    &&& forall|k: int| 0 <= k < list.len() ==> list[k] < items.len() && items[list[k] as int] is Other
    &&& forall|i: int|
        0 <= i < items.len() && (#[trigger] items[i]) is Other ==> list.contains(i as usize)
}

/// Whether a result of looking at a trait is what is to be done for it.
pub open spec fn same_analysis(
    found: Result<ImplsToDo, Error>,
    said: Result<ImplsToDoModel, ErrorModel>,
) -> bool {
    match (found, said) {
        (Ok(todo), Ok(model)) => todo.deep_view() == model,
        (Err(e), Err(f)) => e.deep_view() == f,
        _ => false,
    }
}

/// Reads the attributes of one item.
fn read_item(item: &Item, index: usize) -> (read: Result<ItemAttributes, Error>)
    ensures
        crate::item_attrs::same_attributes(read, attributes_of(item.deep_view(), index)),
{
    match item {
        Item::Method(method) => ItemAttributes::try_from(&method.attributes, index),
        Item::Type(ty) => ItemAttributes::try_from(&ty.attributes, index),
        Item::Const(constant) => {
            if constant.generics.len() > 0 {
                Err(Error::GenericConstant(index))
            } else {
                ItemAttributes::try_from(&constant.attributes, index)
            }
        },
        Item::Other(source) => {
            if generic_constant(source) {
                return Err(Error::GenericConstant(index));
            }
            let attributes = ItemAttributes { kept: Vec::new(), forced: false, generics: None };
            assert(attributes.kept.deep_view() =~= Seq::<Seq<Tree>>::empty());
            Ok(attributes)
        },
    }
}

/// Whether an item as written declares a constant with generic parameters.
fn generic_constant(source: &Vec<Token>) -> (yes: bool)
    ensures
        yes == declares_generic_constant(source.deep_view()),
{
    let at = skip_attributes(source, 0);
    if !word_at(source, at, "const") {
        return false;
    }
    assert(at < source.deep_view().len() == source.len());
    if at + 1 >= source.len() {
        return false;
    }
    match &source[at + 1] {
        Token::Word(_) => mark_at(source, at + 2, '<'),
        _ => false,
    }
}

/// How a method with this `self` parameter reaches its value.
pub fn access_of(receiver: Option<Receiver>) -> (mode: Access)
    ensures
        mode == access(receiver),
{
    match receiver {
        None => Access::Absent,
        Some(this) => if this.mutable {
            Access::Exclusive
        } else {
            Access::Shared
        },
    }
}

/// Whether an item is forwarded.
fn included(item: &Item, attributes: &ItemAttributes) -> (yes: bool)
    ensures
        yes == is_included(item.deep_view(), attributes.deep_view()),
{
    match item {
        Item::Method(method) => !method.has_default || attributes.forced,
        Item::Type(_) => true,
        Item::Const(_) => true,
        Item::Other(_) => false,
    }
}

/// Whether an item is a method that takes `self` exclusively.
fn exclusive(item: &Item) -> (yes: bool)
    ensures
        yes == demands_exclusive(item.deep_view()),
{
    match item {
        Item::Method(method) => access_of(method.receiver) == Access::Exclusive,
        _ => false,
    }
}

impl ImplsToDo {
    /// Looks at the items of a trait, from first to last. Every method
    /// counts for `requires_mutable`, forwarded or not: a default body that
    /// is not forwarded still runs on the wrapped value.
    pub fn parse(def: ItemTrait) -> (found: Result<ImplsToDo, Error>)
        requires
            def.items.len() <= mask_limit(),
        ensures
            same_analysis(found, analysis(def.deep_view())),
            found matches Ok(todo) ==> todo.deep_view().well_formed(),
    {
        let ghost items = def.deep_view().items;
        let mut item_mask = mask_with_capacity(def.items.len());
        let mut item_attrs: Vec<ItemAttributes> = Vec::new();
        let mut requires_mutable = false;
        let mut i: usize = 0;
        while i < def.items.len()
            invariant
                i <= def.items.len() <= mask_limit(),
                items == def.deep_view().items,
                items.len() == def.items.len(),
                item_mask@.len() == i,
                item_attrs.len() == i,
                forall|j: int| 0 <= j < i ==> !fails_at(items, j),
                forall|j: int|
                    0 <= j < i ==> item_attrs[j].deep_view() == attributes_of(
                        items[j],
                        j as usize,
                    )->Ok_0,
                forall|j: int|
                    0 <= j < i ==> item_mask@[j] == is_included(
                        items[j],
                        attributes_of(items[j], j as usize)->Ok_0,
                    ),
                requires_mutable == exists|j: int|
                    0 <= j < i && demands_exclusive(#[trigger] items[j]),
            decreases def.items.len() - i,
        {
            let item = &def.items[i];
            assert(item.deep_view() == items[i as int]);
            let attributes = match read_item(item, i) {
                Ok(attributes) => attributes,
                Err(e) => {
                    proof {
                        assert(fails_first_at(items, i as int));
                        let first = choose|k: int| fails_first_at(items, k);
                        assert(first == i) by {
                            if first < i {
                                assert(!fails_at(items, first));
                            } else if first > i {
                                assert(fails_at(items, i as int));
                            }
                        }
                    }
                    return Err(e);
                },
            };
            let ghost mutable_before = requires_mutable;
            if exclusive(item) {
                requires_mutable = true;
            }
            proof {
                if requires_mutable {
                    if mutable_before {
                        let j = choose|j: int| 0 <= j < i && demands_exclusive(#[trigger] items[j]);
                        assert(0 <= j < i + 1 && demands_exclusive(items[j]));
                    } else {
                        assert(demands_exclusive(items[i as int]));
                    }
                }
            }
            mask_push(&mut item_mask, included(item, &attributes));
            item_attrs.push(attributes);
            i += 1;
        }
        let ghost model = def.deep_view();
        let todo = ImplsToDo { def, item_mask, item_attrs, requires_mutable };
        proof {
            assert(!exists|k: int| fails_at(items, k));
            assert(todo.deep_view().item_mask =~= to_do(model).item_mask);
            assert(todo.deep_view().item_attrs =~= to_do(model).item_attrs);
        }
        Ok(todo)
    }
}

/// The indices of the items that are not forwarded because their kind is not
/// known. Each is worth a warning to the user.
pub fn ignored_items(def: &ItemTrait) -> (list: Vec<usize>)
    ensures
        is_ignored_list(def.deep_view().items, list@),
{
    let ghost items = def.deep_view().items;
    let mut list: Vec<usize> = Vec::new();
    let mut i: usize = 0;
    while i < def.items.len()
        invariant
            i <= def.items.len(),
            items == def.deep_view().items,
            items.len() == def.items.len(),
            forall|k: int, l: int| 0 <= k < l < list.len() ==> list[k] < list[l],
            forall|k: int| 0 <= k < list.len() ==> list[k] < i && items[list[k] as int] is Other,
            forall|j: int| 0 <= j < i && (#[trigger] items[j]) is Other ==> list@.contains(j as usize),
        decreases def.items.len() - i,
    {
        assert(def.items[i as int].deep_view() == items[i as int]);
        match &def.items[i] {
            Item::Other(_) => {
                let ghost before = list@;
                list.push(i);
                assert forall|j: int| 0 <= j < i + 1 && (#[trigger] items[j]) is Other implies list@.contains(
                    j as usize,
                ) by {
                    if j < i {
                        let k = choose|k: int| 0 <= k < before.len() && before[k] == j as usize;
                        assert(list@[k] == j as usize);
                    } else {
                        assert(list@[list.len() - 1] == j as usize);
                    }
                }
            },
            _ => {},
        }
        i += 1;
    }
    list
}

} // verus!
