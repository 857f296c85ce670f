//! The data that the generator works on: generic parameters, wrapper
//! descriptors, and the declaration of a trait with its items.
//!
//! Every type here is plain data with public fields. Beside each stands the
//! mathematical value that contracts speak of, reached by `deep_view`.

use vstd::prelude::*;
use crate::token::{copy_tokens, Token, Tree};

verus! {

/// What a generic parameter stands for.
#[derive(Clone, Copy, Debug, PartialEq, Eq, Structural)]
pub enum ParamKind {
    Lifetime,
    Type,
    Const,
}

/// One generic parameter.
#[derive(Debug, PartialEq, Eq)]
pub struct GenericParam {
    pub kind: ParamKind,
    /// The parameter as the header of an implementation declares it: with
    /// its bounds, without a default.
    pub declaration: Vec<Token>,
    /// The parameter as an argument list names it: `'a`, `T` or `N`.
    pub name: Vec<Token>,
}

/// The value of a [`GenericParam`].
pub ghost struct GenericParamModel {
    pub kind: ParamKind,
    pub declaration: Seq<Tree>,
    pub name: Seq<Tree>,
}

impl DeepView for GenericParam {
    type V = GenericParamModel;

    open spec fn deep_view(&self) -> GenericParamModel {
        GenericParamModel {
            kind: self.kind,
            declaration: self.declaration.deep_view(),
            name: self.name.deep_view(),
        }
    }
}

/// A wrapper type to implement the trait for.
#[derive(Debug, PartialEq, Eq)]
pub struct TypeToImpl {
    /// The type, with the wildcard `_` where the wrapped type goes. Two
    /// descriptors with the same template are the same descriptor.
    pub ty: Vec<Token>,
    /// Whether the wrapper can hand out exclusive access to what it wraps.
    pub mutable: bool,
    /// The generic parameters that the template itself needs.
    pub generics: Vec<GenericParam>,
    /// The expression that reaches the wrapped value from `self`; without
    /// one, `self` itself is passed on and coerces.
    pub closure: Option<Vec<Token>>,
}

/// The value of a [`TypeToImpl`].
pub ghost struct TypeToImplModel {
    pub ty: Seq<Tree>,
    pub mutable: bool,
    pub generics: Seq<GenericParamModel>,
    pub closure: Option<Seq<Tree>>,
}

impl DeepView for TypeToImpl {
    type V = TypeToImplModel;

    open spec fn deep_view(&self) -> TypeToImplModel {
        TypeToImplModel {
            ty: self.ty.deep_view(),
            mutable: self.mutable,
            generics: self.generics.deep_view(),
            closure: self.closure.deep_view(),
        }
    }
}

/// The `self` parameter of a method, as it is written.
#[derive(Clone, Copy, Debug, PartialEq, Eq, Structural)]
pub struct Receiver {
    /// Whether `&` is written before it: `&self`, `&mut self`.
    pub reference: bool,
    /// Whether `mut` is written before it: `&mut self`, `mut self`.
    pub mutable: bool,
}

/// A method of a trait.
#[derive(Debug, PartialEq, Eq)]
pub struct Method {
    /// The attributes, each without its `#[` and `]`.
    pub attributes: Vec<Vec<Token>>,
    /// The item as written, without its attributes.
    pub source: Vec<Token>,
    /// The signature: all of the item before its body or semicolon.
    pub signature: Vec<Token>,
    pub name: String,
    /// The method's own generic parameters.
    pub generics: Vec<GenericParam>,
    /// The `self` parameter, if the method has one.
    pub receiver: Option<Receiver>,
    /// The patterns of the parameters that follow the receiver.
    pub arguments: Vec<Vec<Token>>,
    /// Whether the trait gives the method a body.
    pub has_default: bool,
}

/// The value of a [`Method`].
pub ghost struct MethodModel {
    pub attributes: Seq<Seq<Tree>>,
    pub source: Seq<Tree>,
    pub signature: Seq<Tree>,
    pub name: Seq<char>,
    pub generics: Seq<GenericParamModel>,
    pub receiver: Option<Receiver>,
    pub arguments: Seq<Seq<Tree>>,
    pub has_default: bool,
}

impl DeepView for Method {
    type V = MethodModel;

    open spec fn deep_view(&self) -> MethodModel {
        MethodModel {
            attributes: self.attributes.deep_view(),
            source: self.source.deep_view(),
            signature: self.signature.deep_view(),
            name: self.name@,
            generics: self.generics.deep_view(),
            receiver: self.receiver,
            arguments: self.arguments.deep_view(),
            has_default: self.has_default,
        }
    }
}

/// An associated type of a trait.
#[derive(Debug, PartialEq, Eq)]
pub struct AssociatedType {
    /// The attributes, each without its `#[` and `]`.
    pub attributes: Vec<Vec<Token>>,
    /// The item as written, without its attributes.
    pub source: Vec<Token>,
    pub name: String,
    /// The type's own generic parameters.
    pub generics: Vec<GenericParam>,
    /// The bounds behind the colon.
    pub bounds: Vec<Token>,
    /// The type's own `where` clause, with the keyword; empty without one.
    pub where_clause: Vec<Token>,
    /// Whether the trait gives the type a default.
    pub has_default: bool,
}

/// The value of an [`AssociatedType`].
pub ghost struct AssociatedTypeModel {
    pub attributes: Seq<Seq<Tree>>,
    pub source: Seq<Tree>,
    pub name: Seq<char>,
    pub generics: Seq<GenericParamModel>,
    pub bounds: Seq<Tree>,
    pub where_clause: Seq<Tree>,
    pub has_default: bool,
}

impl DeepView for AssociatedType {
    type V = AssociatedTypeModel;

    open spec fn deep_view(&self) -> AssociatedTypeModel {
        AssociatedTypeModel {
            attributes: self.attributes.deep_view(),
            source: self.source.deep_view(),
            name: self.name@,
            generics: self.generics.deep_view(),
            bounds: self.bounds.deep_view(),
            where_clause: self.where_clause.deep_view(),
            has_default: self.has_default,
        }
    }
}

/// An associated constant of a trait.
#[derive(Debug, PartialEq, Eq)]
pub struct AssociatedConst {
    /// The attributes, each without its `#[` and `]`.
    pub attributes: Vec<Vec<Token>>,
    /// The item as written, without its attributes.
    pub source: Vec<Token>,
    pub name: String,
    /// The constant's own generic parameters. None is supported.
    pub generics: Vec<GenericParam>,
    pub ty: Vec<Token>,
    /// The value that the trait gives the constant, if it gives one.
    pub default: Option<Vec<Token>>,
}

/// The value of an [`AssociatedConst`].
pub ghost struct AssociatedConstModel {
    pub attributes: Seq<Seq<Tree>>,
    pub source: Seq<Tree>,
    pub name: Seq<char>,
    pub generics: Seq<GenericParamModel>,
    pub ty: Seq<Tree>,
    pub default: Option<Seq<Tree>>,
}

impl DeepView for AssociatedConst {
    type V = AssociatedConstModel;

    open spec fn deep_view(&self) -> AssociatedConstModel {
        AssociatedConstModel {
            attributes: self.attributes.deep_view(),
            source: self.source.deep_view(),
            name: self.name@,
            generics: self.generics.deep_view(),
            ty: self.ty.deep_view(),
            default: self.default.deep_view(),
        }
    }
}

/// One item of a trait.
#[derive(Debug, PartialEq, Eq)]
pub enum Item {
    Method(Method),
    Type(AssociatedType),
    Const(AssociatedConst),
    /// Anything else, as written. It is declared again and never forwarded.
    Other(Vec<Token>),
}

/// The value of an [`Item`].
pub ghost enum ItemModel {
    Method(MethodModel),
    Type(AssociatedTypeModel),
    Const(AssociatedConstModel),
    Other(Seq<Tree>),
}

impl DeepView for Item {
    type V = ItemModel;

    open spec fn deep_view(&self) -> ItemModel {
        match self {
            Item::Method(m) => ItemModel::Method(m.deep_view()),
            Item::Type(t) => ItemModel::Type(t.deep_view()),
            Item::Const(c) => ItemModel::Const(c.deep_view()),
            Item::Other(tokens) => ItemModel::Other(tokens.deep_view()),
        }
    }
}

/// The declaration of a trait.
#[derive(Debug, PartialEq, Eq)]
pub struct ItemTrait {
    /// All that stands before the braces, as written: attributes,
    /// visibility, name, generic parameters, supertraits, `where` clause.
    pub head: Vec<Token>,
    pub name: String,
    pub generics: Vec<GenericParam>,
    /// The `where` clause, with the keyword; empty without one.
    pub where_clause: Vec<Token>,
    /// What stands in the braces before the first item: the attributes of
    /// the trait that are written inside it.
    pub inner: Vec<Token>,
    pub items: Vec<Item>,
}

/// The value of an [`ItemTrait`].
pub ghost struct ItemTraitModel {
    pub head: Seq<Tree>,
    pub name: Seq<char>,
    pub generics: Seq<GenericParamModel>,
    pub where_clause: Seq<Tree>,
    pub inner: Seq<Tree>,
    pub items: Seq<ItemModel>,
}

impl DeepView for ItemTrait {
    type V = ItemTraitModel;

    open spec fn deep_view(&self) -> ItemTraitModel {
        ItemTraitModel {
            head: self.head.deep_view(),
            name: self.name@,
            generics: self.generics.deep_view(),
            where_clause: self.where_clause.deep_view(),
            inner: self.inner.deep_view(),
            items: self.items.deep_view(),
        }
    }
}

/// A copy of one generic parameter.
pub fn copy_param(param: &GenericParam) -> (out: GenericParam)
    ensures
        out.deep_view() == param.deep_view(),
{
    GenericParam {
        kind: param.kind,
        declaration: copy_tokens(&param.declaration),
        name: copy_tokens(&param.name),
    }
}

/// A copy of a list of generic parameters.
pub fn copy_params(params: &Vec<GenericParam>) -> (out: Vec<GenericParam>)
    ensures
        out.deep_view() == params.deep_view(),
{
    let mut out: Vec<GenericParam> = Vec::new();
    let mut i: usize = 0;
    while i < params.len()
        invariant
            i <= params.len(),
            out.len() == i,
            forall|k: int| 0 <= k < i ==> out[k].deep_view() == params[k].deep_view(),
        decreases params.len() - i,
    {
        out.push(copy_param(&params[i]));
        i += 1;
    }
    assert(out.deep_view() =~= params.deep_view());
    out
}

/// A copy of one descriptor.
pub fn copy_type_to_impl(descriptor: &TypeToImpl) -> (out: TypeToImpl)
    ensures
        out.deep_view() == descriptor.deep_view(),
{
    let closure = match &descriptor.closure {
        Some(tokens) => Some(copy_tokens(tokens)),
        None => None,
    };
    TypeToImpl {
        ty: copy_tokens(&descriptor.ty),
        mutable: descriptor.mutable,
        generics: copy_params(&descriptor.generics),
        closure,
    }
}

} // verus!
