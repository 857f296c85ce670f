//! What can go wrong while a trait is expanded.

use vstd::prelude::*;
use vstd::string::*;
use crate::token::{write_out, written, Token, Tree};

verus! {

/// The two kinds of failure.
#[derive(Clone, Copy, Debug, PartialEq, Eq, Structural)]
pub enum ErrorKind {
    /// The arguments of the attribute, or an attribute of an item, are not
    /// written as they must be.
    Syntax,
    /// The trait uses what cannot be forwarded.
    Unsupported,
}

/// A failure, and where it was found. For the first seven the place is the
/// index of a token among the arguments of the attribute; for the others it
/// is the index of an item of the trait.
#[derive(Debug, PartialEq, Eq)]
pub enum Error {
    /// A directive begins with something other than `impl`, `unimpl` or `T`.
    ExpectedDirective(usize),
    /// Something other than a comma follows a directive.
    ExpectedComma(usize),
    /// No `=` follows `T`.
    ExpectedEquals(usize),
    /// What follows `T =` is no identifier.
    ExpectedIdentifier(usize),
    /// No type stands where a directive needs one.
    ExpectedType(usize),
    /// No expression follows the `=` of an `impl` directive.
    ExpectedExpression(usize),
    /// The generic parameters of an `impl` directive do not parse.
    MalformedGenerics(usize),
    /// A `pointer_impl` attribute does not begin with a path and a `=`.
    MalformedAttribute(usize),
    /// A `pointer_impl` attribute gives a value to something other than
    /// `generics`: the path that it names, as it is written.
    UnknownAttribute(usize, Vec<Token>),
    /// The value of `generics` is no list of generic arguments.
    MalformedArguments(usize),
    /// An associated constant has generic parameters of its own.
    GenericConstant(usize),
}

/// The value of an [`Error`].
pub ghost enum ErrorModel {
    ExpectedDirective(usize),
    ExpectedComma(usize),
    ExpectedEquals(usize),
    ExpectedIdentifier(usize),
    ExpectedType(usize),
    ExpectedExpression(usize),
    MalformedGenerics(usize),
    MalformedAttribute(usize),
    UnknownAttribute(usize, Seq<Tree>),
    MalformedArguments(usize),
    GenericConstant(usize),
}

impl DeepView for Error {
    type V = ErrorModel;

    open spec fn deep_view(&self) -> ErrorModel {
        match self {
            Error::ExpectedDirective(at) => ErrorModel::ExpectedDirective(*at),
            Error::ExpectedComma(at) => ErrorModel::ExpectedComma(*at),
            Error::ExpectedEquals(at) => ErrorModel::ExpectedEquals(*at),
            Error::ExpectedIdentifier(at) => ErrorModel::ExpectedIdentifier(*at),
            Error::ExpectedType(at) => ErrorModel::ExpectedType(*at),
            Error::ExpectedExpression(at) => ErrorModel::ExpectedExpression(*at),
            Error::MalformedGenerics(at) => ErrorModel::MalformedGenerics(*at),
            Error::MalformedAttribute(at) => ErrorModel::MalformedAttribute(*at),
            Error::UnknownAttribute(at, path) => ErrorModel::UnknownAttribute(
                *at,
                path.deep_view(),
            ),
            Error::MalformedArguments(at) => ErrorModel::MalformedArguments(*at),
            Error::GenericConstant(at) => ErrorModel::GenericConstant(*at),
        }
    }
}

impl ErrorModel {
    /// The kind of a failure: only a constant with generic parameters is
    /// unsupported, all else is syntax.
    pub open spec fn kind(self) -> ErrorKind {
        match self {
            ErrorModel::GenericConstant(_) => ErrorKind::Unsupported,
            _ => ErrorKind::Syntax,
        }
    }

    /// The place of a failure.
    pub open spec fn place(self) -> usize {
        match self {
            ErrorModel::ExpectedDirective(at) => at,
            ErrorModel::ExpectedComma(at) => at,
            ErrorModel::ExpectedEquals(at) => at,
            ErrorModel::ExpectedIdentifier(at) => at,
            ErrorModel::ExpectedType(at) => at,
            ErrorModel::ExpectedExpression(at) => at,
            ErrorModel::MalformedGenerics(at) => at,
            ErrorModel::MalformedAttribute(at) => at,
            ErrorModel::UnknownAttribute(at, _) => at,
            ErrorModel::MalformedArguments(at) => at,
            ErrorModel::GenericConstant(at) => at,
        }
    }

    /// The words that tell a user of a failure. An unknown attribute is
    /// told with the path that it names, written with one gap between every
    /// two tokens.
    pub open spec fn message(self) -> Seq<char> {
        match self {
            ErrorModel::ExpectedDirective(_) => "Expected either 'impl' or 'unimpl'"@,
            ErrorModel::ExpectedComma(_) => "Expected ','"@,
            ErrorModel::ExpectedEquals(_) => "Expected '='"@,
            ErrorModel::ExpectedIdentifier(_) => "Expected an identifier"@,
            ErrorModel::ExpectedType(_) => "Expected a type"@,
            ErrorModel::ExpectedExpression(_) => "Expected an expression"@,
            ErrorModel::MalformedGenerics(_) => "Expected generic parameters"@,
            ErrorModel::MalformedAttribute(_) => "Expected a path and '='"@,
            ErrorModel::UnknownAttribute(_, path) => "Unknown pointer_impl attribute "@ + written(
                path,
            ),
            ErrorModel::MalformedArguments(_) => "Expected generic arguments"@,
            ErrorModel::GenericConstant(_) =>
                "Associated constants with generics are not supported by `#[pointer_impls]`"@,
        }
    }
}

impl Error {
    /// The kind of this failure.
    pub fn kind(&self) -> (kind: ErrorKind)
        ensures
            kind == self.deep_view().kind(),
    {
        match self {
            Error::GenericConstant(_) => ErrorKind::Unsupported,
            _ => ErrorKind::Syntax,
        }
    }

    /// The place of this failure.
    pub fn place(&self) -> (at: usize)
        ensures
            at == self.deep_view().place(),
    {
        match self {
            Error::ExpectedDirective(at) => *at,
            Error::ExpectedComma(at) => *at,
            Error::ExpectedEquals(at) => *at,
            Error::ExpectedIdentifier(at) => *at,
            Error::ExpectedType(at) => *at,
            Error::ExpectedExpression(at) => *at,
            Error::MalformedGenerics(at) => *at,
            Error::MalformedAttribute(at) => *at,
            Error::UnknownAttribute(at, _) => *at,
            Error::MalformedArguments(at) => *at,
            Error::GenericConstant(at) => *at,
        }
    }

    /// The words that tell a user of this failure.
    pub fn message(&self) -> (text: String)
        ensures
            text@ == self.deep_view().message(),
    {
        match self {
            Error::ExpectedDirective(_) => String::from_str("Expected either 'impl' or 'unimpl'"),
            Error::ExpectedComma(_) => String::from_str("Expected ','"),
            Error::ExpectedEquals(_) => String::from_str("Expected '='"),
            Error::ExpectedIdentifier(_) => String::from_str("Expected an identifier"),
            Error::ExpectedType(_) => String::from_str("Expected a type"),
            Error::ExpectedExpression(_) => String::from_str("Expected an expression"),
            Error::MalformedGenerics(_) => String::from_str("Expected generic parameters"),
            Error::MalformedAttribute(_) => String::from_str("Expected a path and '='"),
            Error::UnknownAttribute(_, path) => {
                let mut text = String::from_str("Unknown pointer_impl attribute ");
                let name = write_out(path);
                text.append(name.as_str());
                text
            },
            Error::MalformedArguments(_) => String::from_str("Expected generic arguments"),
            Error::GenericConstant(_) => String::from_str(
                "Associated constants with generics are not supported by `#[pointer_impls]`",
            ),
        }
    }
}

} // verus!
