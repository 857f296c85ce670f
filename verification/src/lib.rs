//! Forwarding implementations of a trait for the pointer-like types that wrap
//! an implementor.
//!
//! Generic code that asks for a `T: Foo` takes a `Foo`, but not a `&Foo` or a
//! `Box<Foo>`, unless `Foo` is implemented for those too. For a trait, and a
//! list of wrapper types, this crate writes those implementations: each item
//! of each implementation hands on to the implementation of the wrapped type.
//!
//! The way through the crate:
//!
//! - [`token`] holds syntax as token trees, and [`syntax`] asks `syn` what a
//!   run of tokens is;
//! - [`catalog`] lists the wrapper types that are implemented for by
//!   default, [`grammar`] reads the arguments of the attribute, and
//!   [`config`] holds the settings that result;
//! - [`model`] describes a trait, [`item_attrs`] reads the attributes of its
//!   items, and [`impls_to_do`] finds which items are forwarded, with
//!   [`mask`] for the bits;
//! - [`resolve`] puts the wrapped type where a stand-in is written, and
//!   [`inject`] makes the generic parameters of an implementation;
//! - [`generator`] writes the implementations, and [`pointer_impls`] is the
//!   whole expansion;
//! - [`laws`] and [`renaming`] prove what holds of every expansion.

pub mod catalog;
pub mod config;
pub mod error;
pub mod generator;
pub mod grammar;
pub mod impls_to_do;
pub mod inject;
pub mod item_attrs;
pub mod laws;
pub mod lists;
pub mod mask;
pub mod model;
pub mod pointer_impls;
pub mod renaming;
pub mod resolve;
pub mod syntax;
pub mod token;
