//! The settings of one expansion: the name of the generic parameter that
//! stands for the wrapped type, and the wrapper types to implement for.
//!
//! The wrapper types are a list without repetition: no two descriptors have
//! the same template. Their order is that of the catalog, then that in
//! which `impl` directives last named them.

use vstd::prelude::*;
use vstd::string::*;
use crate::catalog::{default_catalog, default_types, distinct, push_type, same_template};
use crate::lists::{lemma_filter_places, lemma_filter_push};
use crate::model::{copy_type_to_impl, TypeToImpl, TypeToImplModel};
use crate::token::{same_plain_tokens, Token, Tree};

verus! {

/// The settings of one expansion.
#[derive(Debug, PartialEq, Eq)]
pub struct Attributes {
    /// The name of the generic parameter that stands for the wrapped type.
    pub generic: String,
    /// The wrapper types to implement the trait for.
    pub types: Vec<TypeToImpl>,
}

/// The value of [`Attributes`].
pub ghost struct AttributesModel {
    pub generic: Seq<char>,
    pub types: Seq<TypeToImplModel>,
}

impl DeepView for Attributes {
    type V = AttributesModel;

    open spec fn deep_view(&self) -> AttributesModel {
        AttributesModel { generic: self.generic@, types: self.types.deep_view() }
    }
}

/// One directive of the arguments.
#[derive(Debug, PartialEq, Eq)]
pub enum Directive {
    /// `T = Name`: the generic parameter is called `Name`.
    Rename(String),
    /// `impl ..`: implement for this wrapper type as well.
    Add(TypeToImpl),
    /// `unimpl Type`: do not implement for the wrapper type with this template.
    Remove(Vec<Token>),
    /// `unimpl *`: implement for no wrapper type named so far.
    Clear,
}

/// The value of a [`Directive`].
pub ghost enum DirectiveModel {
    Rename(Seq<char>),
    Add(TypeToImplModel),
    Remove(Seq<Tree>),
    Clear,
}

impl DeepView for Directive {
    type V = DirectiveModel;

    open spec fn deep_view(&self) -> DirectiveModel {
        match self {
            Directive::Rename(name) => DirectiveModel::Rename(name@),
            Directive::Add(descriptor) => DirectiveModel::Add(descriptor.deep_view()),
            Directive::Remove(ty) => DirectiveModel::Remove(ty.deep_view()),
            Directive::Clear => DirectiveModel::Clear,
        }
    }
}

/// The settings before any directive: the parameter is `T`, the wrapper
/// types are the catalog's.
pub open spec fn default_attributes(parking_lot: bool) -> AttributesModel {
    AttributesModel { generic: "T"@, types: default_catalog(parking_lot) }
}

/// Holds of the descriptors whose template is not `ty`.
pub open spec fn other_than(ty: Seq<Tree>) -> spec_fn(TypeToImplModel) -> bool {
    |descriptor: TypeToImplModel| !same_template(descriptor.ty, ty)
}

/// The settings after one directive.
///
/// `impl` puts its descriptor at the end of the list, in place of the one
/// with the same template if there is one.
pub open spec fn apply(settings: AttributesModel, directive: DirectiveModel) -> AttributesModel {
    match directive {
        DirectiveModel::Rename(name) => AttributesModel { generic: name, ..settings },
        DirectiveModel::Add(descriptor) => AttributesModel {
            types: settings.types.filter(other_than(descriptor.ty)).push(descriptor),
            ..settings
        },
        DirectiveModel::Remove(ty) => AttributesModel {
            types: settings.types.filter(other_than(ty)),
            ..settings
        },
        DirectiveModel::Clear => AttributesModel { types: Seq::empty(), ..settings },
    }
}

/// The settings after a sequence of directives, applied from left to right.
pub open spec fn apply_all(settings: AttributesModel, directives: Seq<DirectiveModel>)
    -> AttributesModel
    decreases directives.len(),
{
    if directives.len() == 0 {
        settings
    } else {
        apply(apply_all(settings, directives.drop_last()), directives.last())
    }
}

/// A list without repetition stays one under every directive.
pub proof fn lemma_apply_distinct(settings: AttributesModel, directive: DirectiveModel)
    requires
        distinct(settings.types),
    ensures
        distinct(apply(settings, directive).types),
{
    match directive {
        DirectiveModel::Add(descriptor) => {
            let keep = other_than(descriptor.ty);
            let kept = settings.types.filter(keep);
            let places = lemma_filter_places(settings.types, keep);
            let out = kept.push(descriptor);
            assert forall|i: int, j: int|
                0 <= i < out.len() && 0 <= j < out.len() && i != j implies !same_template(
                (#[trigger] out[i]).ty,
                (#[trigger] out[j]).ty,
            ) by {
                if i < kept.len() && j < kept.len() {
                    assert(settings.types[places[i]] == kept[i]);
                    assert(settings.types[places[j]] == kept[j]);
                } else if i < kept.len() {
                    assert(keep(settings.types[places[i]]));
                } else {
                    assert(keep(settings.types[places[j]]));
                }
            }
        },
        DirectiveModel::Remove(ty) => {
            let keep = other_than(ty);
            let kept = settings.types.filter(keep);
            let places = lemma_filter_places(settings.types, keep);
            assert forall|i: int, j: int|
                0 <= i < kept.len() && 0 <= j < kept.len() && i != j implies !same_template(
                (#[trigger] kept[i]).ty,
                (#[trigger] kept[j]).ty,
            ) by {
                assert(settings.types[places[i]] == kept[i]);
                assert(settings.types[places[j]] == kept[j]);
            }
        },
        _ => {},
    }
}

/// A list without repetition stays one under every sequence of directives.
pub proof fn lemma_apply_all_distinct(settings: AttributesModel, directives: Seq<DirectiveModel>)
    requires
        distinct(settings.types),
    ensures
        distinct(apply_all(settings, directives).types),
    decreases directives.len(),
{
    if directives.len() > 0 {
        lemma_apply_all_distinct(settings, directives.drop_last());
        lemma_apply_distinct(apply_all(settings, directives.drop_last()), directives.last());
    }
}

/// The descriptors whose template is not `ty`, in their order.
pub fn without(types: &Vec<TypeToImpl>, ty: &Vec<Token>) -> (kept: Vec<TypeToImpl>)
    ensures
        kept.deep_view() == types.deep_view().filter(other_than(ty.deep_view())),
{
    let ghost keep = other_than(ty.deep_view());
    let mut kept: Vec<TypeToImpl> = Vec::new();
    let mut i: usize = 0;
    proof {
        reveal(Seq::filter);
        assert(types.deep_view().subrange(0, 0) =~= Seq::<TypeToImplModel>::empty());
        assert(kept.deep_view() =~= Seq::<TypeToImplModel>::empty());
    }
    while i < types.len()
        invariant
            i <= types.len(),
            keep == other_than(ty.deep_view()),
            kept.deep_view() == types.deep_view().subrange(0, i as int).filter(keep),
        decreases types.len() - i,
    {
        proof {
            lemma_filter_push(
                types.deep_view().subrange(0, i as int),
                types[i as int].deep_view(),
                keep,
            );
            assert(types.deep_view().subrange(0, i + 1) =~= types.deep_view().subrange(
                0,
                i as int,
            ).push(types[i as int].deep_view()));
        }
        if !same_plain_tokens(&types[i].ty, ty) {
            push_type(&mut kept, copy_type_to_impl(&types[i]));
        }
        i += 1;
    }
    assert(types.deep_view().subrange(0, types.len() as int) =~= types.deep_view());
    kept
}

impl Default for Attributes {
    /// The settings before any directive, without the guards of
    /// `parking_lot`.
    fn default() -> (settings: Attributes)
        ensures
            settings.deep_view() == default_attributes(false),
    {
        Attributes::new(false)
    }
}

impl Attributes {
    /// The settings before any directive.
    pub fn new(parking_lot: bool) -> (settings: Attributes)
        ensures
            settings.deep_view() == default_attributes(parking_lot),
            distinct(settings.deep_view().types),
    {
        Attributes { generic: String::from_str("T"), types: default_types(parking_lot) }
    }

    /// Applies one directive.
    pub fn apply(&mut self, directive: Directive)
        ensures
            final(self).deep_view() == apply(old(self).deep_view(), directive.deep_view()),
            distinct(old(self).deep_view().types) ==> distinct(final(self).deep_view().types),
    {
        proof {
            if distinct(self.deep_view().types) {
                lemma_apply_distinct(self.deep_view(), directive.deep_view());
            }
        }
        match directive {
            Directive::Rename(name) => {
                self.generic = name;
            },
            Directive::Add(descriptor) => {
                let mut kept = without(&self.types, &descriptor.ty);
                push_type(&mut kept, descriptor);
                self.types = kept;
            },
            Directive::Remove(ty) => {
                self.types = without(&self.types, &ty);
            },
            Directive::Clear => {
                self.types = Vec::new();
                assert(self.types.deep_view() =~= Seq::<TypeToImplModel>::empty());
            },
        }
    }

    /// Applies a sequence of directives, from left to right.
    pub fn apply_all(&mut self, directives: Vec<Directive>)
        ensures
            final(self).deep_view() == apply_all(old(self).deep_view(), directives.deep_view()),
            distinct(old(self).deep_view().types) ==> distinct(final(self).deep_view().types),
    {
        let ghost all = directives.deep_view();
        let ghost start = self.deep_view();
        let mut rest = directives;
        let mut done: usize = 0;
        assert(all.len() == rest.len());
        assert(all.subrange(0, 0) =~= Seq::<DirectiveModel>::empty());
        while rest.len() > 0
            invariant
                done + rest.len() == all.len() <= usize::MAX,
                forall|k: int| 0 <= k < rest.len() ==> rest[k].deep_view() == all[done + k],
                self.deep_view() == apply_all(start, all.subrange(0, done as int)),
                distinct(start.types) ==> distinct(self.deep_view().types),
            decreases rest.len(),
        {
            let directive = rest.remove(0);
            proof {
                assert(directive.deep_view() == all[done as int]);
                assert(all.subrange(0, done + 1).drop_last() =~= all.subrange(0, done as int));
            }
            self.apply(directive);
            done += 1;
        }
        assert(all.subrange(0, all.len() as int) =~= all);
    }
}

} // verus!
