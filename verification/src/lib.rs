//! A declarative object-factory engine for building test fixture values with
//! layered default, mixin and override semantics.
//!
//! A factory is declared for a target type as a token source: one `default`
//! block of baseline field values, at most one `transient` block of
//! construction-only inputs, at most one opaque `transform` step, and any
//! number of named `mixin` blocks of partial overrides. Declarations are
//! parsed, validated and compiled once into immutable artifacts held in a
//! [`registry::Registry`]. Each instantiation then composes the defaults,
//! the requested mixins in order, and the explicit overrides into one fresh
//! record, and runs the transform step — the identity when none was
//! declared.
//!
//! Every value expression is an opaque payload the engine carries but never
//! interprets, and the transform body is the host's own code, supplied
//! through the [`Builder`] hook.

use vstd::prelude::*;

pub mod compile;
pub mod compose;
pub mod definition;
pub mod laws;
pub mod parser;
pub mod registry;
pub mod shape;
pub mod token;
pub mod value;

verus! {

/// The transform step hook: turns one merged intermediate shape into the
/// final instance. The engine consults it only for definitions that declare a
/// transform step; its body is the host's own opaque code, so nothing is
/// promised of its result — the engine itself keeps transient fields off the
/// final instance whatever it returns.
pub trait Builder {
    fn build(&self, shape: crate::shape::Shape) -> crate::shape::Shape;
}

/// The identity transform, for requests on definitions without a transform
/// step, where the engine never consults the builder.
pub struct IdentityTransform;

impl Builder for IdentityTransform {
    fn build(&self, shape: crate::shape::Shape) -> crate::shape::Shape {
        shape
    }
}

/// The default-constructor interface: a producer of one fresh intermediate
/// shape with every field holding its default value.
pub trait Default {
    fn default(&self) -> crate::shape::Shape;
}

impl Default for crate::compile::CompiledFactory {
    fn default(&self) -> crate::shape::Shape {
        self.default_shape()
    }
}

/// The mixin application interface: one named partial update, applied as a
/// non-destructive copy with overrides.
pub trait Mixin {
    fn extend(&self, other: crate::shape::Shape) -> crate::shape::Shape;
}

impl Mixin for crate::definition::MixinDef {
    fn extend(&self, other: crate::shape::Shape) -> crate::shape::Shape {
        self.apply(other)
    }
}

} // verus!
