//! Traits the abstraction layer's objects implement.
use vstd::prelude::*;

verus! {

/// An object that can carry a debug name.
pub trait Nameable {
    /// Set the debug name of the object.
    fn set_name<T: Into<String>>(&self, name: T);
}

/// A pipeline, built from its builder type.
pub trait Pipeline: Sized {
    type PipelineBuilderType;

    fn from_builder(builder: Self::PipelineBuilderType) -> Self;
}

/// A builder of pipelines.
pub trait PipelineBuilder {}

} // verus!
