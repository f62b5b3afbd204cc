//! The ways in which building a schema or running a validation can fail.
use vstd::prelude::*;

verus! {

/// Why a schema could not be built, or why a validation run was given up.
#[derive(Debug, PartialEq, Eq)]
pub enum JddfError {
    /// More than one form keyword, an unknown type name, an enum that is
    /// empty or repeats a value, a key that occurs twice in one map, or a
    /// discriminator branch that is not of the properties form.
    InvalidForm,
    /// A property is both required and optional, or a discriminator branch
    /// declares the tag itself.
    AmbiguousProperty { property: String },
    /// A reference names a definition that the root does not have.
    NoSuchDefinition { definition: String },
    /// A schema below the root carries a definitions table.
    NonRootDefinitions,
    /// References were followed deeper than the configured limit.
    MaxDepthExceeded,
}

/// The mathematical value of a [`JddfError`].
pub enum ErrorView {
    InvalidForm,
    AmbiguousProperty { property: Seq<char> },
    NoSuchDefinition { definition: Seq<char> },
    NonRootDefinitions,
    MaxDepthExceeded,
}

impl Clone for JddfError {
    fn clone(&self) -> (copy: JddfError)
        ensures
            copy@ == self@,
    {
        match self {
            JddfError::InvalidForm => JddfError::InvalidForm,
            JddfError::AmbiguousProperty { property } => JddfError::AmbiguousProperty {
                property: property.clone(),
            },
            JddfError::NoSuchDefinition { definition } => JddfError::NoSuchDefinition {
                definition: definition.clone(),
            },
            JddfError::NonRootDefinitions => JddfError::NonRootDefinitions,
            JddfError::MaxDepthExceeded => JddfError::MaxDepthExceeded,
        }
    }
}

impl JddfError {
    pub open spec fn view(&self) -> ErrorView {
        match *self {
            JddfError::InvalidForm => ErrorView::InvalidForm,
            JddfError::AmbiguousProperty { property } => ErrorView::AmbiguousProperty {
                property: property@,
            },
            JddfError::NoSuchDefinition { definition } => ErrorView::NoSuchDefinition {
                definition: definition@,
            },
            JddfError::NonRootDefinitions => ErrorView::NonRootDefinitions,
            JddfError::MaxDepthExceeded => ErrorView::MaxDepthExceeded,
        }
    }
}

} // verus!
