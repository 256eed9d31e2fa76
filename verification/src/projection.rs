//! Generic, root-coordinate semantic projection algebra.
//!
//! This module deliberately stops before terminal streaming, layout, and
//! presentation. It is suitable for text, records, logs, or event streams.

pub mod compose;
pub mod projector;
pub mod validate;
pub mod value;

pub use compose::{Then, ThenError};
pub use projector::{Projector, ProjectorExt};
pub use validate::{
    ProjectionRelationError, ProjectionTransitionError, ProjectionValidationError,
    validate_projection_relation, validate_projection_transition,
};
pub use value::{Projection, ProjectionBuilder, ProjectionSpan};
