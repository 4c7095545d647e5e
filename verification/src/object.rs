//! Tagged values and the objects they refer to.
pub mod boxed;
pub mod cons;
pub mod func;
pub mod tagged;
pub mod vector;
