//! Placeholder interpolation: `${command:path}` expressions in text are
//! resolved against pluggable commands and replaced by what they yield.

pub mod cache;
pub mod commands;
pub mod jakarta;
pub mod matcher;
pub mod passes;
pub mod slots;
pub mod text;

pub use crate::commands::{CommandMap, EnvCommand, JakartaCommand, ShCommand};
pub use crate::jakarta::{Interpolation, Jakarta, JakartaError};
