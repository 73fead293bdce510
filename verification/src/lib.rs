//! Inline document variables: declarations embedded in a text, `{{name}}`
//! placeholders resolved against document-local and store-wide bindings, and
//! the store that holds the shared bindings.

pub mod digest;
pub mod expand;
pub mod extract;
pub mod files;
pub mod laws;
pub mod store;
pub mod text;
pub mod variable;

pub use digest::FileHashInfo;
pub use store::{ParseError, VariableProcessor};
pub use variable::{Variable, VariableSet};
