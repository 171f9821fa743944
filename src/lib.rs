//! Index over a module-info document: list module names and decode one
//! module's record on demand; and locate a module's rule block in a
//! build-definition document.
pub mod text;
pub mod blueprint;
pub mod error;
pub mod json;
pub mod laws;
pub mod modinfo;
pub mod record;
