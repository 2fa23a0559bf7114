//! Reconstruction of types, functions and namespaces from DWARF debugging
//! information, together with the register identities that lifted code
//! refers to.

pub mod attrs;
pub mod builder;
pub mod cursor;
pub mod die;
pub mod error;
pub mod llil;
pub mod names;
pub mod namespace;
pub mod resolver;
pub mod text;
pub mod types;
pub mod walker;
