//! An interpreter for the Trash programming language.
pub mod text;
pub mod syntax;
pub mod tables;
pub mod check;
pub mod error;
pub mod value;
pub mod vars;
pub mod world;
pub mod methods;
pub mod semantics;
pub mod interp;
pub mod stdlib;
pub mod laws;
