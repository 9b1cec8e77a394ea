//! Reading freedesktop desktop entry files: the line grammar, typed fields,
//! and the `Exec` command interpreter.

pub mod text;
pub mod codec;
pub mod entries;
pub mod model;
pub mod execute;
pub mod parser;
pub mod reparse;
