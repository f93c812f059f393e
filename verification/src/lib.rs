//! Compiler for REAPER theme descriptors: a directive-driven text language
//! with embedded script expressions, compiled into expanded descriptor text,
//! a merged configuration table and a manifest of resource files to package.

pub mod color;
pub mod parser;
pub mod preprocess;
pub mod table;
pub mod theme;
pub mod trusted;
pub mod textutil;
