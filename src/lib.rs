//! A parser for a small Java-like surface syntax: package and import
//! declarations, top-level classes with fields, methods and annotations,
//! and file-level annotations.
pub mod ast;
pub mod grammar;
pub mod keyword;
pub mod laws;
pub mod lexical;
pub mod parser;

pub use ast::{
    AccessModifier, Annotation, Class, CompilationUnit, Field, FieldType, Import, Method, ParseError,
    ParseErrorKind,
};
pub use lexical::is_word;
