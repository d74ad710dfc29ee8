//! YAML 1.2 with the byte range of every node, and diagnostics for documents that do not
//! match a schema.
//!
//! [`parse`] turns a text into a tree of [`YamlWithSourceInfo`]. [`ValidationDiagnostic`]
//! renders what is wrong with such a tree.

#![allow(unused_imports)]

pub mod builder;
pub mod builder_laws;
pub mod diagnostic;
pub mod diagnostic_json;
pub mod diagnostic_laws;
pub mod error;
pub mod event;
pub mod extent;
pub mod extent_laws;
pub mod json;
pub mod json_laws;
pub mod laws;
pub mod message;
pub mod node;
pub mod parser;
pub mod path;
pub mod scalar;
pub mod scalar_laws;
pub mod source_info;
pub mod source_laws;
pub mod source_map;
pub mod source_text;
pub mod stream;
pub mod text;
pub mod text_laws;
pub mod told_laws;
pub mod tree;
pub mod tree_laws;
pub mod validation_error;
pub mod view_laws;
pub mod yaml;

pub use crate::diagnostic::{SourceRange, ValidationDiagnostic};
pub use crate::error::Error;
pub use crate::node::{YamlHashEntry, YamlWithSourceInfo};
pub use crate::parser::{file_id_for_filename, parse, parse_file, parse_with_parent};
pub use crate::path::{InstancePath, PathSegment, SchemaPath};
pub use crate::source_info::{FileId, Location, Range, SourceInfo, SourcePiece};
pub use crate::validation_error::{ValidationError, ValidationErrorKind};
pub use crate::yaml::Yaml;
