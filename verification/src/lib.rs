//! A typed model of the dotbim scene description, with its equality and
//! its mapping to and from JSON trees, verified with Verus.
//!
//! A [`File`] holds [`Mesh`]es and the [`Element`]s that place them. Numbers
//! with a fraction are carried as [`Double`]s, by their bit patterns: the
//! crate compares them and never computes with them. [`File::to_json`] and
//! [`File::from_json`] map a file to the [`Json`] tree of its document and
//! back; [`File::decode`] reads the text of a document, which `serde_json`
//! parses. [`File::validate`] looks for what the types do not enforce.

pub mod buffer;
pub mod color;
pub mod double;
pub mod element;
pub mod error;
pub mod file;
pub mod info;
pub mod json;
pub mod mesh;
pub mod rotation;
pub mod validate;
pub mod vector;

pub use color::Color;
pub use double::Double;
pub use element::Element;
pub use error::DecodeError;
pub use error::EncodeError;
pub use error::SchemaError;
pub use file::File;
pub use info::Info;
pub use json::Json;
pub use json::JsonNumber;
pub use mesh::Mesh;
pub use rotation::Rotation;
pub use validate::ValidationError;
pub use vector::Vector;
