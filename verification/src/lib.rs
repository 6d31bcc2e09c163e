//! Recovers a type schema (modules, classes, fields, enums, named offsets) from an image of a
//! target process's memory and renders it as source text in several formats.
//!
//! A run is one pass. [`image`] holds what is known of the target's memory, and [`fetch`]
//! says what to read next to know more. [`resolver`] reads integers and strings from the image
//! and chases pointers in it. [`walker`] decodes the target's reflection tables into a
//! [`model::SchemaModel`], and records as a gap whatever it could not decode. [`render`]
//! turns the frozen model into files, format by format. [`orchestrator`] ties the steps
//! together, and [`options`] holds what the user chooses before a run.
//!
//! Names are byte strings as they stand in the target; [`ident`] makes identifiers of them,
//! and [`text`] writes numbers and indentation.

pub mod fetch;
pub mod ident;
pub mod image;
pub mod model;
pub mod named;
pub mod options;
pub mod orchestrator;
pub mod render;
pub mod resolver;
pub mod text;
pub mod walker;
