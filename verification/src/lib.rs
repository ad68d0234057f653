//! Generates one HTML file per row of a delimited contact table by
//! substituting the row's fields into a shared template.
//!
//! The library covers the pure pipeline: parsing the table, compiling and
//! rendering the template, and planning the per-row output files.  Reading
//! the input files and writing the rendered output is left to the caller.

pub mod csv_reader;
pub mod html_generator;
pub mod mapping;
pub mod template;
pub mod text;
