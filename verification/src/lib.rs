//! Spectral measurement records: the data model, the loaders that read it
//! from record-array text, delimited text and columnar files, the
//! per-column value filter and the colour assignment.
//!
//! A row is two series of numbers of one length and a few named metadata
//! cells; a dataset is the rows together with the names of the columns and
//! the distinct values of each column, both kept in order.
//!
//! Numbers are carried as the 64 bits of an IEEE-754 double and never
//! computed with: the order of doubles is the total order on their bits,
//! and a 32-bit number is widened on its bits. What needs floating-point
//! work stays with the caller: reading a double from its text (the caller
//! hands the loader a table of the texts that are numbers), choosing the
//! colours of a palette, and showing a double as text. So does the reading
//! of a columnar file: the caller hands the loader its record batches as
//! plain values.
//!
//! Every function is verified against its contract; the few that call the
//! `csv` and `serde_json` crates or an unspecified part of the standard
//! library say in their comment what is taken on trust.

pub mod color;
pub mod data;
pub mod lexing;
pub mod rng;
pub mod state;
pub mod text;
