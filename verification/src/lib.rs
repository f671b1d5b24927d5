//! A terminal client's verified core: the typed tabular exchange format.
//!
//! The library models one cell as a closed tagged value, a table as a
//! snapshot of schema and rows, and provides the encoder, the
//! line-oriented decoder and the CSV projector for the exchange format,
//! together with the console formatting and credential plumbing around
//! them.
pub mod console;
pub mod credentials;
pub mod decode;
pub mod encode;
pub mod laws;
pub mod num;
pub mod table;
pub mod text;
pub mod values;
