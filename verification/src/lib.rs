//! Single-row CSV field tokenizer and value escaper.
//!
//! `CsvRow` splits one line of delimiter-separated text into its fields,
//! honouring RFC-4180-style quoting: a quoted field may embed the delimiter,
//! and a doubled quote inside a quoted field stands for one literal quote.
//! `escape` is the inverse transform: it renders a raw value as the text that
//! must appear in a row so that tokenizing yields the value back.

pub mod escaping;
pub mod laws;
pub mod model;
pub mod row;

pub use escaping::escape;
pub use row::unescape_field;
pub use row::CsvRow;
