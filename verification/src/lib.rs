//! Verified core of a `cut`-style text utility: parsing of 1-based
//! position specifications and their application to lines as byte, character
//! or delimited-field selections, together with the line/word/byte counting
//! used by the surrounding tools.

pub mod numbers;
pub mod positions;
pub mod scalars;
pub mod fields;
pub mod counting;

pub use counting::{count, format_counts, FileInfo};
pub use fields::{extract_fields, parse_delimiter, process_field_line};
pub use numbers::parse_positive_int;
pub use positions::{
    parse_index, parse_positions, resolve_extract, Extract, IndexRange, ParseError, PositionList,
};
pub use scalars::{extract_bytes, extract_chars};
