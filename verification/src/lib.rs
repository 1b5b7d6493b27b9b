//! A parser for Advanced SubStation Alpha (ASS/SSA) subtitle documents, and
//! for SubRip records.
//!
//! Every parser works on a slice of characters and comes with a function
//! over `Seq<char>` that says exactly what it accepts and what it yields;
//! the parser is proved to compute that function. A parser reads from the
//! start of its input and says how many characters it took.
//!
//! - [`script`]: whole documents.
//! - [`document`]: sections — the styles, the schema of the events, settings.
//! - [`entry`]: dialogue rows under a schema.
//! - [`line`]: the text of a dialogue row, split into runs, blocks of tags
//!   and drawings.
//! - [`tags`]: the override tags of a block.
//! - [`drawing`]: drawing paths.
//! - [`style`], [`row`], [`table`]: styles, rows under a schema, and tables
//!   by name.
//! - [`color`], [`number`], [`time`], [`scan`]: the primitives.
//! - [`subrip`]: SubRip records.

pub mod color;
pub mod document;
pub mod drawing;
pub mod entry;
pub mod error;
pub mod line;
pub mod number;
pub mod row;
pub mod scan;
pub mod script;
pub mod style;
pub mod subrip;
pub mod table;
pub mod tags;
pub mod time;

pub use crate::color::{from_hex, hex_primary, Color};
pub use crate::document::{section, Section};
pub use crate::drawing::DrawingCommand;
pub use crate::entry::{subtitle, Entry};
pub use crate::error::{ErrorKind, ParseError};
pub use crate::line::TextSection;
pub use crate::number::{decimal_or_float, Number};
pub use crate::scan::{is_hex_digit, to_chars, ws};
pub use crate::script::{document, Document};
pub use crate::style::Style;
pub use crate::tags::StyleOverride;
pub use crate::time::Millis;
