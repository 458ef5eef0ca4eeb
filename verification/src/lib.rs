//! A verified decoder for TOML-style configuration documents: a
//! character-level scanner, a line-oriented table builder, a strict value
//! grammar, and an optional comment-preserving overlay, with located
//! errors.

use vstd::prelude::*;

pub mod strutil;
pub mod error;
pub mod tz;
pub mod value;
pub mod numbers;
pub mod escape;
pub mod datetime;
pub mod split;
pub mod key;
pub mod grammar;
pub mod scan;
pub mod tree;
pub mod decoder;

pub use decoder::{loads, TomlDecoder, TomlPreserveCommentDecoder};
pub use error::{ErrKind, TomlDecodeError};
pub use value::{CommentValue, Date, Datetime, Table, Time, Value};
pub use tz::TomlTz;
pub use datetime::load_date;
pub use escape::{load_unicode_escapes, unescape};
pub use numbers::strictly_valid_num;

verus! {

} // verus!
