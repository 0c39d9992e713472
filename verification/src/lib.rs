//! Shell-like quoting of strings.
//!
//! [`escape`] turns any string into text that can be pasted into a shell, a log or a
//! configuration file: unchanged where nothing in it calls for quotes, between single
//! quotes where that is enough, and otherwise between double quotes with backslash
//! escapes. [`unescape`] reads such text back, and accepts hand-written text in the
//! same format as well.
//!
//! Both functions are verified against mathematical models over `Seq<char>`:
//! [`escaper::escaped`] and [`unescaper::unescaped`]. The module [`round_trip`] proves
//! that the second undoes the first on every string, that encodings can be written
//! one after the other, and when each kind of quotes is chosen.

pub mod category;
pub mod classifier;
pub mod codec;
pub mod error;
pub mod escaper;
pub mod round_trip;
pub mod std_specs;
pub mod unescaper;

pub use classifier::{classify, QuoteStyle};
pub use error::{ParseError, UnicodeEscapeError};
pub use escaper::escape;
pub use unescaper::unescape;
