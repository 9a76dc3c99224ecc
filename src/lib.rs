//! A query-template formatter: typed `?` placeholders, optional `{ ... }`
//! blocks dropped by a skip marker, and strict argument arity.
pub mod bytes;
pub mod escape;
pub mod format;
pub mod laws;
pub mod numeric;
pub mod scan;
pub mod value;

pub use escape::{BackslashEscape, Escape, EscapeTable, IdentityEscape};
pub use format::FormatSpec;
pub use numeric::{as_float_as_string, as_long_as_string, decimal};
pub use scan::{QueryParser, Rendered};
pub use value::{Key, QueryError, Value};
