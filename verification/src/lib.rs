//! Wrapper types over `char`, `&str` and `String` that carry an
//! "is US-ASCII" *soft* constraint.
//!
//! The constraint is soft: validated constructors scan their input, while
//! unchecked constructors wrap it as it is, and mutation may silently break
//! the tag. Breaking the tag is a logic bug, never a safety issue, and an
//! explicit revalidation entry point re-scans the buffer on demand.

pub mod error;
pub mod laws;
pub mod soft_char;
pub mod soft_str;
pub mod soft_string;

pub use error::FromSourceError;
pub use error::StringFromStrError;
pub use soft_char::SoftAsciiChar;
pub use soft_str::SoftAsciiStr;
pub use soft_string::SoftAsciiString;
