//! The dynamically typed value model: values, parsing, conversion and
//! formatting.

pub mod realnum;
pub mod formatting;
pub mod parsing;
pub mod value;

pub use realnum::RealValue;
pub use value::FortranValue;
pub use formatting::{ComplexFormat, FormatOptions, QuoteStyle};
