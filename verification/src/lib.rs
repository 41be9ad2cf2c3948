//! Placeholder-based string templating.
//!
//! A source string may hold variable references enclosed in `%` delimiters,
//! such as `"Hello %NAME%!"`. The scanner splits such a string into literal
//! and variable segments; the expander drives the scanner and substitutes
//! each variable with a value supplied by a caller-provided lookup.

pub mod segments;
pub mod model;
pub mod scanner;
pub mod laws;
pub mod expand;

pub use segments::ExpandableStrEntry;
pub use segments::ExpandableStrSplitError;
pub use segments::ExpandableStrSplitResult;
pub use scanner::ExpandableStringSplit;
pub use scanner::split_expandable_string;
pub use expand::ExpandStringError;
pub use expand::NamedValuesSource;
pub use expand::expand_string_with_values;
