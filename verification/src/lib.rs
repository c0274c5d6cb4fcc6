//! Utility functions that mirror a scripting language's array and string
//! built-ins over growable vectors and owned strings: stack and queue
//! primitives, linear search, duplicate removal, random index selection and
//! per-element mapping for sequences; splitting, joining, length, substring
//! search and extraction, and first-character case conversion for text.
//!
//! Every operation is a single-shot computation over its arguments, with
//! out-of-range and not-found conditions reported as an absent result rather
//! than a fault.

pub mod array;
pub mod search;
pub mod string;
