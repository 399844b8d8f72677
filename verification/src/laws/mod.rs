//! What the operations of the library are for, said of all inputs: how results relate to what was
//! given, and how calls relate to each other.

pub mod answers;
pub mod blocks;
pub mod caching;
pub mod contents;
pub mod directives;
pub mod encoding;
pub mod numbers;
pub mod paths;
pub mod services;
pub mod storing;
pub mod texts;
