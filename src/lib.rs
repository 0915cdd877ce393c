//! Find Word: looks for one word in a text file, marks each exact
//! whitespace-delimited occurrence, and counts them.
pub mod args;
pub mod finder;
pub mod help;
pub mod text;
