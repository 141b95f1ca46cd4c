//! The lexical front end of a small dynamically typed scripting language.
//!
//! [`scanner::Scanner`] turns a source text into its tokens, or into the list of
//! every lexical error in it. What the scanner returns is fixed by the grammar
//! in [`scanner::grammar`], and each function here is proved against it.

pub mod interpreter_error;
pub mod scanner;
