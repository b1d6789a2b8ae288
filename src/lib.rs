//! The lexical front end of a small scripting language: it turns source
//! text into classified, line-tagged tokens.
use vstd::prelude::*;

pub mod grammar;
pub mod laws;
pub mod lox;
pub mod scanner;
pub mod token;

verus! {

/// Command-line arguments of the interpreter: an optional script path.
pub struct Args {
    pub script: Option<String>,
}

} // verus!
