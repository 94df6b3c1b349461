//! A small stack-based interpreter: each whitespace-separated word of a line
//! is resolved against a dictionary of words and variables, or read as a
//! number, and run against an evaluation stack. A byte arena backs the
//! variables. What running reports is handed back as events, for the host to
//! print.
use vstd::prelude::*;

pub mod dict;
pub mod exec;
pub mod memory;
pub mod number;
pub mod resolve;
pub mod text;

pub use dict::{define, find_word, init_dict, DictEntry, Prim, Storage, Token};
pub use exec::{execute, kfn_pop, Event, Session};
pub use memory::{MemError, Memory, Variable};
pub use number::{is_number, parse_to_number, Number};
pub use resolve::tokenize;
pub use text::split_words;

verus! {

} // verus!
