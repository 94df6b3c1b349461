//! Tokens, and the dictionary of named words and variables.
//!
//! Lookup scans the dictionary in insertion order and returns the first entry
//! with the name asked for, and `define` appends: an earlier definition of a
//! name shadows any later one.
use std::sync::Arc;
use vstd::prelude::*;
use crate::memory::Variable;
use crate::number::Number;

verus! {

/// The built-in primitive operations.
#[derive(Clone, Copy, Debug, PartialEq, Eq, Structural)]
pub enum Prim {
    /// Pops the top of the stack and prints it.
    Pop,
}

/// One resolved, executable unit.
#[derive(Debug)]
pub enum Token {
    /// A user-defined word: a shared, immutable sequence of tokens.
    Word(Arc<Vec<Token>>),
    /// A primitive operation.
    Func(Prim),
    /// A variable in the arena.
    Var(Variable),
    /// A number literal.
    Num(Number),
    /// Text that resolved to nothing known.
    Unknown,
}

/// What a dictionary entry binds its name to.
#[derive(Debug)]
pub enum Storage {
    DictWord(Arc<Vec<Token>>),
    DictVar(Variable),
}

/// A name bound to a word body or a variable.
#[derive(Debug)]
pub struct DictEntry {
    pub name: String,
    pub data: Storage,
}

/// Relies on `Arc::clone`: the new handle points to the same allocation, so
/// it holds the same tokens.
#[verifier::external_body]
fn share(b: &Arc<Vec<Token>>) -> (r: Arc<Vec<Token>>)
    ensures
        r == *b,
{
    Arc::clone(b)
}

/// Relies on `Arc`'s `Deref`: a reference to the tokens that `b` shares.
#[verifier::external_body]
pub(crate) fn body_of(b: &Arc<Vec<Token>>) -> (r: &Vec<Token>)
    ensures
        *r == **b,
{
    b.as_ref()
}

impl Storage {
    /// Another handle to the same data; a word body is shared, not copied.
    pub fn duplicate(&self) -> (r: Storage)
        ensures
            r == *self,
    {
        match self {
            Storage::DictWord(b) => Storage::DictWord(share(b)),
            Storage::DictVar(v) => Storage::DictVar(*v),
        }
    }
}

/// The data of the first entry of `d` named `n`.
pub open spec fn lookup(d: Seq<DictEntry>, n: Seq<char>) -> Option<Storage>
    decreases d.len(),
{
    if d.len() == 0 {
        None
    } else if d[0].name@ == n {
        Some(d[0].data)
    } else {
        lookup(d.drop_first(), n)
    }
}

/// Finds the first entry named `n`, scanning in insertion order.
pub fn find_word(dict: &Vec<DictEntry>, n: String) -> (r: Option<Storage>)
    ensures
        r == lookup(dict@, n@),
{
    let len = dict.len();
    let mut i: usize = 0;
    assert(dict@.subrange(0, len as int) =~= dict@);
    while i < len
        invariant
            0 <= i <= len == dict@.len(),
            lookup(dict@, n@) == lookup(dict@.subrange(i as int, len as int), n@),
        decreases len - i,
    {
        let e = &dict[i];
        assert(dict@.subrange(i + 1, len as int) =~= dict@.subrange(i as int, len as int).drop_first());
        if e.name == n {
            return Some(e.data.duplicate());
        }
        i = i + 1;
    }
    None
}

/// Appends an entry binding `name` to `data`. An entry of the same name
/// defined earlier keeps precedence in lookup.
pub fn define(dict: &mut Vec<DictEntry>, name: String, data: Storage)
    ensures
        final(dict)@ == old(dict)@.push(DictEntry { name, data }),
{
    dict.push(DictEntry { name, data });
}

/// The body of the built-in word `.`.
pub open spec fn pop_body(b: Seq<Token>) -> bool {
    b == seq![Token::Func(Prim::Pop)]
}

/// The dictionary with the built-in words: `.` pops and prints.
pub fn init_dict() -> (r: Vec<DictEntry>)
    ensures
        r@.len() == 1,
        r@[0].name@ == seq!['.'],
        r@[0].data matches Storage::DictWord(b) && pop_body(b@),
{
    proof {
        reveal_strlit(".");
    }
    let body: Vec<Token> = vec![Token::Func(Prim::Pop)];
    assert(body@ =~= seq![Token::Func(Prim::Pop)]);
    let name = ".".to_owned();
    vec![DictEntry { name, data: Storage::DictWord(Arc::new(body)) }]
}

} // verus!
