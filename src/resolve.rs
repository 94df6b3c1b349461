//! Resolution of one word of text into a token.
use vstd::prelude::*;
use crate::dict::{find_word, lookup, DictEntry, Storage, Token};
use crate::number::{
    digit_run, digits_value, int_text_value, is_float_text, is_int_text, number_of,
    parse_to_number, Number,
};

verus! {

/// `t` is what the text `w` resolves to against the dictionary `d`: its
/// number where `w` is numeric, else the word or variable that the first
/// entry named `w` holds, else `Unknown`.
pub open spec fn resolves_to(t: Token, w: Seq<char>, d: Seq<DictEntry>) -> bool {
    match number_of(w) {
        Some(nv) => t matches Token::Num(n) && n@ == nv,
        None => match lookup(d, w) {
            Some(Storage::DictWord(b)) => t == Token::Word(b),
            Some(Storage::DictVar(v)) => t == Token::Var(v),
            None => t == Token::Unknown,
        },
    }
}

/// Two tokens of the same variant holding the same value; a float is
/// compared by its text.
pub open spec fn same_token(a: Token, b: Token) -> bool {
    match (a, b) {
        (Token::Num(x), Token::Num(y)) => x@ == y@,
        _ => a == b,
    }
}

/// Resolves the text `s` against `dict`. Numeric text becomes a number;
/// other text becomes the word or variable of the first entry of that name,
/// or `Unknown` where there is none.
pub fn tokenize(s: String, dict: &Vec<DictEntry>) -> (r: Token)
    ensures
        resolves_to(r, s@, dict@),
{
    match parse_to_number(s.clone()) {
        Some(n) => Token::Num(n),
        None => match find_word(dict, s) {
            Some(Storage::DictWord(b)) => Token::Word(b),
            Some(Storage::DictVar(v)) => Token::Var(v),
            None => Token::Unknown,
        },
    }
}

/// Text of the form `-?[0-9]+`.
pub open spec fn is_decimal_literal(s: Seq<char>) -> bool {
    digit_run(s) || (s.len() > 0 && s[0] == '-' && digit_run(s.drop_first()))
}

/// The value of text of the form `-?[0-9]+`.
pub open spec fn decimal_literal_value(s: Seq<char>) -> int {
    if s.len() > 0 && s[0] == '-' {
        -digits_value(s.drop_first())
    } else {
        digits_value(s)
    }
}

/// Decimal integer text within 32 bits resolves to that integer.
pub proof fn law_integer_literal(s: Seq<char>, d: Seq<DictEntry>, t: Token)
    requires
        is_decimal_literal(s),
        i32::MIN <= decimal_literal_value(s) <= i32::MAX,
        resolves_to(t, s, d),
    ensures
        t == Token::Num(Number::Int(decimal_literal_value(s) as i32)),
{
    if digit_run(s) {
        assert(crate::number::is_digit(s[0]));
    }
    assert(int_text_value(s) == Some(decimal_literal_value(s)));
    assert(is_int_text(s));
}

/// Float text that is not integer text within 32 bits resolves to a float
/// holding that text.
pub proof fn law_float_literal(s: Seq<char>, d: Seq<DictEntry>, t: Token)
    requires
        is_float_text(s),
        !is_int_text(s),
        resolves_to(t, s, d),
    ensures
        t matches Token::Num(Number::Float(f)) && f@ == s,
{
}

/// Resolving the same text twice against the same dictionary gives tokens of
/// the same variant and value.
pub proof fn law_resolve_deterministic(s: Seq<char>, d: Seq<DictEntry>, t1: Token, t2: Token)
    requires
        resolves_to(t1, s, d),
        resolves_to(t2, s, d),
    ensures
        same_token(t1, t2),
{
}

} // verus!
