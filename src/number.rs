//! Numbers, and the classification of token text as a number.
//!
//! Integer text follows the decimal syntax of `i32`'s `FromStr`: an optional
//! `+` or `-`, then one or more ASCII digits, with the value in range. Float
//! text follows the grammar that `f64`'s `FromStr` documents, compared with
//! ASCII letters taken case-insensitively:
//!
//! ```text
//! Float  ::= Sign? ( 'inf' | 'infinity' | 'nan' | Number )
//! Number ::= ( Digit+ | Digit+ '.' Digit* | Digit* '.' Digit+ ) Exp?
//! Exp    ::= 'e' Sign? Digit+
//! ```
//!
//! A float keeps its literal text; turning it into a binary value and
//! printing it is left to the host.
use vstd::prelude::*;

verus! {

/// A value on the evaluation stack.
#[derive(Clone, Debug, PartialEq)]
pub enum Number {
    Int(i32),
    /// A floating-point literal, kept as the text it was written with.
    Float(String),
}

/// The mathematical view of a [`Number`].
pub enum NumView {
    Int(i32),
    Float(Seq<char>),
}

impl View for Number {
    type V = NumView;

    open spec fn view(&self) -> NumView {
        match self {
            Number::Int(i) => NumView::Int(*i),
            Number::Float(s) => NumView::Float(s@),
        }
    }
}

impl Number {
    /// A copy of this number.
    pub fn duplicate(&self) -> (r: Number)
        ensures
            r == *self,
    {
        match self {
            Number::Int(i) => Number::Int(*i),
            Number::Float(s) => Number::Float(s.clone()),
        }
    }
}

pub open spec fn is_digit(c: char) -> bool {
    '0' <= c <= '9'
}

pub open spec fn all_digits(s: Seq<char>) -> bool {
    forall|i: int| 0 <= i < s.len() ==> is_digit(#[trigger] s[i])
}

/// One or more ASCII digits.
pub open spec fn digit_run(s: Seq<char>) -> bool {
    s.len() > 0 && all_digits(s)
}

/// The decimal value of a run of digits.
pub open spec fn digits_value(s: Seq<char>) -> int
    decreases s.len(),
{
    if s.len() == 0 {
        0
    } else {
        digits_value(s.drop_last()) * 10 + (s.last() as int - '0' as int)
    }
}

pub open spec fn is_sign(c: char) -> bool {
    c == '+' || c == '-'
}

/// `s` without its leading sign, if it has one.
pub open spec fn unsigned_part(s: Seq<char>) -> Seq<char> {
    if s.len() > 0 && is_sign(s[0]) {
        s.drop_first()
    } else {
        s
    }
}

/// The value of integer text, whatever its size: an optional sign, then digits.
pub open spec fn int_text_value(s: Seq<char>) -> Option<int> {
    if !digit_run(unsigned_part(s)) {
        None
    } else if s[0] == '-' {
        Some(-digits_value(unsigned_part(s)))
    } else {
        Some(digits_value(unsigned_part(s)))
    }
}

/// `s` is integer text whose value fits in an `i32`.
pub open spec fn is_int_text(s: Seq<char>) -> bool {
    &&& int_text_value(s) is Some
    &&& i32::MIN <= int_text_value(s)->0 <= i32::MAX
}

pub open spec fn upper_of(c: char) -> char {
    if c == 'i' {
        'I'
    } else if c == 'n' {
        'N'
    } else if c == 'f' {
        'F'
    } else if c == 't' {
        'T'
    } else if c == 'y' {
        'Y'
    } else if c == 'a' {
        'A'
    } else {
        c
    }
}

/// `s` spells the lower-case word `w`, each letter in either case.
pub open spec fn spells(s: Seq<char>, w: Seq<char>) -> bool {
    s.len() == w.len() && forall|i: int|
        0 <= i < s.len() ==> #[trigger] s[i] == w[i] || s[i] == upper_of(w[i])
}

pub open spec fn is_special_float(b: Seq<char>) -> bool {
    spells(b, seq!['i', 'n', 'f']) || spells(b, seq!['i', 'n', 'f', 'i', 'n', 'i', 't', 'y'])
        || spells(b, seq!['n', 'a', 'n'])
}

/// Digits with at most one point among them, and at least one digit.
pub open spec fn is_mantissa(m: Seq<char>) -> bool {
    digit_run(m) || exists|k: int|
        0 <= k < m.len() && #[trigger] m[k] == '.' && m.len() >= 2 && all_digits(m.subrange(0, k))
            && all_digits(m.subrange(k + 1, m.len() as int))
}

pub open spec fn is_exp_mark(c: char) -> bool {
    c == 'e' || c == 'E'
}

/// A mantissa, optionally followed by an exponent mark and signed digits.
pub open spec fn is_decimal(b: Seq<char>) -> bool {
    is_mantissa(b) || exists|k: int|
        0 <= k < b.len() && #[trigger] is_exp_mark(b[k]) && is_mantissa(b.subrange(0, k))
            && digit_run(unsigned_part(b.subrange(k + 1, b.len() as int)))
}

/// `s` is float text.
pub open spec fn is_float_text(s: Seq<char>) -> bool {
    is_special_float(unsigned_part(s)) || is_decimal(unsigned_part(s))
}

/// The number that token text denotes, if any: an integer where the text is
/// integer text in range, else the float literal itself.
pub open spec fn number_of(s: Seq<char>) -> Option<NumView> {
    if is_int_text(s) {
        Some(NumView::Int(int_text_value(s)->0 as i32))
    } else if is_float_text(s) {
        Some(NumView::Float(s))
    } else {
        None
    }
}

pub open spec fn is_numeric(s: Seq<char>) -> bool {
    number_of(s) is Some
}


/// Every character of a mantissa is a digit or a point.
pub proof fn lemma_mantissa_chars(m: Seq<char>, i: int)
    requires
        is_mantissa(m),
        0 <= i < m.len(),
    ensures
        is_digit(m[i]) || m[i] == '.',
{
    if !digit_run(m) {
        let k = choose|k: int|
            0 <= k < m.len() && #[trigger] m[k] == '.' && m.len() >= 2 && all_digits(
                m.subrange(0, k),
            ) && all_digits(m.subrange(k + 1, m.len() as int));
        if i < k {
            assert(m.subrange(0, k)[i] == m[i]);
        } else if i > k {
            assert(m.subrange(k + 1, m.len() as int)[i - k - 1] == m[i]);
        }
    }
}

/// A prefix of a run of digits has a value between zero and the run's value.
pub proof fn lemma_digits_value_prefix(s: Seq<char>, k: int)
    requires
        all_digits(s),
        0 <= k <= s.len(),
    ensures
        0 <= digits_value(s.subrange(0, k)) <= digits_value(s),
    decreases s.len(),
{
    if s.len() > 0 {
        let p = s.drop_last();
        assert(all_digits(p)) by {
            assert forall|i: int| 0 <= i < p.len() implies is_digit(#[trigger] p[i]) by {
                assert(p[i] == s[i]);
            }
        }
        assert(is_digit(s[s.len() - 1]));
        if k == s.len() {
            assert(s.subrange(0, k) =~= s);
            lemma_digits_value_prefix(p, 0);
        } else {
            assert(s.subrange(0, k) =~= p.subrange(0, k));
            lemma_digits_value_prefix(p, k);
        }
        lemma_digits_value_prefix(p, p.len() as int);
        assert(p.subrange(0, p.len() as int) =~= p);
    } else {
        assert(s.subrange(0, k) =~= s);
    }
}

fn is_digit_char(c: char) -> (r: bool)
    ensures
        r == is_digit(c),
{
    '0' <= c && c <= '9'
}

/// Whether `v[lo..hi]` holds digits only.
fn all_digits_between(v: &Vec<char>, lo: usize, hi: usize) -> (r: bool)
    requires
        lo <= hi <= v@.len(),
    ensures
        r == all_digits(v@.subrange(lo as int, hi as int)),
{
    let mut i = lo;
    while i < hi
        invariant
            lo <= i <= hi <= v@.len(),
            all_digits(v@.subrange(lo as int, i as int)),
        decreases hi - i,
    {
        if !is_digit_char(v[i]) {
            assert(v@.subrange(lo as int, hi as int)[i - lo] == v@[i as int]);
            return false;
        }
        proof {
            let a = v@.subrange(lo as int, i as int);
            let b = v@.subrange(lo as int, i + 1);
            assert forall|j: int| 0 <= j < b.len() implies is_digit(#[trigger] b[j]) by {
                if j < a.len() {
                    assert(a[j] == b[j]);
                }
            }
        }
        i = i + 1;
    }
    true
}

/// The first index in `lo..hi` at which `v` holds `c` or `d`, or `hi`.
fn find_either(v: &Vec<char>, lo: usize, hi: usize, c: char, d: char) -> (r: usize)
    requires
        lo <= hi <= v@.len(),
    ensures
        lo <= r <= hi,
        forall|i: int| lo <= i < r ==> v@[i] != c && v@[i] != d,
        r < hi ==> (v@[r as int] == c || v@[r as int] == d),
{
    let mut i = lo;
    while i < hi
        invariant
            lo <= i <= hi <= v@.len(),
            forall|j: int| lo <= j < i ==> v@[j] != c && v@[j] != d,
        decreases hi - i,
    {
        if v[i] == c || v[i] == d {
            return i;
        }
        i = i + 1;
    }
    hi
}

/// Whether `v[lo..hi]` is a mantissa.
fn mantissa_between(v: &Vec<char>, lo: usize, hi: usize) -> (r: bool)
    requires
        lo <= hi <= v@.len(),
    ensures
        r == is_mantissa(v@.subrange(lo as int, hi as int)),
{
    let ghost m = v@.subrange(lo as int, hi as int);
    let k = find_either(v, lo, hi, '.', '.');
    if k == hi {
        let r = lo < hi && all_digits_between(v, lo, hi);
        proof {
            if !digit_run(m) && is_mantissa(m) {
                let j = choose|j: int|
                    0 <= j < m.len() && #[trigger] m[j] == '.' && m.len() >= 2 && all_digits(
                        m.subrange(0, j),
                    ) && all_digits(m.subrange(j + 1, m.len() as int));
                assert(m[j] == v@[lo + j]);
            }
        }
        r
    } else {
        let r = hi - lo >= 2 && all_digits_between(v, lo, k) && all_digits_between(v, k + 1, hi);
        proof {
            let j = k - lo;
            assert(m[j] == '.');
            assert(!is_digit(m[j]));
            assert(v@.subrange(lo as int, k as int) =~= m.subrange(0, j));
            assert(v@.subrange(k + 1, hi as int) =~= m.subrange(j + 1, m.len() as int));
            if is_mantissa(m) && !r {
                let j2 = choose|j2: int|
                    0 <= j2 < m.len() && #[trigger] m[j2] == '.' && m.len() >= 2 && all_digits(
                        m.subrange(0, j2),
                    ) && all_digits(m.subrange(j2 + 1, m.len() as int));
                assert(m[j2] == v@[lo + j2]);
                if j2 > j {
                    assert(m.subrange(0, j2)[j] == m[j]);
                }
            }
        }
        r
    }
}

fn upper_char(c: char) -> (r: char)
    ensures
        r == upper_of(c),
{
    if c == 'i' {
        'I'
    } else if c == 'n' {
        'N'
    } else if c == 'f' {
        'F'
    } else if c == 't' {
        'T'
    } else if c == 'y' {
        'Y'
    } else if c == 'a' {
        'A'
    } else {
        c
    }
}

/// Whether `v[lo..]` spells the lower-case word `w`, each letter in either case.
fn spells_from(v: &Vec<char>, lo: usize, w: &Vec<char>) -> (r: bool)
    requires
        lo <= v@.len(),
    ensures
        r == spells(v@.subrange(lo as int, v@.len() as int), w@),
{
    let ghost b = v@.subrange(lo as int, v@.len() as int);
    if v.len() - lo != w.len() {
        return false;
    }
    let n = v.len();
    let mut i: usize = 0;
    while i < w.len()
        invariant
            n == v@.len(),
            b == v@.subrange(lo as int, v@.len() as int),
            lo + w@.len() == v@.len(),
            0 <= i <= w@.len(),
            forall|j: int| 0 <= j < i ==> #[trigger] b[j] == w@[j] || b[j] == upper_of(w@[j]),
        decreases w@.len() - i,
    {
        let c = v[lo + i];
        let l = w[i];
        assert(b[i as int] == c);
        if c != l && c != upper_char(l) {
            return false;
        }
        i = i + 1;
    }
    true
}

/// Whether `v[lo..]` is one of the special float words.
fn special_from(v: &Vec<char>, lo: usize) -> (r: bool)
    requires
        lo <= v@.len(),
    ensures
        r == is_special_float(v@.subrange(lo as int, v@.len() as int)),
{
    let inf: Vec<char> = vec!['i', 'n', 'f'];
    let infinity: Vec<char> = vec!['i', 'n', 'f', 'i', 'n', 'i', 't', 'y'];
    let nan: Vec<char> = vec!['n', 'a', 'n'];
    assert(inf@ =~= seq!['i', 'n', 'f']);
    assert(infinity@ =~= seq!['i', 'n', 'f', 'i', 'n', 'i', 't', 'y']);
    assert(nan@ =~= seq!['n', 'a', 'n']);
    spells_from(v, lo, &inf) || spells_from(v, lo, &infinity) || spells_from(v, lo, &nan)
}

/// Whether `v[e..]` is an optional sign followed by one or more digits.
fn signed_digits_from(v: &Vec<char>, e: usize) -> (r: bool)
    requires
        e <= v@.len(),
    ensures
        r == digit_run(unsigned_part(v@.subrange(e as int, v@.len() as int))),
{
    let n = v.len();
    let lo: usize = if e < n && (v[e] == '+' || v[e] == '-') {
        e + 1
    } else {
        e
    };
    assert(v@.subrange(lo as int, n as int) =~= unsigned_part(v@.subrange(e as int, n as int)));
    lo < n && all_digits_between(v, lo, n)
}

/// Whether `v[lo..]` is a decimal: a mantissa with an optional exponent.
fn decimal_from(v: &Vec<char>, lo: usize) -> (r: bool)
    requires
        lo <= v@.len(),
    ensures
        r == is_decimal(v@.subrange(lo as int, v@.len() as int)),
{
    let n = v.len();
    let ghost b = v@.subrange(lo as int, n as int);
    let k = find_either(v, lo, n, 'e', 'E');
    if k == n {
        let r = mantissa_between(v, lo, n);
        proof {
            if !is_mantissa(b) && is_decimal(b) {
                let j = choose|j: int|
                    0 <= j < b.len() && #[trigger] is_exp_mark(b[j]) && is_mantissa(
                        b.subrange(0, j),
                    ) && digit_run(unsigned_part(b.subrange(j + 1, b.len() as int)));
                assert(b[j] == v@[lo + j]);
            }
        }
        r
    } else {
        let r = mantissa_between(v, lo, k) && signed_digits_from(v, k + 1);
        proof {
            let j = k - lo;
            assert(b[j] == v@[k as int]);
            assert(is_exp_mark(b[j]));
            assert(v@.subrange(lo as int, k as int) =~= b.subrange(0, j));
            assert(v@.subrange(k + 1, n as int) =~= b.subrange(j + 1, b.len() as int));
            if is_mantissa(b) {
                lemma_mantissa_chars(b, j);
            }
            if is_decimal(b) && !r {
                let j2 = choose|j2: int|
                    0 <= j2 < b.len() && #[trigger] is_exp_mark(b[j2]) && is_mantissa(
                        b.subrange(0, j2),
                    ) && digit_run(unsigned_part(b.subrange(j2 + 1, b.len() as int)));
                assert(b[j2] == v@[lo + j2]);
                if j2 > j {
                    lemma_mantissa_chars(b.subrange(0, j2), j);
                    assert(b.subrange(0, j2)[j] == b[j]);
                }
            }
        }
        r
    }
}

/// Whether the characters `v` are float text.
fn float_text(v: &Vec<char>) -> (r: bool)
    ensures
        r == is_float_text(v@),
{
    let n = v.len();
    let lo: usize = if n > 0 && (v[0] == '+' || v[0] == '-') {
        1
    } else {
        0
    };
    assert(v@.subrange(lo as int, n as int) =~= unsigned_part(v@));
    special_from(v, lo) || decimal_from(v, lo)
}

/// The value of the characters `v` as an `i32`, where they are integer text
/// in range.
fn int_text(v: &Vec<char>) -> (r: Option<i32>)
    ensures
        r is Some <==> is_int_text(v@),
        r is Some ==> r->0 as int == int_text_value(v@)->0,
{
    let n = v.len();
    let neg = n > 0 && v[0] == '-';
    let start: usize = if n > 0 && (v[0] == '+' || v[0] == '-') {
        1
    } else {
        0
    };
    let ghost u = unsigned_part(v@);
    assert(u =~= v@.subrange(start as int, n as int));
    if start == n {
        return None;
    }
    let mut acc: i64 = 0;
    let mut i = start;
    while i < n
        invariant
            start <= i <= n == v@.len(),
            u == v@.subrange(start as int, n as int),
            u == unsigned_part(v@),
            all_digits(v@.subrange(start as int, i as int)),
            acc == digits_value(v@.subrange(start as int, i as int)),
            0 <= acc <= 0x8000_0000,
        decreases n - i,
    {
        let c = v[i];
        if !is_digit_char(c) {
            assert(u[i - start] == c);
            return None;
        }
        let ghost p = v@.subrange(start as int, i + 1);
        assert(p.drop_last() =~= v@.subrange(start as int, i as int));
        assert(p.last() == c);
        assert(all_digits(p)) by {
            assert forall|j: int| 0 <= j < p.len() implies is_digit(#[trigger] p[j]) by {
                if j < p.len() - 1 {
                    assert(p[j] == v@.subrange(start as int, i as int)[j]);
                }
            }
        }
        acc = acc * 10 + (c as u32 - '0' as u32) as i64;
        if acc > 0x8000_0000 {
            proof {
                if all_digits(u) {
                    lemma_digits_value_prefix(u, i + 1 - start);
                    assert(u.subrange(0, i + 1 - start) =~= p);
                }
            }
            return None;
        }
        i = i + 1;
    }
    assert(v@.subrange(start as int, n as int) =~= u);
    if neg {
        Some((-acc) as i32)
    } else if acc > 0x7fff_ffff {
        None
    } else {
        Some(acc as i32)
    }
}

/// Whether `s` is numeric: integer text within 32 bits, or float text.
pub fn is_number(s: &String) -> (r: bool)
    ensures
        r == is_numeric(s@),
{
    let v = crate::text::chars_of(s.as_str());
    int_text(&v).is_some() || float_text(&v)
}

/// The number that `s` denotes: an integer where `s` is integer text within
/// 32 bits, else a float where `s` is float text. Text that is neither gives
/// `None`.
pub fn parse_to_number(s: String) -> (r: Option<Number>)
    ensures
        match number_of(s@) {
            Some(n) => r is Some && r->0@ == n,
            None => r is None,
        },
{
    let v = crate::text::chars_of(s.as_str());
    match int_text(&v) {
        Some(i) => Some(Number::Int(i)),
        None => {
            if float_text(&v) {
                Some(Number::Float(s))
            } else {
                None
            }
        },
    }
}

} // verus!
