use std::sync::Arc;

use kforth::{
    define, execute, find_word, init_dict, is_number, kfn_pop, parse_to_number, split_words,
    tokenize, Event, MemError, Memory, Number, Prim, Session, Storage, Token, Variable,
};

fn int_of(t: &Token) -> Option<i32> {
    match t {
        Token::Num(Number::Int(i)) => Some(*i),
        _ => None,
    }
}

fn float_text_of(t: &Token) -> Option<String> {
    match t {
        Token::Num(Number::Float(s)) => Some(s.clone()),
        _ => None,
    }
}

#[test]
fn integer_literals_resolve_to_ints() {
    let d = init_dict();
    assert_eq!(int_of(&tokenize("42".to_string(), &d)), Some(42));
    assert_eq!(int_of(&tokenize("-7".to_string(), &d)), Some(-7));
    assert_eq!(int_of(&tokenize("0".to_string(), &d)), Some(0));
    assert_eq!(int_of(&tokenize("007".to_string(), &d)), Some(7));
    assert_eq!(int_of(&tokenize("2147483647".to_string(), &d)), Some(i32::MAX));
    assert_eq!(int_of(&tokenize("-2147483648".to_string(), &d)), Some(i32::MIN));
    assert_eq!(int_of(&tokenize("+5".to_string(), &d)), Some(5));
}

#[test]
fn float_literals_resolve_to_floats() {
    let d = init_dict();
    for s in ["3.14", "2147483648", "-2147483649", "1e5", "1E-3", ".5", "5.", "-0.25e+2", "inf",
        "-Infinity", "NaN", "+nan"]
    {
        assert_eq!(float_text_of(&tokenize(s.to_string(), &d)), Some(s.to_string()), "{}", s);
        let f: f64 = s.parse().unwrap();
        assert!(f.is_nan() || f == f);
    }
}

#[test]
fn non_numeric_text() {
    for s in ["", ".", "e5", "1e", "+-1", "1_000", " 1", "1 ", "--1", "1.2.3", "infi", "+", "x1"] {
        assert!(!is_number(&s.to_string()), "{}", s);
        assert!(parse_to_number(s.to_string()).is_none(), "{}", s);
        assert!(s.parse::<f64>().is_err() && s.parse::<i32>().is_err());
    }
}

#[test]
fn numeric_text() {
    for s in ["1", "-1", "+1", "1.5", "1e10", "99999999999", "INF", "infinity"] {
        assert!(is_number(&s.to_string()), "{}", s);
    }
    assert_eq!(parse_to_number("12".to_string()), Some(Number::Int(12)));
    assert_eq!(parse_to_number("-3".to_string()), Some(Number::Int(-3)));
    assert_eq!(parse_to_number("2.5".to_string()), Some(Number::Float("2.5".to_string())));
}

#[test]
fn unknown_text_resolves_to_unknown_and_reports_once() {
    let d = init_dict();
    let t = tokenize("foo".to_string(), &d);
    assert!(matches!(t, Token::Unknown));
    let mem = Memory::create_mem();
    let mut stack = vec![Number::Int(1)];
    let mut out = Vec::new();
    execute(&t, &mut stack, &mem, &mut out);
    assert_eq!(stack, vec![Number::Int(1)]);
    assert_eq!(out, vec![Event::UnknownToken]);
}

#[test]
fn dot_on_empty_stack_reports_underflow() {
    let mut s = Session::new();
    let out = s.run_line(".");
    assert_eq!(out, vec![Event::Underflow]);
    assert!(s.stack.is_empty());
}

#[test]
fn dot_on_nonempty_stack_pops_one() {
    let mut s = Session::new();
    s.stack.push(Number::Int(1));
    s.stack.push(Number::Float("2.5".to_string()));
    let out = s.run_line(".");
    assert_eq!(out, vec![Event::Print(Number::Float("2.5".to_string()))]);
    assert_eq!(s.stack, vec![Number::Int(1)]);
}

#[test]
fn line_three_four_dot_dot() {
    let mut s = Session::new();
    let out = s.run_line("3 4");
    assert!(out.is_empty());
    assert_eq!(s.stack, vec![Number::Int(3), Number::Int(4)]);
    let out = s.run_line(". .");
    assert_eq!(out, vec![Event::Print(Number::Int(4)), Event::Print(Number::Int(3))]);
    assert!(s.stack.is_empty());
    let mut s = Session::new();
    let out = s.run_line("3 4 . .");
    assert_eq!(out, vec![Event::Print(Number::Int(4)), Event::Print(Number::Int(3))]);
    assert!(s.stack.is_empty());
}

#[test]
fn line_with_undefined_word() {
    let mut s = Session::new();
    let out = s.run_line("foo");
    assert_eq!(out, vec![Event::UnknownToken]);
    assert!(s.stack.is_empty());
}

#[test]
fn allocate_and_read_back() {
    let mut m = Memory::create_mem();
    let addr = m.allocate(879);
    assert_eq!(addr, 0);
    let var = Variable { addr, size: 4 };
    assert_eq!(m.read(&var), Ok(879));
    let addr2 = m.allocate(-2);
    assert_eq!(addr2, 4);
    assert_eq!(m.used(), 8);
    assert_eq!(m.read(&Variable { addr: addr2, size: 4 }), Ok(-2));
    assert_eq!(m.read(&var), Ok(879));
    assert_eq!(m.read(&Variable { addr: 5, size: 4 }), Err(MemError::OutOfBounds));
    assert_eq!(m.read(&Variable { addr: usize::MAX, size: 4 }), Err(MemError::OutOfBounds));
}

#[test]
fn arena_is_little_endian() {
    let mut m = Memory::create_mem();
    m.allocate(0x0102_0304);
    m.allocate(0x0506_0708);
    assert_eq!(m.read(&Variable { addr: 1, size: 4 }), Ok(0x0801_0203));
}

#[test]
fn resolving_twice_gives_the_same_token() {
    let d = init_dict();
    for s in ["12", "1.5", "foo", "."] {
        let a = tokenize(s.to_string(), &d);
        let b = tokenize(s.to_string(), &d);
        match (&a, &b) {
            (Token::Num(x), Token::Num(y)) => assert_eq!(x, y),
            (Token::Unknown, Token::Unknown) => {},
            (Token::Word(x), Token::Word(y)) => assert!(Arc::ptr_eq(x, y)),
            _ => panic!("different tokens for {}", s),
        }
    }
}

#[test]
fn dot_resolves_to_the_shared_builtin_body() {
    let d = init_dict();
    assert_eq!(d.len(), 1);
    assert_eq!(d[0].name, ".");
    match tokenize(".".to_string(), &d) {
        Token::Word(b) => {
            assert_eq!(b.len(), 1);
            assert!(matches!(b[0], Token::Func(Prim::Pop)));
            match &d[0].data {
                Storage::DictWord(orig) => assert!(Arc::ptr_eq(&b, orig)),
                _ => panic!("builtin is not a word"),
            }
        },
        _ => panic!("`.` did not resolve to a word"),
    }
}

#[test]
fn first_definition_wins() {
    let mut d = init_dict();
    define(&mut d, "x".to_string(), Storage::DictVar(Variable { addr: 0, size: 4 }));
    define(&mut d, "x".to_string(), Storage::DictVar(Variable { addr: 8, size: 4 }));
    match find_word(&d, "x".to_string()) {
        Some(Storage::DictVar(v)) => assert_eq!(v.addr, 0),
        _ => panic!("x not found"),
    }
    assert!(find_word(&d, "y".to_string()).is_none());
    assert!(find_word(&d, "X".to_string()).is_none());
}

#[test]
fn variables_push_their_value() {
    let mut s = Session::new();
    let v = s.define_variable("x".to_string(), 879).unwrap();
    assert_eq!(v, Variable { addr: 0, size: 4 });
    assert_eq!(s.mem.read(&v), Ok(879));
    let out = s.run_line("x x .");
    assert_eq!(out, vec![Event::Print(Number::Int(879))]);
    assert_eq!(s.stack, vec![Number::Int(879)]);
    let w = s.define_variable("y".to_string(), -1).unwrap();
    assert_eq!(w.addr, 4);
}

#[test]
fn variable_outside_the_arena_reports() {
    let mut s = Session::new();
    define(&mut s.dict, "bad".to_string(), Storage::DictVar(Variable { addr: 16, size: 4 }));
    let out = s.run_line("bad 1");
    assert_eq!(out, vec![Event::BadAddress]);
    assert_eq!(s.stack, vec![Number::Int(1)]);
}

#[test]
fn user_words_expand_in_order() {
    let mut s = Session::new();
    let inner = Arc::new(vec![Token::Num(Number::Int(5)), Token::Func(Prim::Pop)]);
    define(&mut s.dict, "five".to_string(), Storage::DictWord(inner.clone()));
    let outer = Arc::new(vec![
        Token::Num(Number::Int(1)),
        Token::Word(inner),
        Token::Func(Prim::Pop),
        Token::Func(Prim::Pop),
    ]);
    define(&mut s.dict, "w".to_string(), Storage::DictWord(outer));
    let out = s.run_line("7 w");
    assert_eq!(
        out,
        vec![
            Event::Print(Number::Int(5)),
            Event::Print(Number::Int(1)),
            Event::Print(Number::Int(7)),
        ]
    );
    assert!(s.stack.is_empty());
    let out = s.run_line("five five");
    assert_eq!(out, vec![Event::Print(Number::Int(5)), Event::Print(Number::Int(5))]);
}

#[test]
fn pop_reports_and_pops() {
    let mut st = vec![Number::Int(1), Number::Int(2)];
    assert_eq!(kfn_pop(&mut st), Event::Print(Number::Int(2)));
    assert_eq!(st, vec![Number::Int(1)]);
    assert_eq!(kfn_pop(&mut st), Event::Print(Number::Int(1)));
    assert_eq!(kfn_pop(&mut st), Event::Underflow);
    assert!(st.is_empty());
}

#[test]
fn splitting_on_whitespace() {
    assert_eq!(split_words("  a\tbc  d\n"), vec!["a", "bc", "d"]);
    assert!(split_words("").is_empty());
    assert!(split_words(" \t\r\n").is_empty());
    assert_eq!(split_words("x\u{3000}y\u{a0}z"), vec!["x", "y", "z"]);
    assert_eq!(split_words("héllo wörld"), vec!["héllo", "wörld"]);
}

#[test]
fn mixed_line() {
    let mut s = Session::new();
    let out = s.run_line("1 2.50 nope . . .");
    assert_eq!(
        out,
        vec![
            Event::UnknownToken,
            Event::Print(Number::Float("2.50".to_string())),
            Event::Print(Number::Int(1)),
            Event::Underflow,
        ]
    );
}

#[test]
fn running_given_words() {
    let mut s = Session::new();
    let ws = vec!["3".to_string(), "4".to_string(), ".".to_string(), ".".to_string()];
    let out = s.run_words(&ws);
    assert_eq!(out, vec![Event::Print(Number::Int(4)), Event::Print(Number::Int(3))]);
    assert!(s.stack.is_empty());
    let out = s.run_words(&vec!["a b".to_string(), "".to_string(), "-0".to_string()]);
    assert_eq!(out, vec![Event::UnknownToken, Event::UnknownToken]);
    assert_eq!(s.stack, vec![Number::Int(0)]);
}
