//! Execution of tokens against the evaluation stack.
//!
//! Output is returned as events, in order, for the host to print.
use vstd::prelude::*;
use crate::dict::{body_of, define, init_dict, lookup, pop_body, DictEntry, Prim, Storage, Token};
use crate::memory::{le_bytes, read_spec, MemError, Memory, Variable};
use crate::number::{is_numeric, number_of, NumView, Number};
use crate::resolve::{resolves_to, tokenize};
use crate::text::{split_words, views, words};

verus! {

broadcast use vstd::std_specs::vec::group_vec_axioms;

/// What executing a token reports.
#[derive(Clone, Debug, PartialEq)]
pub enum Event {
    /// A value popped and printed.
    Print(Number),
    /// An operation needed an operand that the stack did not have.
    Underflow,
    /// A token that resolved to nothing known.
    UnknownToken,
    /// A variable whose bytes lie outside the arena.
    BadAddress,
}

/// The mathematical view of an [`Event`].
pub enum EventView {
    Print(NumView),
    Underflow,
    UnknownToken,
    BadAddress,
}

impl View for Event {
    type V = EventView;

    open spec fn view(&self) -> EventView {
        match self {
            Event::Print(n) => EventView::Print(n@),
            Event::Underflow => EventView::Underflow,
            Event::UnknownToken => EventView::UnknownToken,
            Event::BadAddress => EventView::BadAddress,
        }
    }
}

/// The views of a stack.
pub open spec fn stack_view(s: Seq<Number>) -> Seq<NumView> {
    s.map_values(|n: Number| n@)
}

/// The views of a sequence of events.
pub open spec fn events_view(e: Seq<Event>) -> Seq<EventView> {
    e.map_values(|x: Event| x@)
}

/// The stack and the events after `p` runs on the stack `st`.
pub open spec fn prim_effect(p: Prim, st: Seq<NumView>, out: Seq<EventView>) -> (
    Seq<NumView>,
    Seq<EventView>,
) {
    match p {
        Prim::Pop => if st.len() == 0 {
            (st, out.push(EventView::Underflow))
        } else {
            (st.drop_last(), out.push(EventView::Print(st.last())))
        },
    }
}

/// The stack and the events after the token `t` runs, over the arena
/// contents `mem`.
pub open spec fn step(t: Token, mem: Seq<u8>, st: Seq<NumView>, out: Seq<EventView>) -> (
    Seq<NumView>,
    Seq<EventView>,
)
    decreases t, 0nat,
{
    match t {
        Token::Num(n) => (st.push(n@), out),
        Token::Func(p) => prim_effect(p, st, out),
        Token::Word(b) => steps(b@, b@.len(), mem, st, out),
        Token::Var(v) => match read_spec(mem, v) {
            Ok(x) => (st.push(NumView::Int(x)), out),
            Err(_) => (st, out.push(EventView::BadAddress)),
        },
        Token::Unknown => (st, out.push(EventView::UnknownToken)),
    }
}

/// The stack and the events after the first `n` tokens of `ts` run in order.
pub open spec fn steps(
    ts: Seq<Token>,
    n: nat,
    mem: Seq<u8>,
    st: Seq<NumView>,
    out: Seq<EventView>,
) -> (Seq<NumView>, Seq<EventView>)
    decreases ts, n,
{
    if n == 0 || n > ts.len() {
        (st, out)
    } else {
        let (st2, out2) = steps(ts, (n - 1) as nat, mem, st, out);
        step(ts[n - 1], mem, st2, out2)
    }
}

/// Pops the top of the stack and reports it for printing; on an empty
/// stack, reports underflow and leaves the stack as it was.
pub fn kfn_pop(st: &mut Vec<Number>) -> (r: Event)
    ensures
        old(st)@.len() == 0 ==> final(st)@ == old(st)@ && r@ == EventView::Underflow,
        old(st)@.len() > 0 ==> final(st)@ == old(st)@.drop_last() && r == Event::Print(
            old(st)@.last(),
        ),
        (stack_view(final(st)@), seq![r@]) == prim_effect(Prim::Pop, stack_view(old(st)@), seq![]),
{
    match st.pop() {
        Some(n) => {
            proof {
                assert(stack_view(st@) =~= stack_view(old(st)@).drop_last());
            }
            Event::Print(n)
        },
        None => Event::Underflow,
    }
}

/// Runs the token `tok`: a number is pushed, a primitive runs, a word runs
/// its tokens in order, a variable's value is read from `mem` and pushed, and
/// `Unknown` is reported. What is reported is appended to `out`.
pub fn execute(tok: &Token, stack: &mut Vec<Number>, mem: &Memory, out: &mut Vec<Event>)
    requires
        mem.wf(),
    ensures
        (stack_view(final(stack)@), events_view(final(out)@)) == step(
            *tok,
            mem.bytes(),
            stack_view(old(stack)@),
            events_view(old(out)@),
        ),
    decreases tok,
{
    match tok {
        Token::Num(n) => {
            let m = n.duplicate();
            stack.push(m);
            proof {
                assert(stack_view(stack@) =~= stack_view(old(stack)@).push(n@));
            }
        },
        Token::Func(p) => {
            match p {
                Prim::Pop => {
                    let e = kfn_pop(stack);
                    out.push(e);
                    proof {
                        assert(events_view(out@) =~= events_view(old(out)@).push(e@));
                    }
                },
            }
        },
        Token::Word(b) => {
            let body: &Vec<Token> = body_of(b);
            let len = body.len();
            let mut i: usize = 0;
            while i < len
                invariant
                    0 <= i <= len == body@.len(),
                    *tok == Token::Word(*b),
                    *body == **b,
                    mem.wf(),
                    (stack_view(stack@), events_view(out@)) == steps(
                        body@,
                        i as nat,
                        mem.bytes(),
                        stack_view(old(stack)@),
                        events_view(old(out)@),
                    ),
                decreases len - i,
            {
                proof {
                    assert(decreases_to!(*tok => tok->Word_0));
                    assert(decreases_to!(*tok => *b));
                    assert(decreases_to!(*tok => body[i as int]));
                }
                execute(&body[i], stack, mem, out);
                i = i + 1;
            }
        },
        Token::Var(v) => {
            match mem.read(v) {
                Ok(x) => {
                    stack.push(Number::Int(x));
                    proof {
                        assert(stack_view(stack@) =~= stack_view(old(stack)@).push(
                            NumView::Int(x),
                        ));
                    }
                },
                Err(_) => {
                    out.push(Event::BadAddress);
                    proof {
                        assert(events_view(out@) =~= events_view(old(out)@).push(
                            EventView::BadAddress,
                        ));
                    }
                },
            }
        },
        Token::Unknown => {
            out.push(Event::UnknownToken);
            proof {
                assert(events_view(out@) =~= events_view(old(out)@).push(EventView::UnknownToken));
            }
        },
    }
}

/// The stack and the events after the word of text `w` is resolved against
/// `d` and run.
pub open spec fn word_effect(
    w: Seq<char>,
    d: Seq<DictEntry>,
    mem: Seq<u8>,
    st: Seq<NumView>,
    out: Seq<EventView>,
) -> (Seq<NumView>, Seq<EventView>) {
    match number_of(w) {
        Some(nv) => (st.push(nv), out),
        None => match lookup(d, w) {
            Some(Storage::DictWord(b)) => step(Token::Word(b), mem, st, out),
            Some(Storage::DictVar(v)) => step(Token::Var(v), mem, st, out),
            None => (st, out.push(EventView::UnknownToken)),
        },
    }
}

/// The stack and the events after the first `n` words of `ws` run in order.
pub open spec fn words_effect(
    ws: Seq<Seq<char>>,
    n: nat,
    d: Seq<DictEntry>,
    mem: Seq<u8>,
    st: Seq<NumView>,
    out: Seq<EventView>,
) -> (Seq<NumView>, Seq<EventView>)
    decreases n,
{
    if n == 0 || n > ws.len() {
        (st, out)
    } else {
        let (st2, out2) = words_effect(ws, (n - 1) as nat, d, mem, st, out);
        word_effect(ws[n - 1], d, mem, st2, out2)
    }
}

/// The stack and the events after the line `line` runs: each of its
/// whitespace-separated words, in order.
pub open spec fn run_line_spec(
    line: Seq<char>,
    d: Seq<DictEntry>,
    mem: Seq<u8>,
    st: Seq<NumView>,
) -> (Seq<NumView>, Seq<EventView>) {
    words_effect(words(line), words(line).len(), d, mem, st, Seq::empty())
}

/// Running the token that a word resolves to has the effect of that word.
pub proof fn lemma_resolved_step(
    t: Token,
    w: Seq<char>,
    d: Seq<DictEntry>,
    mem: Seq<u8>,
    st: Seq<NumView>,
    out: Seq<EventView>,
)
    requires
        resolves_to(t, w, d),
    ensures
        step(t, mem, st, out) == word_effect(w, d, mem, st, out),
{
}

/// Text that is neither numeric nor a name in the dictionary runs as one
/// unknown-token report, with the stack unchanged.
pub proof fn law_unknown_runs_as_report(
    t: Token,
    w: Seq<char>,
    d: Seq<DictEntry>,
    mem: Seq<u8>,
    st: Seq<NumView>,
    out: Seq<EventView>,
)
    requires
        !is_numeric(w),
        lookup(d, w) is None,
        resolves_to(t, w, d),
    ensures
        t == Token::Unknown,
        step(t, mem, st, out) == (st, out.push(EventView::UnknownToken)),
{
}

/// Running the word `.` on an empty stack leaves the stack as it was and
/// reports underflow once.
pub proof fn law_pop_empty(b: Seq<Token>, mem: Seq<u8>, out: Seq<EventView>)
    requires
        pop_body(b),
    ensures
        steps(b, b.len(), mem, Seq::empty(), out) == (
            Seq::<NumView>::empty(),
            out.push(EventView::Underflow),
        ),
{
    reveal_with_fuel(steps, 2);
}

/// Running the word `.` on a non-empty stack pops its top, one element, and
/// reports it for printing.
pub proof fn law_pop_nonempty(b: Seq<Token>, mem: Seq<u8>, st: Seq<NumView>, out: Seq<EventView>)
    requires
        pop_body(b),
        st.len() > 0,
    ensures
        steps(b, b.len(), mem, st, out) == (st.drop_last(), out.push(EventView::Print(st.last()))),
        steps(b, b.len(), mem, st, out).0.len() == st.len() - 1,
{
    reveal_with_fuel(steps, 2);
}

/// The 32-bit variable at offset `addr`.
pub open spec fn new_variable(addr: nat) -> Variable {
    Variable { addr: addr as usize, size: 4 }
}

/// An interpreter session: the evaluation stack, the dictionary and the arena
/// that backs variables.
pub struct Session {
    pub stack: Vec<Number>,
    pub dict: Vec<DictEntry>,
    pub mem: Memory,
}

impl Session {
    pub open spec fn wf(&self) -> bool {
        self.mem.wf()
    }

    /// A session with an empty stack, the built-in dictionary and an empty arena.
    pub fn new() -> (r: Session)
        ensures
            r.wf(),
            r.stack@.len() == 0,
            r.dict@.len() == 1,
            r.dict@[0].name@ == seq!['.'],
            r.dict@[0].data matches Storage::DictWord(b) && pop_body(b@),
            r.mem.bytes().len() == 0,
    {
        Session { stack: Vec::new(), dict: init_dict(), mem: Memory::create_mem() }
    }

    /// Allocates a 32-bit variable holding `value` and binds `name` to it.
    /// Fails with `OutOfMemory` where the arena cannot grow by four bytes.
    pub fn define_variable(&mut self, name: String, value: i32) -> (r: Result<Variable, MemError>)
        requires
            old(self).wf(),
        ensures
            final(self).wf(),
            final(self).stack@ == old(self).stack@,
            old(self).mem.bytes().len() + 4 > usize::MAX ==> (r == Err::<Variable, MemError>(
                MemError::OutOfMemory,
            ) && final(self).dict@ == old(self).dict@ && final(self).mem.bytes()
                == old(self).mem.bytes()),
            old(self).mem.bytes().len() + 4 <= usize::MAX ==> (r == Ok::<Variable, MemError>(
                new_variable(old(self).mem.bytes().len()),
            ) && final(self).dict@ == old(self).dict@.push(
                (DictEntry { name, data: Storage::DictVar(new_variable(old(self).mem.bytes().len())) }),
            ) && final(self).mem.bytes() == old(self).mem.bytes() + le_bytes(value)),
    {
        if self.mem.used() > usize::MAX - 4 {
            return Err(MemError::OutOfMemory);
        }
        let addr = self.mem.allocate(value);
        let v = Variable { addr, size: 4 };
        define(&mut self.dict, name, Storage::DictVar(v));
        Ok(v)
    }

    /// Runs the words `ws` in order: each is resolved against the
    /// dictionary and run against the stack. Returns what was reported, in
    /// order.
    pub fn run_words(&mut self, ws: &Vec<String>) -> (r: Vec<Event>)
        requires
            old(self).wf(),
        ensures
            final(self).wf(),
            final(self).dict@ == old(self).dict@,
            final(self).mem == old(self).mem,
            (stack_view(final(self).stack@), events_view(r@)) == words_effect(
                views(ws@),
                ws@.len(),
                old(self).dict@,
                old(self).mem.bytes(),
                stack_view(old(self).stack@),
                Seq::empty(),
            ),
    {
        let ghost wv = views(ws@);
        let mut out: Vec<Event> = Vec::new();
        let n = ws.len();
        let mut i: usize = 0;
        assert(events_view(out@) =~= Seq::<EventView>::empty());
        while i < n
            invariant
                0 <= i <= n == ws@.len(),
                views(ws@) == wv,
                self.wf(),
                self.dict@ == old(self).dict@,
                self.mem == old(self).mem,
                (stack_view(self.stack@), events_view(out@)) == words_effect(
                    wv,
                    i as nat,
                    self.dict@,
                    self.mem.bytes(),
                    stack_view(old(self).stack@),
                    Seq::empty(),
                ),
            decreases n - i,
        {
            let w = ws[i].clone();
            assert(w@ == wv[i as int]);
            let tok = tokenize(w, &self.dict);
            proof {
                lemma_resolved_step(
                    tok,
                    wv[i as int],
                    self.dict@,
                    self.mem.bytes(),
                    stack_view(self.stack@),
                    events_view(out@),
                );
            }
            execute(&tok, &mut self.stack, &self.mem, &mut out);
            i = i + 1;
        }
        out
    }

    /// Runs one line of input: its whitespace-separated words, in order.
    /// Returns what was reported, in order.
    pub fn run_line(&mut self, line: &str) -> (r: Vec<Event>)
        requires
            old(self).wf(),
        ensures
            final(self).wf(),
            final(self).dict@ == old(self).dict@,
            final(self).mem == old(self).mem,
            (stack_view(final(self).stack@), events_view(r@)) == run_line_spec(
                line@,
                old(self).dict@,
                old(self).mem.bytes(),
                stack_view(old(self).stack@),
            ),
    {
        let ws = split_words(line);
        self.run_words(&ws)
    }
}

} // verus!
