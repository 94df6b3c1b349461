//! The byte arena that backs variables.
use vstd::prelude::*;

verus! {

/// A handle to a variable: the offset of its bytes in the arena and its
/// declared width in bytes.
#[derive(Clone, Copy, Debug, PartialEq, Eq, Structural)]
pub struct Variable {
    pub addr: usize,
    pub size: u32,
}

/// Why a read from the arena was refused.
#[derive(Clone, Copy, Debug, PartialEq, Eq, Structural)]
pub enum MemError {
    /// The bytes asked for run past the end of what was allocated.
    OutOfBounds,
    /// The arena cannot grow by the bytes asked for.
    OutOfMemory,
}

/// An append-only byte buffer with a cursor at the next free offset.
pub struct Memory {
    mem: Vec<u8>,
    new_memory: usize,
}

/// The unsigned value of `a` modulo 2^32.
pub open spec fn unsigned_of(a: int) -> int {
    if a < 0 { a + 0x1_0000_0000 } else { a }
}

/// The signed 32-bit value whose two's complement pattern is `u`.
pub open spec fn signed_of(u: int) -> int {
    if u >= 0x8000_0000 { u - 0x1_0000_0000 } else { u }
}

/// The four bytes of `a`, least significant first.
pub open spec fn le_bytes(a: i32) -> Seq<u8> {
    let u = unsigned_of(a as int);
    seq![
        (u % 256) as u8,
        ((u / 256) % 256) as u8,
        ((u / 65536) % 256) as u8,
        ((u / 16777216) % 256) as u8,
    ]
}

/// The signed integer that four bytes, least significant first, encode.
pub open spec fn le_value(b: Seq<u8>) -> int {
    signed_of(b[0] as int + 256 * b[1] + 65536 * b[2] + 16777216 * b[3])
}

/// What reading a 32-bit integer at `var` gives over the arena contents `bytes`.
pub open spec fn read_spec(bytes: Seq<u8>, var: Variable) -> Result<i32, MemError> {
    if var.addr + 4 <= bytes.len() {
        Ok(le_value(bytes.subrange(var.addr as int, var.addr + 4)) as i32)
    } else {
        Err(MemError::OutOfBounds)
    }
}

/// Decoding the bytes of an integer gives the integer back.
pub proof fn lemma_le_round_trip(a: i32)
    ensures
        le_bytes(a).len() == 4,
        le_value(le_bytes(a)) == a as int,
{
    let u = unsigned_of(a as int);
    assert(0 <= u < 0x1_0000_0000);
    let b = le_bytes(a);
    assert(b[0] as int + 256 * b[1] + 65536 * b[2] + 16777216 * b[3] == u) by (nonlinear_arith)
        requires
            0 <= u < 0x1_0000_0000,
            b[0] == u % 256,
            b[1] == (u / 256) % 256,
            b[2] == (u / 65536) % 256,
            b[3] == (u / 16777216) % 256,
    ;
}

impl Memory {
    /// The bytes allocated so far.
    pub closed spec fn bytes(&self) -> Seq<u8> {
        self.mem@
    }

    /// The cursor stands at the end of what was written.
    pub closed spec fn wf(&self) -> bool {
        self.new_memory == self.mem@.len()
    }

    /// The offset of the next allocation.
    pub closed spec fn cursor(&self) -> nat {
        self.new_memory as nat
    }

    /// An empty arena.
    pub fn create_mem() -> (m: Memory)
        ensures
            m.wf(),
            m.bytes() == Seq::<u8>::empty(),
    {
        Memory { mem: Vec::with_capacity(200), new_memory: 0 }
    }

    /// Appends the four bytes of `a`, least significant first, and returns
    /// the offset at which they start.
    pub fn allocate(&mut self, a: i32) -> (r: usize)
        requires
            old(self).wf(),
            old(self).bytes().len() + 4 <= usize::MAX,
        ensures
            final(self).wf(),
            r == old(self).bytes().len(),
            final(self).bytes() == old(self).bytes() + le_bytes(a),
            read_spec(final(self).bytes(), Variable { addr: r, size: 4 }) == Ok::<i32, MemError>(a),
    {
        let u: u32 = if a < 0 {
            (a as i64 + 0x1_0000_0000i64) as u32
        } else {
            a as u32
        };
        let b0: u8 = (u % 256) as u8;
        let b1: u8 = ((u / 256) % 256) as u8;
        let b2: u8 = ((u / 65536) % 256) as u8;
        let b3: u8 = ((u / 16777216) % 256) as u8;
        let temp = self.new_memory;
        self.mem.push(b0);
        self.mem.push(b1);
        self.mem.push(b2);
        self.mem.push(b3);
        self.new_memory = temp + 4;
        proof {
            lemma_le_round_trip(a);
            assert(self.mem@ =~= old(self).mem@ + le_bytes(a));
            assert(self.mem@.subrange(temp as int, temp + 4) =~= le_bytes(a));
        }
        temp
    }

    /// The number of bytes allocated so far.
    pub fn used(&self) -> (r: usize)
        requires
            self.wf(),
        ensures
            r == self.bytes().len(),
    {
        self.new_memory
    }

    /// Reads the 32-bit integer stored at `var`.
    pub fn read(&self, var: &Variable) -> (r: Result<i32, MemError>)
        requires
            self.wf(),
        ensures
            r == read_spec(self.bytes(), *var),
    {
        if var.addr > self.new_memory || self.new_memory - var.addr < 4 {
            return Err(MemError::OutOfBounds);
        }
        let b0 = self.mem[var.addr] as u32;
        let b1 = self.mem[var.addr + 1] as u32;
        let b2 = self.mem[var.addr + 2] as u32;
        let b3 = self.mem[var.addr + 3] as u32;
        let u: u32 = b0 + 256 * b1 + 65536 * b2 + 16777216 * b3;
        proof {
            let s = self.mem@.subrange(var.addr as int, var.addr + 4);
            assert(s[0] == b0 && s[1] == b1 && s[2] == b2 && s[3] == b3);
        }
        let v: i32 = if u >= 0x8000_0000 {
            (u as i64 - 0x1_0000_0000i64) as i32
        } else {
            u as i32
        };
        Ok(v)
    }
}

} // verus!
