//! Bytecode chunks: a byte stream of encoded instructions with a parallel
//! table of source lines, one entry per byte.
use byteorder::{ByteOrder, LittleEndian};
use vstd::prelude::*;
use vstd::string::StringExecFns;

use crate::interner::StrId;

verus! {

/// Error returned when a byte does not name any known instruction.
#[derive(Debug, PartialEq, Eq, Structural)]
pub enum OpCodeError {
    _InvalidOpCode { opcode: u8 },
}

/// A chunk of encoded instructions; `lines[i]` is the source line of byte `code[i]`.
pub struct ByteCode {
    pub code: Vec<u8>,
    pub lines: Vec<usize>,
}

/// A forward or backward jump distance, in bytes.
pub struct JumpOffset(pub i16);

/// One instruction of the virtual machine together with its operands.
#[derive(Debug, PartialEq, Eq, Structural, Clone, Copy)]
pub enum OpCode {
    Constant(u16),
    GetGlobal(StrId),
    SetGlobal(StrId),
    SetLocal(u16),
    GetLocal(u16),
    GetUpvalue(u16),
    SetUpvalue(u16),
    Closure(u16),
    CloseUpvalue,
    DeclareGlobal(StrId),
    Jump(i16),
    JumpIfFalse(i16),
    Loop(i16),
    Call(u8),
    Ret,
    Pop,
    Add,
    Multiply,
    Subtract,
    Divide,
    Negate,
    Not,
    Print,
    True,
    False,
    Nil,
    Greater,
    Less,
    Equal,
    Class(u16),
    GetProperty(u16),
    SetProperty(u16),
    Method(u16),
    Invoke(u16, u8),
    Inherit,
    GetSuper(u16),
    SuperInvoke(u16, u8),
}

// ---------------------------------------------------------------------------
// The encoding, as mathematics
// ---------------------------------------------------------------------------

/// The little-endian 16-bit number made of the bytes `lo` and `hi`.
pub open spec fn u16_le(lo: u8, hi: u8) -> u16 {
    (lo as int + 256 * (hi as int)) as u16
}

/// The two little-endian bytes of `x`.
pub open spec fn u16_bytes(x: u16) -> Seq<u8> {
    seq![(x % 256) as u8, (x / 256) as u8]
}

/// The two little-endian bytes of the two's complement form of `x`.
pub open spec fn i16_bytes(x: i16) -> Seq<u8> {
    u16_bytes(x as u16)
}

/// The 16-bit number stored little-endian at `code[i]`, `code[i + 1]`.
pub open spec fn u16_at(code: Seq<u8>, i: int) -> u16 {
    u16_le(code[i], code[i + 1])
}

/// The signed 16-bit number stored little-endian at `code[i]`, `code[i + 1]`.
pub open spec fn i16_at(code: Seq<u8>, i: int) -> i16 {
    u16_at(code, i) as i16
}

/// The byte that identifies the instruction's kind: the variant's position, counted from 1.
pub open spec fn spec_tag(op: OpCode) -> u8 {
    match op {
        OpCode::Constant(_) => 1,
        OpCode::GetGlobal(_) => 2,
        OpCode::SetGlobal(_) => 3,
        OpCode::SetLocal(_) => 4,
        OpCode::GetLocal(_) => 5,
        OpCode::GetUpvalue(_) => 6,
        OpCode::SetUpvalue(_) => 7,
        OpCode::Closure(_) => 8,
        OpCode::CloseUpvalue => 9,
        OpCode::DeclareGlobal(_) => 10,
        OpCode::Jump(_) => 11,
        OpCode::JumpIfFalse(_) => 12,
        OpCode::Loop(_) => 13,
        OpCode::Call(_) => 14,
        OpCode::Ret => 15,
        OpCode::Pop => 16,
        OpCode::Add => 17,
        OpCode::Multiply => 18,
        OpCode::Subtract => 19,
        OpCode::Divide => 20,
        OpCode::Negate => 21,
        OpCode::Not => 22,
        OpCode::Print => 23,
        OpCode::True => 24,
        OpCode::False => 25,
        OpCode::Nil => 26,
        OpCode::Greater => 27,
        OpCode::Less => 28,
        OpCode::Equal => 29,
        OpCode::Class(_) => 30,
        OpCode::GetProperty(_) => 31,
        OpCode::SetProperty(_) => 32,
        OpCode::Method(_) => 33,
        OpCode::Invoke(_, _) => 34,
        OpCode::Inherit => 35,
        OpCode::GetSuper(_) => 36,
        OpCode::SuperInvoke(_, _) => 37,
    }
}

/// The operand bytes that follow the tag of `op`.
pub open spec fn spec_operands(op: OpCode) -> Seq<u8> {
    match op {
        OpCode::Constant(x) => u16_bytes(x),
        OpCode::GetGlobal(id) => u16_bytes(id.idx),
        OpCode::SetGlobal(id) => u16_bytes(id.idx),
        OpCode::SetLocal(x) => u16_bytes(x),
        OpCode::GetLocal(x) => u16_bytes(x),
        OpCode::GetUpvalue(x) => u16_bytes(x),
        OpCode::SetUpvalue(x) => u16_bytes(x),
        OpCode::Closure(x) => u16_bytes(x),
        OpCode::DeclareGlobal(id) => u16_bytes(id.idx),
        OpCode::Jump(x) => i16_bytes(x),
        OpCode::JumpIfFalse(x) => i16_bytes(x),
        OpCode::Loop(x) => i16_bytes(x),
        OpCode::Call(n) => seq![n],
        OpCode::Class(x) => u16_bytes(x),
        OpCode::GetProperty(x) => u16_bytes(x),
        OpCode::SetProperty(x) => u16_bytes(x),
        OpCode::Method(x) => u16_bytes(x),
        OpCode::Invoke(x, n) => u16_bytes(x).push(n),
        OpCode::GetSuper(x) => u16_bytes(x),
        OpCode::SuperInvoke(x, n) => u16_bytes(x).push(n),
        _ => Seq::empty(),
    }
}

/// The full encoding of an instruction: its tag byte, then its operands.
pub open spec fn spec_encode(op: OpCode) -> Seq<u8> {
    seq![spec_tag(op)] + spec_operands(op)
}

/// How many operand bytes follow a tag; `-1` for a byte that is no tag.
pub open spec fn operand_len(tag: u8) -> int {
    if tag == 0 || tag > 37 {
        -1
    } else if tag == 14 {
        1
    } else if tag == 34 || tag == 37 {
        3
    } else if tag == 9 || (15 <= tag <= 29) || tag == 35 {
        0
    } else {
        2
    }
}

/// The instruction that starts at `code[ip]` and its size in bytes, or `None` where
/// `ip` is past the end or the byte there is no tag.
pub open spec fn spec_decode(code: Seq<u8>, ip: int) -> Option<(OpCode, nat)> {
    if ip < 0 || ip >= code.len() {
        None
    } else {
        let t = code[ip];
        let a = u16_at(code, ip + 1);
        let j = i16_at(code, ip + 1);
        if t == 1 { Some((OpCode::Constant(a), 3)) }
        else if t == 2 { Some((OpCode::GetGlobal(StrId { idx: a }), 3)) }
        else if t == 3 { Some((OpCode::SetGlobal(StrId { idx: a }), 3)) }
        else if t == 4 { Some((OpCode::SetLocal(a), 3)) }
        else if t == 5 { Some((OpCode::GetLocal(a), 3)) }
        else if t == 6 { Some((OpCode::GetUpvalue(a), 3)) }
        else if t == 7 { Some((OpCode::SetUpvalue(a), 3)) }
        else if t == 8 { Some((OpCode::Closure(a), 3)) }
        else if t == 9 { Some((OpCode::CloseUpvalue, 1)) }
        else if t == 10 { Some((OpCode::DeclareGlobal(StrId { idx: a }), 3)) }
        else if t == 11 { Some((OpCode::Jump(j), 3)) }
        else if t == 12 { Some((OpCode::JumpIfFalse(j), 3)) }
        else if t == 13 { Some((OpCode::Loop(j), 3)) }
        else if t == 14 { Some((OpCode::Call(code[ip + 1]), 2)) }
        else if t == 15 { Some((OpCode::Ret, 1)) }
        else if t == 16 { Some((OpCode::Pop, 1)) }
        else if t == 17 { Some((OpCode::Add, 1)) }
        else if t == 18 { Some((OpCode::Multiply, 1)) }
        else if t == 19 { Some((OpCode::Subtract, 1)) }
        else if t == 20 { Some((OpCode::Divide, 1)) }
        else if t == 21 { Some((OpCode::Negate, 1)) }
        else if t == 22 { Some((OpCode::Not, 1)) }
        else if t == 23 { Some((OpCode::Print, 1)) }
        else if t == 24 { Some((OpCode::True, 1)) }
        else if t == 25 { Some((OpCode::False, 1)) }
        else if t == 26 { Some((OpCode::Nil, 1)) }
        else if t == 27 { Some((OpCode::Greater, 1)) }
        else if t == 28 { Some((OpCode::Less, 1)) }
        else if t == 29 { Some((OpCode::Equal, 1)) }
        else if t == 30 { Some((OpCode::Class(a), 3)) }
        else if t == 31 { Some((OpCode::GetProperty(a), 3)) }
        else if t == 32 { Some((OpCode::SetProperty(a), 3)) }
        else if t == 33 { Some((OpCode::Method(a), 3)) }
        else if t == 34 { Some((OpCode::Invoke(a, code[ip + 3]), 4)) }
        else if t == 35 { Some((OpCode::Inherit, 1)) }
        else if t == 36 { Some((OpCode::GetSuper(a), 3)) }
        else if t == 37 { Some((OpCode::SuperInvoke(a, code[ip + 3]), 4)) }
        else { None }
    }
}

/// The operands of the instruction at `ip`, if there is one, lie within `code`.
pub open spec fn operands_fit(code: Seq<u8>, ip: int) -> bool {
    0 <= ip < code.len() && operand_len(code[ip]) >= 0 ==> ip + 1 + operand_len(code[ip]) <= code.len()
}

// ---------------------------------------------------------------------------
// Trusted calls into byteorder
// ---------------------------------------------------------------------------

/// Calls `byteorder::LittleEndian::read_u16`, which reads the first two bytes of
/// `buf` as a little-endian number; it panics on a shorter buffer.
#[verifier::external_body]
fn le_read_u16(buf: &[u8]) -> (r: u16)
    requires
        buf@.len() >= 2,
    ensures
        r == u16_le(buf@[0], buf@[1]),
{
    LittleEndian::read_u16(buf)
}

/// Calls `byteorder::LittleEndian::read_i16`, which reads the first two bytes of
/// `buf` as a little-endian two's complement number; it panics on a shorter buffer.
#[verifier::external_body]
fn le_read_i16(buf: &[u8]) -> (r: i16)
    requires
        buf@.len() >= 2,
    ensures
        r == u16_le(buf@[0], buf@[1]) as i16,
{
    LittleEndian::read_i16(buf)
}

// ---------------------------------------------------------------------------
// Byte-level lemmas
// ---------------------------------------------------------------------------

/// Splitting a 16-bit number into its two bytes and joining them back gives the number.
pub proof fn lemma_u16_bytes_roundtrip(x: u16)
    ensures
        u16_le(u16_bytes(x)[0], u16_bytes(x)[1]) == x,
{
}

/// The same for a signed 16-bit number stored in two's complement.
pub proof fn lemma_i16_bytes_roundtrip(x: i16)
    ensures
        u16_le(i16_bytes(x)[0], i16_bytes(x)[1]) as i16 == x,
{
    let u = x as u16;
    lemma_u16_bytes_roundtrip(u);
    assert((x as u16) as i16 == x) by (bit_vector);
}

fn low_byte(x: u16) -> (r: u8)
    ensures
        r == x % 256,
{
    let r = (x & 0xff) as u8;
    assert((x & 0xff) == x % 256) by (bit_vector);
    r
}

fn high_byte(x: u16) -> (r: u8)
    ensures
        r == x / 256,
{
    let r = (x >> 8) as u8;
    assert((x >> 8) == x / 256) by (bit_vector);
    r
}

/// The two's complement form of `x` as an unsigned number.
fn i16_as_u16(x: i16) -> (r: u16)
    ensures
        r == x as u16,
{
    x as u16
}

// ---------------------------------------------------------------------------
// Operations
// ---------------------------------------------------------------------------

impl JumpOffset {
    /// The distance from `start` to `end`, truncated to 16 bits.
    pub fn new(start: usize, end: usize) -> (r: Self)
        requires
            start <= end,
        ensures
            r.0 == (end - start) as i16,
    {
        JumpOffset((end - start) as i16)
    }
}

impl From<JumpOffset> for i16 {
    fn from(value: JumpOffset) -> (r: i16) {
        value.0
    }
}

impl vstd::std_specs::convert::FromSpecImpl<JumpOffset> for i16 {
    open spec fn obeys_from_spec() -> bool {
        true
    }

    open spec fn from_spec(v: JumpOffset) -> i16 {
        v.0
    }
}

impl OpCode {
    /// The tag byte of this instruction.
    pub fn tag(&self) -> (t: u8)
        ensures
            t == spec_tag(*self),
    {
        match self {
            OpCode::Constant(_) => 1,
            OpCode::GetGlobal(_) => 2,
            OpCode::SetGlobal(_) => 3,
            OpCode::SetLocal(_) => 4,
            OpCode::GetLocal(_) => 5,
            OpCode::GetUpvalue(_) => 6,
            OpCode::SetUpvalue(_) => 7,
            OpCode::Closure(_) => 8,
            OpCode::CloseUpvalue => 9,
            OpCode::DeclareGlobal(_) => 10,
            OpCode::Jump(_) => 11,
            OpCode::JumpIfFalse(_) => 12,
            OpCode::Loop(_) => 13,
            OpCode::Call(_) => 14,
            OpCode::Ret => 15,
            OpCode::Pop => 16,
            OpCode::Add => 17,
            OpCode::Multiply => 18,
            OpCode::Subtract => 19,
            OpCode::Divide => 20,
            OpCode::Negate => 21,
            OpCode::Not => 22,
            OpCode::Print => 23,
            OpCode::True => 24,
            OpCode::False => 25,
            OpCode::Nil => 26,
            OpCode::Greater => 27,
            OpCode::Less => 28,
            OpCode::Equal => 29,
            OpCode::Class(_) => 30,
            OpCode::GetProperty(_) => 31,
            OpCode::SetProperty(_) => 32,
            OpCode::Method(_) => 33,
            OpCode::Invoke(_, _) => 34,
            OpCode::Inherit => 35,
            OpCode::GetSuper(_) => 36,
            OpCode::SuperInvoke(_, _) => 37,
        }
    }
}

impl ByteCode {
    /// Every byte has exactly one line entry.
    pub open spec fn wf(&self) -> bool {
        self.code@.len() == self.lines@.len()
    }

    /// An empty chunk.
    pub fn new() -> (r: Self)
        ensures
            r.code@ == Seq::<u8>::empty(),
            r.lines@ == Seq::<usize>::empty(),
            r.wf(),
    {
        ByteCode { code: Vec::new(), lines: Vec::new() }
    }

    /// The source line of the byte at `ip`.
    pub fn line(&self, ip: usize) -> (r: usize)
        requires
            ip < self.lines@.len(),
        ensures
            r == self.lines@[ip as int],
    {
        self.lines[ip]
    }

    /// The number of bytes in the chunk.
    pub fn size(&self) -> (r: usize)
        ensures
            r == self.code@.len(),
    {
        self.code.len()
    }

    /// The byte at `ip`.
    pub fn get_byte(&self, ip: usize) -> (r: u8)
        requires
            ip < self.code@.len(),
        ensures
            r == self.code@[ip as int],
    {
        self.code[ip]
    }

    /// The little-endian 16-bit number at `ip`.
    pub fn read_u16(&self, ip: usize) -> (r: u16)
        requires
            ip + 2 <= self.code@.len(),
        ensures
            r == u16_at(self.code@, ip as int),
    {
        let rest = vstd::slice::slice_subrange(self.code.as_slice(), ip, self.code.len());
        le_read_u16(rest)
    }

    /// The little-endian signed 16-bit number at `ip`.
    pub fn read_i16(&self, ip: usize) -> (r: i16)
        requires
            ip + 2 <= self.code@.len(),
        ensures
            r == i16_at(self.code@, ip as int),
    {
        let rest = vstd::slice::slice_subrange(self.code.as_slice(), ip, self.code.len());
        le_read_i16(rest)
    }

    /// The byte at `ip`.
    pub fn read_u8(&self, ip: usize) -> (r: u8)
        requires
            ip < self.code@.len(),
        ensures
            r == self.code@[ip as int],
    {
        self.code[ip]
    }

    /// Decodes the instruction at `ip` and its size in bytes; `None` past the end or
    /// where the byte at `ip` is no instruction tag.
    pub fn read_next(&self, ip: usize) -> (r: Option<Result<(OpCode, usize), OpCodeError>>)
        requires
            operands_fit(self.code@, ip as int),
        ensures
            r == (match spec_decode(self.code@, ip as int) {
                None => None,
                Some((op, n)) => Some(Ok::<(OpCode, usize), OpCodeError>((op, n as usize))),
            }),
    {
        if self.code.len() <= ip {
            return None;
        }
        let t = self.get_byte(ip);
        let p = ip + 1;
        let op: OpCode;
        let size: usize;
        if t == 1 {
            op = OpCode::Constant(self.read_u16(p));
            size = 3;
        } else if t == 2 {
            op = OpCode::GetGlobal(StrId { idx: self.read_u16(p) });
            size = 3;
        } else if t == 3 {
            op = OpCode::SetGlobal(StrId { idx: self.read_u16(p) });
            size = 3;
        } else if t == 4 {
            op = OpCode::SetLocal(self.read_u16(p));
            size = 3;
        } else if t == 5 {
            op = OpCode::GetLocal(self.read_u16(p));
            size = 3;
        } else if t == 6 {
            op = OpCode::GetUpvalue(self.read_u16(p));
            size = 3;
        } else if t == 7 {
            op = OpCode::SetUpvalue(self.read_u16(p));
            size = 3;
        } else if t == 8 {
            op = OpCode::Closure(self.read_u16(p));
            size = 3;
        } else if t == 9 {
            op = OpCode::CloseUpvalue;
            size = 1;
        } else if t == 10 {
            op = OpCode::DeclareGlobal(StrId { idx: self.read_u16(p) });
            size = 3;
        } else if t == 11 {
            op = OpCode::Jump(self.read_i16(p));
            size = 3;
        } else if t == 12 {
            op = OpCode::JumpIfFalse(self.read_i16(p));
            size = 3;
        } else if t == 13 {
            op = OpCode::Loop(self.read_i16(p));
            size = 3;
        } else if t == 14 {
            op = OpCode::Call(self.code[p]);
            size = 2;
        } else if t == 15 {
            op = OpCode::Ret;
            size = 1;
        } else if t == 16 {
            op = OpCode::Pop;
            size = 1;
        } else if t == 17 {
            op = OpCode::Add;
            size = 1;
        } else if t == 18 {
            op = OpCode::Multiply;
            size = 1;
        } else if t == 19 {
            op = OpCode::Subtract;
            size = 1;
        } else if t == 20 {
            op = OpCode::Divide;
            size = 1;
        } else if t == 21 {
            op = OpCode::Negate;
            size = 1;
        } else if t == 22 {
            op = OpCode::Not;
            size = 1;
        } else if t == 23 {
            op = OpCode::Print;
            size = 1;
        } else if t == 24 {
            op = OpCode::True;
            size = 1;
        } else if t == 25 {
            op = OpCode::False;
            size = 1;
        } else if t == 26 {
            op = OpCode::Nil;
            size = 1;
        } else if t == 27 {
            op = OpCode::Greater;
            size = 1;
        } else if t == 28 {
            op = OpCode::Less;
            size = 1;
        } else if t == 29 {
            op = OpCode::Equal;
            size = 1;
        } else if t == 30 {
            op = OpCode::Class(self.read_u16(p));
            size = 3;
        } else if t == 31 {
            op = OpCode::GetProperty(self.read_u16(p));
            size = 3;
        } else if t == 32 {
            op = OpCode::SetProperty(self.read_u16(p));
            size = 3;
        } else if t == 33 {
            op = OpCode::Method(self.read_u16(p));
            size = 3;
        } else if t == 34 {
            op = OpCode::Invoke(self.read_u16(p), self.read_u8(p + 2));
            size = 4;
        } else if t == 35 {
            op = OpCode::Inherit;
            size = 1;
        } else if t == 36 {
            op = OpCode::GetSuper(self.read_u16(p));
            size = 3;
        } else if t == 37 {
            op = OpCode::SuperInvoke(self.read_u16(p), self.read_u8(p + 2));
            size = 4;
        } else {
            return None;
        }
        Some(Ok((op, size)))
    }

    /// Overwrites the `N` bytes at `pos` with `bytes`; the line table is unchanged.
    pub fn patch_bytes<const N: usize>(&mut self, pos: usize, bytes: [u8; N])
        requires
            pos + N <= old(self).code@.len(),
        ensures
            final(self).code@ == old(self).code@.take(pos as int) + bytes@ + old(self).code@.skip(
                pos + N,
            ),
            final(self).lines@ == old(self).lines@,
    {
        let ghost start = self.code@;
        let len = self.code.len();
        let mut i: usize = 0;
        while i < N
            invariant
                0 <= i <= N,
                pos + N <= start.len(),
                start.len() == len,
                self.code@.len() == start.len(),
                self.lines@ == old(self).lines@,
                forall|k: int| 0 <= k < pos ==> self.code@[k] == start[k],
                forall|k: int| 0 <= k < i ==> self.code@[pos + k] == bytes@[k],
                forall|k: int| pos + i <= k < start.len() ==> self.code@[k] == start[k],
            decreases N - i,
        {
            self.code.set(pos + i, bytes[i]);
            i = i + 1;
        }
        assert(self.code@ =~= start.take(pos as int) + bytes@ + start.skip(pos + N));
    }

    /// Overwrites the two bytes at `pos` with the little-endian form of `offset`.
    pub fn patch_offset(&mut self, pos: usize, offset: JumpOffset)
        requires
            pos + 2 <= old(self).code@.len(),
        ensures
            final(self).code@ == old(self).code@.take(pos as int) + i16_bytes(offset.0)
                + old(self).code@.skip(pos + 2),
            final(self).lines@ == old(self).lines@,
    {
        let u = i16_as_u16(offset.0);
        let bytes: [u8; 2] = [low_byte(u), high_byte(u)];
        assert(bytes@ =~= i16_bytes(offset.0));
        self.patch_bytes(pos, bytes);
    }

    /// Appends one byte, recorded at `line`.
    pub fn write_byte(&mut self, byte: u8, line: usize)
        ensures
            final(self).code@ == old(self).code@.push(byte),
            final(self).lines@ == old(self).lines@.push(line),
    {
        self.code.push(byte);
        self.lines.push(line);
    }

    /// Appends a little-endian 16-bit number, both bytes recorded at `line`.
    pub fn write_u16(&mut self, byte: u16, line: usize)
        ensures
            final(self).code@ == old(self).code@ + u16_bytes(byte),
            final(self).lines@ == old(self).lines@.push(line).push(line),
    {
        self.code.push(low_byte(byte));
        self.code.push(high_byte(byte));
        self.lines.push(line);
        self.lines.push(line);
        assert(self.code@ =~= old(self).code@ + u16_bytes(byte));
    }

    /// Appends the encoding of `op`; every byte written is recorded at `line`.
    pub fn write_op(&mut self, op: OpCode, line: usize)
        ensures
            final(self).code@ == old(self).code@ + spec_encode(op),
            final(self).lines@ == old(self).lines@ + Seq::new(
                spec_encode(op).len(),
                |i: int| line,
            ),
    {
        let ghost start = self.code@;
        self.code.push(op.tag());
        let count: usize = match op {
            OpCode::Constant(x) => self.write_one_u16(x),
            OpCode::GetGlobal(id) => self.write_one_u16(id.idx),
            OpCode::SetGlobal(id) => self.write_one_u16(id.idx),
            OpCode::SetLocal(x) => self.write_one_u16(x),
            OpCode::GetLocal(x) => self.write_one_u16(x),
            OpCode::GetUpvalue(x) => self.write_one_u16(x),
            OpCode::SetUpvalue(x) => self.write_one_u16(x),
            OpCode::Closure(x) => self.write_one_u16(x),
            OpCode::DeclareGlobal(id) => self.write_one_u16(id.idx),
            OpCode::Jump(x) => self.write_one_u16(i16_as_u16(x)),
            OpCode::JumpIfFalse(x) => self.write_one_u16(i16_as_u16(x)),
            OpCode::Loop(x) => self.write_one_u16(i16_as_u16(x)),
            OpCode::Call(n) => {
                self.code.push(n);
                1
            },
            OpCode::Class(x) => self.write_one_u16(x),
            OpCode::GetProperty(x) => self.write_one_u16(x),
            OpCode::SetProperty(x) => self.write_one_u16(x),
            OpCode::Method(x) => self.write_one_u16(x),
            OpCode::Invoke(x, n) => {
                self.write_one_u16(x);
                self.code.push(n);
                3
            },
            OpCode::GetSuper(x) => self.write_one_u16(x),
            OpCode::SuperInvoke(x, n) => {
                self.write_one_u16(x);
                self.code.push(n);
                3
            },
            _ => 0,
        };
        assert(self.code@ =~= start + spec_encode(op));
        let ghost lines0 = self.lines@;
        let mut k: usize = 0;
        while k < count + 1
            invariant
                count + 1 == spec_encode(op).len(),
                0 <= k <= count + 1,
                self.lines@ =~= lines0 + Seq::new(k as nat, |i: int| line),
                lines0 == old(self).lines@,
                self.code@ == start + spec_encode(op),
                start == old(self).code@,
            decreases count + 1 - k,
        {
            self.lines.push(line);
            k = k + 1;
        }
    }

    /// Appends the little-endian bytes of `x` to the code (not to the line table).
    fn write_one_u16(&mut self, x: u16) -> (n: usize)
        ensures
            final(self).code@ == old(self).code@ + u16_bytes(x),
            final(self).lines@ == old(self).lines@,
            n == 2,
    {
        self.code.push(low_byte(x));
        self.code.push(high_byte(x));
        assert(self.code@ =~= old(self).code@ + u16_bytes(x));
        2
    }
}

impl Default for ByteCode {
    fn default() -> (r: Self)
        ensures
            r.code@ == Seq::<u8>::empty(),
            r.lines@ == Seq::<usize>::empty(),
    {
        ByteCode::new()
    }
}

impl Clone for ByteCode {
    fn clone(&self) -> (r: Self)
        ensures
            r.code@ == self.code@,
            r.lines@ == self.lines@,
    {
        ByteCode { code: self.code.clone(), lines: self.lines.clone() }
    }
}

// ---------------------------------------------------------------------------
// Instruction kinds
// ---------------------------------------------------------------------------

/// The kind of an instruction, without its operands.
#[derive(Debug, PartialEq, Eq, Structural, Clone, Copy)]
pub enum OpCodeTypes {
    Constant,
    GetGlobal,
    SetGlobal,
    SetLocal,
    GetLocal,
    GetUpvalue,
    SetUpvalue,
    Closure,
    CloseUpvalue,
    DeclareGlobal,
    Jump,
    JumpIfFalse,
    Loop,
    Call,
    Ret,
    Pop,
    Add,
    Multiply,
    Subtract,
    Divide,
    Negate,
    Not,
    Print,
    True,
    False,
    Nil,
    Greater,
    Less,
    Equal,
    Class,
    GetProperty,
    SetProperty,
    Method,
    Invoke,
    Inherit,
    GetSuper,
    SuperInvoke,
}

/// The kind whose tag byte is `t`, if any.
pub open spec fn spec_kind_of_tag(t: u8) -> Option<OpCodeTypes> {
    if t == 1 {
        Some(OpCodeTypes::Constant)
    } else if t == 2 {
        Some(OpCodeTypes::GetGlobal)
    } else if t == 3 {
        Some(OpCodeTypes::SetGlobal)
    } else if t == 4 {
        Some(OpCodeTypes::SetLocal)
    } else if t == 5 {
        Some(OpCodeTypes::GetLocal)
    } else if t == 6 {
        Some(OpCodeTypes::GetUpvalue)
    } else if t == 7 {
        Some(OpCodeTypes::SetUpvalue)
    } else if t == 8 {
        Some(OpCodeTypes::Closure)
    } else if t == 9 {
        Some(OpCodeTypes::CloseUpvalue)
    } else if t == 10 {
        Some(OpCodeTypes::DeclareGlobal)
    } else if t == 11 {
        Some(OpCodeTypes::Jump)
    } else if t == 12 {
        Some(OpCodeTypes::JumpIfFalse)
    } else if t == 13 {
        Some(OpCodeTypes::Loop)
    } else if t == 14 {
        Some(OpCodeTypes::Call)
    } else if t == 15 {
        Some(OpCodeTypes::Ret)
    } else if t == 16 {
        Some(OpCodeTypes::Pop)
    } else if t == 17 {
        Some(OpCodeTypes::Add)
    } else if t == 18 {
        Some(OpCodeTypes::Multiply)
    } else if t == 19 {
        Some(OpCodeTypes::Subtract)
    } else if t == 20 {
        Some(OpCodeTypes::Divide)
    } else if t == 21 {
        Some(OpCodeTypes::Negate)
    } else if t == 22 {
        Some(OpCodeTypes::Not)
    } else if t == 23 {
        Some(OpCodeTypes::Print)
    } else if t == 24 {
        Some(OpCodeTypes::True)
    } else if t == 25 {
        Some(OpCodeTypes::False)
    } else if t == 26 {
        Some(OpCodeTypes::Nil)
    } else if t == 27 {
        Some(OpCodeTypes::Greater)
    } else if t == 28 {
        Some(OpCodeTypes::Less)
    } else if t == 29 {
        Some(OpCodeTypes::Equal)
    } else if t == 30 {
        Some(OpCodeTypes::Class)
    } else if t == 31 {
        Some(OpCodeTypes::GetProperty)
    } else if t == 32 {
        Some(OpCodeTypes::SetProperty)
    } else if t == 33 {
        Some(OpCodeTypes::Method)
    } else if t == 34 {
        Some(OpCodeTypes::Invoke)
    } else if t == 35 {
        Some(OpCodeTypes::Inherit)
    } else if t == 36 {
        Some(OpCodeTypes::GetSuper)
    } else if t == 37 {
        Some(OpCodeTypes::SuperInvoke)
    } else {
        None
    }
}

/// The name of a kind, as it is printed.
pub open spec fn spec_kind_name(k: OpCodeTypes) -> Seq<char> {
    match k {
        OpCodeTypes::Constant => "Constant"@,
        OpCodeTypes::GetGlobal => "GetGlobal"@,
        OpCodeTypes::SetGlobal => "SetGlobal"@,
        OpCodeTypes::SetLocal => "SetLocal"@,
        OpCodeTypes::GetLocal => "GetLocal"@,
        OpCodeTypes::GetUpvalue => "GetUpvalue"@,
        OpCodeTypes::SetUpvalue => "SetUpvalue"@,
        OpCodeTypes::Closure => "Closure"@,
        OpCodeTypes::CloseUpvalue => "CloseUpvalue"@,
        OpCodeTypes::DeclareGlobal => "DeclareGlobal"@,
        OpCodeTypes::Jump => "Jump"@,
        OpCodeTypes::JumpIfFalse => "JumpIfFalse"@,
        OpCodeTypes::Loop => "Loop"@,
        OpCodeTypes::Call => "Call"@,
        OpCodeTypes::Ret => "Ret"@,
        OpCodeTypes::Pop => "Pop"@,
        OpCodeTypes::Add => "Add"@,
        OpCodeTypes::Multiply => "Multiply"@,
        OpCodeTypes::Subtract => "Subtract"@,
        OpCodeTypes::Divide => "Divide"@,
        OpCodeTypes::Negate => "Negate"@,
        OpCodeTypes::Not => "Not"@,
        OpCodeTypes::Print => "Print"@,
        OpCodeTypes::True => "True"@,
        OpCodeTypes::False => "False"@,
        OpCodeTypes::Nil => "Nil"@,
        OpCodeTypes::Greater => "Greater"@,
        OpCodeTypes::Less => "Less"@,
        OpCodeTypes::Equal => "Equal"@,
        OpCodeTypes::Class => "Class"@,
        OpCodeTypes::GetProperty => "GetProperty"@,
        OpCodeTypes::SetProperty => "SetProperty"@,
        OpCodeTypes::Method => "Method"@,
        OpCodeTypes::Invoke => "Invoke"@,
        OpCodeTypes::Inherit => "Inherit"@,
        OpCodeTypes::GetSuper => "GetSuper"@,
        OpCodeTypes::SuperInvoke => "SuperInvoke"@,
    }
}

/// The kind of an instruction.
pub open spec fn spec_kind(op: OpCode) -> OpCodeTypes {
    match op {
        OpCode::Constant(_) => OpCodeTypes::Constant,
        OpCode::GetGlobal(_) => OpCodeTypes::GetGlobal,
        OpCode::SetGlobal(_) => OpCodeTypes::SetGlobal,
        OpCode::SetLocal(_) => OpCodeTypes::SetLocal,
        OpCode::GetLocal(_) => OpCodeTypes::GetLocal,
        OpCode::GetUpvalue(_) => OpCodeTypes::GetUpvalue,
        OpCode::SetUpvalue(_) => OpCodeTypes::SetUpvalue,
        OpCode::Closure(_) => OpCodeTypes::Closure,
        OpCode::CloseUpvalue => OpCodeTypes::CloseUpvalue,
        OpCode::DeclareGlobal(_) => OpCodeTypes::DeclareGlobal,
        OpCode::Jump(_) => OpCodeTypes::Jump,
        OpCode::JumpIfFalse(_) => OpCodeTypes::JumpIfFalse,
        OpCode::Loop(_) => OpCodeTypes::Loop,
        OpCode::Call(_) => OpCodeTypes::Call,
        OpCode::Ret => OpCodeTypes::Ret,
        OpCode::Pop => OpCodeTypes::Pop,
        OpCode::Add => OpCodeTypes::Add,
        OpCode::Multiply => OpCodeTypes::Multiply,
        OpCode::Subtract => OpCodeTypes::Subtract,
        OpCode::Divide => OpCodeTypes::Divide,
        OpCode::Negate => OpCodeTypes::Negate,
        OpCode::Not => OpCodeTypes::Not,
        OpCode::Print => OpCodeTypes::Print,
        OpCode::True => OpCodeTypes::True,
        OpCode::False => OpCodeTypes::False,
        OpCode::Nil => OpCodeTypes::Nil,
        OpCode::Greater => OpCodeTypes::Greater,
        OpCode::Less => OpCodeTypes::Less,
        OpCode::Equal => OpCodeTypes::Equal,
        OpCode::Class(_) => OpCodeTypes::Class,
        OpCode::GetProperty(_) => OpCodeTypes::GetProperty,
        OpCode::SetProperty(_) => OpCodeTypes::SetProperty,
        OpCode::Method(_) => OpCodeTypes::Method,
        OpCode::Invoke(_, _) => OpCodeTypes::Invoke,
        OpCode::Inherit => OpCodeTypes::Inherit,
        OpCode::GetSuper(_) => OpCodeTypes::GetSuper,
        OpCode::SuperInvoke(_, _) => OpCodeTypes::SuperInvoke,
    }
}

impl OpCodeTypes {
    /// The kind whose tag byte is `t`.
    pub fn from_repr(t: u8) -> (r: Option<OpCodeTypes>)
        ensures
            r == spec_kind_of_tag(t),
    {
        if t == 1 {
            Some(OpCodeTypes::Constant)
        } else if t == 2 {
            Some(OpCodeTypes::GetGlobal)
        } else if t == 3 {
            Some(OpCodeTypes::SetGlobal)
        } else if t == 4 {
            Some(OpCodeTypes::SetLocal)
        } else if t == 5 {
            Some(OpCodeTypes::GetLocal)
        } else if t == 6 {
            Some(OpCodeTypes::GetUpvalue)
        } else if t == 7 {
            Some(OpCodeTypes::SetUpvalue)
        } else if t == 8 {
            Some(OpCodeTypes::Closure)
        } else if t == 9 {
            Some(OpCodeTypes::CloseUpvalue)
        } else if t == 10 {
            Some(OpCodeTypes::DeclareGlobal)
        } else if t == 11 {
            Some(OpCodeTypes::Jump)
        } else if t == 12 {
            Some(OpCodeTypes::JumpIfFalse)
        } else if t == 13 {
            Some(OpCodeTypes::Loop)
        } else if t == 14 {
            Some(OpCodeTypes::Call)
        } else if t == 15 {
            Some(OpCodeTypes::Ret)
        } else if t == 16 {
            Some(OpCodeTypes::Pop)
        } else if t == 17 {
            Some(OpCodeTypes::Add)
        } else if t == 18 {
            Some(OpCodeTypes::Multiply)
        } else if t == 19 {
            Some(OpCodeTypes::Subtract)
        } else if t == 20 {
            Some(OpCodeTypes::Divide)
        } else if t == 21 {
            Some(OpCodeTypes::Negate)
        } else if t == 22 {
            Some(OpCodeTypes::Not)
        } else if t == 23 {
            Some(OpCodeTypes::Print)
        } else if t == 24 {
            Some(OpCodeTypes::True)
        } else if t == 25 {
            Some(OpCodeTypes::False)
        } else if t == 26 {
            Some(OpCodeTypes::Nil)
        } else if t == 27 {
            Some(OpCodeTypes::Greater)
        } else if t == 28 {
            Some(OpCodeTypes::Less)
        } else if t == 29 {
            Some(OpCodeTypes::Equal)
        } else if t == 30 {
            Some(OpCodeTypes::Class)
        } else if t == 31 {
            Some(OpCodeTypes::GetProperty)
        } else if t == 32 {
            Some(OpCodeTypes::SetProperty)
        } else if t == 33 {
            Some(OpCodeTypes::Method)
        } else if t == 34 {
            Some(OpCodeTypes::Invoke)
        } else if t == 35 {
            Some(OpCodeTypes::Inherit)
        } else if t == 36 {
            Some(OpCodeTypes::GetSuper)
        } else if t == 37 {
            Some(OpCodeTypes::SuperInvoke)
        } else {
            None
        }
    }

    /// The name of the kind, as it is printed.
    pub fn name(&self) -> (r: String)
        ensures
            r@ == spec_kind_name(*self),
    {
        match self {
            OpCodeTypes::Constant => String::from_str("Constant"),
            OpCodeTypes::GetGlobal => String::from_str("GetGlobal"),
            OpCodeTypes::SetGlobal => String::from_str("SetGlobal"),
            OpCodeTypes::SetLocal => String::from_str("SetLocal"),
            OpCodeTypes::GetLocal => String::from_str("GetLocal"),
            OpCodeTypes::GetUpvalue => String::from_str("GetUpvalue"),
            OpCodeTypes::SetUpvalue => String::from_str("SetUpvalue"),
            OpCodeTypes::Closure => String::from_str("Closure"),
            OpCodeTypes::CloseUpvalue => String::from_str("CloseUpvalue"),
            OpCodeTypes::DeclareGlobal => String::from_str("DeclareGlobal"),
            OpCodeTypes::Jump => String::from_str("Jump"),
            OpCodeTypes::JumpIfFalse => String::from_str("JumpIfFalse"),
            OpCodeTypes::Loop => String::from_str("Loop"),
            OpCodeTypes::Call => String::from_str("Call"),
            OpCodeTypes::Ret => String::from_str("Ret"),
            OpCodeTypes::Pop => String::from_str("Pop"),
            OpCodeTypes::Add => String::from_str("Add"),
            OpCodeTypes::Multiply => String::from_str("Multiply"),
            OpCodeTypes::Subtract => String::from_str("Subtract"),
            OpCodeTypes::Divide => String::from_str("Divide"),
            OpCodeTypes::Negate => String::from_str("Negate"),
            OpCodeTypes::Not => String::from_str("Not"),
            OpCodeTypes::Print => String::from_str("Print"),
            OpCodeTypes::True => String::from_str("True"),
            OpCodeTypes::False => String::from_str("False"),
            OpCodeTypes::Nil => String::from_str("Nil"),
            OpCodeTypes::Greater => String::from_str("Greater"),
            OpCodeTypes::Less => String::from_str("Less"),
            OpCodeTypes::Equal => String::from_str("Equal"),
            OpCodeTypes::Class => String::from_str("Class"),
            OpCodeTypes::GetProperty => String::from_str("GetProperty"),
            OpCodeTypes::SetProperty => String::from_str("SetProperty"),
            OpCodeTypes::Method => String::from_str("Method"),
            OpCodeTypes::Invoke => String::from_str("Invoke"),
            OpCodeTypes::Inherit => String::from_str("Inherit"),
            OpCodeTypes::GetSuper => String::from_str("GetSuper"),
            OpCodeTypes::SuperInvoke => String::from_str("SuperInvoke"),
        }
    }
}

impl OpCode {
    /// The kind of this instruction.
    pub fn kind(&self) -> (r: OpCodeTypes)
        ensures
            r == spec_kind(*self),
    {
        match self {
            OpCode::Constant(_) => OpCodeTypes::Constant,
            OpCode::GetGlobal(_) => OpCodeTypes::GetGlobal,
            OpCode::SetGlobal(_) => OpCodeTypes::SetGlobal,
            OpCode::SetLocal(_) => OpCodeTypes::SetLocal,
            OpCode::GetLocal(_) => OpCodeTypes::GetLocal,
            OpCode::GetUpvalue(_) => OpCodeTypes::GetUpvalue,
            OpCode::SetUpvalue(_) => OpCodeTypes::SetUpvalue,
            OpCode::Closure(_) => OpCodeTypes::Closure,
            OpCode::CloseUpvalue => OpCodeTypes::CloseUpvalue,
            OpCode::DeclareGlobal(_) => OpCodeTypes::DeclareGlobal,
            OpCode::Jump(_) => OpCodeTypes::Jump,
            OpCode::JumpIfFalse(_) => OpCodeTypes::JumpIfFalse,
            OpCode::Loop(_) => OpCodeTypes::Loop,
            OpCode::Call(_) => OpCodeTypes::Call,
            OpCode::Ret => OpCodeTypes::Ret,
            OpCode::Pop => OpCodeTypes::Pop,
            OpCode::Add => OpCodeTypes::Add,
            OpCode::Multiply => OpCodeTypes::Multiply,
            OpCode::Subtract => OpCodeTypes::Subtract,
            OpCode::Divide => OpCodeTypes::Divide,
            OpCode::Negate => OpCodeTypes::Negate,
            OpCode::Not => OpCodeTypes::Not,
            OpCode::Print => OpCodeTypes::Print,
            OpCode::True => OpCodeTypes::True,
            OpCode::False => OpCodeTypes::False,
            OpCode::Nil => OpCodeTypes::Nil,
            OpCode::Greater => OpCodeTypes::Greater,
            OpCode::Less => OpCodeTypes::Less,
            OpCode::Equal => OpCodeTypes::Equal,
            OpCode::Class(_) => OpCodeTypes::Class,
            OpCode::GetProperty(_) => OpCodeTypes::GetProperty,
            OpCode::SetProperty(_) => OpCodeTypes::SetProperty,
            OpCode::Method(_) => OpCodeTypes::Method,
            OpCode::Invoke(_, _) => OpCodeTypes::Invoke,
            OpCode::Inherit => OpCodeTypes::Inherit,
            OpCode::GetSuper(_) => OpCodeTypes::GetSuper,
            OpCode::SuperInvoke(_, _) => OpCodeTypes::SuperInvoke,
        }
    }
}

/// The kind of an instruction is the kind its tag byte names.
pub proof fn lemma_kind_matches_tag(op: OpCode)
    ensures
        spec_kind_of_tag(spec_tag(op)) == Some(spec_kind(op)),
{
}

// ---------------------------------------------------------------------------
// Laws
// ---------------------------------------------------------------------------

/// Reading back what was written: the instruction encoded at the end of any chunk, followed
/// by any further bytes, decodes to the same instruction with the size of its encoding.
pub proof fn lemma_decode_encode(prefix: Seq<u8>, op: OpCode, suffix: Seq<u8>)
    ensures
        spec_decode(prefix + spec_encode(op) + suffix, prefix.len() as int) == Some(
            (op, spec_encode(op).len()),
        ),
        operands_fit(prefix + spec_encode(op) + suffix, prefix.len() as int),
{
    let code = prefix + spec_encode(op) + suffix;
    let ip = prefix.len() as int;
    assert(code[ip] == spec_tag(op));
    assert forall|k: int| 0 <= k < spec_operands(op).len() implies code[ip + 1 + k]
        == spec_operands(op)[k] by {
        assert(code[ip + 1 + k] == spec_encode(op)[1 + k]);
    }
    match op {
        OpCode::Jump(x) => {
            lemma_i16_bytes_roundtrip(x);
        },
        OpCode::JumpIfFalse(x) => {
            lemma_i16_bytes_roundtrip(x);
        },
        OpCode::Loop(x) => {
            lemma_i16_bytes_roundtrip(x);
        },
        OpCode::Constant(x) => {
            lemma_u16_bytes_roundtrip(x);
        },
        OpCode::GetGlobal(id) => {
            lemma_u16_bytes_roundtrip(id.idx);
        },
        OpCode::SetGlobal(id) => {
            lemma_u16_bytes_roundtrip(id.idx);
        },
        OpCode::DeclareGlobal(id) => {
            lemma_u16_bytes_roundtrip(id.idx);
        },
        OpCode::SetLocal(x) => {
            lemma_u16_bytes_roundtrip(x);
        },
        OpCode::GetLocal(x) => {
            lemma_u16_bytes_roundtrip(x);
        },
        OpCode::GetUpvalue(x) => {
            lemma_u16_bytes_roundtrip(x);
        },
        OpCode::SetUpvalue(x) => {
            lemma_u16_bytes_roundtrip(x);
        },
        OpCode::Closure(x) => {
            lemma_u16_bytes_roundtrip(x);
        },
        OpCode::Class(x) => {
            lemma_u16_bytes_roundtrip(x);
        },
        OpCode::GetProperty(x) => {
            lemma_u16_bytes_roundtrip(x);
        },
        OpCode::SetProperty(x) => {
            lemma_u16_bytes_roundtrip(x);
        },
        OpCode::Method(x) => {
            lemma_u16_bytes_roundtrip(x);
        },
        OpCode::GetSuper(x) => {
            lemma_u16_bytes_roundtrip(x);
        },
        OpCode::Invoke(x, _) => {
            lemma_u16_bytes_roundtrip(x);
        },
        OpCode::SuperInvoke(x, _) => {
            lemma_u16_bytes_roundtrip(x);
        },
        _ => {},
    }
}

/// Writing an instruction and then reading at the old end of the chunk gives back that
/// instruction and the number of bytes that were written.
pub proof fn lemma_write_then_read(before: Seq<u8>, after: Seq<u8>, op: OpCode)
    requires
        after == before + spec_encode(op),
    ensures
        operands_fit(after, before.len() as int),
        spec_decode(after, before.len() as int) == Some((op, spec_encode(op).len())),
        after.len() == before.len() + spec_encode(op).len(),
{
    lemma_decode_encode(before, op, Seq::empty());
    assert(before + spec_encode(op) + Seq::<u8>::empty() =~= after);
}

} // verus!
