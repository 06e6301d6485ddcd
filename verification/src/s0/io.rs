//! Reading and writing s0 modules in their binary form.
//!
//! The format is big-endian: a 32-bit magic number, a 32-bit version, the
//! globals and the functions. Every vector is preceded by its length as a
//! 32-bit number.

use crate::opcodes::Op;
use crate::s0::{FnDef, FnDefView, GlobalValue, GlobalValueView, S0View, MAGIC_NUMBER, S0, VERSION};
use vstd::prelude::*;

verus! {

/// What the front of a byte sequence stands for.
pub enum Decoded<V> {
    /// A value, and the number of bytes that hold it.
    Value(V, nat),
    /// The bytes stand for no value.
    Invalid,
    /// The bytes end before the value does.
    Truncated,
}

/// The input ended inside a value.
#[derive(Debug, Copy, Clone, PartialEq, Eq, Structural)]
pub struct UnexpectedEof;

/// A position in a byte slice, from which values are read front to back.
pub struct Reader<'a> {
    bytes: &'a [u8],
    pos: usize,
}

impl<'a> Reader<'a> {
    /// All the bytes, read or not.
    pub closed spec fn bytes(&self) -> Seq<u8> {
        self.bytes@
    }

    /// The number of bytes read so far.
    pub closed spec fn position(&self) -> nat {
        self.pos as nat
    }

    /// The position lies within the bytes.
    pub closed spec fn wf(&self) -> bool {
        self.pos <= self.bytes@.len()
    }

    /// The bytes that are still to be read.
    pub open spec fn remaining(&self) -> Seq<u8> {
        self.bytes().skip(self.position() as int)
    }

    /// A reader at the front of `bytes`.
    pub fn new(bytes: &'a [u8]) -> (r: Self)
        ensures
            r.wf(),
            r.bytes() == bytes@,
            r.position() == 0,
    {
        Reader { bytes, pos: 0 }
    }

    /// The number of bytes read so far.
    pub fn pos(&self) -> (p: usize)
        ensures
            p == self.position(),
    {
        self.pos
    }

    /// The next byte, if there is one; the reader moves past it.
    pub fn next_byte(&mut self) -> (b: Option<u8>)
        requires
            old(self).wf(),
        ensures
            final(self).wf(),
            final(self).bytes() == old(self).bytes(),
            old(self).remaining().len() == 0 ==> b is None && final(self).position() == old(self).position(),
            old(self).remaining().len() > 0 ==> b == Some(old(self).remaining()[0]) && final(self).position() == old(self).position() + 1,
    {
        if self.pos < self.bytes.len() {
            let b = self.bytes[self.pos];
            self.pos = self.pos + 1;
            Some(b)
        } else {
            None
        }
    }
}

/// The four bytes of a 32-bit number, most significant first.
pub open spec fn u32_be_bytes(x: u32) -> Seq<u8> {
    seq![
        ((x >> 24) & 0xff) as u8,
        ((x >> 16) & 0xff) as u8,
        ((x >> 8) & 0xff) as u8,
        (x & 0xff) as u8,
    ]
}

/// The 32-bit number whose bytes, most significant first, are the first four of `b`.
pub open spec fn u32_from_be_bytes(b: Seq<u8>) -> u32 {
    ((b[0] as u32) << 24) | ((b[1] as u32) << 16) | ((b[2] as u32) << 8) | (b[3] as u32)
}

/// The eight bytes of a 64-bit number, most significant first.
pub open spec fn u64_be_bytes(x: u64) -> Seq<u8> {
    seq![
        ((x >> 56) & 0xff) as u8,
        ((x >> 48) & 0xff) as u8,
        ((x >> 40) & 0xff) as u8,
        ((x >> 32) & 0xff) as u8,
        ((x >> 24) & 0xff) as u8,
        ((x >> 16) & 0xff) as u8,
        ((x >> 8) & 0xff) as u8,
        (x & 0xff) as u8,
    ]
}

/// The 64-bit number whose bytes, most significant first, are the first eight of `b`.
pub open spec fn u64_from_be_bytes(b: Seq<u8>) -> u64 {
    ((b[0] as u64) << 56) | ((b[1] as u64) << 48) | ((b[2] as u64) << 40) | ((b[3] as u64) << 32)
        | ((b[4] as u64) << 24) | ((b[5] as u64) << 16) | ((b[6] as u64) << 8) | (b[7] as u64)
}

/// A 32-bit number is read back from its four bytes.
pub proof fn lemma_u32_be_round_trip(x: u32)
    ensures
        u32_from_be_bytes(u32_be_bytes(x)) == x,
{
    assert((((((x >> 24) & 0xff) as u8) as u32) << 24) | (((((x >> 16) & 0xff) as u8) as u32)
        << 16) | (((((x >> 8) & 0xff) as u8) as u32) << 8) | (((x & 0xff) as u8) as u32) == x)
        by (bit_vector);
}

/// A 64-bit number is read back from its eight bytes.
pub proof fn lemma_u64_be_round_trip(x: u64)
    ensures
        u64_from_be_bytes(u64_be_bytes(x)) == x,
{
    assert((((((x >> 56) & 0xff) as u8) as u64) << 56) | (((((x >> 48) & 0xff) as u8) as u64)
        << 48) | (((((x >> 40) & 0xff) as u8) as u64) << 40) | (((((x >> 32) & 0xff) as u8) as u64)
        << 32) | (((((x >> 24) & 0xff) as u8) as u64) << 24) | (((((x >> 16) & 0xff) as u8) as u64)
        << 16) | (((((x >> 8) & 0xff) as u8) as u64) << 8) | (((x & 0xff) as u8) as u64) == x)
        by (bit_vector);
}

fn byte_of_u32(x: u32, shift: u32) -> (b: u8)
    requires
        shift == 0 || shift == 8 || shift == 16 || shift == 24,
    ensures
        b == ((x >> shift) & 0xff) as u8,
{
    assert((x >> shift) & 0xff <= 0xff) by (bit_vector);
    ((x >> shift) & 0xff) as u8
}

fn byte_of_u64(x: u64, shift: u32) -> (b: u8)
    requires
        shift < 64,
    ensures
        b == ((x >> shift) & 0xff) as u8,
{
    assert((x >> shift) & 0xff <= 0xff) by (bit_vector);
    ((x >> shift) & 0xff) as u8
}

/// A value that has a binary form in an s0 module.
pub trait WriteBinary: Sized {
    /// The mathematical value that the binary form stands for.
    type Repr;

    /// The value that `self` holds.
    spec fn repr(&self) -> Self::Repr;

    /// Whether the binary form can hold `v`.
    spec fn encodable(v: Self::Repr) -> bool;

    /// The binary form of `v`.
    spec fn encode(v: Self::Repr) -> Seq<u8>;

    /// What the front of `bytes` stands for.
    spec fn decode(bytes: Seq<u8>) -> Decoded<Self::Repr>;

    /// Reading inverts writing: the binary form of an encodable value,
    /// whatever follows it, is read back as that value, and nothing of what
    /// follows is touched.
    proof fn lemma_round_trip(v: Self::Repr, rest: Seq<u8>)
        requires
            Self::encodable(v),
        ensures
            Self::decode(Self::encode(v) + rest) == Decoded::Value(v, Self::encode(v).len()),
    ;

    /// A value is held by bytes that are there.
    proof fn lemma_decode_within(bytes: Seq<u8>)
        ensures
            Self::decode(bytes) matches Decoded::Value(_, n) ==> n <= bytes.len(),
    ;

    /// Reads one value from the reader. Gives the value and moves past it
    /// where the remaining bytes begin with one; gives `Ok(None)` where they
    /// stand for none, and `Err` where they end too early.
    fn read_binary(r: &mut Reader) -> (res: Result<Option<Self>, UnexpectedEof>)
        requires
            old(r).wf(),
        ensures
            final(r).wf(),
            final(r).bytes() == old(r).bytes(),
            final(r).position() >= old(r).position(),
            match Self::decode(old(r).remaining()) {
                Decoded::Value(v, n) => res matches Ok(Some(x)) && x.repr() == v && final(r).position() == old(r).position() + n,
                Decoded::Invalid => res matches Ok(None),
                Decoded::Truncated => res is Err,
            },
    ;

    /// Appends the binary form of `self` to `w`.
    fn write_binary(&self, w: &mut Vec<u8>)
        ensures
            final(w)@ == old(w)@ + Self::encode(self.repr()),
    ;
}

impl WriteBinary for u8 {
    type Repr = u8;

    open spec fn repr(&self) -> u8 {
        *self
    }

    open spec fn encodable(v: u8) -> bool {
        true
    }

    open spec fn encode(v: u8) -> Seq<u8> {
        seq![v]
    }

    open spec fn decode(bytes: Seq<u8>) -> Decoded<u8> {
        if bytes.len() >= 1 {
            Decoded::Value(bytes[0], 1)
        } else {
            Decoded::Truncated
        }
    }

    proof fn lemma_round_trip(v: u8, rest: Seq<u8>) {
    }

    proof fn lemma_decode_within(bytes: Seq<u8>) {
    }

    fn read_binary(r: &mut Reader) -> (res: Result<Option<Self>, UnexpectedEof>) {
        match r.next_byte() {
            Some(b) => Ok(Some(b)),
            None => Err(UnexpectedEof),
        }
    }

    fn write_binary(&self, w: &mut Vec<u8>) {
        w.push(*self);
        assert(w@ =~= old(w)@ + seq![*self]);
    }
}

impl WriteBinary for u32 {
    type Repr = u32;

    open spec fn repr(&self) -> u32 {
        *self
    }

    open spec fn encodable(v: u32) -> bool {
        true
    }

    open spec fn encode(v: u32) -> Seq<u8> {
        u32_be_bytes(v)
    }

    open spec fn decode(bytes: Seq<u8>) -> Decoded<u32> {
        if bytes.len() >= 4 {
            Decoded::Value(u32_from_be_bytes(bytes), 4)
        } else {
            Decoded::Truncated
        }
    }

    proof fn lemma_round_trip(v: u32, rest: Seq<u8>) {
        lemma_u32_be_round_trip(v);
        let b = u32_be_bytes(v);
        let all = b + rest;
        assert(all[0] == b[0] && all[1] == b[1] && all[2] == b[2] && all[3] == b[3]);
    }

    proof fn lemma_decode_within(bytes: Seq<u8>) {
    }

    fn read_binary(r: &mut Reader) -> (res: Result<Option<Self>, UnexpectedEof>) {
        let ghost rem = r.remaining();
        let mut x: u32 = 0;
        let mut i: usize = 0;
        let mut buf: Vec<u8> = Vec::new();
        while i < 4
            invariant
                i <= 4,
                r.wf(),
                r.bytes() == old(r).bytes(),
                r.position() == old(r).position() + i,
                rem == old(r).remaining(),
                rem.len() >= i,
                buf@ == rem.take(i as int),
            decreases 4 - i,
        {
            assert(r.remaining() =~= rem.skip(i as int));
            match r.next_byte() {
                Some(b) => {
                    buf.push(b);
                    assert(buf@ =~= rem.take(i + 1));
                },
                None => {
                    return Err(UnexpectedEof);
                },
            }
            i = i + 1;
        }
        let x = ((buf[0] as u32) << 24) | ((buf[1] as u32) << 16) | ((buf[2] as u32) << 8) | (
        buf[3] as u32);
        Ok(Some(x))
    }

    fn write_binary(&self, w: &mut Vec<u8>) {
        let x = *self;
        w.push(byte_of_u32(x, 24));
        w.push(byte_of_u32(x, 16));
        w.push(byte_of_u32(x, 8));
        w.push(byte_of_u32(x, 0));
        assert((x >> 0u32) & 0xff == x & 0xff) by (bit_vector);
        assert(w@ =~= old(w)@ + u32_be_bytes(x));
    }
}

impl WriteBinary for u64 {
    type Repr = u64;

    open spec fn repr(&self) -> u64 {
        *self
    }

    open spec fn encodable(v: u64) -> bool {
        true
    }

    open spec fn encode(v: u64) -> Seq<u8> {
        u64_be_bytes(v)
    }

    open spec fn decode(bytes: Seq<u8>) -> Decoded<u64> {
        if bytes.len() >= 8 {
            Decoded::Value(u64_from_be_bytes(bytes), 8)
        } else {
            Decoded::Truncated
        }
    }

    proof fn lemma_round_trip(v: u64, rest: Seq<u8>) {
        lemma_u64_be_round_trip(v);
        let b = u64_be_bytes(v);
        let all = b + rest;
        assert(all[0] == b[0] && all[1] == b[1] && all[2] == b[2] && all[3] == b[3]);
        assert(all[4] == b[4] && all[5] == b[5] && all[6] == b[6] && all[7] == b[7]);
    }

    proof fn lemma_decode_within(bytes: Seq<u8>) {
    }

    fn read_binary(r: &mut Reader) -> (res: Result<Option<Self>, UnexpectedEof>) {
        let ghost rem = r.remaining();
        let mut i: usize = 0;
        let mut buf: Vec<u8> = Vec::new();
        while i < 8
            invariant
                i <= 8,
                r.wf(),
                r.bytes() == old(r).bytes(),
                r.position() == old(r).position() + i,
                rem == old(r).remaining(),
                rem.len() >= i,
                buf@ == rem.take(i as int),
            decreases 8 - i,
        {
            assert(r.remaining() =~= rem.skip(i as int));
            match r.next_byte() {
                Some(b) => {
                    buf.push(b);
                    assert(buf@ =~= rem.take(i + 1));
                },
                None => {
                    return Err(UnexpectedEof);
                },
            }
            i = i + 1;
        }
        let x = ((buf[0] as u64) << 56) | ((buf[1] as u64) << 48) | ((buf[2] as u64) << 40) | ((
        buf[3] as u64) << 32) | ((buf[4] as u64) << 24) | ((buf[5] as u64) << 16) | ((buf[6] as u64)
            << 8) | (buf[7] as u64);
        Ok(Some(x))
    }

    fn write_binary(&self, w: &mut Vec<u8>) {
        let x = *self;
        w.push(byte_of_u64(x, 56));
        w.push(byte_of_u64(x, 48));
        w.push(byte_of_u64(x, 40));
        w.push(byte_of_u64(x, 32));
        w.push(byte_of_u64(x, 24));
        w.push(byte_of_u64(x, 16));
        w.push(byte_of_u64(x, 8));
        w.push(byte_of_u64(x, 0));
        assert((x >> 0u32) & 0xff == x & 0xff) by (bit_vector);
        assert(w@ =~= old(w)@ + u64_be_bytes(x));
    }
}

/// The operand of an instruction as it stands behind the instruction byte:
/// nothing, the low word of the operand in four bytes, or the operand in eight.
pub open spec fn encode_operand(code: u8, param: u64) -> Seq<u8> {
    if Op::spec_param_size(code) == 0 {
        Seq::empty()
    } else if Op::spec_param_size(code) == 4 {
        u32_be_bytes(crate::opcodes::low_word(param))
    } else {
        u64_be_bytes(param)
    }
}

impl WriteBinary for Op {
    type Repr = Op;

    open spec fn repr(&self) -> Op {
        *self
    }

    open spec fn encodable(v: Op) -> bool {
        v.encodable()
    }

    open spec fn encode(v: Op) -> Seq<u8> {
        seq![v.spec_code()] + encode_operand(v.spec_code(), v.spec_code_param())
    }

    open spec fn decode(bytes: Seq<u8>) -> Decoded<Op> {
        if bytes.len() < 1 {
            Decoded::Truncated
        } else {
            let code = bytes[0];
            let size = Op::spec_param_size(code);
            if bytes.len() < 1 + size {
                Decoded::Truncated
            } else {
                let param = if size == 0 {
                    0u64
                } else if size == 4 {
                    u32_from_be_bytes(bytes.skip(1)) as u64
                } else {
                    u64_from_be_bytes(bytes.skip(1))
                };
                match Op::spec_from_code(code, param) {
                    Some(op) => Decoded::Value(op, (1 + size) as nat),
                    None => Decoded::Invalid,
                }
            }
        }
    }

    proof fn lemma_round_trip(v: Op, rest: Seq<u8>) {
        let code = v.spec_code();
        let param = v.spec_code_param();
        let operand = encode_operand(code, param);
        let all = Self::encode(v) + rest;
        v.lemma_from_code_inverts();
        v.lemma_code_param_width();
        assert(all[0] == code);
        assert(all.skip(1) =~= operand + rest);
        if Op::spec_param_size(code) == 4 {
            <u32 as WriteBinary>::lemma_round_trip(crate::opcodes::low_word(param), rest);
            assert(param <= u32::MAX ==> (crate::opcodes::low_word(param) as u64) == param)
                by (bit_vector);
        } else if Op::spec_param_size(code) == 8 {
            <u64 as WriteBinary>::lemma_round_trip(param, rest);
        }
    }

    proof fn lemma_decode_within(bytes: Seq<u8>) {
    }

    fn read_binary(r: &mut Reader) -> (res: Result<Option<Self>, UnexpectedEof>) {
        let ghost rem = r.remaining();
        let code = match r.next_byte() {
            Some(b) => b,
            None => {
                return Err(UnexpectedEof);
            },
        };
        assert(r.remaining() =~= rem.skip(1));
        let size = Op::param_size(code);
        let param: u64 = if size == 0 {
            0
        } else if size == 4 {
            match u32::read_binary(r) {
                Ok(Some(x)) => x as u64,
                Ok(None) => {
                    return Ok(None);
                },
                Err(e) => {
                    return Err(e);
                },
            }
        } else {
            match u64::read_binary(r) {
                Ok(Some(x)) => x,
                Ok(None) => {
                    return Ok(None);
                },
                Err(e) => {
                    return Err(e);
                },
            }
        };
        Ok(Op::from_code(code, param))
    }

    fn write_binary(&self, w: &mut Vec<u8>) {
        let code = self.code();
        let param = self.code_param();
        let size = Op::param_size(code);
        w.push(code);
        assert(w@ =~= old(w)@ + seq![code]);
        if size == 4 {
            assert(param & 0xffff_ffff <= 0xffff_ffff) by (bit_vector);
            let x = (param & 0xffff_ffff) as u32;
            x.write_binary(w);
        } else if size == 8 {
            param.write_binary(w);
        }
        assert(w@ =~= old(w)@ + (seq![code] + encode_operand(code, param)));
    }
}

/// The values that a sequence of items holds.
pub open spec fn repr_items<T: WriteBinary>(s: Seq<T>) -> Seq<T::Repr> {
    Seq::new(s.len(), |i: int| s[i].repr())
}

/// The binary forms of the items, one after the other.
pub open spec fn encode_items<T: WriteBinary>(s: Seq<T::Repr>) -> Seq<u8>
    decreases s.len(),
{
    if s.len() == 0 {
        Seq::empty()
    } else {
        T::encode(s[0]) + encode_items::<T>(s.skip(1))
    }
}

/// Puts items already read, and the bytes they took, in front of what the
/// bytes behind them stand for.
pub open spec fn join_decoded<V>(acc: Seq<V>, used: nat, d: Decoded<Seq<V>>) -> Decoded<Seq<V>> {
    match d {
        Decoded::Value(vs, m) => Decoded::Value(acc + vs, used + m),
        Decoded::Invalid => Decoded::Invalid,
        Decoded::Truncated => Decoded::Truncated,
    }
}

/// What the front of `bytes` stands for when read as `count` items in a row.
/// The first item that cannot be read decides how reading fails.
pub open spec fn decode_items<T: WriteBinary>(bytes: Seq<u8>, count: nat) -> Decoded<Seq<T::Repr>>
    decreases count,
{
    if count == 0 {
        Decoded::Value(Seq::empty(), 0)
    } else {
        match T::decode(bytes) {
            Decoded::Value(v, n) => join_decoded(
                seq![v],
                n,
                decode_items::<T>(bytes.skip(n as int), (count - 1) as nat),
            ),
            Decoded::Invalid => Decoded::Invalid,
            Decoded::Truncated => Decoded::Truncated,
        }
    }
}

/// Appending an item appends its binary form.
pub proof fn lemma_encode_items_push<T: WriteBinary>(s: Seq<T::Repr>, v: T::Repr)
    ensures
        encode_items::<T>(s.push(v)) == encode_items::<T>(s) + T::encode(v),
    decreases s.len(),
{
    if s.len() == 0 {
        assert(s.push(v).skip(1) =~= Seq::<T::Repr>::empty());
        assert(encode_items::<T>(Seq::<T::Repr>::empty()) =~= Seq::<u8>::empty());
        assert(encode_items::<T>(s.push(v)) =~= T::encode(v) + Seq::<u8>::empty());
        assert(encode_items::<T>(s) + T::encode(v) =~= T::encode(v));
        assert(T::encode(v) + Seq::<u8>::empty() =~= T::encode(v));
    } else {
        assert(s.push(v).skip(1) =~= s.skip(1).push(v));
        lemma_encode_items_push::<T>(s.skip(1), v);
        assert(s.push(v)[0] == s[0]);
        assert(T::encode(s[0]) + (encode_items::<T>(s.skip(1)) + T::encode(v)) =~= (T::encode(s[0])
            + encode_items::<T>(s.skip(1))) + T::encode(v));
    }
}

/// Items written one after the other are read back as they were, whatever
/// follows them.
pub proof fn lemma_items_round_trip<T: WriteBinary>(s: Seq<T::Repr>, rest: Seq<u8>)
    requires
        forall|i: int| 0 <= i < s.len() ==> T::encodable(#[trigger] s[i]),
    ensures
        decode_items::<T>(encode_items::<T>(s) + rest, s.len()) == Decoded::Value(
            s,
            encode_items::<T>(s).len(),
        ),
    decreases s.len(),
{
    if s.len() == 0 {
        assert(s =~= Seq::empty());
    } else {
        let head = T::encode(s[0]);
        let tail = encode_items::<T>(s.skip(1));
        let all = encode_items::<T>(s) + rest;
        assert(all =~= head + (tail + rest));
        T::lemma_round_trip(s[0], tail + rest);
        assert(all.skip(head.len() as int) =~= tail + rest);
        assert forall|i: int| 0 <= i < s.skip(1).len() implies T::encodable(
            #[trigger] s.skip(1)[i],
        ) by {
            assert(s.skip(1)[i] == s[i + 1]);
        }
        lemma_items_round_trip::<T>(s.skip(1), rest);
        assert(seq![s[0]] + s.skip(1) =~= s);
    }
}

/// Items are held by bytes that are there.
pub proof fn lemma_decode_items_within<T: WriteBinary>(bytes: Seq<u8>, count: nat)
    ensures
        decode_items::<T>(bytes, count) matches Decoded::Value(vs, n) ==> n <= bytes.len()
            && vs.len() == count,
    decreases count,
{
    if count > 0 {
        T::lemma_decode_within(bytes);
        if let Decoded::Value(v, n) = T::decode(bytes) {
            lemma_decode_items_within::<T>(bytes.skip(n as int), (count - 1) as nat);
        }
    }
}

/// Reading one more item extends what has been read.
proof fn lemma_join_step<T: WriteBinary>(
    acc: Seq<T::Repr>,
    used: nat,
    bytes: Seq<u8>,
    count: nat,
)
    requires
        count > 0,
        T::decode(bytes) is Value,
    ensures
        join_decoded(acc, used, decode_items::<T>(bytes, count)) == join_decoded(
            acc.push(T::decode(bytes)->Value_0),
            used + T::decode(bytes)->Value_1,
            decode_items::<T>(bytes.skip(T::decode(bytes)->Value_1 as int), (count - 1) as nat),
        ),
{
    let v = T::decode(bytes)->Value_0;
    let n = T::decode(bytes)->Value_1;
    let d = decode_items::<T>(bytes.skip(n as int), (count - 1) as nat);
    if let Decoded::Value(vs, m) = d {
        assert(acc + (seq![v] + vs) =~= acc.push(v) + vs);
    }
}

impl<T: WriteBinary> WriteBinary for Vec<T> {
    type Repr = Seq<T::Repr>;

    open spec fn repr(&self) -> Seq<T::Repr> {
        repr_items::<T>(self@)
    }

    open spec fn encodable(v: Seq<T::Repr>) -> bool {
        &&& v.len() <= u32::MAX
        &&& forall|i: int| 0 <= i < v.len() ==> T::encodable(#[trigger] v[i])
    }

    open spec fn encode(v: Seq<T::Repr>) -> Seq<u8> {
        u32_be_bytes(v.len() as u32) + encode_items::<T>(v)
    }

    open spec fn decode(bytes: Seq<u8>) -> Decoded<Seq<T::Repr>> {
        if bytes.len() < 4 {
            Decoded::Truncated
        } else {
            join_decoded(
                Seq::empty(),
                4,
                decode_items::<T>(bytes.skip(4), u32_from_be_bytes(bytes) as nat),
            )
        }
    }

    proof fn lemma_round_trip(v: Seq<T::Repr>, rest: Seq<u8>) {
        let n = v.len() as u32;
        let all = Self::encode(v) + rest;
        assert(all =~= u32_be_bytes(n) + (encode_items::<T>(v) + rest));
        <u32 as WriteBinary>::lemma_round_trip(n, encode_items::<T>(v) + rest);
        assert(all.skip(4) =~= encode_items::<T>(v) + rest);
        lemma_items_round_trip::<T>(v, rest);
        assert(Seq::<T::Repr>::empty() + v =~= v);
    }

    proof fn lemma_decode_within(bytes: Seq<u8>) {
        if bytes.len() >= 4 {
            lemma_decode_items_within::<T>(bytes.skip(4), u32_from_be_bytes(bytes) as nat);
        }
    }

    fn read_binary(r: &mut Reader) -> (res: Result<Option<Self>, UnexpectedEof>) {
        let ghost rem = r.remaining();
        let size = match u32::read_binary(r) {
            Ok(Some(x)) => x,
            Ok(None) => {
                return Ok(None);
            },
            Err(e) => {
                return Err(e);
            },
        };
        assert(r.remaining() =~= rem.skip(4));
        let ghost whole = decode_items::<T>(rem.skip(4), size as nat);
        let ghost start = r.position();
        let mut vec: Vec<T> = Vec::new();
        let mut i: u32 = 0;
        assert(Seq::<T::Repr>::empty() =~= repr_items::<T>(vec@));
        while i < size
            invariant
                i <= size,
                r.wf(),
                r.bytes() == old(r).bytes(),
                start == old(r).position() + 4,
                rem == old(r).remaining(),
                r.position() >= start,
                vec@.len() == i,
                whole == join_decoded(
                    repr_items::<T>(vec@),
                    (r.position() - start) as nat,
                    decode_items::<T>(r.remaining(), (size - i) as nat),
                ),
                Self::decode(rem) == join_decoded(Seq::empty(), 4, whole),
            decreases size - i,
        {
            let ghost here = r.remaining();
            let ghost before = vec@;
            proof {
                T::lemma_decode_within(here);
            }
            match T::read_binary(r) {
                Ok(Some(x)) => {
                    vec.push(x);
                    proof {
                        let n = T::decode(here)->Value_1;
                        lemma_join_step::<T>(
                            repr_items::<T>(before),
                            (r.position() - n - start) as nat,
                            here,
                            (size - i) as nat,
                        );
                        assert(r.remaining() =~= here.skip(n as int));
                        assert(repr_items::<T>(vec@) =~= repr_items::<T>(before).push(x.repr()));
                    }
                },
                Ok(None) => {
                    return Ok(None);
                },
                Err(e) => {
                    return Err(e);
                },
            }
            i = i + 1;
        }
        assert(repr_items::<T>(vec@) + Seq::<T::Repr>::empty() =~= repr_items::<T>(vec@));
        assert(Seq::<T::Repr>::empty() + repr_items::<T>(vec@) =~= repr_items::<T>(vec@));
        Ok(Some(vec))
    }

    fn write_binary(&self, w: &mut Vec<u8>) {
        let ghost items = repr_items::<T>(self@);
        #[verifier::truncate]
        let size = self.len() as u32;
        size.write_binary(w);
        let mut i: usize = 0;
        assert(items.take(0) =~= Seq::empty());
        while i < self.len()
            invariant
                i <= self.len(),
                items == repr_items::<T>(self@),
                w@ == old(w)@ + u32_be_bytes(self@.len() as u32) + encode_items::<T>(
                    items.take(i as int),
                ),
            decreases self.len() - i,
        {
            let ghost before = w@;
            self[i].write_binary(w);
            proof {
                lemma_encode_items_push::<T>(items.take(i as int), items[i as int]);
                assert(items.take(i as int).push(items[i as int]) =~= items.take(i + 1));
                assert(w@ =~= old(w)@ + u32_be_bytes(self@.len() as u32) + encode_items::<T>(
                    items.take(i + 1),
                ));
            }
            i = i + 1;
        }
        assert(items.take(i as int) =~= items);
        assert(w@ =~= old(w)@ + (u32_be_bytes(items.len() as u32) + encode_items::<T>(items)));
    }
}

/// A sequence of bytes holds itself.
pub proof fn lemma_repr_bytes(s: Seq<u8>)
    ensures
        repr_items::<u8>(s) == s,
{
    assert(repr_items::<u8>(s) =~= s);
}

/// A sequence of instructions holds itself.
pub proof fn lemma_repr_ops(s: Seq<Op>)
    ensures
        repr_items::<Op>(s) == s,
{
    assert(repr_items::<Op>(s) =~= s);
}

/// The byte that stands for a flag.
pub open spec fn flag_byte(b: bool) -> u8 {
    if b {
        1
    } else {
        0
    }
}

impl WriteBinary for GlobalValue {
    type Repr = GlobalValueView;

    open spec fn repr(&self) -> GlobalValueView {
        self@
    }

    open spec fn encodable(v: GlobalValueView) -> bool {
        <Vec<u8> as WriteBinary>::encodable(v.bytes)
    }

    open spec fn encode(v: GlobalValueView) -> Seq<u8> {
        seq![flag_byte(v.is_const)] + <Vec<u8> as WriteBinary>::encode(v.bytes)
    }

    open spec fn decode(bytes: Seq<u8>) -> Decoded<GlobalValueView> {
        if bytes.len() < 1 {
            Decoded::Truncated
        } else {
            match <Vec<u8> as WriteBinary>::decode(bytes.skip(1)) {
                Decoded::Value(payload, n) => Decoded::Value(
                    GlobalValueView { is_const: bytes[0] != 0, bytes: payload },
                    1 + n,
                ),
                Decoded::Invalid => Decoded::Invalid,
                Decoded::Truncated => Decoded::Truncated,
            }
        }
    }

    proof fn lemma_round_trip(v: GlobalValueView, rest: Seq<u8>) {
        let payload = <Vec<u8> as WriteBinary>::encode(v.bytes);
        let all = Self::encode(v) + rest;
        assert(all.skip(1) =~= payload + rest);
        assert(all[0] == flag_byte(v.is_const));
        <Vec<u8> as WriteBinary>::lemma_round_trip(v.bytes, rest);
    }

    proof fn lemma_decode_within(bytes: Seq<u8>) {
        if bytes.len() >= 1 {
            <Vec<u8> as WriteBinary>::lemma_decode_within(bytes.skip(1));
        }
    }

    fn read_binary(r: &mut Reader) -> (res: Result<Option<Self>, UnexpectedEof>) {
        let ghost rem = r.remaining();
        let is_const = match u8::read_binary(r) {
            Ok(Some(x)) => x,
            Ok(None) => {
                return Ok(None);
            },
            Err(e) => {
                return Err(e);
            },
        };
        assert(r.remaining() =~= rem.skip(1));
        let payload = match Vec::<u8>::read_binary(r) {
            Ok(Some(x)) => x,
            Ok(None) => {
                return Ok(None);
            },
            Err(e) => {
                return Err(e);
            },
        };
        proof {
            lemma_repr_bytes(payload@);
        }
        Ok(Some(GlobalValue { is_const: is_const != 0, bytes: payload }))
    }

    fn write_binary(&self, w: &mut Vec<u8>) {
        let flag: u8 = if self.is_const {
            1
        } else {
            0
        };
        flag.write_binary(w);
        self.bytes.write_binary(w);
        proof {
            lemma_repr_bytes(self.bytes@);
            assert(w@ =~= old(w)@ + Self::encode(self@));
        }
    }
}

/// The four counts at the head of a function definition, in their binary form.
pub open spec fn encode_fn_head(v: FnDefView) -> Seq<u8> {
    u32_be_bytes(v.name) + u32_be_bytes(v.ret_slots) + u32_be_bytes(v.param_slots) + u32_be_bytes(
        v.loc_slots,
    )
}

/// The four counts are read back from the head of a function definition,
/// whatever follows it, and what follows it begins behind its sixteen bytes.
pub proof fn lemma_fn_head_round_trip(v: FnDefView, tail: Seq<u8>)
    ensures
        (encode_fn_head(v) + tail).len() == 16 + tail.len(),
        u32_from_be_bytes(encode_fn_head(v) + tail) == v.name,
        u32_from_be_bytes((encode_fn_head(v) + tail).skip(4)) == v.ret_slots,
        u32_from_be_bytes((encode_fn_head(v) + tail).skip(8)) == v.param_slots,
        u32_from_be_bytes((encode_fn_head(v) + tail).skip(12)) == v.loc_slots,
        (encode_fn_head(v) + tail).skip(16) == tail,
{
    let a = u32_be_bytes(v.name);
    let b = u32_be_bytes(v.ret_slots);
    let c = u32_be_bytes(v.param_slots);
    let d = u32_be_bytes(v.loc_slots);
    let all = encode_fn_head(v) + tail;
    assert(all =~= a + (b + (c + (d + tail))));
    assert(all.skip(4) =~= b + (c + (d + tail)));
    assert(all.skip(8) =~= c + (d + tail));
    assert(all.skip(12) =~= d + tail);
    assert(all.skip(16) =~= tail);
    <u32 as WriteBinary>::lemma_round_trip(v.name, b + (c + (d + tail)));
    <u32 as WriteBinary>::lemma_round_trip(v.ret_slots, c + (d + tail));
    <u32 as WriteBinary>::lemma_round_trip(v.param_slots, d + tail);
    <u32 as WriteBinary>::lemma_round_trip(v.loc_slots, tail);
}

impl WriteBinary for FnDef {
    type Repr = FnDefView;

    open spec fn repr(&self) -> FnDefView {
        self@
    }

    open spec fn encodable(v: FnDefView) -> bool {
        <Vec<Op> as WriteBinary>::encodable(v.ins)
    }

    open spec fn encode(v: FnDefView) -> Seq<u8> {
        encode_fn_head(v) + <Vec<Op> as WriteBinary>::encode(v.ins)
    }

    open spec fn decode(bytes: Seq<u8>) -> Decoded<FnDefView> {
        if bytes.len() < 16 {
            Decoded::Truncated
        } else {
            match <Vec<Op> as WriteBinary>::decode(bytes.skip(16)) {
                Decoded::Value(ins, n) => Decoded::Value(
                    FnDefView {
                        name: u32_from_be_bytes(bytes),
                        ret_slots: u32_from_be_bytes(bytes.skip(4)),
                        param_slots: u32_from_be_bytes(bytes.skip(8)),
                        loc_slots: u32_from_be_bytes(bytes.skip(12)),
                        ins,
                    },
                    16 + n,
                ),
                Decoded::Invalid => Decoded::Invalid,
                Decoded::Truncated => Decoded::Truncated,
            }
        }
    }

    proof fn lemma_round_trip(v: FnDefView, rest: Seq<u8>) {
        let body = <Vec<Op> as WriteBinary>::encode(v.ins);
        let all = Self::encode(v) + rest;
        assert(all =~= encode_fn_head(v) + (body + rest));
        lemma_fn_head_round_trip(v, body + rest);
        <Vec<Op> as WriteBinary>::lemma_round_trip(v.ins, rest);
    }

    proof fn lemma_decode_within(bytes: Seq<u8>) {
        if bytes.len() >= 16 {
            <Vec<Op> as WriteBinary>::lemma_decode_within(bytes.skip(16));
        }
    }

    fn read_binary(r: &mut Reader) -> (res: Result<Option<Self>, UnexpectedEof>) {
        let ghost rem = r.remaining();
        let name = match u32::read_binary(r) {
            Ok(Some(x)) => x,
            Ok(None) => {
                return Ok(None);
            },
            Err(e) => {
                return Err(e);
            },
        };
        assert(r.remaining() =~= rem.skip(4));
        let ret_slots = match u32::read_binary(r) {
            Ok(Some(x)) => x,
            Ok(None) => {
                return Ok(None);
            },
            Err(e) => {
                return Err(e);
            },
        };
        assert(r.remaining() =~= rem.skip(8));
        let param_slots = match u32::read_binary(r) {
            Ok(Some(x)) => x,
            Ok(None) => {
                return Ok(None);
            },
            Err(e) => {
                return Err(e);
            },
        };
        assert(r.remaining() =~= rem.skip(12));
        let loc_slots = match u32::read_binary(r) {
            Ok(Some(x)) => x,
            Ok(None) => {
                return Ok(None);
            },
            Err(e) => {
                return Err(e);
            },
        };
        assert(r.remaining() =~= rem.skip(16));
        let ins = match Vec::<Op>::read_binary(r) {
            Ok(Some(x)) => x,
            Ok(None) => {
                return Ok(None);
            },
            Err(e) => {
                return Err(e);
            },
        };
        proof {
            lemma_repr_ops(ins@);
        }
        Ok(Some(FnDef { name, ret_slots, param_slots, loc_slots, ins }))
    }

    fn write_binary(&self, w: &mut Vec<u8>) {
        self.name.write_binary(w);
        self.ret_slots.write_binary(w);
        self.param_slots.write_binary(w);
        self.loc_slots.write_binary(w);
        self.ins.write_binary(w);
        proof {
            lemma_repr_ops(self.ins@);
            assert(w@ =~= old(w)@ + Self::encode(self@));
        }
    }
}

/// The magic number and the version, in their binary form.
pub open spec fn encode_header() -> Seq<u8> {
    u32_be_bytes(MAGIC_NUMBER) + u32_be_bytes(VERSION)
}

/// The magic number and the version are read back from the header, whatever
/// follows it, and what follows it begins behind its eight bytes.
pub proof fn lemma_header_round_trip(tail: Seq<u8>)
    ensures
        (encode_header() + tail).len() == 8 + tail.len(),
        u32_from_be_bytes(encode_header() + tail) == MAGIC_NUMBER,
        u32_from_be_bytes((encode_header() + tail).skip(4)) == VERSION,
        (encode_header() + tail).skip(8) == tail,
{
    let a = u32_be_bytes(MAGIC_NUMBER);
    let b = u32_be_bytes(VERSION);
    let all = encode_header() + tail;
    assert(all =~= a + (b + tail));
    assert(all.skip(4) =~= b + tail);
    assert(all.skip(8) =~= tail);
    <u32 as WriteBinary>::lemma_round_trip(MAGIC_NUMBER, b + tail);
    <u32 as WriteBinary>::lemma_round_trip(VERSION, tail);
}

/// The globals of a module are what its vector of globals holds.
pub proof fn lemma_repr_globals(s: Seq<GlobalValue>)
    ensures
        repr_items::<GlobalValue>(s) == Seq::new(s.len(), |i: int| s[i]@),
{
    assert(repr_items::<GlobalValue>(s) =~= Seq::new(s.len(), |i: int| s[i]@));
}

/// The functions of a module are what its vector of functions holds.
pub proof fn lemma_repr_functions(s: Seq<FnDef>)
    ensures
        repr_items::<FnDef>(s) == Seq::new(s.len(), |i: int| s[i]@),
{
    assert(repr_items::<FnDef>(s) =~= Seq::new(s.len(), |i: int| s[i]@));
}

impl WriteBinary for S0 {
    type Repr = S0View;

    open spec fn repr(&self) -> S0View {
        self@
    }

    open spec fn encodable(v: S0View) -> bool {
        &&& <Vec<GlobalValue> as WriteBinary>::encodable(v.globals)
        &&& <Vec<FnDef> as WriteBinary>::encodable(v.functions)
    }

    open spec fn encode(v: S0View) -> Seq<u8> {
        encode_header() + <Vec<GlobalValue> as WriteBinary>::encode(v.globals) + <Vec<
            FnDef,
        > as WriteBinary>::encode(v.functions)
    }

    open spec fn decode(bytes: Seq<u8>) -> Decoded<S0View> {
        if bytes.len() < 8 {
            Decoded::Truncated
        } else if u32_from_be_bytes(bytes) != MAGIC_NUMBER || u32_from_be_bytes(bytes.skip(4))
            != VERSION {
            Decoded::Invalid
        } else {
            match <Vec<GlobalValue> as WriteBinary>::decode(bytes.skip(8)) {
                Decoded::Value(globals, n) => match <Vec<FnDef> as WriteBinary>::decode(
                    bytes.skip(8 + n as int),
                ) {
                    Decoded::Value(functions, m) => Decoded::Value(
                        S0View { globals, functions },
                        8 + n + m,
                    ),
                    Decoded::Invalid => Decoded::Invalid,
                    Decoded::Truncated => Decoded::Truncated,
                },
                Decoded::Invalid => Decoded::Invalid,
                Decoded::Truncated => Decoded::Truncated,
            }
        }
    }

    proof fn lemma_round_trip(v: S0View, rest: Seq<u8>) {
        let g = <Vec<GlobalValue> as WriteBinary>::encode(v.globals);
        let f = <Vec<FnDef> as WriteBinary>::encode(v.functions);
        let all = Self::encode(v) + rest;
        let tail = g + (f + rest);
        assert(all =~= encode_header() + tail);
        lemma_header_round_trip(tail);
        <Vec<GlobalValue> as WriteBinary>::lemma_round_trip(v.globals, f + rest);
        assert(all.skip(8 + g.len() as int) =~= f + rest);
        <Vec<FnDef> as WriteBinary>::lemma_round_trip(v.functions, rest);
    }

    proof fn lemma_decode_within(bytes: Seq<u8>) {
        if bytes.len() >= 8 {
            <Vec<GlobalValue> as WriteBinary>::lemma_decode_within(bytes.skip(8));
            if let Decoded::Value(globals, n) = <Vec<GlobalValue> as WriteBinary>::decode(
                bytes.skip(8),
            ) {
                <Vec<FnDef> as WriteBinary>::lemma_decode_within(bytes.skip(8 + n as int));
            }
        }
    }

    fn read_binary(r: &mut Reader) -> (res: Result<Option<Self>, UnexpectedEof>) {
        let ghost rem = r.remaining();
        let magic_number = match u32::read_binary(r) {
            Ok(Some(x)) => x,
            Ok(None) => {
                return Ok(None);
            },
            Err(e) => {
                return Err(e);
            },
        };
        assert(r.remaining() =~= rem.skip(4));
        let version = match u32::read_binary(r) {
            Ok(Some(x)) => x,
            Ok(None) => {
                return Ok(None);
            },
            Err(e) => {
                return Err(e);
            },
        };
        assert(r.remaining() =~= rem.skip(8));
        if magic_number != MAGIC_NUMBER || version != VERSION {
            return Ok(None);
        }
        proof {
            <Vec<GlobalValue> as WriteBinary>::lemma_decode_within(rem.skip(8));
        }
        let globals = match Vec::<GlobalValue>::read_binary(r) {
            Ok(Some(x)) => x,
            Ok(None) => {
                return Ok(None);
            },
            Err(e) => {
                return Err(e);
            },
        };
        proof {
            let n = <Vec<GlobalValue> as WriteBinary>::decode(rem.skip(8))->Value_1;
            assert(r.remaining() =~= rem.skip(8 + n as int));
        }
        let functions = match Vec::<FnDef>::read_binary(r) {
            Ok(Some(x)) => x,
            Ok(None) => {
                return Ok(None);
            },
            Err(e) => {
                return Err(e);
            },
        };
        proof {
            lemma_repr_globals(globals@);
            lemma_repr_functions(functions@);
        }
        Ok(Some(S0 { globals, functions }))
    }

    fn write_binary(&self, w: &mut Vec<u8>) {
        MAGIC_NUMBER.write_binary(w);
        VERSION.write_binary(w);
        self.globals.write_binary(w);
        self.functions.write_binary(w);
        proof {
            lemma_repr_globals(self.globals@);
            lemma_repr_functions(self.functions@);
            assert(w@ =~= old(w)@ + Self::encode(self@));
        }
    }
}

impl S0 {
    /// The module in its binary form.
    pub fn to_bytes(&self) -> (bytes: Vec<u8>)
        ensures
            bytes@ == <S0 as WriteBinary>::encode(self@),
    {
        let mut bytes: Vec<u8> = Vec::new();
        self.write_binary(&mut bytes);
        assert(bytes@ =~= <S0 as WriteBinary>::encode(self@));
        bytes
    }

    /// The module that `bytes` begin with. Bytes that end too early or stand
    /// for no module are both a parse failure.
    pub fn from_bytes(bytes: &[u8]) -> (res: crate::error::Result<S0>)
        ensures
            match <S0 as WriteBinary>::decode(bytes@) {
                Decoded::Value(v, _) => res matches Ok(m) && m@ == v,
                _ => res == Err::<S0, crate::error::Error>(crate::error::Error::ParseError),
            },
    {
        let mut r = Reader::new(bytes);
        assert(r.remaining() =~= bytes@);
        match S0::read_binary(&mut r) {
            Ok(Some(m)) => Ok(m),
            _ => Err(crate::error::Error::ParseError),
        }
    }
}

/// A module that is written and read again is the module that was written:
/// for every module whose vectors have lengths that fit the 32-bit length
/// field and that holds no reserved instruction.
pub proof fn lemma_module_round_trip(m: S0View)
    requires
        <S0 as WriteBinary>::encodable(m),
    ensures
        <S0 as WriteBinary>::decode(<S0 as WriteBinary>::encode(m)) == Decoded::Value(
            m,
            <S0 as WriteBinary>::encode(m).len(),
        ),
{
    <S0 as WriteBinary>::lemma_round_trip(m, Seq::empty());
    assert(<S0 as WriteBinary>::encode(m) + Seq::<u8>::empty() =~= <S0 as WriteBinary>::encode(m));
}

/// An instruction that is written and read again is the instruction that was
/// written: for every instruction but the reserved absolute branch.
pub proof fn lemma_op_round_trip(op: Op)
    requires
        op.encodable(),
    ensures
        <Op as WriteBinary>::decode(<Op as WriteBinary>::encode(op)) == Decoded::Value(
            op,
            <Op as WriteBinary>::encode(op).len(),
        ),
{
    <Op as WriteBinary>::lemma_round_trip(op, Seq::empty());
    assert(<Op as WriteBinary>::encode(op) + Seq::<u8>::empty() =~= <Op as WriteBinary>::encode(
        op,
    ));
}

} // verus!
