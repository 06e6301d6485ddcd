//! Values as the bytes of a global.

use crate::vm::mem::le_byte;
use vstd::prelude::*;
use vstd::string::*;

verus! {

/// The low `n` bytes of a word, least significant first.
pub open spec fn le_bytes(x: u64, n: nat) -> Seq<u8> {
    Seq::new(n, |i: int| le_byte(x, i))
}

fn word_bytes(x: u64, n: usize) -> (v: Vec<u8>)
    requires
        n <= 8,
    ensures
        v@ == le_bytes(x, n as nat),
{
    let mut v: Vec<u8> = Vec::new();
    let mut k: usize = 0;
    while k < n
        invariant
            k <= n <= 8,
            v@ == le_bytes(x, k as nat),
        decreases n - k,
    {
        let shift: u64 = 8 * (k as u64);
        assert((x >> shift) & 0xff <= 0xff) by (bit_vector);
        v.push(((x >> shift) & 0xff) as u8);
        assert(v@ =~= le_bytes(x, (k + 1) as nat));
        k = k + 1;
    }
    v
}

/// A value that can be the content of a global. The machine is
/// little-endian: a number gives its bytes least significant first.
pub trait IntoBytes {
    /// The bytes of the value.
    spec fn spec_bytes_of(&self) -> Seq<u8>;

    fn into_bytes(&self) -> (v: Vec<u8>)
        ensures
            v@ == self.spec_bytes_of(),
    ;
}

impl IntoBytes for u8 {
    open spec fn spec_bytes_of(&self) -> Seq<u8> {
        le_bytes(*self as u64, 1)
    }

    fn into_bytes(&self) -> (v: Vec<u8>) {
        word_bytes(*self as u64, 1)
    }
}

impl IntoBytes for u16 {
    open spec fn spec_bytes_of(&self) -> Seq<u8> {
        le_bytes(*self as u64, 2)
    }

    fn into_bytes(&self) -> (v: Vec<u8>) {
        word_bytes(*self as u64, 2)
    }
}

impl IntoBytes for u32 {
    open spec fn spec_bytes_of(&self) -> Seq<u8> {
        le_bytes(*self as u64, 4)
    }

    fn into_bytes(&self) -> (v: Vec<u8>) {
        word_bytes(*self as u64, 4)
    }
}

impl IntoBytes for u64 {
    open spec fn spec_bytes_of(&self) -> Seq<u8> {
        le_bytes(*self, 8)
    }

    fn into_bytes(&self) -> (v: Vec<u8>) {
        word_bytes(*self, 8)
    }
}

impl IntoBytes for [u8] {
    open spec fn spec_bytes_of(&self) -> Seq<u8> {
        self@
    }

    fn into_bytes(&self) -> (v: Vec<u8>) {
        vstd::slice::slice_to_vec(self)
    }
}

impl IntoBytes for str {
    open spec fn spec_bytes_of(&self) -> Seq<u8> {
        self.spec_bytes()
    }

    fn into_bytes(&self) -> (v: Vec<u8>) {
        self.as_bytes_vec()
    }
}

} // verus!
