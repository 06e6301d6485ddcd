//! The memory of the machine: the address space, the heap and its buffers,
//! and how scalars lie in buffers and in stack slots.
//!
//! Addresses below `STACK_START` belong to the heap, the others to the stack:
//! slot `i` of the stack lies at `STACK_START + 8 * i`. Scalars are
//! little-endian, in a heap buffer as in a stack slot.

use crate::error::{Error, Result};
use vstd::prelude::*;

verus! {

/// The first address that the heap hands out.
pub const HEAP_START: u64 = 0x0000_0001_0000_0000;

/// The address of stack slot 0.
pub const STACK_START: u64 = 0xffff_ffff_0000_0000;

/// The width of a memory access.
#[derive(Debug, Copy, Clone, PartialEq, Eq, Structural)]
pub enum Width {
    W8,
    W16,
    W32,
    W64,
}

impl Width {
    /// The number of bytes of an access of this width.
    pub open spec fn spec_bytes(self) -> nat {
        match self {
            Width::W8 => 1,
            Width::W16 => 2,
            Width::W32 => 4,
            Width::W64 => 8,
        }
    }

    /// The bits that a scalar of this width can have.
    pub open spec fn spec_mask(self) -> u64 {
        match self {
            Width::W8 => 0xff,
            Width::W16 => 0xffff,
            Width::W32 => 0xffff_ffff,
            Width::W64 => 0xffff_ffff_ffff_ffff,
        }
    }

    /// The number of bytes of an access of this width.
    pub fn bytes(self) -> (n: usize)
        ensures
            n == self.spec_bytes(),
    {
        match self {
            Width::W8 => 1,
            Width::W16 => 2,
            Width::W32 => 4,
            Width::W64 => 8,
        }
    }

    /// The bits that a scalar of this width can have.
    pub fn mask(self) -> (m: u64)
        ensures
            m == self.spec_mask(),
    {
        match self {
            Width::W8 => 0xff,
            Width::W16 => 0xffff,
            Width::W32 => 0xffff_ffff,
            Width::W64 => 0xffff_ffff_ffff_ffff,
        }
    }
}

/// The address of stack slot `idx`.
pub open spec fn spec_stack_addr(idx: nat) -> int {
    STACK_START + 8 * idx
}

/// The address of stack slot `idx`.
pub fn stack_idx_to_vm_addr(idx: usize) -> (addr: u64)
    requires
        spec_stack_addr(idx as nat) <= u64::MAX,
    ensures
        addr == spec_stack_addr(idx as nat),
{
    STACK_START + (idx as u64) * 8
}

/// The stack slot that holds a stack address, and the byte of the slot at
/// which the address points.
pub fn vm_addr_to_stack_idx(addr: u64) -> (r: (usize, usize))
    requires
        addr >= STACK_START,
    ensures
        r.0 == (addr - STACK_START) / 8,
        r.1 == (addr - STACK_START) % 8,
        spec_stack_addr(r.0 as nat) + r.1 == addr,
{
    let off = addr - STACK_START;
    let idx = off / 8;
    let off = off % 8;
    (idx as usize, off as usize)
}

/// The least multiple of `mult` that is not below `x`: `x` itself where it
/// is a multiple.
pub open spec fn spec_round_up(x: int, mult: int) -> int {
    if x % mult == 0 {
        x
    } else {
        x + (mult - x % mult)
    }
}

/// Rounds `x` up to a multiple of `mult`: gives the least multiple of
/// `mult` that is not below `x`.
pub fn round_up_to_multiple(x: u64, mult: u64) -> (r: u64)
    requires
        mult > 0,
        spec_round_up(x as int, mult as int) <= u64::MAX,
    ensures
        r == spec_round_up(x as int, mult as int),
        r % mult == 0,
        x <= r < x + mult,
{
    proof {
        lemma_round_up_is_multiple(x as int, mult as int);
    }
    let rem = x % mult;
    if rem == 0 {
        x
    } else {
        x + (mult - rem)
    }
}

/// The result of rounding up is the least multiple of the step that is not
/// below the number.
pub proof fn lemma_round_up_is_multiple(x: int, mult: int)
    requires
        x >= 0,
        mult > 0,
    ensures
        spec_round_up(x, mult) % mult == 0,
        x <= spec_round_up(x, mult) < x + mult,
{
    vstd::arithmetic::div_mod::lemma_fundamental_div_mod(x, mult);
    let q = x / mult;
    if x % mult != 0 {
        assert(spec_round_up(x, mult) == mult * (q + 1)) by (nonlinear_arith)
            requires
                x == mult * q + x % mult,
                spec_round_up(x, mult) == x + (mult - x % mult),
        ;
        vstd::arithmetic::div_mod::lemma_mod_multiples_basic(q + 1, mult);
        assert(mult * (q + 1) == (q + 1) * mult) by (nonlinear_arith);
    }
}

/// No multiple of the step lies between the number and the result of
/// rounding it up.
pub proof fn lemma_round_up_is_least(x: int, mult: int, m: int)
    requires
        x >= 0,
        mult > 0,
        m % mult == 0,
        m >= x,
    ensures
        m >= spec_round_up(x, mult),
{
    lemma_round_up_is_multiple(x, mult);
    let r = spec_round_up(x, mult);
    if m < r {
        vstd::arithmetic::div_mod::lemma_fundamental_div_mod(m, mult);
        vstd::arithmetic::div_mod::lemma_fundamental_div_mod(r, mult);
        let k = m / mult;
        let q = r / mult;
        assert(false) by (nonlinear_arith)
            requires
                mult > 0,
                m == mult * k,
                r == mult * q,
                m < r,
                r < m + mult,
        ;
    }
}

/// The scalar of the given width that lies little-endian at `off` in `b`.
pub open spec fn le_read(b: Seq<u8>, off: int, width: Width) -> u64 {
    match width {
        Width::W8 => b[off] as u64,
        Width::W16 => (b[off] as u64) | ((b[off + 1] as u64) << 8),
        Width::W32 => (b[off] as u64) | ((b[off + 1] as u64) << 8) | ((b[off + 2] as u64) << 16)
            | ((b[off + 3] as u64) << 24),
        Width::W64 => (b[off] as u64) | ((b[off + 1] as u64) << 8) | ((b[off + 2] as u64) << 16)
            | ((b[off + 3] as u64) << 24) | ((b[off + 4] as u64) << 32) | ((b[off + 5] as u64)
            << 40) | ((b[off + 6] as u64) << 48) | ((b[off + 7] as u64) << 56),
    }
}

/// Byte `k` of a word, counted from the least significant.
pub open spec fn le_byte(val: u64, k: int) -> u8 {
    ((val >> ((8 * k) as u64)) & 0xff) as u8
}

/// `b` with the low bytes of `val` written little-endian at `off`, as many as
/// the width says.
pub open spec fn le_write(b: Seq<u8>, off: int, width: Width, val: u64) -> Seq<u8> {
    Seq::new(
        b.len(),
        |i: int|
            if off <= i < off + width.spec_bytes() {
                le_byte(val, i - off)
            } else {
                b[i]
            },
    )
}

/// The field of the given width at byte `off` of a slot.
pub open spec fn slot_read(slot: u64, off: int, width: Width) -> u64 {
    (slot >> ((8 * off) as u64)) & width.spec_mask()
}

/// The slot with the field of the given width at byte `off` set to the low
/// bits of `val`.
pub open spec fn slot_write(slot: u64, off: int, width: Width, val: u64) -> u64 {
    (slot & !(width.spec_mask() << ((8 * off) as u64))) | ((val & width.spec_mask()) << ((8
        * off) as u64))
}

/// The field of the given width at byte `off` of a slot.
pub fn read_slot_field(slot: u64, off: usize, width: Width) -> (r: u64)
    requires
        off < 8,
    ensures
        r == slot_read(slot, off as int, width),
{
    let shift: u64 = 8 * (off as u64);
    (slot >> shift) & width.mask()
}

/// The slot with the field of the given width at byte `off` set to the low
/// bits of `val`.
pub fn write_slot_field(slot: u64, off: usize, width: Width, val: u64) -> (r: u64)
    requires
        off < 8,
    ensures
        r == slot_write(slot, off as int, width, val),
{
    let shift: u64 = 8 * (off as u64);
    let mask = width.mask();
    (slot & !(mask << shift)) | ((val & mask) << shift)
}

/// A field that is written to a slot is read back from it, cut to its width,
/// where the field lies inside the slot.
pub proof fn lemma_slot_write_read(slot: u64, off: int, width: Width, val: u64)
    requires
        0 <= off,
        off + width.spec_bytes() <= 8,
    ensures
        slot_read(slot_write(slot, off, width, val), off, width) == val & width.spec_mask(),
{
    let s = (8 * off) as u64;
    let m = width.spec_mask();
    assert(s <= 64 - 8 * width.spec_bytes());
    match width {
        Width::W8 => {
            assert(s <= 56 ==> ((((slot & !(0xffu64 << s)) | ((val & 0xff) << s)) >> s) & 0xff)
                == val & 0xff) by (bit_vector);
        },
        Width::W16 => {
            assert(s <= 48 ==> ((((slot & !(0xffffu64 << s)) | ((val & 0xffff) << s)) >> s)
                & 0xffff) == val & 0xffff) by (bit_vector);
        },
        Width::W32 => {
            assert(s <= 32 ==> ((((slot & !(0xffff_ffffu64 << s)) | ((val & 0xffff_ffff) << s))
                >> s) & 0xffff_ffff) == val & 0xffff_ffff) by (bit_vector);
        },
        Width::W64 => {
            assert(s == 0 ==> ((((slot & !(0xffff_ffff_ffff_ffffu64 << s)) | ((val
                & 0xffff_ffff_ffff_ffff) << s)) >> s) & 0xffff_ffff_ffff_ffff) == val
                & 0xffff_ffff_ffff_ffff) by (bit_vector);
        },
    }
}

/// A piece of memory owned by the machine.
pub struct ManagedMemory {
    bytes: Vec<u8>,
}

impl View for ManagedMemory {
    type V = Seq<u8>;

    closed spec fn view(&self) -> Seq<u8> {
        self.bytes@
    }
}

impl ManagedMemory {
    /// A piece of `len` zero bytes. A piece of no bytes is refused; a piece
    /// that the host cannot provide is out of memory.
    pub fn allocate(len: usize) -> (r: Result<ManagedMemory>)
        ensures
            len == 0 ==> r == Err::<ManagedMemory, Error>(Error::AllocZero),
            match r {
                Ok(m) => len > 0 && m@ == Seq::new(len as nat, |i: int| 0u8),
                Err(e) => e == Error::AllocZero && len == 0 || e == Error::OutOfMemory && len > 0,
            },
    {
        if len == 0 {
            return Err(Error::AllocZero);
        }
        let mut bytes: Vec<u8> = Vec::new();
        if bytes.try_reserve(len).is_err() {
            return Err(Error::OutOfMemory);
        }
        bytes.resize(len, 0u8);
        assert(bytes@ =~= Seq::new(len as nat, |i: int| 0u8));
        Ok(ManagedMemory { bytes })
    }

    /// A piece that holds a copy of `slice`. An empty slice is refused.
    pub fn from_slice(slice: &[u8]) -> (r: Result<ManagedMemory>)
        ensures
            match r {
                Ok(m) => slice@.len() > 0 && m@ == slice@,
                Err(e) => e == Error::AllocZero && slice@.len() == 0,
            },
    {
        if slice.len() == 0 {
            return Err(Error::AllocZero);
        }
        let mut bytes: Vec<u8> = Vec::new();
        let mut i: usize = 0;
        while i < slice.len()
            invariant
                i <= slice@.len(),
                bytes@ == slice@.take(i as int),
            decreases slice@.len() - i,
        {
            bytes.push(slice[i]);
            assert(bytes@ =~= slice@.take(i + 1));
            i = i + 1;
        }
        assert(bytes@ =~= slice@);
        Ok(ManagedMemory { bytes })
    }

    /// Length of the memory
    pub fn len(&self) -> (n: usize)
        ensures
            n == self@.len(),
    {
        self.bytes.len()
    }

    /// The memory as a slice
    pub fn get_slice(&self) -> (s: &[u8])
        ensures
            s@ == self@,
    {
        self.bytes.as_slice()
    }

    /// The scalar of the given width at `off`.
    pub fn read(&self, off: usize, width: Width) -> (r: u64)
        requires
            off + width.spec_bytes() <= self@.len(),
        ensures
            r == le_read(self@, off as int, width),
    {
        let b = &self.bytes;
        let len = b.len();
        assert(off + width.spec_bytes() <= len);
        match width {
            Width::W8 => b[off] as u64,
            Width::W16 => (b[off] as u64) | ((b[off + 1] as u64) << 8),
            Width::W32 => (b[off] as u64) | ((b[off + 1] as u64) << 8) | ((b[off + 2] as u64)
                << 16) | ((b[off + 3] as u64) << 24),
            Width::W64 => (b[off] as u64) | ((b[off + 1] as u64) << 8) | ((b[off + 2] as u64)
                << 16) | ((b[off + 3] as u64) << 24) | ((b[off + 4] as u64) << 32) | ((b[off
                + 5] as u64) << 40) | ((b[off + 6] as u64) << 48) | ((b[off + 7] as u64) << 56),
        }
    }

    /// Writes the low bytes of `val` at `off`, as many as the width says.
    pub fn write(&mut self, off: usize, width: Width, val: u64)
        requires
            off + width.spec_bytes() <= old(self)@.len(),
        ensures
            final(self)@ == le_write(old(self)@, off as int, width, val),
    {
        let n = width.bytes();
        let len = self.bytes.len();
        let mut k: usize = 0;
        while k < n
            invariant
                k <= n,
                n == width.spec_bytes(),
                off + n <= self.bytes@.len(),
                self.bytes@.len() == len,
                self.bytes@.len() == old(self).bytes@.len(),
                forall|i: int|
                    0 <= i < self.bytes@.len() ==> #[trigger] self.bytes@[i] == (if off <= i < off
                        + k {
                        le_byte(val, i - off)
                    } else {
                        old(self).bytes@[i]
                    }),
            decreases n - k,
        {
            let shift: u64 = 8 * (k as u64);
            assert((val >> shift) & 0xff <= 0xff) by (bit_vector);
            let byte = ((val >> shift) & 0xff) as u8;
            self.bytes[off + k] = byte;
            k = k + 1;
        }
        assert(self.bytes@ =~= le_write(old(self).bytes@, off as int, width, val));
    }
}

/// One buffer of the heap, and the address at which it starts.
pub struct HeapBlock {
    pub addr: u64,
    pub bytes: Seq<u8>,
}

/// The index of the last block that starts at or below `addr`, if one does.
pub open spec fn last_at_or_below(h: Seq<HeapBlock>, addr: u64) -> Option<int>
    decreases h.len(),
{
    if h.len() == 0 {
        None
    } else if h.last().addr <= addr {
        Some(h.len() - 1)
    } else {
        last_at_or_below(h.drop_last(), addr)
    }
}

/// The block that holds `width` bytes at `addr`: its index and the offset of
/// `addr` in it. An address that is no multiple of the width is unaligned;
/// one that no block holds with all the bytes of the access is invalid.
pub open spec fn heap_locate(h: Seq<HeapBlock>, addr: u64, width: Width) -> core::result::Result<
    (int, int),
    Error,
> {
    if addr as int % width.spec_bytes() as int != 0 {
        Err(Error::UnalignedAccess(addr))
    } else {
        match last_at_or_below(h, addr) {
            None => Err(Error::InvalidAddress(addr)),
            Some(i) => {
                let off = addr - h[i].addr;
                if off + width.spec_bytes() > h[i].bytes.len() {
                    Err(Error::InvalidAddress(addr))
                } else {
                    Ok((i, off))
                }
            },
        }
    }
}

/// The scalar of the given width at a heap address.
pub open spec fn heap_load(h: Seq<HeapBlock>, addr: u64, width: Width) -> core::result::Result<
    u64,
    Error,
> {
    match heap_locate(h, addr, width) {
        Ok((i, off)) => Ok(le_read(h[i].bytes, off, width)),
        Err(e) => Err(e),
    }
}

/// The heap after the low bytes of `val` are stored at a heap address.
pub open spec fn heap_store(h: Seq<HeapBlock>, addr: u64, width: Width, val: u64)
    -> core::result::Result<Seq<HeapBlock>, Error> {
    match heap_locate(h, addr, width) {
        Ok((i, off)) => Ok(
            h.update(
                i,
                HeapBlock { addr: h[i].addr, bytes: le_write(h[i].bytes, off, width, val) },
            ),
        ),
        Err(e) => Err(e),
    }
}

/// The address that the next buffer gets: the heap start in an empty heap,
/// else the end of the last buffer, rounded up to the next multiple of the
/// alignment.
pub open spec fn heap_next_addr(h: Seq<HeapBlock>, alignment: u64) -> int {
    if h.len() == 0 {
        HEAP_START as int
    } else {
        spec_round_up(h.last().addr + h.last().bytes.len(), alignment as int)
    }
}

/// The index of the block that starts exactly at `addr`, if one does.
pub open spec fn block_starting_at(h: Seq<HeapBlock>, addr: u64) -> Option<int> {
    match last_at_or_below(h, addr) {
        Some(i) => if h[i].addr == addr {
            Some(i)
        } else {
            None
        },
        None => None,
    }
}

struct Block {
    addr: u64,
    mem: ManagedMemory,
}

/// The heap: buffers in the order of their addresses.
pub struct Heap {
    blocks: Vec<Block>,
}

impl View for Heap {
    type V = Seq<HeapBlock>;

    closed spec fn view(&self) -> Seq<HeapBlock> {
        Seq::new(
            self.blocks@.len(),
            |i: int| HeapBlock { addr: self.blocks@[i].addr, bytes: self.blocks@[i].mem@ },
        )
    }
}

/// Blocks lie in the order of their addresses, none is empty, none overlaps
/// the next, and all end below the stack.
pub open spec fn heap_wf(h: Seq<HeapBlock>) -> bool {
    &&& forall|i: int| 0 <= i < h.len() ==> (#[trigger] h[i]).bytes.len() > 0
    &&& forall|i: int| 0 <= i < h.len() ==> (#[trigger] h[i]).addr + h[i].bytes.len() <= STACK_START
    &&& forall|i: int, j: int|
        0 <= i < j < h.len() ==> (#[trigger] h[i]).addr + h[i].bytes.len() <= (#[trigger] h[j]).addr
}

/// In a well-formed heap, the block found for an address is the only one
/// that can hold it.
pub proof fn lemma_last_at_or_below(h: Seq<HeapBlock>, addr: u64)
    requires
        heap_wf(h),
    ensures
        match last_at_or_below(h, addr) {
            None => forall|i: int| 0 <= i < h.len() ==> (#[trigger] h[i]).addr > addr,
            Some(k) => 0 <= k < h.len() && h[k].addr <= addr && forall|i: int|
                k < i < h.len() ==> (#[trigger] h[i]).addr > addr,
        },
    decreases h.len(),
{
    if h.len() > 0 && h.last().addr > addr {
        let t = h.drop_last();
        assert(heap_wf(t)) by {
            assert forall|i: int| 0 <= i < t.len() implies (#[trigger] t[i]).bytes.len() > 0 by {
                assert(t[i] == h[i]);
            }
            assert forall|i: int| 0 <= i < t.len() implies (#[trigger] t[i]).addr
                + t[i].bytes.len() <= STACK_START by {
                assert(t[i] == h[i]);
            }
            assert forall|i: int, j: int| 0 <= i < j < t.len() implies (#[trigger] t[i]).addr
                + t[i].bytes.len() <= (#[trigger] t[j]).addr by {
                assert(t[i] == h[i] && t[j] == h[j]);
            }
        }
        lemma_last_at_or_below(t, addr);
        match last_at_or_below(t, addr) {
            None => {
                assert forall|i: int| 0 <= i < h.len() implies (#[trigger] h[i]).addr > addr by {
                    if i < t.len() {
                        assert(t[i] == h[i]);
                    }
                }
            },
            Some(k) => {
                assert(t[k] == h[k]);
                assert forall|i: int| k < i < h.len() implies (#[trigger] h[i]).addr > addr by {
                    if i < t.len() {
                        assert(t[i] == h[i]);
                    }
                }
            },
        }
    }
}

/// Whether a number is a power of two: the alignments that an allocation
/// can have.
pub open spec fn power_of_two(x: u64) -> bool {
    x != 0 && x & ((x - 1) as u64) == 0
}

/// Whether a number is a power of two.
pub fn is_power_of_two(x: u64) -> (r: bool)
    ensures
        r == power_of_two(x),
{
    x != 0 && x & (x - 1) == 0
}

impl Heap {
    /// The invariant of the heap.
    pub open spec fn wf(&self) -> bool {
        heap_wf(self@)
    }

    /// An empty heap.
    pub fn new() -> (h: Heap)
        ensures
            h.wf(),
            h@ == Seq::<HeapBlock>::empty(),
    {
        let h = Heap { blocks: Vec::new() };
        assert(h@ =~= Seq::<HeapBlock>::empty());
        h
    }

    fn find_last_at_or_below(&self, addr: u64) -> (r: Option<usize>)
        ensures
            match r {
                Some(i) => last_at_or_below(self@, addr) == Some(i as int) && i < self@.len()
                    && self@[i as int].addr <= addr,
                None => last_at_or_below(self@, addr) is None,
            },
    {
        let mut n: usize = self.blocks.len();
        assert(self@.take(n as int) =~= self@);
        while n > 0
            invariant
                n <= self.blocks@.len(),
                self@.len() == self.blocks@.len(),
                last_at_or_below(self@, addr) == last_at_or_below(self@.take(n as int), addr),
            decreases n,
        {
            assert(self@.take(n as int).last() == self@[n - 1]);
            assert(self@.take(n as int).drop_last() =~= self@.take(n - 1));
            if self.blocks[n - 1].addr <= addr {
                return Some(n - 1);
            }
            n = n - 1;
        }
        assert(self@.take(0).len() == 0);
        None
    }

    /// Find the piece of heap memory that holds `width` bytes at `addr`.
    /// Returns the index of the piece and the offset of the address in it.
    pub fn get_heap_mem_managed_ref(&self, addr: u64, width: Width) -> (r: Result<(usize, usize)>)
        ensures
            match r {
                Ok((i, off)) => heap_locate(self@, addr, width) == Ok::<(int, int), Error>(
                    (i as int, off as int),
                ) && i < self@.len() && off + width.spec_bytes() <= self@[i as int].bytes.len(),
                Err(e) => heap_locate(self@, addr, width) == Err::<(int, int), Error>(e),
            },
    {
        if addr % (width.bytes() as u64) != 0 {
            return Err(Error::UnalignedAccess(addr));
        }
        match self.find_last_at_or_below(addr) {
            None => Err(Error::InvalidAddress(addr)),
            Some(i) => {
                let block = &self.blocks[i];
                let off = addr - block.addr;
                let len = block.mem.len();
                if off > len as u64 || (len as u64) - off < (width.bytes() as u64) {
                    Err(Error::InvalidAddress(addr))
                } else {
                    Ok((i, off as usize))
                }
            },
        }
    }

    /// The scalar of the given width at `addr`.
    pub fn load(&self, addr: u64, width: Width) -> (r: Result<u64>)
        ensures
            r == heap_load(self@, addr, width),
    {
        match self.get_heap_mem_managed_ref(addr, width) {
            Ok((i, off)) => Ok(self.blocks[i].mem.read(off, width)),
            Err(e) => Err(e),
        }
    }

    /// Stores the low bytes of `val` at `addr`. The heap is unchanged where
    /// the access is refused.
    pub fn store(&mut self, addr: u64, width: Width, val: u64) -> (r: Result<()>)
        requires
            old(self).wf(),
        ensures
            final(self).wf(),
            match heap_store(old(self)@, addr, width, val) {
                Ok(h) => r is Ok && final(self)@ == h,
                Err(e) => r == Err::<(), Error>(e) && final(self)@ == old(self)@,
            },
    {
        match self.get_heap_mem_managed_ref(addr, width) {
            Ok((i, off)) => {
                let ghost before = self@;
                let mut block = self.blocks.remove(i);
                block.mem.write(off, width, val);
                self.blocks.insert(i, block);
                assert(self@ =~= before.update(
                    i as int,
                    HeapBlock {
                        addr: before[i as int].addr,
                        bytes: le_write(before[i as int].bytes, off as int, width, val),
                    },
                ));
                Ok(())
            },
            Err(e) => Err(e),
        }
    }

    /// The address that the next piece gets, if a piece of `len` bytes at it
    /// ends below the stack.
    fn next_addr(&self, len: usize, alignment: u64) -> (r: Option<u64>)
        requires
            self.wf(),
            alignment > 0,
        ensures
            match r {
                Some(addr) => addr == heap_next_addr(self@, alignment) && addr + len
                    <= STACK_START,
                None => heap_next_addr(self@, alignment) + len > STACK_START,
            },
    {
        let n = self.blocks.len();
        assert(self@.len() > 0 ==> self@.last() == self@[n - 1]);
        let addr: u64 = if n == 0 {
            HEAP_START
        } else {
            let last = &self.blocks[n - 1];
            assert(self@[n - 1].addr + self@[n - 1].bytes.len() <= STACK_START);
            let end = last.addr + (last.mem.len() as u64);
            let rem = end % alignment;
            if rem != 0 && alignment - rem > STACK_START - end {
                return None;
            }
            round_up_to_multiple(end, alignment)
        };
        if addr > STACK_START || (len as u64) > STACK_START - addr {
            None
        } else {
            Some(addr)
        }
    }

    /// Puts a piece behind the last one, at an address that `next_addr` gave.
    fn place(&mut self, addr: u64, mem: ManagedMemory)
        requires
            old(self).wf(),
            mem@.len() > 0,
            addr + mem@.len() <= STACK_START,
            old(self)@.len() > 0 ==> addr >= old(self)@.last().addr + old(self)@.last().bytes.len(),
        ensures
            final(self).wf(),
            final(self)@ == old(self)@.push(HeapBlock { addr, bytes: mem@ }),
    {
        let ghost before = self@;
        let ghost bytes = mem@;
        let ghost n = before.len() as int;
        self.blocks.push(Block { addr, mem });
        assert(self@ =~= before.push(HeapBlock { addr, bytes }));
        assert(heap_wf(self@)) by {
            let h = self@;
            assert forall|i: int| 0 <= i < h.len() implies (#[trigger] h[i]).bytes.len() > 0 by {
                if i < n {
                    assert(h[i] == before[i]);
                }
            }
            assert forall|i: int| 0 <= i < h.len() implies (#[trigger] h[i]).addr
                + h[i].bytes.len() <= STACK_START by {
                if i < n {
                    assert(h[i] == before[i]);
                }
            }
            assert forall|i: int, j: int| 0 <= i < j < h.len() implies (#[trigger] h[i]).addr
                + h[i].bytes.len() <= (#[trigger] h[j]).addr by {
                if j == n {
                    assert(h[i] == before[i]);
                    if i < n - 1 {
                        assert(before[i].addr + before[i].bytes.len() <= before[n - 1].addr);
                    }
                    assert(before.last() == before[n - 1]);
                } else {
                    assert(h[i] == before[i] && h[j] == before[j]);
                }
            }
        }
    }

    /// Allocate a piece of memory of length `len` behind the last piece, at
    /// the next multiple of `alignment`. Returns the address. The heap is
    /// unchanged where the request is refused: an alignment that is no power
    /// of two, a piece of no bytes, or one that would not end below the
    /// stack, or that the host cannot provide.
    pub fn alloc_heap(&mut self, len: usize, alignment: u64) -> (r: Result<u64>)
        requires
            old(self).wf(),
        ensures
            final(self).wf(),
            match r {
                Ok(addr) => power_of_two(alignment) && len > 0 && addr == heap_next_addr(
                    old(self)@,
                    alignment,
                ) && addr + len <= STACK_START && final(self)@ == old(self)@.push(
                    HeapBlock { addr, bytes: Seq::new(len as nat, |i: int| 0u8) },
                ),
                Err(e) => final(self)@ == old(self)@ && (if !power_of_two(alignment) {
                    e == Error::AllocLayoutError
                } else if len == 0 {
                    e == Error::AllocZero
                } else {
                    e == Error::OutOfMemory
                }),
            },
            !power_of_two(alignment) || len == 0 || heap_next_addr(old(self)@, alignment) + len
                > STACK_START ==> r is Err,
    {
        if !is_power_of_two(alignment) {
            return Err(Error::AllocLayoutError);
        }
        if len == 0 {
            return Err(Error::AllocZero);
        }
        let addr = match self.next_addr(len, alignment) {
            Some(a) => a,
            None => {
                return Err(Error::OutOfMemory);
            },
        };
        let mem = match ManagedMemory::allocate(len) {
            Ok(m) => m,
            Err(_) => {
                return Err(Error::OutOfMemory);
            },
        };
        proof {
            if self@.len() > 0 {
                lemma_round_up_is_multiple(
                    self@.last().addr + self@.last().bytes.len(),
                    alignment as int,
                );
            }
        }
        self.place(addr, mem);
        Ok(addr)
    }

    /// Puts a copy of `slice` in a piece of its own behind the last piece, at
    /// the next multiple of `alignment`. Returns the address. The heap is
    /// unchanged where the request is refused: an alignment that is no power
    /// of two, an empty slice, or a piece that would not end below the
    /// stack.
    pub fn insert_copy(&mut self, slice: &[u8], alignment: u64) -> (r: Result<u64>)
        requires
            old(self).wf(),
        ensures
            final(self).wf(),
            match r {
                Ok(addr) => power_of_two(alignment) && slice@.len() > 0 && addr == heap_next_addr(
                    old(self)@,
                    alignment,
                ) && addr + slice@.len() <= STACK_START && final(self)@ == old(self)@.push(
                    HeapBlock { addr, bytes: slice@ },
                ),
                Err(e) => final(self)@ == old(self)@ && (if !power_of_two(alignment) {
                    e == Error::AllocLayoutError
                } else if slice@.len() == 0 {
                    e == Error::AllocZero
                } else {
                    e == Error::OutOfMemory && heap_next_addr(old(self)@, alignment) + slice@.len()
                        > STACK_START
                }),
            },
    {
        if !is_power_of_two(alignment) {
            return Err(Error::AllocLayoutError);
        }
        let mem = match ManagedMemory::from_slice(slice) {
            Ok(m) => m,
            Err(e) => {
                return Err(e);
            },
        };
        let addr = match self.next_addr(slice.len(), alignment) {
            Some(a) => a,
            None => {
                return Err(Error::OutOfMemory);
            },
        };
        proof {
            if self@.len() > 0 {
                lemma_round_up_is_multiple(
                    self@.last().addr + self@.last().bytes.len(),
                    alignment as int,
                );
            }
        }
        self.place(addr, mem);
        Ok(addr)
    }

    /// Free the piece of memory that starts at `addr`. An address at which no
    /// piece starts is refused, and the heap unchanged.
    pub fn free_heap(&mut self, addr: u64) -> (r: Result<()>)
        requires
            old(self).wf(),
        ensures
            final(self).wf(),
            match block_starting_at(old(self)@, addr) {
                Some(i) => r is Ok && final(self)@ == old(self)@.remove(i),
                None => r == Err::<(), Error>(Error::InvalidDeallocation) && final(self)@ == old(self)@,
            },
    {
        match self.find_last_at_or_below(addr) {
            Some(i) => {
                if self.blocks[i].addr == addr {
                    let ghost before = self@;
                    let _ = self.blocks.remove(i);
                    assert(self@ =~= before.remove(i as int));
                    Ok(())
                } else {
                    Err(Error::InvalidDeallocation)
                }
            },
            None => Err(Error::InvalidDeallocation),
        }
    }

    /// The address at which piece `i` starts.
    pub fn block_addr(&self, i: usize) -> (a: u64)
        requires
            i < self@.len(),
        ensures
            a == self@[i as int].addr,
    {
        self.blocks[i].addr
    }

    /// The number of pieces.
    pub fn len(&self) -> (n: usize)
        ensures
            n == self@.len(),
    {
        self.blocks.len()
    }
}

} // verus!
