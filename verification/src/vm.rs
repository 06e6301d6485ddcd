//! The stack machine that runs s0 modules.
//!
//! A frame of the stack holds, from low to high: the return slots, the
//! argument slots, the caller's base pointer, instruction pointer and function
//! id, the local slots, and the scratch slots of expressions. The base pointer
//! points at the saved base pointer, the stack pointer behind the scratch top.
//!
//! The machine computes on integers. Instructions on doubles are computed by
//! the host: before such an instruction the machine says what it needs to
//! know, and runs the instruction with the answer.

pub mod debug;
pub mod frames;
pub mod mem;
pub mod ops;
pub mod state;
pub mod table;

use crate::error::{Error, InvalidInstructionCtx, Result};
use crate::opcodes::{low_word, Op};
use crate::s0::{FnDef, GlobalValue, S0};
use crate::vm::mem::{
    block_starting_at, heap_locate, heap_next_addr, power_of_two, read_slot_field,
    stack_idx_to_vm_addr,
    vm_addr_to_stack_idx, write_slot_field, Heap, Width, STACK_START,
};
use crate::vm::ops::{
    eval_binary, eval_branch_taken, eval_unary, format_char, format_int, parse_uint,
    scan_is_open, scan_token, token_open,
};
use crate::vm::state::{
    access_width, find_function, first_unnamed, fresh_stack, globals_heap, is_float_binary,
    is_float_unary, library_op, line_end, loaded, outcome, reply_view, FloatReply, FloatReplyView,
    FloatRequest, FloatRequestView, VmView,
};
use std::collections::HashMap;
use vstd::prelude::*;

verus! {

/// The number of slots of the stack.
pub const MAX_STACK_SIZE: usize = 131072;

pub type Slot = u64;

pub type Addr = u64;

/// An interpreter running S0 code.
pub struct R0Vm<'src> {
    /// Source file
    src: &'src S0,
    max_stack_size: usize,
    /// The address of each global, by its index
    global_idx: HashMap<usize, Addr>,
    /// Memory heap
    heap: Heap,
    /// Memory stack
    stack: Vec<Slot>,
    /// Function ID
    fn_id: usize,
    /// Instruction Pointer
    ip: usize,
    /// Stack Pointer
    sp: usize,
    /// Base Pointer
    bp: usize,
    /// Standard Input, and how much of it is read
    stdin: Vec<u8>,
    stdin_pos: usize,
    /// Standard Output
    stdout: Vec<u8>,
}

impl<'src> View for R0Vm<'src> {
    type V = VmView;

    closed spec fn view(&self) -> VmView {
        VmView {
            module: self.src@,
            max_stack: self.max_stack_size as nat,
            global_addr: Seq::new(
                self.src.globals@.len(),
                |i: int| self.global_idx@[i as usize],
            ),
            heap: self.heap@,
            stack: self.stack@,
            fn_id: self.fn_id,
            ip: self.ip,
            sp: self.sp,
            bp: self.bp,
            stdin: self.stdin@.skip(self.stdin_pos as int),
            stdout: self.stdout@,
        }
    }
}

fn bytes_equal(a: &Vec<u8>, b: &[u8]) -> (r: bool)
    ensures
        r == (a@ == b@),
{
    if a.len() != b.len() {
        return false;
    }
    let mut i: usize = 0;
    while i < a.len()
        invariant
            i <= a@.len(),
            a@.len() == b@.len(),
            forall|j: int| 0 <= j < i ==> a@[j] == b@[j],
        decreases a@.len() - i,
    {
        if a[i] != b[i] {
            return false;
        }
        i = i + 1;
    }
    assert(a@ =~= b@);
    true
}

/// The input or output instruction that a library name stands for.
pub fn library_instruction(name: &Vec<u8>) -> (r: Option<Op>)
    ensures
        r == library_op(name@),
{
    if bytes_equal(name, &[0x70u8, 0x75, 0x74, 0x69, 0x6e, 0x74]) {
        Some(Op::PrintI)
    } else if bytes_equal(name, &[0x70u8, 0x75, 0x74, 0x64, 0x6f, 0x75, 0x62, 0x6c, 0x65]) {
        Some(Op::PrintF)
    } else if bytes_equal(name, &[0x70u8, 0x75, 0x74, 0x73, 0x74, 0x72]) {
        Some(Op::PrintS)
    } else if bytes_equal(name, &[0x70u8, 0x75, 0x74, 0x63, 0x68, 0x61, 0x72]) {
        Some(Op::PrintC)
    } else if bytes_equal(name, &[0x67u8, 0x65, 0x74, 0x69, 0x6e, 0x74]) {
        Some(Op::ScanI)
    } else if bytes_equal(name, &[0x67u8, 0x65, 0x74, 0x64, 0x6f, 0x75, 0x62, 0x6c, 0x65]) {
        Some(Op::ScanF)
    } else if bytes_equal(name, &[0x67u8, 0x65, 0x74, 0x63, 0x68, 0x61, 0x72]) {
        Some(Op::ScanC)
    } else {
        None
    }
}

impl<'src> R0Vm<'src> {
    /// What holds of the parts of the machine that its state does not show.
    pub closed spec fn input_wf(&self) -> bool {
        &&& self.stdin_pos <= self.stdin@.len()
        &&& forall|k: usize|
            self.global_idx@.dom().contains(k) <==> k < self.src.globals@.len()
    }

    /// The invariant of the machine.
    pub open spec fn wf(&self) -> bool {
        self@.wf() && self.input_wf()
    }

    /// Creates the machine that is ready to run `src` on the input `stdin`.
    pub fn new(src: &'src S0, stdin: Vec<u8>) -> (r: Result<R0Vm<'src>>)
        ensures
            match loaded(src@, stdin@, MAX_STACK_SIZE as nat) {
                Ok(s) => r matches Ok(vm) && vm@ == s && vm.wf(),
                Err(e) => r matches Err(e2) && e2 == e,
            },
    {
        if src.functions.len() == 0 {
            return Err(Error::NoEntryPoint);
        }
        let mut heap = Heap::new();
        let mut global_idx: HashMap<usize, Addr> = HashMap::new();
        let mut i: usize = 0;
        while i < src.globals.len()
            invariant
                i <= src.globals@.len(),
                src@.globals.len() == src.globals@.len(),
                src@.functions.len() == src.functions@.len(),
                src.functions@.len() > 0,
                heap.wf(),
                globals_heap(src@.globals, i as nat) == Ok::<Seq<mem::HeapBlock>, Error>(heap@),
                heap@.len() == i,
                forall|k: usize| global_idx@.dom().contains(k) <==> k < i,
                forall|k: int| 0 <= k < i ==> global_idx@[k as usize] == #[trigger] heap@[k].addr,
            decreases src.globals@.len() - i,
        {
            let ghost before = heap@;
            assert(src@.globals[i as int].bytes == src.globals@[i as int].bytes@);
            assert(8u64 & ((8u64 - 1) as u64) == 0) by (bit_vector);
            match heap.insert_copy(src.globals[i].bytes.as_slice(), 8) {
                Ok(addr) => {
                    global_idx.insert(i, addr);
                    assert forall|k: int| 0 <= k < i + 1 implies global_idx@[k as usize]
                        == #[trigger] heap@[k].addr by {
                        if k < i {
                            assert(heap@[k] == before[k]);
                        }
                    }
                },
                Err(e) => {
                    proof {
                        assert(globals_heap(src@.globals, (i + 1) as nat) == Err::<
                            Seq<mem::HeapBlock>,
                            Error,
                        >(e));
                        Self::lemma_globals_heap_fails(
                            src@.globals,
                            (i + 1) as nat,
                            src@.globals.len(),
                        );
                    }
                    return Err(e);
                },
            }
            i = i + 1;
        }
        let mut f: usize = 0;
        while f < src.functions.len()
            invariant
                f <= src.functions@.len(),
                src@.functions.len() == src.functions@.len(),
                src.functions@.len() > 0,
                src@.globals.len() == src.globals@.len(),
                globals_heap(src@.globals, src@.globals.len()) is Ok,
                first_unnamed(src@, f as nat) is None,
            decreases src.functions@.len() - f,
        {
            assert(src@.functions[f as int].name == src.functions@[f as int].name);
            if src.functions[f].name as usize >= src.globals.len() {
                proof {
                    assert(first_unnamed(src@, (f + 1) as nat) == Some(f as int));
                    Self::lemma_first_unnamed_found(src@, (f + 1) as nat, src@.functions.len());
                }
                return Err(Error::InvalidGlobalIndex(src.functions[f].name));
            }
            f = f + 1;
        }
        assert(src@.functions[0].loc_slots == src.functions@[0].loc_slots);
        let loc = src.functions[0].loc_slots as usize;
        if loc > MAX_STACK_SIZE - 3 {
            return Err(Error::StackOverflow);
        }
        let mut stack: Vec<Slot> = Vec::new();
        let mut k: usize = 0;
        while k < MAX_STACK_SIZE
            invariant
                k <= MAX_STACK_SIZE,
                stack@ == fresh_stack(MAX_STACK_SIZE as nat).take(k as int),
            decreases MAX_STACK_SIZE - k,
        {
            let v: u64 = if k < 3 {
                0xffff_ffff_ffff_ffff
            } else {
                0
            };
            stack.push(v);
            assert(stack@ =~= fresh_stack(MAX_STACK_SIZE as nat).take(k + 1));
            k = k + 1;
        }
        assert(stack@ =~= fresh_stack(MAX_STACK_SIZE as nat));
        let vm = R0Vm {
            src,
            max_stack_size: MAX_STACK_SIZE,
            global_idx,
            heap,
            stack,
            fn_id: 0,
            ip: 0,
            sp: loc + 3,
            bp: 0,
            stdin,
            stdin_pos: 0,
            stdout: Vec::new(),
        };
        assert(vm.stdin@.skip(0) =~= stdin@);
        assert(vm@.global_addr =~= Seq::new(heap@.len(), |i: int| heap@[i].addr));
        Ok(vm)
    }

    proof fn lemma_globals_heap_fails(globals: Seq<crate::s0::GlobalValueView>, n: nat, m: nat)
        requires
            n <= m,
            globals_heap(globals, n) is Err,
        ensures
            globals_heap(globals, m) == globals_heap(globals, n),
        decreases m - n,
    {
        if n < m {
            Self::lemma_globals_heap_fails(globals, n, (m - 1) as nat);
        }
    }

    proof fn lemma_first_unnamed_found(m: crate::s0::S0View, n: nat, k: nat)
        requires
            n <= k,
            first_unnamed(m, n) is Some,
        ensures
            first_unnamed(m, k) == first_unnamed(m, n),
        decreases k - n,
    {
        if n < k {
            Self::lemma_first_unnamed_found(m, n, (k - 1) as nat);
        }
    }

    /// The index of the next instruction.
    pub fn ip(&self) -> (r: usize)
        ensures
            r == self@.ip,
    {
        self.ip
    }

    /// The base pointer.
    pub fn bp(&self) -> (r: usize)
        ensures
            r == self@.bp,
    {
        self.bp
    }

    /// The stack pointer.
    pub fn sp(&self) -> (r: usize)
        ensures
            r == self@.sp,
    {
        self.sp
    }

    /// The id of the function that runs.
    pub fn fn_id(&self) -> (r: usize)
        ensures
            r == self@.fn_id,
    {
        self.fn_id
    }

    /// The definition of the function that runs.
    pub fn fn_info(&self) -> (f: &'src FnDef)
        requires
            self.wf(),
        ensures
            f@ == self@.fn_info(),
    {
        &self.src.functions[self.fn_id]
    }

    /// Whether the entry function has run to its end.
    pub fn is_at_end(&self) -> (r: bool)
        requires
            self.wf(),
        ensures
            r == (self@.fn_id == 0 && self@.ip >= self@.fn_info().ins.len()),
    {
        self.fn_id == 0 && self.ip >= self.fn_info().ins.len()
    }

    /// All the output so far.
    pub fn stdout(&self) -> (out: &Vec<u8>)
        ensures
            out@ == self@.stdout,
    {
        &self.stdout
    }

    /// Adds bytes to the end of the input.
    pub fn feed_stdin(&mut self, bytes: &[u8])
        requires
            old(self).wf(),
        ensures
            final(self).wf(),
            final(self)@ == (VmView { stdin: old(self)@.stdin + bytes@, ..old(self)@ }),
    {
        let mut i: usize = 0;
        while i < bytes.len()
            invariant
                i <= bytes@.len(),
                self.wf(),
                self@ == (VmView { stdin: old(self)@.stdin + bytes@.take(i as int), ..old(self)@ }),
            decreases bytes@.len() - i,
        {
            let ghost before = self.stdin@;
            self.stdin.push(bytes[i]);
            assert(self.stdin@.skip(self.stdin_pos as int) =~= before.skip(self.stdin_pos as int)
                + seq![bytes@[i as int]]);
            assert(old(self)@.stdin + bytes@.take(i as int) + seq![bytes@[i as int]] =~= old(self)@.stdin + bytes@.take(i + 1));
            i = i + 1;
        }
        assert(bytes@.take(i as int) =~= bytes@);
    }

    /// Whether the machine awaits input that it does not have: the next
    /// instruction reads a character and no input is left, or it reads a
    /// number and what is left of the input may hold only the beginning of
    /// its numeral.
    pub fn awaits_input(&self) -> (r: bool)
        requires
            self.wf(),
        ensures
            r == awaits_input(self@),
    {
        let info = self.fn_info();
        if self.ip >= info.ins.len() {
            return false;
        }
        match self.resolve(info.ins[self.ip]) {
            Op::ScanC => self.stdin_pos >= self.stdin.len(),
            Op::ScanI | Op::ScanF => scan_is_open(&self.stdin, self.stdin_pos),
            _ => false,
        }
    }

    /// The slots of the stack that are in use.
    pub fn stack(&self) -> (s: &[Slot])
        requires
            self.wf(),
        ensures
            s@ == self@.stack.take(self@.sp as int),
    {
        vstd::slice::slice_subrange(self.stack.as_slice(), 0, self.sp)
    }

    /// The word in a slot of the stack, used or not.
    pub fn stack_slot_get(&self, idx: usize) -> (r: Result<Slot>)
        requires
            self.wf(),
        ensures
            match r {
                Ok(v) => idx < self@.stack.len() && v == self@.stack[idx as int],
                Err(e) => idx >= self@.stack.len() && e == Error::InvalidStackOffset(
                    idx as u64,
                    (idx - self@.bp) as i64,
                ),
            },
    {
        if idx < self.stack.len() {
            Ok(self.stack[idx])
        } else {
            Err(Error::InvalidStackOffset(idx as u64, (idx - self.bp) as i64))
        }
    }

    /// The function definition that `id` names.
    pub fn get_fn_by_id(&self, id: u32) -> (r: Result<&'src FnDef>)
        ensures
            match r {
                Ok(f) => id < self@.module.functions.len() && f@ == self@.module.functions[id as int],
                Err(e) => e == Error::InvalidFnId(id) && id >= self@.module.functions.len(),
            },
    {
        if (id as usize) < self.src.functions.len() {
            Ok(&self.src.functions[id as usize])
        } else {
            Err(Error::InvalidFnId(id))
        }
    }

    /// The global that `id` names.
    pub fn get_global_by_id(&self, id: u32) -> (r: Result<&'src GlobalValue>)
        ensures
            match r {
                Ok(g) => id < self@.module.globals.len() && g@ == self@.module.globals[id as int],
                Err(e) => e == Error::InvalidFnId(id) && id >= self@.module.globals.len(),
            },
    {
        if (id as usize) < self.src.globals.len() {
            Ok(&self.src.globals[id as usize])
        } else {
            Err(Error::InvalidFnId(id))
        }
    }

    /// The id of the function with the given name: the last one, where
    /// several carry it.
    pub fn get_fn_by_name(&self, name: &Vec<u8>) -> (r: Option<usize>)
        ensures
            match r {
                Some(f) => find_function(self@.module, name@, self@.module.functions.len())
                    == Some(f as int) && f < self@.module.functions.len(),
                None => find_function(self@.module, name@, self@.module.functions.len()) is None,
            },
    {
        let ghost m = self@.module;
        let mut n: usize = self.src.functions.len();
        while n > 0
            invariant
                n <= self.src.functions@.len(),
                m == self.src@,
                find_function(m, name@, m.functions.len()) == find_function(m, name@, n as nat),
            decreases n,
        {
            let f = &self.src.functions[n - 1];
            assert(m.functions[n - 1] == f@);
            if (f.name as usize) < self.src.globals.len() {
                let g = &self.src.globals[f.name as usize];
                assert(m.globals[f.name as int] == g@);
                if bytes_equal(name, g.bytes.as_slice()) {
                    return Some(n - 1);
                }
            }
            n = n - 1;
        }
        None
    }

    fn depth(&self) -> (d: usize)
        requires
            self.wf(),
        ensures
            d == self@.depth(),
    {
        let loc = self.fn_info().loc_slots as usize;
        self.sp - (self.bp + 3 + loc)
    }

    fn peek(&self, k: usize) -> (v: u64)
        requires
            self.wf(),
            k < self@.depth(),
        ensures
            v == self@.peek(k as int),
    {
        self.stack[self.sp - 1 - k]
    }

    fn drop_top(&mut self, n: usize)
        requires
            old(self).wf(),
            n <= old(self)@.depth(),
        ensures
            final(self).wf(),
            final(self)@ == old(self)@.popped(n as int),
    {
        self.sp = self.sp - n;
    }

    fn replace_top(&mut self, pops: usize, v: u64)
        requires
            old(self).wf(),
            1 <= pops <= old(self)@.depth(),
        ensures
            final(self).wf(),
            final(self)@ == old(self)@.popped(pops as int).pushed(v),
    {
        self.sp = self.sp - pops;
        self.stack.set(self.sp, v);
        self.sp = self.sp + 1;
    }

    fn push_slot(&mut self, v: u64) -> (r: Result<()>)
        requires
            old(self).wf(),
        ensures
            final(self).wf(),
            match old(self)@.push_checked(v) {
                Ok(s) => r is Ok && final(self)@ == s,
                Err(e) => r == Err::<(), Error>(e) && final(self)@ == old(self)@,
            },
    {
        if self.sp < self.max_stack_size {
            self.stack.set(self.sp, v);
            self.sp = self.sp + 1;
            Ok(())
        } else {
            Err(Error::StackOverflow)
        }
    }

    fn emit(&mut self, text: &Vec<u8>)
        requires
            old(self).wf(),
        ensures
            final(self).wf(),
            final(self)@ == old(self)@.printed(text@),
    {
        let mut i: usize = 0;
        while i < text.len()
            invariant
                i <= text@.len(),
                self.wf(),
                self@ == old(self)@.printed(text@.take(i as int)),
            decreases text@.len() - i,
        {
            self.stdout.push(text[i]);
            assert(self@.stdout =~= old(self)@.stdout + text@.take(i + 1));
            i = i + 1;
        }
        assert(text@.take(i as int) =~= text@);
    }

    fn invalid(&self, op: Op) -> (e: Error)
        ensures
            e == self@.invalid(op),
    {
        let id = self.fn_id as u64;
        assert(id & 0xffff_ffff <= 0xffff_ffff) by (bit_vector);
        Error::InvalidInstruction(
            InvalidInstructionCtx {
                inst: op.code(),
                fn_id: (id & 0xffff_ffff) as u32,
                inst_off: self.ip as u64,
            },
        )
    }

    /// The scalar of the given width at a stack address.
    pub fn get_stack_mem(&self, addr: u64, width: Width) -> (r: Result<u64>)
        requires
            self.wf(),
            addr >= STACK_START,
        ensures
            r == self@.stack_load(addr, width),
    {
        if addr % (width.bytes() as u64) != 0 {
            return Err(Error::UnalignedAccess(addr));
        }
        let (idx, off) = vm_addr_to_stack_idx(addr);
        if idx >= self.sp {
            return Err(Error::InvalidStackOffset(idx as u64, idx as i64 - self.bp as i64));
        }
        Ok(read_slot_field(self.stack[idx], off, width))
    }

    /// Stores the low bytes of `val` at a stack address. The machine is
    /// unchanged where the access is refused.
    pub fn set_stack_mem(&mut self, addr: u64, width: Width, val: u64) -> (r: Result<()>)
        requires
            old(self).wf(),
            addr >= STACK_START,
        ensures
            final(self).wf(),
            match old(self)@.stack_store(addr, width, val) {
                Ok(stack) => r is Ok && final(self)@ == (VmView { stack, ..old(self)@ }),
                Err(e) => r == Err::<(), Error>(e) && final(self)@ == old(self)@,
            },
    {
        if addr % (width.bytes() as u64) != 0 {
            return Err(Error::UnalignedAccess(addr));
        }
        let (idx, off) = vm_addr_to_stack_idx(addr);
        if idx >= self.sp {
            return Err(Error::InvalidStackOffset(idx as u64, idx as i64 - self.bp as i64));
        }
        let slot = write_slot_field(self.stack[idx], off, width, val);
        self.stack.set(idx, slot);
        Ok(())
    }

    /// The scalar of the given width at an address of the heap or the stack.
    pub fn access_mem_get(&self, addr: u64, width: Width) -> (r: Result<u64>)
        requires
            self.wf(),
        ensures
            r == self@.mem_load(addr, width),
    {
        if addr < STACK_START {
            self.heap.load(addr, width)
        } else {
            self.get_stack_mem(addr, width)
        }
    }

    /// Stores the low bytes of `val` at an address of the heap or the stack.
    /// The machine is unchanged where the access is refused.
    pub fn access_mem_set(&mut self, addr: u64, width: Width, val: u64) -> (r: Result<()>)
        requires
            old(self).wf(),
        ensures
            final(self).wf(),
            match old(self)@.mem_store(addr, width, val) {
                Ok(s) => r is Ok && final(self)@ == s,
                Err(e) => r == Err::<(), Error>(e) && final(self)@ == old(self)@,
            },
    {
        if addr < STACK_START {
            self.heap.store(addr, width, val)
        } else {
            self.set_stack_mem(addr, width, val)
        }
    }
}

impl<'src> R0Vm<'src> {
    /// Find the piece of heap memory by address. Gives the number of the
    /// block and the offset of the address from its start; an access of the
    /// given width must lie within the block.
    pub fn get_heap_mem_managed_ref(&self, addr: u64, width: Width) -> (r: Result<(usize, usize)>)
        ensures
            match r {
                Ok((i, off)) => heap_locate(self@.heap, addr, width) == Ok::<(int, int), Error>(
                    (i as int, off as int),
                ) && i < self@.heap.len() && off + width.spec_bytes()
                    <= self@.heap[i as int].bytes.len(),
                Err(e) => heap_locate(self@.heap, addr, width) == Err::<(int, int), Error>(e),
            },
    {
        self.heap.get_heap_mem_managed_ref(addr, width)
    }

    /// Allocate a piece of memory of length `len` onto heap. Returns address.
    /// The memory holds zero bytes and lies behind the last block, at the
    /// next multiple of `alignment`. An alignment that is no power of two is
    /// refused.
    pub fn alloc_heap(&mut self, len: usize, alignment: u64) -> (r: Result<u64>)
        requires
            old(self).wf(),
        ensures
            final(self).wf(),
            match r {
                Ok(addr) => power_of_two(alignment) && len > 0 && addr == heap_next_addr(
                    old(self)@.heap,
                    alignment,
                ) && addr + len <= STACK_START && final(self)@ == (VmView {
                    heap: old(self)@.heap.push(
                        mem::HeapBlock { addr, bytes: Seq::new(len as nat, |i: int| 0u8) },
                    ),
                    ..old(self)@
                }),
                Err(e) => final(self)@ == old(self)@ && (if !power_of_two(alignment) {
                    e == Error::AllocLayoutError
                } else if len == 0 {
                    e == Error::AllocZero
                } else {
                    e == Error::OutOfMemory
                }),
            },
            !power_of_two(alignment) || len == 0 || heap_next_addr(old(self)@.heap, alignment) + len
                > STACK_START ==> r is Err,
    {
        self.heap.alloc_heap(len, alignment)
    }

    /// Free a piece of memory specified by `addr`. Will return an error if
    /// memory is not the very same address as the allocator returns.
    pub fn free_heap(&mut self, addr: u64) -> (r: Result<()>)
        requires
            old(self).wf(),
        ensures
            final(self).wf(),
            match block_starting_at(old(self)@.heap, addr) {
                Some(i) => r is Ok && final(self)@ == (VmView {
                    heap: old(self)@.heap.remove(i),
                    ..old(self)@
                }),
                None => r == Err::<(), Error>(Error::InvalidDeallocation) && final(self)@ == old(self)@,
            },
    {
        self.heap.free_heap(addr)
    }
}

/// How one step relates to the state before it: at the end of the function
/// nothing changes and control has reached the end; else the instruction at
/// the instruction pointer is run with the instruction pointer behind it.
pub open spec fn step_outcome(
    before: VmView,
    reply: Option<FloatReplyView>,
    r: Result<Op>,
    after: VmView,
) -> bool {
    if before.ip >= before.fn_info().ins.len() {
        r == Err::<Op, Error>(Error::ControlReachesEnd(before.fn_id)) && after == before
    } else {
        let op = before.fn_info().ins[before.ip as int];
        let fetched = VmView { ip: (before.ip + 1) as usize, ..before };
        outcome(
            fetched,
            fetched.resolved(op),
            fetched.exec(op, reply),
            match r {
                Ok(_) => Ok(()),
                Err(e) => Err(e),
            },
            after,
        ) && (r matches Ok(done) ==> done == op)
    }
}

impl<'src> R0Vm<'src> {
    /// The instruction that the machine runs for `op`: for a call by name of
    /// a library function, the input or output instruction that the name
    /// stands for.
    pub fn resolve(&self, op: Op) -> (r: Op)
        ensures
            r == self@.resolved(op),
    {
        match op {
            Op::CallName(id) => {
                if (id as usize) < self.src.globals.len() {
                    let g = &self.src.globals[id as usize];
                    assert(self@.module.globals[id as int] == g@);
                    match library_instruction(&g.bytes) {
                        Some(io) => io,
                        None => op,
                    }
                } else {
                    op
                }
            },
            _ => op,
        }
    }

    /// What the float unit must compute before the machine can run `op`, if
    /// `op` needs the float unit and finds its operands.
    pub fn float_request_for(&self, op: Op) -> (r: Option<FloatRequest>)
        requires
            self.wf(),
        ensures
            match r {
                Some(q) => self@.float_request_for(op) == Some(q@),
                None => self@.float_request_for(op) is None,
            },
    {
        let op = self.resolve(op);
        let depth = self.depth();
        match op {
            Op::AddF | Op::SubF | Op::MulF | Op::DivF | Op::CmpF => {
                if depth >= 2 {
                    Some(FloatRequest::Binary(op, self.peek(1), self.peek(0)))
                } else {
                    None
                }
            },
            Op::NegF | Op::IToF | Op::FToI => {
                if depth >= 1 {
                    Some(FloatRequest::Unary(op, self.peek(0)))
                } else {
                    None
                }
            },
            Op::PrintF => {
                if depth >= 1 {
                    Some(FloatRequest::Print(self.peek(0)))
                } else {
                    None
                }
            },
            Op::ScanF => {
                let (token, _) = scan_token(&self.stdin, self.stdin_pos);
                Some(FloatRequest::Parse(token))
            },
            _ => None,
        }
    }

    /// What the float unit must compute before the next step, if the next
    /// instruction needs the float unit and finds its operands.
    pub fn float_request(&self) -> (r: Option<FloatRequest>)
        requires
            self.wf(),
        ensures
            match r {
                Some(q) => self@.pending_request() == Some(q@),
                None => self@.pending_request() is None,
            },
    {
        let info = self.fn_info();
        if self.ip < info.ins.len() {
            self.float_request_for(info.ins[self.ip])
        } else {
            None
        }
    }

    fn exec_int_binary(&mut self, op: Op) -> (r: Result<()>)
        requires
            old(self).wf(),
            ops::is_int_binary(op),
        ensures
            final(self).wf(),
            outcome(old(self)@, op, old(self)@.exec_resolved(op, None), r, final(self)@),
    {
        if self.depth() < 2 {
            return Err(Error::StackUnderflow);
        }
        let rhs = self.peek(0);
        let lhs = self.peek(1);
        match eval_binary(op, lhs, rhs) {
            Ok(v) => {
                self.replace_top(2, v);
                Ok(())
            },
            Err(e) => Err(e),
        }
    }

    fn exec_int_unary(&mut self, op: Op) -> (r: Result<()>)
        requires
            old(self).wf(),
            ops::is_int_unary(op),
        ensures
            final(self).wf(),
            outcome(old(self)@, op, old(self)@.exec_resolved(op, None), r, final(self)@),
    {
        if self.depth() < 1 {
            return Err(Error::StackUnderflow);
        }
        let v = eval_unary(op, self.peek(0));
        self.replace_top(1, v);
        Ok(())
    }

    fn exec_float(&mut self, op: Op, reply: Option<FloatReply>) -> (r: Result<()>)
        requires
            old(self).wf(),
            is_float_binary(op) || is_float_unary(op),
        ensures
            final(self).wf(),
            outcome(
                old(self)@,
                op,
                old(self)@.exec_resolved(op, reply_view(reply)),
                r,
                final(self)@,
            ),
    {
        let pops: usize = match op {
            Op::NegF | Op::IToF | Op::FToI => 1,
            _ => 2,
        };
        if self.depth() < pops {
            return Err(Error::StackUnderflow);
        }
        match reply {
            Some(FloatReply::Bits(v)) => {
                self.replace_top(pops, v);
                Ok(())
            },
            _ => Err(self.invalid(op)),
        }
    }

    fn jump(&mut self, off: i32) -> (r: Result<()>)
        requires
            old(self).wf(),
        ensures
            final(self).wf(),
            match old(self)@.jumped(off) {
                Ok(s) => r is Ok && final(self)@ == s,
                Err(e) => r == Err::<(), Error>(e) && final(self)@ == old(self)@,
            },
    {
        let target = self.ip.wrapping_add_signed(off as isize);
        if target > self.fn_info().ins.len() {
            Err(Error::InvalidInstructionOffset(target))
        } else {
            self.ip = target;
            Ok(())
        }
    }

    fn exec_branch(&mut self, op: Op, off: i32) -> (r: Result<()>)
        requires
            old(self).wf(),
            ops::is_conditional_branch(op),
            ops::branch_offset(op) == Some(off),
        ensures
            final(self).wf(),
            outcome(old(self)@, op, old(self)@.exec_resolved(op, None), r, final(self)@),
    {
        if self.depth() < 1 {
            return Err(Error::StackUnderflow);
        }
        let x = self.peek(0);
        if eval_branch_taken(op, x) {
            let target = self.ip.wrapping_add_signed(off as isize);
            if target > self.fn_info().ins.len() {
                return Err(Error::InvalidInstructionOffset(target));
            }
            self.drop_top(1);
            self.ip = target;
            Ok(())
        } else {
            self.drop_top(1);
            Ok(())
        }
    }

    fn exec_load(&mut self, op: Op, width: Width) -> (r: Result<()>)
        requires
            old(self).wf(),
            op is Load8 || op is Load16 || op is Load32 || op is Load64,
            access_width(op) == Some(width),
        ensures
            final(self).wf(),
            outcome(old(self)@, op, old(self)@.exec_resolved(op, None), r, final(self)@),
    {
        if self.depth() < 1 {
            return Err(Error::StackUnderflow);
        }
        let addr = self.peek(0);
        match self.access_mem_get(addr, width) {
            Ok(v) => {
                self.replace_top(1, v);
                Ok(())
            },
            Err(e) => Err(e),
        }
    }

    fn exec_store(&mut self, op: Op, width: Width) -> (r: Result<()>)
        requires
            old(self).wf(),
            op is Store8 || op is Store16 || op is Store32 || op is Store64,
            access_width(op) == Some(width),
        ensures
            final(self).wf(),
            outcome(old(self)@, op, old(self)@.exec_resolved(op, None), r, final(self)@),
    {
        if self.depth() < 2 {
            return Err(Error::StackUnderflow);
        }
        let val = self.peek(0);
        let addr = self.peek(1);
        match self.access_mem_set(addr, width, val) {
            Ok(()) => {
                self.drop_top(2);
                Ok(())
            },
            Err(e) => Err(e),
        }
    }

    fn call(&mut self, id: u32) -> (r: Result<()>)
        requires
            old(self).wf(),
        ensures
            final(self).wf(),
            match old(self)@.called(id) {
                Ok(s) => r is Ok && final(self)@ == s,
                Err(e) => r == Err::<(), Error>(e) && final(self)@ == old(self)@,
            },
    {
        if (id as usize) >= self.src.functions.len() {
            return Err(Error::InvalidFnId(id));
        }
        let callee = &self.src.functions[id as usize];
        assert(self@.module.functions[id as int] == callee@);
        let loc = callee.loc_slots as u64;
        let free = (self.max_stack_size - self.sp) as u64;
        if free < 3 || loc > free - 3 {
            return Err(Error::StackOverflow);
        }
        let sp = self.sp;
        self.stack.set(sp, self.bp as u64);
        self.stack.set(sp + 1, self.ip as u64);
        self.stack.set(sp + 2, self.fn_id as u64);
        self.bp = sp;
        self.sp = sp + 3 + (loc as usize);
        self.fn_id = id as usize;
        self.ip = 0;
        Ok(())
    }

    fn ret(&mut self) -> (r: Result<()>)
        requires
            old(self).wf(),
        ensures
            final(self).wf(),
            match old(self)@.returned() {
                Ok(s) => r is Ok && final(self)@ == s,
                Err(e) => r == Err::<(), Error>(e) && final(self)@ == old(self)@,
            },
    {
        let info = self.fn_info();
        let old_bp = self.stack[self.bp];
        let old_ip = self.stack[self.bp + 1];
        let old_fn = self.stack[self.bp + 2];
        if info.param_slots as u64 > self.bp as u64 {
            return Err(Error::StackUnderflow);
        }
        let cut = self.bp - (info.param_slots as usize);
        if old_fn >= self.src.functions.len() as u64 {
            assert(old_fn & 0xffff_ffff <= 0xffff_ffff) by (bit_vector);
            return Err(Error::InvalidFnId((old_fn & 0xffff_ffff) as u32));
        }
        let caller = &self.src.functions[old_fn as usize];
        assert(self@.module.functions[old_fn as int] == caller@);
        let loc = caller.loc_slots as u64;
        if old_bp > cut as u64 || (cut as u64) - old_bp < 3 + loc {
            return Err(Error::StackUnderflow);
        }
        self.sp = cut;
        self.bp = old_bp as usize;
        self.ip = #[verifier::truncate]
        (old_ip as usize);
        self.fn_id = old_fn as usize;
        Ok(())
    }

    fn exec_alloc(&mut self) -> (r: Result<()>)
        requires
            old(self).wf(),
        ensures
            final(self).wf(),
            outcome(old(self)@, Op::Alloc, old(self)@.exec_resolved(Op::Alloc, None), r, final(self)@),
    {
        if self.depth() < 1 {
            return Err(Error::StackUnderflow);
        }
        let len = self.peek(0);
        if len == 0 {
            return Err(Error::AllocZero);
        }
        if len > usize::MAX as u64 {
            return Err(Error::OutOfMemory);
        }
        assert(64u64 & ((64u64 - 1) as u64) == 0) by (bit_vector);
        match self.heap.alloc_heap(len as usize, 64) {
            Ok(addr) => {
                self.replace_top(1, addr);
                Ok(())
            },
            Err(e) => Err(e),
        }
    }

    fn exec_free(&mut self) -> (r: Result<()>)
        requires
            old(self).wf(),
        ensures
            final(self).wf(),
            outcome(old(self)@, Op::Free, old(self)@.exec_resolved(Op::Free, None), r, final(self)@),
    {
        if self.depth() < 1 {
            return Err(Error::StackUnderflow);
        }
        let addr = self.peek(0);
        match self.heap.free_heap(addr) {
            Ok(()) => {
                self.drop_top(1);
                Ok(())
            },
            Err(e) => Err(e),
        }
    }

    fn exec_address(&mut self, op: Op) -> (r: Result<()>)
        requires
            old(self).wf(),
            op is LocA || op is ArgA || op is GlobA,
        ensures
            final(self).wf(),
            outcome(old(self)@, op, old(self)@.exec_resolved(op, None), r, final(self)@),
    {
        let info = self.fn_info();
        match op {
            Op::LocA(a) => {
                if a >= info.loc_slots {
                    return Err(Error::InvalidLocalIndex(a));
                }
                let addr = stack_idx_to_vm_addr(self.bp + 3 + (a as usize));
                self.push_slot(addr)
            },
            Op::ArgA(a) => {
                let total = (info.ret_slots as u64) + (info.param_slots as u64);
                if a as u64 >= total {
                    return Err(Error::InvalidArgIndex(a));
                }
                let addr = STACK_START.wrapping_add((self.bp as u64) * 8).wrapping_add(
                    (a as u64) * 8,
                ).wrapping_sub(total * 8);
                self.push_slot(addr)
            },
            Op::GlobA(a) => {
                match self.global_idx.get(&(a as usize)) {
                    Some(addr) => self.push_slot(*addr),
                    None => Err(Error::InvalidGlobalIndex(a)),
                }
            },
            _ => Ok(()),
        }
    }

    fn exec_call_name(&mut self, id: u32) -> (r: Result<()>)
        requires
            old(self).wf(),
            old(self)@.resolved(Op::CallName(id)) == Op::CallName(id),
        ensures
            final(self).wf(),
            outcome(
                old(self)@,
                Op::CallName(id),
                old(self)@.exec_resolved(Op::CallName(id), None),
                r,
                final(self)@,
            ),
    {
        if (id as usize) >= self.src.globals.len() {
            return Err(Error::InvalidFnId(id));
        }
        let g = &self.src.globals[id as usize];
        assert(self@.module.globals[id as int] == g@);
        match self.get_fn_by_name(&g.bytes) {
            Some(f) => {
                assert(f as u64 & 0xffff_ffff <= 0xffff_ffff) by (bit_vector);
                self.call(((f as u64) & 0xffff_ffff) as u32)
            },
            None => Err(Error::UnknownFunction(id)),
        }
    }

    fn exec_scan(&mut self, op: Op, reply: Option<FloatReply>) -> (r: Result<()>)
        requires
            old(self).wf(),
            op is ScanI || op is ScanC || op is ScanF,
        ensures
            final(self).wf(),
            outcome(
                old(self)@,
                op,
                old(self)@.exec_resolved(op, reply_view(reply)),
                r,
                final(self)@,
            ),
    {
        let ghost input = self@.stdin;
        match op {
            Op::ScanC => {
                if self.stdin_pos >= self.stdin.len() {
                    return Err(Error::IoError);
                }
                if self.sp >= self.max_stack_size {
                    return Err(Error::StackOverflow);
                }
                let b = self.stdin[self.stdin_pos];
                self.stdin_pos = self.stdin_pos + 1;
                assert(self@.stdin =~= input.skip(1));
                self.push_slot(b as u64)
            },
            Op::ScanI => {
                let (token, next) = scan_token(&self.stdin, self.stdin_pos);
                match parse_uint(&token) {
                    None => Err(Error::ParseError),
                    Some(v) => {
                        if self.sp >= self.max_stack_size {
                            return Err(Error::StackOverflow);
                        }
                        self.stdin_pos = next;
                        assert(self@.stdin =~= input.skip(ops::token_consumed(input) as int));
                        self.push_slot(v)
                    },
                }
            },
            _ => {
                match reply {
                    Some(FloatReply::Bits(v)) => {
                        if self.sp >= self.max_stack_size {
                            return Err(Error::StackOverflow);
                        }
                        let (_, next) = scan_token(&self.stdin, self.stdin_pos);
                        self.stdin_pos = next;
                        assert(self@.stdin =~= input.skip(ops::token_consumed(input) as int));
                        self.push_slot(v)
                    },
                    Some(FloatReply::NoParse) => Err(Error::ParseError),
                    _ => Err(self.invalid(op)),
                }
            },
        }
    }

    /// The global that a word names: by its index, or by the address at
    /// which it was laid out.
    pub fn global_named(&self, x: u64) -> (r: Option<usize>)
        requires
            self.wf(),
        ensures
            match r {
                Some(i) => self@.named_global(x) == Some(i as int) && i < self@.module.globals.len(),
                None => self@.named_global(x) is None,
            },
    {
        if x <= u32::MAX as u64 {
            if x < self.src.globals.len() as u64 {
                Some(x as usize)
            } else {
                None
            }
        } else {
            let mut i: usize = 0;
            while i < self.src.globals.len()
                invariant
                    i <= self.src.globals@.len(),
                    self.wf(),
                    x > u32::MAX,
                    state::first_at(self@.global_addr, x, 0) == state::first_at(
                        self@.global_addr,
                        x,
                        i as int,
                    ),
                decreases self.src.globals@.len() - i,
            {
                match self.global_idx.get(&i) {
                    Some(addr) => {
                        if *addr == x {
                            return Some(i);
                        }
                    },
                    None => {},
                }
                i = i + 1;
            }
            None
        }
    }

    fn exec_print(&mut self, op: Op, reply: Option<FloatReply>) -> (r: Result<()>)
        requires
            old(self).wf(),
            op is PrintI || op is PrintC || op is PrintF || op is PrintS || op is PrintLn,
        ensures
            final(self).wf(),
            outcome(
                old(self)@,
                op,
                old(self)@.exec_resolved(op, reply_view(reply)),
                r,
                final(self)@,
            ),
    {
        if let Op::PrintLn = op {
            let mut text: Vec<u8> = Vec::new();
            text.push(0x0d);
            text.push(0x0a);
            assert(text@ =~= line_end());
            self.emit(&text);
            return Ok(());
        }
        if self.depth() < 1 {
            return Err(Error::StackUnderflow);
        }
        let x = self.peek(0);
        match op {
            Op::PrintI => {
                let text = format_int(x);
                self.emit(&text);
            },
            Op::PrintC => {
                let text = format_char(x);
                self.emit(&text);
            },
            Op::PrintF => {
                match reply {
                    Some(FloatReply::Text(text)) => {
                        self.emit(&text);
                    },
                    _ => {
                        return Err(self.invalid(op));
                    },
                }
            },
            _ => {
                let index = match self.global_named(x) {
                    Some(i) => i,
                    None => {
                        if x > u32::MAX as u64 {
                            return Err(Error::ArithmeticErr);
                        }
                        return Err(Error::InvalidFnId(x as u32));
                    },
                };
                let g = &self.src.globals[index];
                assert(self@.module.globals[index as int] == g@);
                self.emit(&g.bytes);
            },
        }
        self.drop_top(1);
        Ok(())
    }

    fn exec_stack(&mut self, op: Op) -> (r: Result<()>)
        requires
            old(self).wf(),
            op is Nop || op is Push || op is Pop || op is PopN || op is Dup || op is StackAlloc,
        ensures
            final(self).wf(),
            outcome(old(self)@, op, old(self)@.exec_resolved(op, None), r, final(self)@),
    {
        match op {
            Op::Push(x) => self.push_slot(x),
            Op::Pop => {
                if self.depth() < 1 {
                    return Err(Error::StackUnderflow);
                }
                self.drop_top(1);
                Ok(())
            },
            Op::PopN(n) => {
                if (self.depth() as u64) < n as u64 {
                    return Err(Error::StackUnderflow);
                }
                self.drop_top(n as usize);
                Ok(())
            },
            Op::Dup => {
                if self.depth() < 1 {
                    return Err(Error::StackUnderflow);
                }
                let top = self.peek(0);
                self.push_slot(top)
            },
            Op::StackAlloc(n) => {
                if n as u64 > (self.max_stack_size - self.sp) as u64 {
                    return Err(Error::StackOverflow);
                }
                self.sp = self.sp + (n as usize);
                Ok(())
            },
            _ => Ok(()),
        }
    }

    /// Runs one instruction, with what the float unit answered to the request
    /// for it, if it was asked. On `Err` the machine is left as it was.
    pub fn exec_instruction(&mut self, op: Op, reply: Option<FloatReply>) -> (r: Result<()>)
        requires
            old(self).wf(),
        ensures
            final(self).wf(),
            outcome(
                old(self)@,
                old(self)@.resolved(op),
                old(self)@.exec(op, reply_view(reply)),
                r,
                final(self)@,
            ),
    {
        let op = self.resolve(op);
        match op {
            Op::AddI | Op::SubI | Op::MulI | Op::DivI | Op::DivU | Op::Shl | Op::Shr | Op::ShrL
            | Op::And | Op::Or | Op::Xor | Op::CmpI | Op::CmpU => self.exec_int_binary(op),
            Op::Not | Op::NegI | Op::SetLt | Op::SetGt => self.exec_int_unary(op),
            Op::AddF | Op::SubF | Op::MulF | Op::DivF | Op::CmpF | Op::NegF | Op::IToF
            | Op::FToI => self.exec_float(op, reply),
            Op::Bz(off) | Op::Bnz(off) | Op::Bl(off) | Op::Bg(off) | Op::Blz(off) | Op::Bgz(off)
            | Op::BrFalse(off) | Op::BrTrue(off) => self.exec_branch(op, off),
            Op::Load8 => self.exec_load(op, Width::W8),
            Op::Load16 => self.exec_load(op, Width::W16),
            Op::Load32 => self.exec_load(op, Width::W32),
            Op::Load64 => self.exec_load(op, Width::W64),
            Op::Store8 => self.exec_store(op, Width::W8),
            Op::Store16 => self.exec_store(op, Width::W16),
            Op::Store32 => self.exec_store(op, Width::W32),
            Op::Store64 => self.exec_store(op, Width::W64),
            Op::Nop | Op::Push(_) | Op::Pop | Op::PopN(_) | Op::Dup | Op::StackAlloc(_) => {
                self.exec_stack(op)
            },
            Op::LocA(_) | Op::ArgA(_) | Op::GlobA(_) => self.exec_address(op),
            Op::Alloc => self.exec_alloc(),
            Op::Free => self.exec_free(),
            Op::Br(off) => self.jump(off),
            Op::Call(id) => self.call(id),
            Op::Ret => self.ret(),
            Op::CallName(id) => self.exec_call_name(id),
            Op::ScanI | Op::ScanC | Op::ScanF => self.exec_scan(op, reply),
            Op::PrintI | Op::PrintC | Op::PrintF | Op::PrintS | Op::PrintLn => {
                self.exec_print(op, reply)
            },
            Op::Panic => Err(Error::Halt),
            Op::BrA(_) => Err(self.invalid(op)),
        }
    }

    /// Runs the next instruction, with what the float unit answered to the
    /// request for it, if it was asked, and gives the instruction that was
    /// run. Where the instruction fails, the machine is left with the
    /// instruction pointer behind it, and otherwise as it was.
    pub fn step_with(&mut self, reply: Option<FloatReply>) -> (r: Result<Op>)
        requires
            old(self).wf(),
        ensures
            final(self).wf(),
            step_outcome(old(self)@, reply_view(reply), r, final(self)@),
    {
        let info = self.fn_info();
        if self.ip >= info.ins.len() {
            return Err(Error::ControlReachesEnd(self.fn_id));
        }
        let op = info.ins[self.ip];
        self.ip = self.ip + 1;
        match self.exec_instruction(op, reply) {
            Ok(()) => Ok(op),
            Err(e) => Err(e),
        }
    }

    /// Runs the next instruction, without a float unit: an instruction that
    /// needs one is invalid.
    pub fn step(&mut self) -> (r: Result<Op>)
        requires
            old(self).wf(),
        ensures
            final(self).wf(),
            step_outcome(old(self)@, None, r, final(self)@),
    {
        self.step_with(None)
    }
}

/// The most steps that one run takes.
pub const RUN_LIMIT: u64 = 0xffff_ffff_ffff_ffff;

/// Where a run without a float unit leads in at most `fuel` steps, and how it
/// ends: as `run_with` says of a run that is handed no answers and always
/// goes on.
pub open spec fn run_from(s: VmView, fuel: nat) -> (VmView, Result<()>) {
    run_with(s, no_reply(), always(), fuel)
}

/// What is known of one frame of the call stack.
#[derive(Debug, PartialEq, Eq)]
pub struct StackInfo {
    pub fn_name: Option<String>,
    pub fn_id: u64,
    pub inst: u64,
}

/// What a frame record holds.
pub struct StackInfoView {
    pub fn_name: Option<Seq<char>>,
    pub fn_id: u64,
    pub inst: u64,
}

impl View for StackInfo {
    type V = StackInfoView;

    open spec fn view(&self) -> StackInfoView {
        StackInfoView {
            fn_name: match self.fn_name {
                Some(s) => Some(s@),
                None => None,
            },
            fn_id: self.fn_id,
            inst: self.inst,
        }
    }
}

/// The text that bytes stand for as UTF-8, with the replacement character in
/// place of each ill-formed part.
pub uninterp spec fn utf8_lossy(bytes: Seq<u8>) -> Seq<char>;

/// `String::from_utf8_lossy`, as an owned string: the text that the bytes
/// stand for as UTF-8, ill-formed parts replaced. The text depends on the
/// bytes alone.
#[verifier::external_body]
fn string_from_utf8_lossy(bytes: &[u8]) -> (s: String)
    ensures
        s@ == utf8_lossy(bytes@),
{
    String::from_utf8_lossy(bytes).into_owned()
}

/// The name of function `fn_id` as text, where the function and the global
/// with its name exist.
pub open spec fn frame_name(m: crate::s0::S0View, fn_id: u64) -> Option<Seq<char>> {
    if fn_id < m.functions.len() && m.functions[fn_id as int].name < m.globals.len() {
        Some(utf8_lossy(m.globals[m.functions[fn_id as int].name as int].bytes))
    } else {
        None
    }
}

/// The record of the caller that the saved triple at `bp` describes.
pub open spec fn frame_at(v: VmView, bp: int) -> StackInfoView {
    StackInfoView {
        fn_name: frame_name(v.module, v.stack[bp + 2]),
        fn_id: v.stack[bp + 2],
        inst: v.stack[bp + 1],
    }
}

/// The records of the callers, from the frame at `bp` outward, and whether
/// the chain of frames is broken: a triple that lies outside the stack, or a
/// saved base pointer that does not lie below its frame. The chain ends well
/// at the frame whose saved function id is the sentinel.
pub open spec fn frames_from(v: VmView, bp: nat) -> (Seq<StackInfoView>, bool)
    decreases bp,
{
    if bp + 2 >= v.stack.len() {
        (Seq::empty(), true)
    } else if v.stack[(bp + 2) as int] == 0xffff_ffff_ffff_ffffu64 {
        (Seq::empty(), false)
    } else if v.stack[bp as int] >= bp {
        (seq![frame_at(v, bp as int)], true)
    } else {
        let rest = frames_from(v, v.stack[bp as int] as nat);
        (seq![frame_at(v, bp as int)] + rest.0, rest.1)
    }
}

/// The stack pointer, the base pointer and the function id of the frame of
/// the `k`-th caller: the frame that runs for `k = 0`; else the stack
/// pointer is the base pointer of the frame above, the base pointer and the
/// function id are the ones saved there. Nothing where the chain of frames
/// leaves the stack.
pub open spec fn frame_regs(v: VmView, k: nat) -> Option<(usize, usize, u64)>
    decreases k,
{
    if k == 0 {
        Some((v.sp, v.bp, v.fn_id as u64))
    } else {
        match frame_regs(v, (k - 1) as nat) {
            Some((_, bp, _)) => if bp + 2 >= v.stack.len() || v.stack[bp as int] > usize::MAX {
                None
            } else {
                Some((bp, v.stack[bp as int] as usize, v.stack[bp + 2]))
            },
            None => None,
        }
    }
}

/// Behind a break of the chain of frames there is no frame.
pub proof fn lemma_frame_regs_broken(v: VmView, k: nat, n: nat)
    requires
        k <= n,
        frame_regs(v, k) is None,
    ensures
        frame_regs(v, n) is None,
    decreases n - k,
{
    if k < n {
        lemma_frame_regs_broken(v, k, (n - 1) as nat);
    }
}

/// The views of records.
pub open spec fn info_views(s: Seq<StackInfo>) -> Seq<StackInfoView> {
    Seq::new(s.len(), |i: int| s[i]@)
}

/// A view into one frame of the stack, for display.
pub struct StackDebugger<'s> {
    sp: usize,
    bp: usize,
    fn_info: &'s FnDef,
    stacktrace: bool,
    bounds: bool,
}

impl<'s> StackDebugger<'s> {
    /// A view of the frame with the given registers; the call stack and the
    /// bounds of the parts of the frame are shown.
    pub fn new(sp: usize, bp: usize, fn_info: &'s FnDef) -> (d: StackDebugger<'s>)
        ensures
            d.sp_spec() == sp,
            d.bp_spec() == bp,
            d.fn_info_spec() == fn_info@,
            d.shows_stacktrace(),
            d.shows_bounds(),
    {
        StackDebugger { sp, bp, fn_info, stacktrace: true, bounds: true }
    }

    pub closed spec fn sp_spec(&self) -> usize {
        self.sp
    }

    pub closed spec fn bp_spec(&self) -> usize {
        self.bp
    }

    pub closed spec fn fn_info_spec(&self) -> crate::s0::FnDefView {
        self.fn_info@
    }

    pub closed spec fn shows_stacktrace(&self) -> bool {
        self.stacktrace
    }

    pub closed spec fn shows_bounds(&self) -> bool {
        self.bounds
    }

    /// Whether the call stack is shown.
    pub fn stacktrace(self, op: bool) -> (d: Self)
        ensures
            d.shows_stacktrace() == op,
            d.shows_bounds() == self.shows_bounds(),
            d.sp_spec() == self.sp_spec(),
            d.bp_spec() == self.bp_spec(),
            d.fn_info_spec() == self.fn_info_spec(),
    {
        StackDebugger { stacktrace: op, ..self }
    }

    /// Whether the bounds of the parts of the frame are shown.
    pub fn bounds(self, op: bool) -> (d: Self)
        ensures
            d.shows_bounds() == op,
            d.shows_stacktrace() == self.shows_stacktrace(),
            d.sp_spec() == self.sp_spec(),
            d.bp_spec() == self.bp_spec(),
            d.fn_info_spec() == self.fn_info_spec(),
    {
        StackDebugger { bounds: op, ..self }
    }

    /// The stack pointer of the frame.
    pub fn sp(&self) -> (r: usize)
        ensures
            r == self.sp_spec(),
    {
        self.sp
    }

    /// The base pointer of the frame.
    pub fn bp(&self) -> (r: usize)
        ensures
            r == self.bp_spec(),
    {
        self.bp
    }

    /// The function of the frame.
    pub fn fn_info(&self) -> (r: &'s FnDef)
        ensures
            r@ == self.fn_info_spec(),
    {
        self.fn_info
    }

    /// Whether the call stack is shown.
    pub fn has_stacktrace(&self) -> (r: bool)
        ensures
            r == self.shows_stacktrace(),
    {
        self.stacktrace
    }

    /// Whether the bounds of the parts of the frame are shown.
    pub fn has_bounds(&self) -> (r: bool)
        ensures
            r == self.shows_bounds(),
    {
        self.bounds
    }

    /// The slots that a display of the frame shows: from the first return
    /// slot, or the stack bottom, up to five slots above the stack pointer,
    /// or the end of the stack.
    pub fn shown_slots(&self, max_stack_size: usize) -> (r: (usize, usize))
        ensures
            r.0 == if self.bp_spec() >= self.fn_info_spec().param_slots
                + self.fn_info_spec().ret_slots {
                self.bp_spec() - (self.fn_info_spec().param_slots + self.fn_info_spec().ret_slots)
            } else {
                0
            },
            r.1 == if self.sp_spec() + 5 <= max_stack_size {
                self.sp_spec() + 5
            } else {
                max_stack_size as int
            },
    {
        let args = (self.fn_info.param_slots as u64) + (self.fn_info.ret_slots as u64);
        let lower = if (self.bp as u64) >= args {
            ((self.bp as u64) - args) as usize
        } else {
            0
        };
        let upper = if max_stack_size >= 5 && self.sp <= max_stack_size - 5 {
            self.sp + 5
        } else {
            max_stack_size
        };
        (lower, upper)
    }
}

impl<'src> R0Vm<'src> {
    /// Drive virtual machine to end, and abort when any error occurs. The
    /// machine has no float unit here: an instruction that needs one is
    /// invalid. The result is that of `run_from`; only at an allocation on
    /// the way the run may end with `OutOfMemory` instead, because the host
    /// has no memory left.
    pub fn run_to_end(&mut self) -> (r: Result<()>)
        requires
            old(self).wf(),
        ensures
            final(self).wf(),
            run_outcome(
                old(self)@,
                run_from(old(self)@, RUN_LIMIT as nat),
                no_reply(),
                always(),
                r,
                final(self)@,
            ),
            r is Ok ==> final(self)@.fn_id == 0 && final(self)@.ip >= final(self)@.fn_info().ins.len(),
    {
        let mut fuel: u64 = RUN_LIMIT;
        proof {
            lemma_run_starts(self@, no_reply(), always());
        }
        loop
            invariant
                self.wf(),
                on_course(old(self)@, self@, no_reply(), always(), fuel as nat),
            decreases fuel,
        {
            let info = self.fn_info();
            if self.ip >= info.ins.len() || fuel == 0 {
                proof {
                    lemma_run_ends(old(self)@, self@, no_reply(), always(), fuel as nat);
                }
                if self.ip < info.ins.len() {
                    return Err(Error::Halt);
                } else if self.fn_id == 0 {
                    return Ok(());
                } else {
                    return Err(Error::ControlReachesEnd(self.fn_id));
                }
            }
            let ghost at = self@;
            let stepped = self.step();
            proof {
                lemma_run_step(old(self)@, at, no_reply(), always(), fuel as nat, stepped, self@);
            }
            match stepped {
                Ok(_) => {},
                Err(e) => {
                    return Err(e);
                },
            }
            fuel = fuel - 1;
        }
    }

    /// The name of the function with the given id, as text.
    pub fn get_fn_name_by_id(&self, fn_id: u64) -> (r: Option<String>)
        ensures
            match r {
                Some(s) => frame_name(self@.module, fn_id) == Some(s@),
                None => frame_name(self@.module, fn_id) is None,
            },
    {
        if fn_id < self.src.functions.len() as u64 {
            let f = &self.src.functions[fn_id as usize];
            assert(self@.module.functions[fn_id as int] == f@);
            if (f.name as usize) < self.src.globals.len() {
                let g = &self.src.globals[f.name as usize];
                assert(self@.module.globals[f.name as int] == g@);
                Some(string_from_utf8_lossy(g.bytes.as_slice()))
            } else {
                None
            }
        } else {
            None
        }
    }

    /// Return the information of current running function
    pub fn cur_stack_info(&self) -> (r: StackInfo)
        ensures
            r@ == (StackInfoView {
                fn_name: frame_name(self@.module, self@.fn_id as u64),
                fn_id: self@.fn_id as u64,
                inst: self@.ip as u64,
            }),
    {
        StackInfo {
            fn_id: self.fn_id as u64,
            inst: self.ip as u64,
            fn_name: self.get_fn_name_by_id(self.fn_id as u64),
        }
    }

    /// Returns information of the stack function at `bp` and the base pointer
    /// of the caller of this function. A triple that lies outside the stack
    /// is refused.
    pub fn stack_info(&self, bp: usize) -> (r: Result<(StackInfo, u64)>)
        requires
            self.wf(),
        ensures
            match r {
                Ok((info, prev)) => bp + 2 < self@.stack.len() && info@ == frame_at(self@, bp as int)
                    && prev == self@.stack[bp as int],
                Err(e) => bp + 2 >= self@.stack.len() && e == Error::InvalidStackOffset(
                    bp as u64,
                    (bp - self@.bp) as i64,
                ),
            },
    {
        if self.stack.len() < 3 || bp >= self.stack.len() - 2 {
            let off = if bp >= self.bp {
                (bp - self.bp) as i64
            } else {
                -((self.bp - bp) as i64)
            };
            return Err(Error::InvalidStackOffset(bp as u64, off));
        }
        let prev_bp = self.stack[bp];
        let ip = self.stack[bp + 1];
        let fn_id = self.stack[bp + 2];
        let fn_name = self.get_fn_name_by_id(fn_id);
        Ok((StackInfo { fn_name, fn_id, inst: ip }, prev_bp))
    }

    /// All information from current runtime stack: the function that runs,
    /// then its callers outward. The flag says whether the chain of frames is
    /// broken; the records up to the break are given.
    pub fn stack_trace(&self) -> (r: (Vec<StackInfo>, bool))
        requires
            self.wf(),
        ensures
            info_views(r.0@) == seq![
                StackInfoView {
                    fn_name: frame_name(self@.module, self@.fn_id as u64),
                    fn_id: self@.fn_id as u64,
                    inst: self@.ip as u64,
                },
            ] + frames_from(self@, self@.bp as nat).0,
            r.1 == frames_from(self@, self@.bp as nat).1,
    {
        let mut infos: Vec<StackInfo> = Vec::new();
        infos.push(self.cur_stack_info());
        let ghost head = info_views(infos@);
        let ghost whole = frames_from(self@, self@.bp as nat);
        let mut bp = self.bp;
        let mut done = false;
        let mut corrupted = false;
        while !done
            invariant
                self.wf(),
                head.len() == 1,
                !done ==> whole.0 == info_views(infos@).skip(1) + frames_from(self@, bp as nat).0
                    && whole.1 == frames_from(self@, bp as nat).1,
                done ==> whole.0 == info_views(infos@).skip(1) && whole.1 == corrupted,
                !done ==> !corrupted,
                info_views(infos@).len() >= 1,
                info_views(infos@)[0] == head[0],
            decreases
                    if done {
                        0
                    } else {
                        bp + 1
                    },
        {
            let ghost before = info_views(infos@);
            match self.stack_info(bp) {
                Err(_) => {
                    corrupted = true;
                    done = true;
                    assert(before.skip(1) + Seq::<StackInfoView>::empty() =~= before.skip(1));
                },
                Ok((info, prev)) => {
                    if info.fn_id == 0xffff_ffff_ffff_ffff {
                        done = true;
                        assert(before.skip(1) + Seq::<StackInfoView>::empty() =~= before.skip(1));
                    } else {
                        let ghost iv = info@;
                        infos.push(info);
                        assert(info_views(infos@) =~= before.push(iv));
                        if prev >= bp as u64 {
                            corrupted = true;
                            done = true;
                            assert(before.skip(1) + seq![iv] =~= info_views(infos@).skip(1));
                        } else {
                            assert(before.skip(1) + (seq![iv] + frames_from(
                                self@,
                                prev as nat,
                            ).0) =~= info_views(infos@).skip(1) + frames_from(self@, prev as nat).0);
                            bp = prev as usize;
                        }
                    }
                },
            }
        }
        assert(info_views(infos@) =~= seq![head[0]] + info_views(infos@).skip(1));
        (infos, corrupted)
    }

    /// A view of the frame that runs.
    pub fn debug_stack(&self) -> (d: StackDebugger<'src>)
        requires
            self.wf(),
        ensures
            d.sp_spec() == self@.sp,
            d.bp_spec() == self@.bp,
            d.fn_info_spec() == self@.fn_info(),
    {
        StackDebugger::new(self.sp, self.bp, self.fn_info())
    }

    /// A view of the frame of the `frame`-th caller: its stack pointer is the
    /// base pointer of the frame above it, its base pointer and function the
    /// ones saved there. A broken chain of frames is refused, and so is a
    /// frame of no function.
    pub fn debug_frame(&self, frame: usize) -> (r: Result<StackDebugger<'src>>)
        requires
            self.wf(),
        ensures
            match frame_regs(self@, frame as nat) {
                Some((sp, bp, f)) => if f < self@.module.functions.len() {
                    r matches Ok(d) && d.sp_spec() == sp && d.bp_spec() == bp && d.fn_info_spec()
                        == self@.module.functions[f as int] && d.shows_stacktrace()
                        && d.shows_bounds()
                } else {
                    r matches Err(e) && e == Error::InvalidFnId(low_word(f))
                },
                None => r matches Err(e) && e is InvalidStackOffset,
            },
    {
        let mut sp = self.sp;
        let mut bp = self.bp;
        let mut fn_id = self.fn_id as u64;
        let mut k: usize = 0;
        while k < frame
            invariant
                self.wf(),
                k <= frame,
                frame_regs(self@, k as nat) == Some((sp, bp, fn_id)),
            decreases frame - k,
        {
            match self.stack_info(bp) {
                Err(e) => {
                    proof {
                        lemma_frame_regs_broken(self@, (k + 1) as nat, frame as nat);
                    }
                    return Err(e);
                },
                Ok((info, prev)) => {
                    if prev > usize::MAX as u64 {
                        proof {
                            lemma_frame_regs_broken(self@, (k + 1) as nat, frame as nat);
                        }
                        return Err(Error::InvalidStackOffset(prev, 0));
                    }
                    sp = bp;
                    bp = prev as usize;
                    fn_id = info.fn_id;
                },
            }
            k = k + 1;
        }
        if fn_id >= self.src.functions.len() as u64 {
            assert(fn_id & 0xffff_ffff <= 0xffff_ffff) by (bit_vector);
            return Err(Error::InvalidFnId((fn_id & 0xffff_ffff) as u32));
        }
        let f = &self.src.functions[fn_id as usize];
        assert(self@.module.functions[fn_id as int] == f@);
        Ok(StackDebugger::new(sp, bp, f))
    }
}

impl<'src> R0Vm<'src> {
    /// Runs the next instruction; a float unit is asked first where the
    /// instruction needs one.
    pub fn step_float<F: Fn(FloatRequest) -> FloatReply>(&mut self, float_unit: &F) -> (r: Result<
        Op,
    >)
        requires
            old(self).wf(),
            forall|q: FloatRequest| float_unit.requires((q,)),
        ensures
            final(self).wf(),
            old(self)@.pending_request() is None ==> step_outcome(old(self)@, None, r, final(self)@),
            old(self)@.pending_request() is Some ==> exists|q: FloatRequest, a: FloatReply|
                Some(q@) == old(self)@.pending_request() && float_unit.ensures((q,), a)
                    && step_outcome(old(self)@, Some(a@), r, final(self)@),
    {
        match self.float_request() {
            Some(q) => {
                let ghost asked = q;
                let a = float_unit(q);
                let ghost answer = a;
                let r = self.step_with(Some(a));
                assert(Some(asked@) == old(self)@.pending_request() && float_unit.ensures(
                    (asked,),
                    answer,
                ) && step_outcome(old(self)@, Some(answer@), r, self@));
                r
            },
            None => self.step_with(None),
        }
    }

    /// Drive virtual machine to end with a float unit, and abort when any
    /// error occurs. A run that has not ended after `RUN_LIMIT` steps is
    /// halted. Whatever function the float unit computes, the result is
    /// that of `run_by` with that function; only at an allocation on the way
    /// the run may end with `OutOfMemory` instead, because the host has no
    /// memory left.
    pub fn run_to_end_with<F: Fn(FloatRequest) -> FloatReply>(&mut self, float_unit: &F) -> (r:
        Result<()>)
        requires
            old(self).wf(),
            forall|q: FloatRequest| float_unit.requires((q,)),
        ensures
            final(self).wf(),
            final(self)@.module == old(self)@.module,
            r is Ok ==> final(self)@.fn_id == 0 && final(self)@.ip >= final(self)@.fn_info().ins.len(),
            forall|unit: spec_fn(FloatRequestView) -> FloatReplyView| #[trigger]
                answers_by(float_unit, unit) ==> run_outcome(
                    old(self)@,
                    run_by(old(self)@, unit, RUN_LIMIT as nat),
                    replies_by(unit),
                    always(),
                    r,
                    final(self)@,
                ),
    {
        let mut fuel: u64 = RUN_LIMIT;
        proof {
            assert forall|unit: spec_fn(FloatRequestView) -> FloatReplyView| #[trigger]
                answers_by(float_unit, unit) implies on_course(
                self@,
                self@,
                replies_by(unit),
                always(),
                RUN_LIMIT as nat,
            ) by {
                lemma_run_starts(self@, replies_by(unit), always());
            }
        }
        loop
            invariant
                self.wf(),
                self@.module == old(self)@.module,
                forall|q: FloatRequest| float_unit.requires((q,)),
                forall|unit: spec_fn(FloatRequestView) -> FloatReplyView| #[trigger]
                    answers_by(float_unit, unit) ==> on_course(
                        old(self)@,
                        self@,
                        replies_by(unit),
                        always(),
                        fuel as nat,
                    ),
            decreases fuel,
        {
            let info = self.fn_info();
            if self.ip >= info.ins.len() || fuel == 0 {
                proof {
                    assert forall|unit: spec_fn(FloatRequestView) -> FloatReplyView| #[trigger]
                        answers_by(float_unit, unit) implies run_outcome(
                        old(self)@,
                        run_by(old(self)@, unit, RUN_LIMIT as nat),
                        replies_by(unit),
                        always(),
                        run_end(self@),
                        self@,
                    ) by {
                        lemma_run_ends(old(self)@, self@, replies_by(unit), always(), fuel as nat);
                    }
                }
                if self.ip < info.ins.len() {
                    return Err(Error::Halt);
                } else if self.fn_id == 0 {
                    return Ok(());
                } else {
                    return Err(Error::ControlReachesEnd(self.fn_id));
                }
            }
            let ghost at = self@;
            let stepped = self.step_float(float_unit);
            proof {
                assert forall|unit: spec_fn(FloatRequestView) -> FloatReplyView| #[trigger]
                    answers_by(float_unit, unit) implies step_outcome(
                    at,
                    replies_by(unit)(at),
                    stepped,
                    self@,
                ) by {}
                assert forall|unit: spec_fn(FloatRequestView) -> FloatReplyView| #[trigger]
                    answers_by(float_unit, unit) implies match stepped {
                    Ok(_) => on_course(
                        old(self)@,
                        self@,
                        replies_by(unit),
                        always(),
                        (fuel - 1) as nat,
                    ),
                    Err(e) => run_outcome(
                        old(self)@,
                        run_by(old(self)@, unit, RUN_LIMIT as nat),
                        replies_by(unit),
                        always(),
                        Err::<(), Error>(e),
                        self@,
                    ),
                } by {
                    lemma_run_step(
                        old(self)@,
                        at,
                        replies_by(unit),
                        always(),
                        fuel as nat,
                        stepped,
                        self@,
                    );
                }
            }
            match stepped {
                Ok(_) => {},
                Err(e) => {
                    return Err(e);
                },
            }
            fuel = fuel - 1;
        }
    }

    /// Steps with a float unit while the inspector says to go on: it is
    /// asked after every step. Ends well where the entry function has run to
    /// its end or the inspector has said to stop. Whatever functions the
    /// float unit and the inspector compute, the result is that of
    /// `run_inspected` with those functions; only at an allocation on the
    /// way the run may end with `OutOfMemory` instead, because the host has
    /// no memory left.
    pub fn run_to_end_inspect<F: Fn(FloatRequest) -> FloatReply, G: Fn(&R0Vm<'src>) -> bool>(
        &mut self,
        float_unit: &F,
        inspect: &G,
    ) -> (r: Result<()>)
        requires
            old(self).wf(),
            forall|q: FloatRequest| float_unit.requires((q,)),
            forall|vm: &R0Vm<'src>| vm.wf() ==> inspect.requires((vm,)),
        ensures
            final(self).wf(),
            final(self)@.module == old(self)@.module,
            r is Ok ==> (final(self)@.fn_id == 0 && final(self)@.ip >= final(self)@.fn_info().ins.len()) || inspect.ensures((final(self),), false),
            forall|unit: spec_fn(FloatRequestView) -> FloatReplyView, go_on: spec_fn(VmView) -> bool|
                #[trigger] answers_by(float_unit, unit) && #[trigger] decides_by(inspect, go_on)
                    ==> run_outcome(
                    old(self)@,
                    run_inspected(old(self)@, unit, go_on, RUN_LIMIT as nat),
                    replies_by(unit),
                    go_on,
                    r,
                    final(self)@,
                ),
    {
        let mut fuel: u64 = RUN_LIMIT;
        proof {
            assert forall|
                unit: spec_fn(FloatRequestView) -> FloatReplyView,
                go_on: spec_fn(VmView) -> bool,
            |
                #[trigger] answers_by(float_unit, unit) && #[trigger] decides_by(
                    inspect,
                    go_on,
                ) implies on_course(self@, self@, replies_by(unit), go_on, RUN_LIMIT as nat) by {
                lemma_run_starts(self@, replies_by(unit), go_on);
            }
        }
        loop
            invariant
                self.wf(),
                self@.module == old(self)@.module,
                forall|q: FloatRequest| float_unit.requires((q,)),
                forall|vm: &R0Vm<'src>| vm.wf() ==> inspect.requires((vm,)),
                forall|unit: spec_fn(FloatRequestView) -> FloatReplyView, go_on: spec_fn(VmView) -> bool|
                    #[trigger] answers_by(float_unit, unit) && #[trigger] decides_by(inspect, go_on)
                        ==> on_course(old(self)@, self@, replies_by(unit), go_on, fuel as nat),
            decreases fuel,
        {
            let info = self.fn_info();
            if self.ip >= info.ins.len() || fuel == 0 {
                proof {
                    assert forall|
                        unit: spec_fn(FloatRequestView) -> FloatReplyView,
                        go_on: spec_fn(VmView) -> bool,
                    |
                        #[trigger] answers_by(float_unit, unit) && #[trigger] decides_by(
                            inspect,
                            go_on,
                        ) implies run_outcome(
                        old(self)@,
                        run_inspected(old(self)@, unit, go_on, RUN_LIMIT as nat),
                        replies_by(unit),
                        go_on,
                        run_end(self@),
                        self@,
                    ) by {
                        lemma_run_ends(old(self)@, self@, replies_by(unit), go_on, fuel as nat);
                    }
                }
                if self.ip < info.ins.len() {
                    return Err(Error::Halt);
                } else if self.fn_id == 0 {
                    return Ok(());
                } else {
                    return Err(Error::ControlReachesEnd(self.fn_id));
                }
            }
            let ghost at = self@;
            let stepped = self.step_float(float_unit);
            proof {
                assert forall|unit: spec_fn(FloatRequestView) -> FloatReplyView| #[trigger]
                    answers_by(float_unit, unit) implies step_outcome(
                    at,
                    replies_by(unit)(at),
                    stepped,
                    self@,
                ) by {}
                assert forall|
                    unit: spec_fn(FloatRequestView) -> FloatReplyView,
                    go_on: spec_fn(VmView) -> bool,
                |
                    #[trigger] answers_by(float_unit, unit) && #[trigger] decides_by(
                        inspect,
                        go_on,
                    ) implies match stepped {
                    Ok(_) => if go_on(self@) {
                        on_course(old(self)@, self@, replies_by(unit), go_on, (fuel - 1) as nat)
                    } else {
                        run_outcome(
                            old(self)@,
                            run_inspected(old(self)@, unit, go_on, RUN_LIMIT as nat),
                            replies_by(unit),
                            go_on,
                            Ok::<(), Error>(()),
                            self@,
                        )
                    },
                    Err(e) => run_outcome(
                        old(self)@,
                        run_inspected(old(self)@, unit, go_on, RUN_LIMIT as nat),
                        replies_by(unit),
                        go_on,
                        Err::<(), Error>(e),
                        self@,
                    ),
                } by {
                    lemma_run_step(
                        old(self)@,
                        at,
                        replies_by(unit),
                        go_on,
                        fuel as nat,
                        stepped,
                        self@,
                    );
                }
            }
            match stepped {
                Ok(_) => {},
                Err(e) => {
                    return Err(e);
                },
            }
            if !inspect(&*self) {
                return Ok(());
            }
            fuel = fuel - 1;
        }
    }
}

/// Whether the machine awaits input that it does not have: the next
/// instruction reads a character and no input is left, or it reads a number
/// and the numeral that the input holds does not end before the input
/// does, so that more input may belong to it.
pub open spec fn awaits_input(v: VmView) -> bool {
    v.ip < v.fn_info().ins.len() && match v.resolved(v.fn_info().ins[v.ip as int]) {
        Op::ScanC => v.stdin.len() == 0,
        Op::ScanI | Op::ScanF => token_open(v.stdin),
        _ => false,
    }
}

/// Whether a float unit gives to every request the answer of `unit`.
pub open spec fn answers_by<F: Fn(FloatRequest) -> FloatReply>(
    float_unit: &F,
    unit: spec_fn(FloatRequestView) -> FloatReplyView,
) -> bool {
    forall|q: FloatRequest, a: FloatReply| #[trigger] float_unit.ensures((q,), a) ==> a@ == unit(q@)
}

/// Whether an inspector says of every machine what `go_on` says of its
/// state.
pub open spec fn decides_by<'src, G: Fn(&R0Vm<'src>) -> bool>(
    inspect: &G,
    go_on: spec_fn(VmView) -> bool,
) -> bool {
    forall|vm: &R0Vm<'src>, b: bool| #[trigger] inspect.ensures((vm,), b) ==> b == go_on(vm@)
}

/// What is handed on from the float unit for the next step: its answer to
/// the request of the next instruction, if that needs the float unit.
pub open spec fn reply_by(s: VmView, unit: spec_fn(FloatRequestView) -> FloatReplyView) -> Option<
    FloatReplyView,
> {
    match s.pending_request() {
        Some(q) => Some(unit(q)),
        None => None,
    }
}

/// Where a run with a float unit that computes `unit` leads in at most
/// `fuel` steps, and how it ends: as a run without a float unit does.
pub open spec fn run_by(
    s: VmView,
    unit: spec_fn(FloatRequestView) -> FloatReplyView,
    fuel: nat,
) -> (VmView, Result<()>) {
    run_with(s, replies_by(unit), always(), fuel)
}

/// Where a run with a float unit that computes `unit` leads while an
/// inspector that computes `go_on` says after every step to go on: it ends
/// well, too, in the first state of which the inspector says to stop.
pub open spec fn run_inspected(
    s: VmView,
    unit: spec_fn(FloatRequestView) -> FloatReplyView,
    go_on: spec_fn(VmView) -> bool,
    fuel: nat,
) -> (VmView, Result<()>) {
    run_with(s, replies_by(unit), go_on, fuel)
}

/// Where a run leads in at most `fuel` steps, and how it ends. For each
/// step `replies` gives what the float unit has answered, and after each
/// step `go_on` says whether the run goes on. The run ends well where the
/// entry function has run to its end, or in the first state of which
/// `go_on` says to stop; with the error of the first instruction that
/// fails, the instruction pointer behind it; with `ControlReachesEnd` at
/// the end of another function; halted, where the steps are used up.
pub open spec fn run_with(
    s: VmView,
    replies: spec_fn(VmView) -> Option<FloatReplyView>,
    go_on: spec_fn(VmView) -> bool,
    fuel: nat,
) -> (VmView, Result<()>)
    decreases fuel,
{
    if s.ip >= s.fn_info().ins.len() {
        if s.fn_id == 0 {
            (s, Ok(()))
        } else {
            (s, Err(Error::ControlReachesEnd(s.fn_id)))
        }
    } else if fuel == 0 {
        (s, Err(Error::Halt))
    } else {
        match fetched(s).exec(s.fn_info().ins[s.ip as int], replies(s)) {
            Ok(next) => if go_on(next) {
                run_with(next, replies, go_on, (fuel - 1) as nat)
            } else {
                (next, Ok(()))
            },
            Err(e) => (fetched(s), Err(e)),
        }
    }
}

/// Whether a run that began in `start` stands in `at` with `fuel` steps
/// left: the steps so far went well, and the run ends as the rest of it
/// ends.
#[verifier::opaque]
spec fn on_course(
    start: VmView,
    at: VmView,
    replies: spec_fn(VmView) -> Option<FloatReplyView>,
    go_on: spec_fn(VmView) -> bool,
    fuel: nat,
) -> bool {
    &&& fuel <= RUN_LIMIT
    &&& after_steps(start, replies, go_on, (RUN_LIMIT - fuel) as nat) == Some(at)
    &&& run_with(start, replies, go_on, RUN_LIMIT as nat) == run_with(at, replies, go_on, fuel)
}

/// A run is on course where it begins.
proof fn lemma_run_starts(
    start: VmView,
    replies: spec_fn(VmView) -> Option<FloatReplyView>,
    go_on: spec_fn(VmView) -> bool,
)
    ensures
        on_course(start, start, replies, go_on, RUN_LIMIT as nat),
{
    reveal(on_course);
}

/// How a run ends that finds no instruction to run or no step left.
pub open spec fn run_end(at: VmView) -> Result<()> {
    if at.ip >= at.fn_info().ins.len() {
        if at.fn_id == 0 {
            Ok(())
        } else {
            Err(Error::ControlReachesEnd(at.fn_id))
        }
    } else {
        Err(Error::Halt)
    }
}

/// A run that finds no instruction to run or no step left ends as
/// `run_with` says.
proof fn lemma_run_ends(
    start: VmView,
    at: VmView,
    replies: spec_fn(VmView) -> Option<FloatReplyView>,
    go_on: spec_fn(VmView) -> bool,
    fuel: nat,
)
    requires
        on_course(start, at, replies, go_on, fuel),
        at.ip >= at.fn_info().ins.len() || fuel == 0,
    ensures
        run_outcome(
            start,
            run_with(start, replies, go_on, RUN_LIMIT as nat),
            replies,
            go_on,
            run_end(at),
            at,
        ),
{
    reveal(on_course);
}

/// One step of a run: where the step goes well and the run goes on, the
/// run is on course with one step less; else it has ended as `run_outcome`
/// says.
proof fn lemma_run_step(
    start: VmView,
    at: VmView,
    replies: spec_fn(VmView) -> Option<FloatReplyView>,
    go_on: spec_fn(VmView) -> bool,
    fuel: nat,
    r: Result<Op>,
    after: VmView,
)
    requires
        fuel > 0,
        on_course(start, at, replies, go_on, fuel),
        at.ip < at.fn_info().ins.len(),
        step_outcome(at, replies(at), r, after),
    ensures
        match r {
            Ok(_) => if go_on(after) {
                on_course(start, after, replies, go_on, (fuel - 1) as nat)
            } else {
                run_outcome(
                    start,
                    run_with(start, replies, go_on, RUN_LIMIT as nat),
                    replies,
                    go_on,
                    Ok::<(), Error>(()),
                    after,
                )
            },
            Err(e) => run_outcome(
                start,
                run_with(start, replies, go_on, RUN_LIMIT as nat),
                replies,
                go_on,
                Err::<(), Error>(e),
                after,
            ),
        },
{
    reveal(on_course);
    let op = at.fn_info().ins[at.ip as int];
    let model = fetched(at).exec(op, replies(at));
    assert(after_steps(start, replies, go_on, (RUN_LIMIT - fuel + 1) as nat) == match model {
        Ok(next) => if go_on(next) {
            Some(next)
        } else {
            None
        },
        Err(_) => None::<VmView>,
    }) by {
        assert((RUN_LIMIT - fuel + 1 - 1) as nat == (RUN_LIMIT - fuel) as nat);
    }
    match r {
        Ok(_) => {},
        Err(e) => {
            if model is Ok {
                assert(host_refused(start, replies, go_on, (RUN_LIMIT - fuel) as nat, after));
            }
        },
    }
}

/// What a run without a float unit hands on for every step: nothing.
pub open spec fn no_reply() -> spec_fn(VmView) -> Option<FloatReplyView> {
    |s: VmView| None::<FloatReplyView>
}

/// What a run with a float unit that computes `unit` hands on for a step.
pub open spec fn replies_by(unit: spec_fn(FloatRequestView) -> FloatReplyView) -> spec_fn(
    VmView,
) -> Option<FloatReplyView> {
    |s: VmView| reply_by(s, unit)
}

/// What says of every state that a run goes on.
pub open spec fn always() -> spec_fn(VmView) -> bool {
    |s: VmView| true
}

/// The state with the instruction pointer behind the next instruction.
pub open spec fn fetched(s: VmView) -> VmView {
    VmView { ip: (s.ip + 1) as usize, ..s }
}

/// The state after `n` steps that all go well and after each of which the
/// run goes on; nothing where the run ends before.
pub open spec fn after_steps(
    s: VmView,
    replies: spec_fn(VmView) -> Option<FloatReplyView>,
    go_on: spec_fn(VmView) -> bool,
    n: nat,
) -> Option<VmView>
    decreases n,
{
    if n == 0 {
        Some(s)
    } else {
        match after_steps(s, replies, go_on, (n - 1) as nat) {
            None => None,
            Some(u) => if u.ip >= u.fn_info().ins.len() {
                None
            } else {
                match fetched(u).exec(u.fn_info().ins[u.ip as int], replies(u)) {
                    Ok(next) => if go_on(next) {
                        Some(next)
                    } else {
                        None
                    },
                    Err(_) => None,
                }
            },
        }
    }
}

/// Whether the host has refused the memory of the allocation that a run
/// comes to after `n` steps, and left the machine in state `t`: after `n`
/// steps that go well the next instruction is an allocation that the
/// machine would make, and `t` is the state with the instruction pointer
/// behind that instruction and nothing else changed.
pub open spec fn host_refused(
    s: VmView,
    replies: spec_fn(VmView) -> Option<FloatReplyView>,
    go_on: spec_fn(VmView) -> bool,
    n: nat,
    t: VmView,
) -> bool {
    match after_steps(s, replies, go_on, n) {
        None => false,
        Some(u) => {
            &&& u.ip < u.fn_info().ins.len()
            &&& fetched(u).resolved(u.fn_info().ins[u.ip as int]) is Alloc
            &&& fetched(u).exec(u.fn_info().ins[u.ip as int], replies(u)) is Ok
            &&& t == fetched(u)
        },
    }
}

/// How a run ended, against where the steps of the machine lead: as they
/// lead, or, where the host has refused the memory of an allocation on the
/// way, with `OutOfMemory` at that allocation.
pub open spec fn run_outcome(
    before: VmView,
    expected: (VmView, Result<()>),
    replies: spec_fn(VmView) -> Option<FloatReplyView>,
    go_on: spec_fn(VmView) -> bool,
    r: Result<()>,
    after: VmView,
) -> bool {
    (after, r) == expected || (r == Err::<(), Error>(Error::OutOfMemory) && exists|n: nat|
        n < RUN_LIMIT && #[trigger] host_refused(before, replies, go_on, n, after))
}

/// Whether no function of a module holds an allocation.
pub open spec fn alloc_free(m: crate::s0::S0View) -> bool {
    forall|f: int, i: int|
        0 <= f < m.functions.len() && 0 <= i < m.functions[f].ins.len() ==> !(
        #[trigger] m.functions[f].ins[i] is Alloc)
}

/// An instruction that goes well leaves the module as it is, and a
/// function of the module running.
pub proof fn lemma_exec_keeps_module(w: VmView, op: Op, reply: Option<FloatReplyView>)
    requires
        w.fn_id < w.module.functions.len(),
    ensures
        w.exec(op, reply) matches Ok(after) ==> after.module == w.module && after.fn_id
            < after.module.functions.len(),
{
    let run = w.resolved(op);
    match run {
        Op::CallName(id) => {
            if w.exec(op, reply) is Ok {
                let f = find_function(
                    w.module,
                    w.module.globals[id as int].bytes,
                    w.module.functions.len(),
                )->Some_0;
                assert(w.exec(op, reply) == w.called(low_word(f as u64)));
            }
        },
        _ => {},
    }
}

/// The steps of a run leave the module as it is, and a function of the
/// module running.
pub proof fn lemma_steps_keep_module(
    s: VmView,
    replies: spec_fn(VmView) -> Option<FloatReplyView>,
    go_on: spec_fn(VmView) -> bool,
    n: nat,
)
    requires
        s.fn_id < s.module.functions.len(),
    ensures
        after_steps(s, replies, go_on, n) matches Some(u) ==> u.module == s.module && u.fn_id
            < u.module.functions.len(),
    decreases n,
{
    if n > 0 {
        lemma_steps_keep_module(s, replies, go_on, (n - 1) as nat);
        match after_steps(s, replies, go_on, (n - 1) as nat) {
            Some(u) => {
                if u.ip < u.fn_info().ins.len() {
                    lemma_exec_keeps_module(fetched(u), u.fn_info().ins[u.ip as int], replies(u));
                }
            },
            None => {},
        }
    }
}

/// A run of a module without allocations ends as the steps of the machine
/// lead: the host has nothing to refuse.
pub proof fn lemma_run_without_alloc(
    before: VmView,
    expected: (VmView, Result<()>),
    replies: spec_fn(VmView) -> Option<FloatReplyView>,
    go_on: spec_fn(VmView) -> bool,
    r: Result<()>,
    after: VmView,
)
    requires
        run_outcome(before, expected, replies, go_on, r, after),
        before.fn_id < before.module.functions.len(),
        alloc_free(before.module),
    ensures
        (after, r) == expected,
{
    assert forall|n: nat| !#[trigger] host_refused(before, replies, go_on, n, after) by {
        lemma_steps_keep_module(before, replies, go_on, n);
        match after_steps(before, replies, go_on, n) {
            Some(u) => {
                if u.ip < u.fn_info().ins.len() {
                    let op = u.fn_info().ins[u.ip as int];
                    assert(!(op is Alloc));
                    assert(!(fetched(u).resolved(op) is Alloc));
                }
            },
            None => {},
        }
    }
}

} // verus!
