//! The state of the machine as a mathematical value, and what each
//! instruction makes of it.

use crate::error::{Error, InvalidInstructionCtx};
use crate::opcodes::{low_word, Op};
use crate::s0::{FnDefView, GlobalValueView, S0View};
use crate::vm::mem::{
    block_starting_at, heap_load, heap_next_addr, heap_store, heap_wf, slot_read, slot_write,
    spec_stack_addr, HeapBlock, Width, STACK_START,
};
use crate::vm::ops::{
    binary_result, branch_offset, branch_taken, char_text, dec_signed, is_conditional_branch,
    is_int_binary, is_int_unary, next_token, parse_u64, token_consumed, unary_result, as_signed,
};
use vstd::prelude::*;

verus! {

/// What the float unit of the host answers.
pub enum FloatReplyView {
    /// The bits of a double, or the word of a comparison or conversion.
    Bits(u64),
    /// The text of a double.
    Text(Seq<u8>),
    /// The token stands for no double.
    NoParse,
}

/// What the machine asks of the float unit of the host.
pub enum FloatRequestView {
    /// An instruction with two operands; the first was pushed first.
    Binary(Op, u64, u64),
    /// An instruction with one operand.
    Unary(Op, u64),
    /// The text of a double, with six fractional digits.
    Print(u64),
    /// The double that a token of the input stands for.
    Parse(Seq<u8>),
}

/// The state of the machine.
pub struct VmView {
    /// The module that runs.
    pub module: S0View,
    /// The number of slots of the stack.
    pub max_stack: nat,
    /// The address of each global, by its index.
    pub global_addr: Seq<u64>,
    /// The buffers of the heap, in the order of their addresses.
    pub heap: Seq<HeapBlock>,
    /// All the slots of the stack, used or not.
    pub stack: Seq<u64>,
    /// The function that runs.
    pub fn_id: usize,
    /// The index of the next instruction in it.
    pub ip: usize,
    /// The number of slots in use.
    pub sp: usize,
    /// The slot that holds the caller's base pointer.
    pub bp: usize,
    /// The input that is not read yet.
    pub stdin: Seq<u8>,
    /// All the output so far.
    pub stdout: Seq<u8>,
}

/// The line end that the machine writes.
pub open spec fn line_end() -> Seq<u8> {
    seq![0x0du8, 0x0au8]
}

/// The input or output instruction that a library name stands for: the
/// names are `putint`, `putdouble`, `putstr`, `putchar`, `getint`,
/// `getdouble` and `getchar`, and no others.
pub open spec fn library_op(name: Seq<u8>) -> Option<Op> {
    if name == seq![0x70u8, 0x75, 0x74, 0x69, 0x6e, 0x74] {
        Some(Op::PrintI)
    } else if name == seq![0x70u8, 0x75, 0x74, 0x64, 0x6f, 0x75, 0x62, 0x6c, 0x65] {
        Some(Op::PrintF)
    } else if name == seq![0x70u8, 0x75, 0x74, 0x73, 0x74, 0x72] {
        Some(Op::PrintS)
    } else if name == seq![0x70u8, 0x75, 0x74, 0x63, 0x68, 0x61, 0x72] {
        Some(Op::PrintC)
    } else if name == seq![0x67u8, 0x65, 0x74, 0x69, 0x6e, 0x74] {
        Some(Op::ScanI)
    } else if name == seq![0x67u8, 0x65, 0x74, 0x64, 0x6f, 0x75, 0x62, 0x6c, 0x65] {
        Some(Op::ScanF)
    } else if name == seq![0x67u8, 0x65, 0x74, 0x63, 0x68, 0x61, 0x72] {
        Some(Op::ScanC)
    } else {
        None
    }
}

/// The name of a function: the bytes of the global that its name index
/// points at, if it points at one.
pub open spec fn function_name(m: S0View, f: int) -> Option<Seq<u8>> {
    if m.functions[f].name < m.globals.len() {
        Some(m.globals[m.functions[f].name as int].bytes)
    } else {
        None
    }
}

/// The id of the function with the given name among the first `n` functions:
/// the last of them, where several carry the name.
pub open spec fn find_function(m: S0View, name: Seq<u8>, n: nat) -> Option<int>
    decreases n,
{
    if n == 0 {
        None
    } else if function_name(m, n - 1) == Some(name) {
        Some(n - 1)
    } else {
        find_function(m, name, (n - 1) as nat)
    }
}

/// The first index from `from` on at which the sequence holds `x`.
pub open spec fn first_at(s: Seq<u64>, x: u64, from: int) -> Option<int>
    decreases s.len() - from,
{
    if from < 0 || from >= s.len() {
        None
    } else if s[from] == x {
        Some(from)
    } else {
        first_at(s, x, from + 1)
    }
}

/// The address that `ArgA` gives, computed on wrapping words.
pub open spec fn arg_addr(bp: usize, total: u64, a: u32) -> u64 {
    STACK_START.wrapping_add(((bp as u64) * 8) as u64).wrapping_add(((a as u64) * 8) as u64)
        .wrapping_sub((total * 8) as u64)
}

/// Whether the instruction is computed by the float unit of the host from
/// operands on the stack, and gives one word.
pub open spec fn is_float_binary(op: Op) -> bool {
    op is AddF || op is SubF || op is MulF || op is DivF || op is CmpF
}

/// Whether the instruction is computed by the float unit of the host from one
/// operand on the stack, and gives one word.
pub open spec fn is_float_unary(op: Op) -> bool {
    op is NegF || op is IToF || op is FToI
}

/// The width of a load or store instruction.
pub open spec fn access_width(op: Op) -> Option<Width> {
    match op {
        Op::Load8 => Some(Width::W8),
        Op::Store8 => Some(Width::W8),
        Op::Load16 => Some(Width::W16),
        Op::Store16 => Some(Width::W16),
        Op::Load32 => Some(Width::W32),
        Op::Store32 => Some(Width::W32),
        Op::Load64 => Some(Width::W64),
        Op::Store64 => Some(Width::W64),
        _ => None,
    }
}

impl VmView {
    /// The definition of the function that runs.
    pub open spec fn fn_info(self) -> FnDefView {
        self.module.functions[self.fn_id as int]
    }

    /// The first scratch slot of the frame: below it lie the saved triple and
    /// the locals.
    pub open spec fn floor(self) -> int {
        self.bp + 3 + self.fn_info().loc_slots
    }

    /// The invariant of the machine: the function that runs exists, the frame
    /// lies within the stack and the stack pointer not below the scratch
    /// floor, and the heap is in order.
    pub open spec fn wf(self) -> bool {
        &&& self.fn_id < self.module.functions.len()
        &&& self.stack.len() == self.max_stack
        &&& self.max_stack <= 0x1000_0000
        &&& self.global_addr.len() == self.module.globals.len()
        &&& self.floor() <= self.sp <= self.max_stack
        &&& heap_wf(self.heap)
    }

    /// The number of scratch slots in use.
    pub open spec fn depth(self) -> int {
        self.sp - self.floor()
    }

    /// The scratch slot `k` below the top.
    pub open spec fn peek(self, k: int) -> u64 {
        self.stack[self.sp - 1 - k]
    }

    /// The state with `n` slots taken off the stack.
    pub open spec fn popped(self, n: int) -> VmView {
        VmView { sp: (self.sp - n) as usize, ..self }
    }

    /// The state with `x` put on the stack.
    pub open spec fn pushed(self, x: u64) -> VmView {
        VmView { stack: self.stack.update(self.sp as int, x), sp: (self.sp + 1) as usize, ..self }
    }

    /// `x` put on the stack, where a slot is free.
    pub open spec fn push_checked(self, x: u64) -> Result<VmView, Error> {
        if self.sp < self.max_stack {
            Ok(self.pushed(x))
        } else {
            Err(Error::StackOverflow)
        }
    }

    /// The state with `text` written to the output.
    pub open spec fn printed(self, text: Seq<u8>) -> VmView {
        VmView { stdout: self.stdout + text, ..self }
    }

    /// The state with `n` bytes of the input read.
    pub open spec fn consumed(self, n: int) -> VmView {
        VmView { stdin: self.stdin.skip(n), ..self }
    }

    /// Where the machine says that it cannot run `op`.
    pub open spec fn invalid(self, op: Op) -> Error {
        Error::InvalidInstruction(
            InvalidInstructionCtx {
                inst: op.spec_code(),
                fn_id: low_word(self.fn_id as u64),
                inst_off: self.ip as u64,
            },
        )
    }

    /// The scalar of the given width at a stack address: the address must be a
    /// multiple of the width and lie in a slot that is in use.
    pub open spec fn stack_load(self, addr: u64, width: Width) -> Result<u64, Error> {
        let idx = (addr - STACK_START) / 8;
        let off = (addr - STACK_START) % 8;
        if addr as int % width.spec_bytes() as int != 0 {
            Err(Error::UnalignedAccess(addr))
        } else if idx >= self.sp {
            Err(Error::InvalidStackOffset(idx as u64, (idx - self.bp) as i64))
        } else {
            Ok(slot_read(self.stack[idx], off, width))
        }
    }

    /// The stack after a scalar of the given width is stored at a stack
    /// address.
    pub open spec fn stack_store(self, addr: u64, width: Width, val: u64) -> Result<
        Seq<u64>,
        Error,
    > {
        let idx = (addr - STACK_START) / 8;
        let off = (addr - STACK_START) % 8;
        if addr as int % width.spec_bytes() as int != 0 {
            Err(Error::UnalignedAccess(addr))
        } else if idx >= self.sp {
            Err(Error::InvalidStackOffset(idx as u64, (idx - self.bp) as i64))
        } else {
            Ok(self.stack.update(idx, slot_write(self.stack[idx], off, width, val)))
        }
    }

    /// The scalar of the given width at an address of the heap or the stack.
    pub open spec fn mem_load(self, addr: u64, width: Width) -> Result<u64, Error> {
        if addr < STACK_START {
            heap_load(self.heap, addr, width)
        } else {
            self.stack_load(addr, width)
        }
    }

    /// The state after a scalar of the given width is stored at an address of
    /// the heap or the stack.
    pub open spec fn mem_store(self, addr: u64, width: Width, val: u64) -> Result<VmView, Error> {
        if addr < STACK_START {
            match heap_store(self.heap, addr, width, val) {
                Ok(heap) => Ok(VmView { heap, ..self }),
                Err(e) => Err(e),
            }
        } else {
            match self.stack_store(addr, width, val) {
                Ok(stack) => Ok(VmView { stack, ..self }),
                Err(e) => Err(e),
            }
        }
    }

    /// The state after a jump by `off`, computed on wrapping words: a target
    /// behind the end of the function is refused, one at the end is not.
    pub open spec fn jumped(self, off: i32) -> Result<VmView, Error> {
        let target = self.ip.wrapping_add_signed(off as isize);
        if target > self.fn_info().ins.len() {
            Err(Error::InvalidInstructionOffset(target))
        } else {
            Ok(VmView { ip: target, ..self })
        }
    }

    /// The state after a call of function `id`: the caller's base pointer,
    /// instruction pointer and function id are pushed, the callee's locals
    /// allocated, and the callee runs from its first instruction.
    pub open spec fn called(self, id: u32) -> Result<VmView, Error> {
        if id >= self.module.functions.len() {
            Err(Error::InvalidFnId(id))
        } else if self.sp + 3 + self.module.functions[id as int].loc_slots > self.max_stack {
            Err(Error::StackOverflow)
        } else {
            Ok(
                VmView {
                    stack: self.stack.update(self.sp as int, self.bp as u64).update(
                        self.sp + 1,
                        self.ip as u64,
                    ).update(self.sp + 2, self.fn_id as u64),
                    sp: (self.sp + 3 + self.module.functions[id as int].loc_slots) as usize,
                    bp: self.sp,
                    fn_id: id as usize,
                    ip: 0,
                    ..self
                },
            )
        }
    }

    /// The state after a return: the stack is cut below the arguments, the
    /// caller's registers are restored from the saved triple. A triple that
    /// names no function, or a caller's frame that would not fit below the
    /// cut, is refused.
    pub open spec fn returned(self) -> Result<VmView, Error> {
        let old_bp = self.stack[self.bp as int];
        let old_ip = self.stack[self.bp + 1];
        let old_fn = self.stack[self.bp + 2];
        let cut = self.bp - self.fn_info().param_slots;
        if cut < 0 {
            Err(Error::StackUnderflow)
        } else if old_fn >= self.module.functions.len() {
            Err(Error::InvalidFnId(low_word(old_fn)))
        } else if old_bp + 3 + self.module.functions[old_fn as int].loc_slots > cut {
            Err(Error::StackUnderflow)
        } else {
            Ok(
                VmView {
                    sp: cut as usize,
                    bp: old_bp as usize,
                    ip: old_ip as usize,
                    fn_id: old_fn as usize,
                    ..self
                },
            )
        }
    }

    /// The global that a word names: a word that fits 32 bits is the index
    /// of a global, a larger one the address at which a global was laid out.
    pub open spec fn named_global(self, x: u64) -> Option<int> {
        if x <= u32::MAX {
            if x < self.module.globals.len() {
                Some(x as int)
            } else {
                None
            }
        } else {
            first_at(self.global_addr, x, 0)
        }
    }

    /// The instruction that the machine runs for `op`: for a call by name of
    /// a library function, the input or output instruction that the name
    /// stands for; else `op` itself.
    pub open spec fn resolved(self, op: Op) -> Op {
        match op {
            Op::CallName(id) => if id < self.module.globals.len() {
                match library_op(self.module.globals[id as int].bytes) {
                    Some(io) => io,
                    None => op,
                }
            } else {
                op
            },
            _ => op,
        }
    }

    /// What the machine asks of the float unit before it runs `op`, if `op`
    /// needs the float unit and finds its operands.
    pub open spec fn float_request_for(self, op: Op) -> Option<FloatRequestView> {
        let op = self.resolved(op);
        if is_float_binary(op) && self.depth() >= 2 {
            Some(FloatRequestView::Binary(op, self.peek(1), self.peek(0)))
        } else if is_float_unary(op) && self.depth() >= 1 {
            Some(FloatRequestView::Unary(op, self.peek(0)))
        } else if op is PrintF && self.depth() >= 1 {
            Some(FloatRequestView::Print(self.peek(0)))
        } else if op is ScanF {
            Some(FloatRequestView::Parse(next_token(self.stdin)))
        } else {
            None
        }
    }

    /// What the machine asks of the float unit before its next step, if the
    /// next instruction needs the float unit and finds its operands.
    pub open spec fn pending_request(self) -> Option<FloatRequestView> {
        if self.ip < self.fn_info().ins.len() {
            self.float_request_for(self.fn_info().ins[self.ip as int])
        } else {
            None
        }
    }

    /// The state after an instruction that is no call by name of a library
    /// function. On `Err` the machine keeps its state.
    pub open spec fn exec_resolved(self, op: Op, reply: Option<FloatReplyView>) -> Result<
        VmView,
        Error,
    > {
        if is_int_binary(op) {
            if self.depth() < 2 {
                Err(Error::StackUnderflow)
            } else {
                match binary_result(op, self.peek(1), self.peek(0)) {
                    Ok(v) => Ok(self.popped(2).pushed(v)),
                    Err(e) => Err(e),
                }
            }
        } else if is_int_unary(op) {
            if self.depth() < 1 {
                Err(Error::StackUnderflow)
            } else {
                Ok(self.popped(1).pushed(unary_result(op, self.peek(0))))
            }
        } else if is_float_binary(op) {
            if self.depth() < 2 {
                Err(Error::StackUnderflow)
            } else {
                match reply {
                    Some(FloatReplyView::Bits(v)) => Ok(self.popped(2).pushed(v)),
                    _ => Err(self.invalid(op)),
                }
            }
        } else if is_float_unary(op) {
            if self.depth() < 1 {
                Err(Error::StackUnderflow)
            } else {
                match reply {
                    Some(FloatReplyView::Bits(v)) => Ok(self.popped(1).pushed(v)),
                    _ => Err(self.invalid(op)),
                }
            }
        } else if is_conditional_branch(op) {
            if self.depth() < 1 {
                Err(Error::StackUnderflow)
            } else if branch_taken(op, self.peek(0)) {
                self.popped(1).jumped(branch_offset(op).unwrap())
            } else {
                Ok(self.popped(1))
            }
        } else if access_width(op) is Some {
            let width = access_width(op).unwrap();
            if op is Load8 || op is Load16 || op is Load32 || op is Load64 {
                if self.depth() < 1 {
                    Err(Error::StackUnderflow)
                } else {
                    match self.mem_load(self.peek(0), width) {
                        Ok(v) => Ok(self.popped(1).pushed(v)),
                        Err(e) => Err(e),
                    }
                }
            } else {
                if self.depth() < 2 {
                    Err(Error::StackUnderflow)
                } else {
                    match self.mem_store(self.peek(1), width, self.peek(0)) {
                        Ok(s) => Ok(s.popped(2)),
                        Err(e) => Err(e),
                    }
                }
            }
        } else {
            match op {
                Op::Nop => Ok(self),
                Op::Push(x) => self.push_checked(x),
                Op::Pop => if self.depth() < 1 {
                    Err(Error::StackUnderflow)
                } else {
                    Ok(self.popped(1))
                },
                Op::PopN(n) => if self.depth() < n {
                    Err(Error::StackUnderflow)
                } else {
                    Ok(self.popped(n as int))
                },
                Op::Dup => if self.depth() < 1 {
                    Err(Error::StackUnderflow)
                } else {
                    self.push_checked(self.peek(0))
                },
                Op::LocA(a) => if a >= self.fn_info().loc_slots {
                    Err(Error::InvalidLocalIndex(a))
                } else {
                    self.push_checked(spec_stack_addr((self.bp + 3 + a) as nat) as u64)
                },
                Op::ArgA(a) => {
                    let total = (self.fn_info().ret_slots + self.fn_info().param_slots) as u64;
                    if a >= total {
                        Err(Error::InvalidArgIndex(a))
                    } else {
                        self.push_checked(arg_addr(self.bp, total, a))
                    }
                },
                Op::GlobA(a) => if a < self.global_addr.len() {
                    self.push_checked(self.global_addr[a as int])
                } else {
                    Err(Error::InvalidGlobalIndex(a))
                },
                Op::Alloc => if self.depth() < 1 {
                    Err(Error::StackUnderflow)
                } else if self.peek(0) == 0 {
                    Err(Error::AllocZero)
                } else if heap_next_addr(self.heap, 64) + self.peek(0) > STACK_START
                    || self.peek(0) > usize::MAX {
                    Err(Error::OutOfMemory)
                } else {
                    let addr = heap_next_addr(self.heap, 64) as u64;
                    Ok(
                        VmView {
                            heap: self.heap.push(
                                HeapBlock {
                                    addr,
                                    bytes: Seq::new(self.peek(0) as nat, |i: int| 0u8),
                                },
                            ),
                            ..self
                        }.popped(1).pushed(addr),
                    )
                },
                Op::Free => if self.depth() < 1 {
                    Err(Error::StackUnderflow)
                } else {
                    match block_starting_at(self.heap, self.peek(0)) {
                        Some(i) => Ok(VmView { heap: self.heap.remove(i), ..self }.popped(1)),
                        None => Err(Error::InvalidDeallocation),
                    }
                },
                Op::StackAlloc(n) => if self.sp + n > self.max_stack {
                    Err(Error::StackOverflow)
                } else {
                    Ok(VmView { sp: (self.sp + n) as usize, ..self })
                },
                Op::Br(off) => self.jumped(off),
                Op::Call(id) => self.called(id),
                Op::Ret => self.returned(),
                Op::CallName(id) => if id >= self.module.globals.len() {
                    Err(Error::InvalidFnId(id))
                } else {
                    match find_function(
                        self.module,
                        self.module.globals[id as int].bytes,
                        self.module.functions.len(),
                    ) {
                        Some(f) => self.called(low_word(f as u64)),
                        None => Err(Error::UnknownFunction(id)),
                    }
                },
                Op::ScanI => match parse_u64(next_token(self.stdin)) {
                    Some(v) => self.consumed(token_consumed(self.stdin) as int).push_checked(v),
                    None => Err(Error::ParseError),
                },
                Op::ScanC => if self.stdin.len() == 0 {
                    Err(Error::IoError)
                } else {
                    self.consumed(1).push_checked(self.stdin[0] as u64)
                },
                Op::ScanF => match reply {
                    Some(FloatReplyView::Bits(v)) => self.consumed(
                        token_consumed(self.stdin) as int,
                    ).push_checked(v),
                    Some(FloatReplyView::NoParse) => Err(Error::ParseError),
                    _ => Err(self.invalid(op)),
                },
                Op::PrintI => if self.depth() < 1 {
                    Err(Error::StackUnderflow)
                } else {
                    Ok(self.printed(dec_signed(as_signed(self.peek(0)) as int)).popped(1))
                },
                Op::PrintC => if self.depth() < 1 {
                    Err(Error::StackUnderflow)
                } else {
                    Ok(self.printed(char_text(self.peek(0))).popped(1))
                },
                Op::PrintF => if self.depth() < 1 {
                    Err(Error::StackUnderflow)
                } else {
                    match reply {
                        Some(FloatReplyView::Text(t)) => Ok(self.printed(t).popped(1)),
                        _ => Err(self.invalid(op)),
                    }
                },
                Op::PrintS => if self.depth() < 1 {
                    Err(Error::StackUnderflow)
                } else {
                    match self.named_global(self.peek(0)) {
                        Some(g) => Ok(self.printed(self.module.globals[g].bytes).popped(1)),
                        None => if self.peek(0) > u32::MAX {
                            Err(Error::ArithmeticErr)
                        } else {
                            Err(Error::InvalidFnId(self.peek(0) as u32))
                        },
                    }
                },
                Op::PrintLn => Ok(self.printed(line_end())),
                Op::Panic => Err(Error::Halt),
                _ => Err(self.invalid(op)),
            }
        }
    }

    /// The state after the machine has run `op`, given what the float unit
    /// answered to the request for `op`, if it was asked. On `Err` the machine
    /// keeps its state.
    pub open spec fn exec(self, op: Op, reply: Option<FloatReplyView>) -> Result<VmView, Error> {
        self.exec_resolved(self.resolved(op), reply)
    }

    /// The state after one step: the next instruction is fetched, the
    /// instruction pointer moved behind it, and the instruction run. Where
    /// the instruction pointer stands behind the last instruction, control has
    /// reached the end of the function.
    pub open spec fn step(self, reply: Option<FloatReplyView>) -> Result<VmView, Error> {
        if self.ip >= self.fn_info().ins.len() {
            Err(Error::ControlReachesEnd(self.fn_id))
        } else {
            VmView { ip: (self.ip + 1) as usize, ..self }.exec(
                self.fn_info().ins[self.ip as int],
                reply,
            )
        }
    }
}

/// The heap that holds the first `n` globals: each in a buffer of its own
/// that holds its bytes, the first at the heap start, each next one behind the
/// one before it, at the next multiple of 8. A global without bytes is
/// refused, and so is one that would not end below the stack.
pub open spec fn globals_heap(globals: Seq<GlobalValueView>, n: nat) -> Result<Seq<HeapBlock>, Error>
    decreases n,
{
    if n == 0 {
        Ok(Seq::empty())
    } else {
        match globals_heap(globals, (n - 1) as nat) {
            Err(e) => Err(e),
            Ok(h) => {
                let bytes = globals[n - 1].bytes;
                if bytes.len() == 0 {
                    Err(Error::AllocZero)
                } else if heap_next_addr(h, 8) + bytes.len() > STACK_START {
                    Err(Error::OutOfMemory)
                } else {
                    Ok(h.push(HeapBlock { addr: heap_next_addr(h, 8) as u64, bytes }))
                }
            },
        }
    }
}

/// The first of the first `n` functions whose name index points at no global.
pub open spec fn first_unnamed(m: S0View, n: nat) -> Option<int>
    decreases n,
{
    if n == 0 {
        None
    } else {
        match first_unnamed(m, (n - 1) as nat) {
            Some(f) => Some(f),
            None => if m.functions[n - 1].name >= m.globals.len() {
                Some(n - 1)
            } else {
                None
            },
        }
    }
}

/// The slots of a fresh stack: the saved triple of the entry frame holds the
/// sentinel, every other slot zero.
pub open spec fn fresh_stack(max_stack: nat) -> Seq<u64> {
    Seq::new(
        max_stack,
        |i: int|
            if i < 3 {
                0xffff_ffff_ffff_ffffu64
            } else {
                0u64
            },
    )
}

/// The machine that is ready to run a module on the given input: the globals
/// lie in the heap, the entry function runs from its first instruction in
/// the entry frame, and nothing is written yet. A module without functions
/// has no entry point; a function whose name index points at no global is
/// refused, and so is an entry function whose locals do not fit the stack.
pub open spec fn loaded(module: S0View, stdin: Seq<u8>, max_stack: nat) -> Result<VmView, Error> {
    if module.functions.len() == 0 {
        Err(Error::NoEntryPoint)
    } else {
        match globals_heap(module.globals, module.globals.len()) {
            Err(e) => Err(e),
            Ok(heap) => match first_unnamed(module, module.functions.len()) {
                Some(f) => Err(Error::InvalidGlobalIndex(module.functions[f].name)),
                None => if module.functions[0].loc_slots + 3 > max_stack {
                    Err(Error::StackOverflow)
                } else {
                    Ok(
                        VmView {
                            module,
                            max_stack,
                            global_addr: Seq::new(heap.len(), |i: int| heap[i].addr),
                            heap,
                            stack: fresh_stack(max_stack),
                            fn_id: 0,
                            ip: 0,
                            sp: (module.functions[0].loc_slots + 3) as usize,
                            bp: 0,
                            stdin,
                            stdout: Seq::empty(),
                        },
                    )
                },
            },
        }
    }
}

/// What the float unit answers, as the machine holds it.
pub enum FloatReply {
    /// The bits of a double, or the word of a comparison or conversion.
    Bits(u64),
    /// The text of a double.
    Text(Vec<u8>),
    /// The token stands for no double.
    NoParse,
}

/// What the machine asks of the float unit of the host. The host computes
/// the answer on doubles; the machine only moves the words.
pub enum FloatRequest {
    /// An instruction with two operands; the first was pushed first.
    Binary(Op, u64, u64),
    /// An instruction with one operand.
    Unary(Op, u64),
    /// The text of a double, with six fractional digits.
    Print(u64),
    /// The double that a token of the input stands for.
    Parse(Vec<u8>),
}

impl View for FloatReply {
    type V = FloatReplyView;

    open spec fn view(&self) -> FloatReplyView {
        match self {
            FloatReply::Bits(v) => FloatReplyView::Bits(*v),
            FloatReply::Text(t) => FloatReplyView::Text(t@),
            FloatReply::NoParse => FloatReplyView::NoParse,
        }
    }
}

impl View for FloatRequest {
    type V = FloatRequestView;

    open spec fn view(&self) -> FloatRequestView {
        match self {
            FloatRequest::Binary(op, a, b) => FloatRequestView::Binary(*op, *a, *b),
            FloatRequest::Unary(op, a) => FloatRequestView::Unary(*op, *a),
            FloatRequest::Print(a) => FloatRequestView::Print(*a),
            FloatRequest::Parse(t) => FloatRequestView::Parse(t@),
        }
    }
}

/// The view of an answer that may be missing.
pub open spec fn reply_view(reply: Option<FloatReply>) -> Option<FloatReplyView> {
    match reply {
        Some(r) => Some(r@),
        None => None,
    }
}

/// How a run of an instruction relates to what the instruction makes of the
/// state: the new state on success, the error and the old state on failure.
/// An allocation may also fail because the host has no memory left.
pub open spec fn outcome(
    before: VmView,
    op: Op,
    expected: Result<VmView, Error>,
    r: Result<(), Error>,
    after: VmView,
) -> bool {
    match expected {
        Ok(s) => (r is Ok && after == s) || (op is Alloc && r == Err::<(), Error>(
            Error::OutOfMemory,
        ) && after == before),
        Err(e) => r == Err::<(), Error>(e) && after == before,
    }
}

} // verus!
