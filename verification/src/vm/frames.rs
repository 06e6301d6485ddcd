//! The frames of the machine: what every step keeps of the call stack.
//!
//! A frame begins with the saved triple of its caller: the caller's base
//! pointer, the instruction at which the caller goes on, and the caller's
//! function id. The entry frame holds the sentinel instead. A program can
//! write to any stack slot in use, so a store can break a saved triple; as
//! long as no store hits one, the frames stay in order.

use crate::opcodes::{low_word, Op};
use crate::s0::S0View;
use crate::vm::mem::STACK_START;
use crate::vm::ops::token_consumed;
use crate::vm::state::{access_width, find_function, loaded, FloatReplyView, VmView};
use vstd::prelude::*;

verus! {

/// The word that the entry frame holds in place of a caller.
pub open spec fn sentinel() -> u64 {
    0xffff_ffff_ffff_ffffu64
}

/// Whether the frame at `bp` of function `fn_id` and the frames of its
/// callers are in order: the function exists and the saved triple lies in
/// the stack; the triple is that of the entry frame, or it names a caller
/// that exists, an instruction of the caller or its end, and a frame of the
/// caller that ends at or below `bp` and is in order itself.
pub open spec fn frames_valid(v: VmView, bp: int, fn_id: int) -> bool
    decreases bp,
{
    &&& 0 <= fn_id < v.module.functions.len()
    &&& 0 <= bp
    &&& bp + 3 <= v.stack.len()
    &&& (v.stack[bp + 2] == sentinel() || {
        let prev_bp = v.stack[bp];
        let prev_ip = v.stack[bp + 1];
        let prev_fn = v.stack[bp + 2];
        &&& prev_fn < v.module.functions.len()
        &&& prev_ip <= v.module.functions[prev_fn as int].ins.len()
        &&& prev_bp + 3 + v.module.functions[prev_fn as int].loc_slots <= bp
        &&& frames_valid(v, prev_bp as int, prev_fn as int)
    })
}

/// Whether slot `k` of the stack is one of a saved triple, of the frame at
/// `bp` or of the frame of a caller.
pub open spec fn in_triple(v: VmView, bp: int, k: int) -> bool
    decreases bp,
{
    bp <= k < bp + 3 || (0 <= bp && bp + 3 <= v.stack.len() && v.stack[bp + 2] != sentinel()
        && v.stack[bp] < bp && in_triple(v, v.stack[bp] as int, k))
}

/// The stack slot that the next instruction stores to, if it is a store to
/// the stack that finds its operands.
pub open spec fn store_slot(v: VmView) -> Option<int> {
    if v.ip < v.fn_info().ins.len() {
        let op = v.fn_info().ins[v.ip as int];
        if (op is Store8 || op is Store16 || op is Store32 || op is Store64) && v.depth() >= 2
            && v.peek(1) >= STACK_START {
            Some((v.peek(1) - STACK_START) / 8)
        } else {
            None
        }
    } else {
        None
    }
}

/// The frame invariant of the machine: the stack pointer lies between the
/// first scratch slot of the frame and the end of the stack, and the frames
/// are in order.
pub open spec fn frames_in_order(v: VmView) -> bool {
    &&& v.floor() <= v.sp <= v.max_stack
    &&& v.stack.len() == v.max_stack <= usize::MAX
    &&& frames_valid(v, v.bp as int, v.fn_id as int)
}

/// The slots of saved triples lie below the end of the triple of the frame.
pub proof fn lemma_triples_below(v: VmView, bp: int, k: int)
    requires
        in_triple(v, bp, k),
        0 <= bp,
    ensures
        0 <= k < bp + 3,
    decreases bp,
{
    if !(bp <= k < bp + 3) {
        lemma_triples_below(v, v.stack[bp] as int, k);
    }
}

/// Frames that are in order stay so in a state with the same module and the
/// same words in the slots of their saved triples.
pub proof fn lemma_frames_agree(v: VmView, w: VmView, bp: int, fn_id: int)
    requires
        frames_valid(v, bp, fn_id),
        w.module == v.module,
        w.stack.len() == v.stack.len(),
        forall|k: int| in_triple(v, bp, k) ==> w.stack[k] == v.stack[k],
    ensures
        frames_valid(w, bp, fn_id),
    decreases bp,
{
    assert(in_triple(v, bp, bp));
    assert(in_triple(v, bp, bp + 1));
    assert(in_triple(v, bp, bp + 2));
    if v.stack[bp + 2] != sentinel() {
        let prev_bp = v.stack[bp] as int;
        assert forall|k: int| in_triple(v, prev_bp, k) implies w.stack[k] == v.stack[k] by {
            assert(in_triple(v, bp, k));
        }
        lemma_frames_agree(v, w, prev_bp, v.stack[bp + 2] as int);
    }
}

/// The frame that a call lays out: the call fails with `StackOverflow`
/// exactly where the saved triple and the locals of a function of the
/// module do not fit the stack. Else the saved triple of the caller lies
/// at the old stack pointer, which is the new base pointer; the stack
/// pointer stands behind the triple and the locals; the callee runs from
/// its first instruction; and the slots below the old stack pointer are as
/// they were.
pub proof fn lemma_call_frame(v: VmView, id: u32)
    requires
        v.sp <= v.max_stack == v.stack.len(),
        v.max_stack <= usize::MAX,
        id < v.module.functions.len(),
    ensures
        v.called(id) is Err <==> v.sp + 3 + v.module.functions[id as int].loc_slots > v.max_stack,
        v.called(id) matches Err(e) ==> e == crate::error::Error::StackOverflow,
        v.called(id) matches Ok(after) ==> {
            &&& after.bp == v.sp
            &&& after.stack[v.sp as int] == v.bp as u64
            &&& after.stack[v.sp + 1] == v.ip as u64
            &&& after.stack[v.sp + 2] == v.fn_id as u64
            &&& after.sp == v.sp + 3 + v.module.functions[id as int].loc_slots
            &&& after.ip == 0
            &&& after.fn_id == id
            &&& forall|k: int| 0 <= k < v.sp ==> after.stack[k] == v.stack[k]
        },
{
}

/// The entry frame of the machine that is ready to run: the entry function
/// runs from its first instruction, the base pointer is 0, the saved
/// triple holds the sentinel, and the stack pointer stands behind the
/// triple and the locals.
pub proof fn lemma_loaded_entry(module: S0View, stdin: Seq<u8>, max_stack: nat)
    requires
        max_stack <= usize::MAX,
    ensures
        loaded(module, stdin, max_stack) matches Ok(v) ==> {
            &&& v.fn_id == 0
            &&& v.ip == 0
            &&& v.bp == 0
            &&& v.sp == module.functions[0].loc_slots + 3
            &&& v.stack[0] == sentinel() && v.stack[1] == sentinel() && v.stack[2] == sentinel()
            &&& v.bp + 3 + v.fn_info().loc_slots <= v.sp <= v.max_stack
        },
{
}

/// The machine that is ready to run has its frames in order.
pub proof fn lemma_loaded_frames(module: S0View, stdin: Seq<u8>, max_stack: nat)
    requires
        max_stack <= usize::MAX,
    ensures
        loaded(module, stdin, max_stack) matches Ok(v) ==> frames_in_order(v),
{
}

/// Whether a state differs from another only above the saved triple and
/// the locals of the frame, and in the heap, the input and the output.
pub open spec fn same_frames(v: VmView, after: VmView) -> bool {
    &&& after.module == v.module
    &&& after.max_stack == v.max_stack
    &&& after.bp == v.bp
    &&& after.fn_id == v.fn_id
    &&& after.stack.len() == v.stack.len()
    &&& after.floor() <= after.sp <= after.max_stack
    &&& forall|k: int| 0 <= k < v.floor() ==> after.stack[k] == v.stack[k]
}

/// An instruction that is no call, no return and no store writes only to
/// the scratch slots of the frame.
proof fn lemma_scratch_only(w: VmView, run: Op, reply: Option<FloatReplyView>)
    requires
        w.floor() <= w.sp <= w.max_stack,
        w.stack.len() == w.max_stack <= usize::MAX,
        !(run is Call || run is CallName || run is Ret),
        !(run is Store8 || run is Store16 || run is Store32 || run is Store64),
    ensures
        w.exec_resolved(run, reply) matches Ok(after) ==> same_frames(w, after),
{
    match run {
        Op::ScanI => {
            let read = w.consumed(token_consumed(w.stdin) as int);
            assert(read.floor() == w.floor() && read.sp == w.sp);
        },
        Op::ScanC => {
            let read = w.consumed(1);
            assert(read.floor() == w.floor() && read.sp == w.sp);
        },
        _ => {},
    }
}

/// A store that hits no saved triple leaves the frames in order.
proof fn lemma_store_keeps_frames(w: VmView, run: Op)
    requires
        frames_in_order(w),
        run is Store8 || run is Store16 || run is Store32 || run is Store64,
        w.depth() >= 2 && w.peek(1) >= STACK_START ==> !in_triple(
            w,
            w.bp as int,
            (w.peek(1) - STACK_START) / 8,
        ),
    ensures
        w.exec_resolved(run, None) matches Ok(after) ==> frames_in_order(after),
{
    if w.exec_resolved(run, None) is Ok {
        let after = w.exec_resolved(run, None)->Ok_0;
        let width = access_width(run)->Some_0;
        let stored = w.mem_store(w.peek(1), width, w.peek(0))->Ok_0;
        assert(after == stored.popped(2));
        assert forall|k: int| in_triple(w, w.bp as int, k) implies after.stack[k] == w.stack[k] by {
            lemma_triples_below(w, w.bp as int, k);
        }
        lemma_frames_agree(w, after, w.bp as int, w.fn_id as int);
    }
}

/// A call leaves the frames in order: the new frame holds the triple of the
/// caller.
proof fn lemma_call_keeps_frames(w: VmView, id: u32)
    requires
        frames_in_order(w),
        w.fn_id < w.module.functions.len(),
        w.ip <= w.fn_info().ins.len(),
    ensures
        w.called(id) matches Ok(after) ==> frames_in_order(after),
{
    if w.called(id) is Ok {
        let after = w.called(id)->Ok_0;
        assert forall|k: int| in_triple(w, w.bp as int, k) implies after.stack[k] == w.stack[k] by {
            lemma_triples_below(w, w.bp as int, k);
        }
        lemma_frames_agree(w, after, w.bp as int, w.fn_id as int);
        let bp = after.bp as int;
        assert(after.stack[bp] == w.bp as u64);
        assert(after.stack[bp + 1] == w.ip as u64);
        assert(after.stack[bp + 2] == w.fn_id as u64);
    }
}

/// A return leaves the frames in order: the frame of the caller was in
/// order below the frame that ends.
proof fn lemma_return_keeps_frames(w: VmView)
    requires
        frames_in_order(w),
        w.fn_id < w.module.functions.len() <= usize::MAX,
    ensures
        w.returned() matches Ok(after) ==> frames_in_order(after),
{
    if w.returned() is Ok {
        let after = w.returned()->Ok_0;
        let bp = w.bp as int;
        assert(w.stack[bp + 2] != sentinel());
        let prev_bp = w.stack[bp] as int;
        let prev_fn = w.stack[bp + 2] as int;
        assert(frames_valid(w, prev_bp, prev_fn));
        lemma_frames_agree(w, after, prev_bp, prev_fn);
    }
}

/// Every step keeps the frame invariant, unless it stores into a saved
/// triple: in a machine whose frames are in order, and whose module has no
/// more functions than a word counts, a step that succeeds leaves the
/// frames in order.
pub proof fn lemma_step_keeps_frames(v: VmView, reply: Option<FloatReplyView>)
    requires
        frames_in_order(v),
        v.fn_id < v.module.functions.len() <= usize::MAX,
        match store_slot(v) {
            Some(k) => !in_triple(v, v.bp as int, k),
            None => true,
        },
    ensures
        v.step(reply) matches Ok(after) ==> frames_in_order(after),
{
    if v.step(reply) is Ok {
        let after = v.step(reply)->Ok_0;
        let op = v.fn_info().ins[v.ip as int];
        let w = VmView { ip: (v.ip + 1) as usize, ..v };
        let run = w.resolved(op);
        assert(after == w.exec_resolved(run, reply)->Ok_0);
        lemma_frames_agree(v, w, v.bp as int, v.fn_id as int);
        assert(frames_in_order(w));
        match run {
            Op::Call(id) => {
                lemma_call_keeps_frames(w, id);
            },
            Op::CallName(id) => {
                let f = find_function(
                    w.module,
                    w.module.globals[id as int].bytes,
                    w.module.functions.len(),
                )->Some_0;
                lemma_call_keeps_frames(w, low_word(f as u64));
            },
            Op::Ret => {
                lemma_return_keeps_frames(w);
            },
            _ => {
                if run is Store8 || run is Store16 || run is Store32 || run is Store64 {
                    assert(run == op);
                    assert forall|k: int| in_triple(w, w.bp as int, k) == in_triple(
                        v,
                        v.bp as int,
                        k,
                    ) by {
                        lemma_triple_agree(v, w, v.bp as int, k);
                    }
                    lemma_store_keeps_frames(w, run);
                    assert(w.exec_resolved(run, reply) == w.exec_resolved(run, None));
                } else {
                    lemma_scratch_only(w, run, reply);
                    assert forall|k: int| in_triple(w, w.bp as int, k) implies after.stack[k]
                        == w.stack[k] by {
                        lemma_triples_below(w, w.bp as int, k);
                    }
                    lemma_frames_agree(w, after, w.bp as int, w.fn_id as int);
                }
            },
        }
    }
}

/// The slots of the saved triples are the same in states with the same
/// stack.
proof fn lemma_triple_agree(v: VmView, w: VmView, bp: int, k: int)
    requires
        v.stack == w.stack,
    ensures
        in_triple(v, bp, k) == in_triple(w, bp, k),
    decreases bp,
{
    if !(bp <= k < bp + 3) && 0 <= bp && bp + 3 <= v.stack.len() && v.stack[bp + 2] != sentinel()
        && v.stack[bp] < bp {
        lemma_triple_agree(v, w, v.stack[bp] as int, k);
    }
}

} // verus!
