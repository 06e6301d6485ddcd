//! The debugging surface of the machine: breakpoints, and runs that stop
//! at them.
//!
//! A breakpoint is an instruction of a function. The breakpoints are
//! numbered from 0 on; a run under the debugger stops before the
//! instruction of a breakpoint.

use crate::error::Result;
use crate::opcodes::low_word;
use crate::vm::ops::{parse_u64, parse_uint};
use crate::vm::state::{
    find_function, FloatReply, FloatReplyView, FloatRequest, FloatRequestView, VmView,
};
use crate::vm::table::{
    no_pairs, table_get_by_right, table_insert, table_list, table_new, table_pairs,
    table_remove_by_left, without_place, Spot,
};
use crate::vm::{
    answers_by, awaits_input, decides_by, replies_by, run_inspected, run_outcome, R0Vm,
    RUN_LIMIT,
};
use bimap::BiBTreeMap;
use vstd::prelude::*;

verus! {

/// A place at which a run stops: the instruction at `offset` of function
/// `fn_id`.
#[derive(Debug, Copy, Clone, PartialEq, Eq, Structural)]
pub struct Breakpoint {
    pub fn_id: u32,
    pub offset: usize,
}

impl Breakpoint {
    /// The place as a pair.
    pub open spec fn spot(self) -> Spot {
        (self.fn_id, self.offset)
    }
}

/// Why a place cannot have a breakpoint.
#[derive(Debug, Copy, Clone, PartialEq, Eq, Structural)]
pub enum BreakpointError {
    /// No function has the name.
    NoSuchFunction,
    /// The function has no instruction at the offset.
    OffsetTooLarge,
}

/// The number under which the pairs hold a place, if they hold it.
pub open spec fn number_at(pairs: Map<usize, Spot>, place: Spot) -> Option<usize> {
    if exists|id: usize| pairs.dom().contains(id) && #[trigger] pairs[id] == place {
        Some(choose|id: usize| pairs.dom().contains(id) && #[trigger] pairs[id] == place)
    } else {
        None
    }
}

/// Whether `id` is the number that the next pair gets: the number behind
/// the largest one, or 0 where there is none.
pub open spec fn is_next_number(pairs: Map<usize, Spot>, id: usize) -> bool {
    &&& forall|k: usize| pairs.dom().contains(k) ==> k < id
    &&& id == 0 || pairs.dom().contains((id - 1) as usize)
}

/// The place at which a machine stands.
pub open spec fn spot_of(v: VmView) -> Spot {
    (low_word(v.fn_id as u64), v.ip)
}

/// What says of a state of the machine whether a run goes on: it does
/// where the machine stands at no breakpoint and awaits no input that it
/// does not have.
pub open spec fn off_breakpoints(pairs: Map<usize, Spot>) -> spec_fn(VmView) -> bool {
    |v: VmView| number_at(pairs, spot_of(v)) is None && !awaits_input(v)
}

/// What says of a state of the machine whether a run to the end of a frame
/// goes on: it does where the base pointer has not gone below `bp`, the
/// machine stands at no breakpoint, and it awaits no input that it does
/// not have.
pub open spec fn within_frame(pairs: Map<usize, Spot>, bp: usize) -> spec_fn(VmView) -> bool {
    |v: VmView| v.bp >= bp && number_at(pairs, spot_of(v)) is None && !awaits_input(v)
}

/// The breakpoints of a debugger, by number.
pub struct Breakpoints {
    table: BiBTreeMap<usize, Spot>,
}

impl View for Breakpoints {
    type V = Map<usize, Spot>;

    closed spec fn view(&self) -> Map<usize, Spot> {
        table_pairs(self.table)
    }
}

impl Breakpoints {
    /// No place has two numbers.
    pub open spec fn wf(&self) -> bool {
        forall|a: usize, b: usize|
            self@.dom().contains(a) && self@.dom().contains(b) && #[trigger] self@[a]
                == #[trigger] self@[b] ==> a == b
    }

    /// No breakpoints.
    pub fn new() -> (points: Breakpoints)
        ensures
            points.wf(),
            points@ == no_pairs(),
    {
        Breakpoints { table: table_new() }
    }

    /// The number of the breakpoint at a place, if there is one.
    pub fn at(&self, fn_id: u32, offset: usize) -> (r: Option<usize>)
        requires
            self.wf(),
        ensures
            r == number_at(self@, (fn_id, offset)),
    {
        table_get_by_right(&self.table, (fn_id, offset))
    }

    /// The breakpoints in the order of their numbers.
    pub fn list(&self) -> (v: Vec<(usize, Breakpoint)>)
        ensures
            forall|i: int, j: int| 0 <= i < j < v@.len() ==> v@[i].0 < v@[j].0,
            forall|i: int|
                0 <= i < v@.len() ==> self@.dom().contains(#[trigger] v@[i].0) && self@[v@[i].0]
                    == v@[i].1.spot(),
            forall|id: usize|
                self@.dom().contains(id) ==> exists|i: int|
                    0 <= i < v@.len() && #[trigger] v@[i].0 == id,
    {
        let pairs = table_list(&self.table);
        let mut v: Vec<(usize, Breakpoint)> = Vec::new();
        let mut i: usize = 0;
        while i < pairs.len()
            invariant
                i <= pairs@.len(),
                v@.len() == i,
                forall|k: int|
                    0 <= k < i ==> (#[trigger] v@[k]).0 == pairs@[k].0 && v@[k].1.spot()
                        == pairs@[k].1,
            decreases pairs@.len() - i,
        {
            let (id, place) = pairs[i];
            v.push((id, Breakpoint { fn_id: place.0, offset: place.1 }));
            i = i + 1;
        }
        proof {
            assert forall|id: usize| self@.dom().contains(id) implies exists|i: int|
                0 <= i < v@.len() && #[trigger] v@[i].0 == id by {
                let k = choose|k: int| 0 <= k < pairs@.len() && #[trigger] pairs@[k].0 == id;
                assert(v@[k].0 == id);
            }
        }
        v
    }

    /// Sets a breakpoint under the next number, and gives the number. A
    /// breakpoint that stood at the place goes. Nothing is set where the
    /// numbers are used up.
    pub fn add(&mut self, point: Breakpoint) -> (r: Option<usize>)
        requires
            old(self).wf(),
        ensures
            final(self).wf(),
            match r {
                Some(id) => is_next_number(old(self)@, id) && final(self)@ == without_place(
                    old(self)@,
                    point.spot(),
                ).insert(id, point.spot()),
                None => old(self)@.dom().contains(usize::MAX) && final(self)@ == old(self)@,
            },
    {
        let pairs = table_list(&self.table);
        let n = pairs.len();
        let id = if n == 0 {
            0
        } else {
            let last = pairs[n - 1].0;
            if last == usize::MAX {
                return None;
            }
            last + 1
        };
        proof {
            assert forall|k: usize| self@.dom().contains(k) implies k < id by {
                let i = choose|i: int| 0 <= i < pairs@.len() && #[trigger] pairs@[i].0 == k;
                if i < n - 1 {
                    assert(pairs@[i].0 < pairs@[n - 1].0);
                }
            }
            assert(self@.remove(id) =~= self@);
        }
        table_insert(&mut self.table, id, (point.fn_id, point.offset));
        Some(id)
    }

    /// Takes the breakpoint with the given number away, and gives its
    /// place. Nothing where there is no such breakpoint.
    pub fn remove(&mut self, id: usize) -> (r: Option<Breakpoint>)
        requires
            old(self).wf(),
        ensures
            final(self).wf(),
            match r {
                Some(point) => old(self)@.dom().contains(id) && old(self)@[id] == point.spot()
                    && final(self)@ == old(self)@.remove(id),
                None => !old(self)@.dom().contains(id) && final(self)@ == old(self)@,
            },
    {
        match table_remove_by_left(&mut self.table, id) {
            Some(place) => Some(Breakpoint { fn_id: place.0, offset: place.1 }),
            None => None,
        }
    }
}

/// The index of the first colon of a text, if it has one.
pub open spec fn first_colon(text: Seq<u8>) -> Option<int>
    decreases text.len(),
{
    if text.len() == 0 {
        None
    } else if text[0] == 0x3a {
        Some(0)
    } else {
        match first_colon(text.skip(1)) {
            Some(i) => Some(i + 1),
            None => None,
        }
    }
}

/// The name of a function and the offset that a text of the form
/// `<function>[:<offset>]` stands for: the name ends before the first
/// colon, and the offset is the decimal numeral behind it, or 0 where there
/// is no colon. Nothing where what stands behind the colon is no number
/// that fits an offset.
pub open spec fn breakpoint_ref(text: Seq<u8>) -> Option<(Seq<u8>, usize)> {
    match first_colon(text) {
        None => Some((text, 0usize)),
        Some(i) => match parse_u64(text.skip(i + 1)) {
            Some(n) => if n <= usize::MAX {
                Some((text.take(i), n as usize))
            } else {
                None
            },
            None => None,
        },
    }
}

/// The index of the first colon of a text, if it has one.
fn find_colon(text: &Vec<u8>) -> (r: Option<usize>)
    ensures
        match r {
            Some(i) => first_colon(text@) == Some(i as int) && i < text@.len(),
            None => first_colon(text@) is None,
        },
{
    let mut i: usize = text.len();
    let mut found: Option<usize> = None;
    assert(text@.skip(i as int) =~= Seq::<u8>::empty());
    while i > 0
        invariant
            i <= text@.len(),
            match found {
                Some(k) => first_colon(text@.skip(i as int)) == Some(k - i) && i <= k < text@.len(),
                None => first_colon(text@.skip(i as int)) is None,
            },
        decreases i,
    {
        i = i - 1;
        assert(text@.skip(i as int).skip(1) =~= text@.skip(i + 1));
        if text[i] == 0x3a {
            found = Some(i);
        }
    }
    assert(text@.skip(0) =~= text@);
    found
}

/// The name of a function and the offset that a text of the form
/// `<function>[:<offset>]` stands for.
pub fn parse_breakpoint_ref(text: &Vec<u8>) -> (r: Option<(Vec<u8>, usize)>)
    ensures
        match r {
            Some((name, offset)) => breakpoint_ref(text@) == Some((name@, offset)),
            None => breakpoint_ref(text@) is None,
        },
{
    match find_colon(text) {
        None => Some((text.clone(), 0)),
        Some(i) => {
            let mut name: Vec<u8> = Vec::new();
            let mut k: usize = 0;
            while k < i
                invariant
                    k <= i < text@.len(),
                    name@ == text@.take(k as int),
                decreases i - k,
            {
                name.push(text[k]);
                assert(name@ =~= text@.take(k + 1));
                k = k + 1;
            }
            let mut numeral: Vec<u8> = Vec::new();
            assert(i < text.len());
            let mut j: usize = i + 1;
            assert(text@.skip(i + 1).take(0) =~= numeral@);
            while j < text.len()
                invariant
                    i < j <= text@.len(),
                    numeral@ == text@.skip(i + 1).take(j - i - 1),
                decreases text@.len() - j,
            {
                numeral.push(text[j]);
                assert(numeral@ =~= text@.skip(i + 1).take(j - i));
                j = j + 1;
            }
            assert(numeral@ =~= text@.skip(i + 1));
            match parse_uint(&numeral) {
                Some(n) => if n <= usize::MAX as u64 {
                    Some((name, n as usize))
                } else {
                    None
                },
                None => None,
            }
        },
    }
}

/// The place at `offset` of the function with the given name, where the
/// machine has such a function and the function such an instruction.
pub fn resolve_breakpoint(vm: &R0Vm, name: &Vec<u8>, offset: usize) -> (r: core::result::Result<
    Breakpoint,
    BreakpointError,
>)
    ensures
        match find_function(vm@.module, name@, vm@.module.functions.len()) {
            None => r == Err::<Breakpoint, BreakpointError>(BreakpointError::NoSuchFunction),
            Some(f) => if f <= u32::MAX && offset < vm@.module.functions[f].ins.len() {
                r == Ok::<Breakpoint, BreakpointError>(Breakpoint { fn_id: f as u32, offset })
            } else {
                r == Err::<Breakpoint, BreakpointError>(BreakpointError::OffsetTooLarge)
            },
        },
{
    match vm.get_fn_by_name(name) {
        None => Err(BreakpointError::NoSuchFunction),
        Some(f) => {
            if f > u32::MAX as usize {
                return Err(BreakpointError::OffsetTooLarge);
            }
            match vm.get_fn_by_id(f as u32) {
                Ok(def) => if offset < def.ins.len() {
                    Ok(Breakpoint { fn_id: f as u32, offset })
                } else {
                    Err(BreakpointError::OffsetTooLarge)
                },
                Err(_) => Err(BreakpointError::OffsetTooLarge),
            }
        },
    }
}

/// The number of the breakpoint at which the machine stands, if it stands
/// at one.
pub fn cur_breakpoint(vm: &R0Vm, points: &Breakpoints) -> (r: Option<usize>)
    requires
        points.wf(),
    ensures
        r == number_at(points@, spot_of(vm@)),
{
    let fn_id = vm.fn_id() as u64;
    assert(fn_id & 0xffff_ffff <= 0xffff_ffff) by (bit_vector);
    points.at((fn_id & 0xffff_ffff) as u32, vm.ip())
}

/// Runs the machine until it stands at a breakpoint, awaits input that it
/// does not have, or the run ends. The machine takes at least one step, so
/// a run goes on from a breakpoint, and reads what input there is.
/// Whatever function the float unit computes, the result is that of
/// `run_inspected` with that function and `off_breakpoints`; only at an
/// allocation on the way the run may end with `OutOfMemory` instead,
/// because the host has no memory left.
pub fn run_to_breakpoint<'src, F: Fn(FloatRequest) -> FloatReply>(
    vm: &mut R0Vm<'src>,
    float_unit: &F,
    points: &Breakpoints,
) -> (r: Result<()>)
    requires
        old(vm).wf(),
        points.wf(),
        forall|q: FloatRequest| float_unit.requires((q,)),
    ensures
        final(vm).wf(),
        forall|unit: spec_fn(FloatRequestView) -> FloatReplyView| #[trigger]
            answers_by(float_unit, unit) ==> run_outcome(
                old(vm)@,
                run_inspected(old(vm)@, unit, off_breakpoints(points@), RUN_LIMIT as nat),
                replies_by(unit),
                off_breakpoints(points@),
                r,
                final(vm)@,
            ),
{
    let inspect = |m: &R0Vm<'src>| -> (go_on: bool)
        requires
            m.wf(),
        ensures
            go_on == off_breakpoints(points@)(m@),
        { cur_breakpoint(m, points).is_none() && !m.awaits_input() };
    let r = vm.run_to_end_inspect(float_unit, &inspect);
    assert(decides_by(&inspect, off_breakpoints(points@)));
    r
}

/// Runs the machine until the frame at `bp` has returned, the machine
/// stands at a breakpoint or awaits input that it does not have, or the
/// run ends. `bp` is the base pointer of the function whose return is
/// waited for. Whatever function the float unit computes, the result is
/// that of `run_inspected` with that function and `within_frame`; only at
/// an allocation on the way the run may end with `OutOfMemory` instead,
/// because the host has no memory left.
pub fn run_to_return<'src, F: Fn(FloatRequest) -> FloatReply>(
    vm: &mut R0Vm<'src>,
    float_unit: &F,
    points: &Breakpoints,
    bp: usize,
) -> (r: Result<()>)
    requires
        old(vm).wf(),
        points.wf(),
        forall|q: FloatRequest| float_unit.requires((q,)),
    ensures
        final(vm).wf(),
        forall|unit: spec_fn(FloatRequestView) -> FloatReplyView| #[trigger]
            answers_by(float_unit, unit) ==> run_outcome(
                old(vm)@,
                run_inspected(old(vm)@, unit, within_frame(points@, bp), RUN_LIMIT as nat),
                replies_by(unit),
                within_frame(points@, bp),
                r,
                final(vm)@,
            ),
{
    let inspect = |m: &R0Vm<'src>| -> (go_on: bool)
        requires
            m.wf(),
        ensures
            go_on == within_frame(points@, bp)(m@),
        { m.bp() >= bp && cur_breakpoint(m, points).is_none() && !m.awaits_input() };
    let r = vm.run_to_end_inspect(float_unit, &inspect);
    assert(decides_by(&inspect, within_frame(points@, bp)));
    r
}

} // verus!
