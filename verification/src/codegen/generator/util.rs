//! The order in which the basic blocks of a function are laid out.
//!
//! The blocks form a graph that the loops of the function make cyclic. A first
//! walk from the start block counts for each block the edges that lead into
//! it, but not the edges that lead back into the path of the walk. A second
//! walk places a block when the last counted edge into it has been walked.

use crate::codegen::code::{block_views, BasicBlock, BasicBlockView, JumpInst};
use crate::codegen::err::{
    CompileError, CompileErrorKind, CompileErrorKindView, CompileErrorView,
};
use crate::opcodes::Op;
use crate::codegen::index::{
    bit_set_contains, bit_set_insert, bit_set_members, bit_set_new, bit_set_remove, Bits,
};
use vstd::prelude::*;
use vstd::string::*;

verus! {

pub type CompileResult<T> = core::result::Result<T, CompileError>;

/// Every jump of every block leads to a block.
pub open spec fn blocks_wf(bb: Seq<BasicBlockView>) -> bool {
    forall|i: int|
        0 <= i < bb.len() ==> match (#[trigger] bb[i]).jump {
            JumpInst::Jump(t) => t < bb.len(),
            JumpInst::JumpIf(_, t, f) => t < bb.len() && f < bb.len(),
            _ => true,
        }
}

/// The number of blocks below `n` that the set does not hold.
pub open spec fn unvisited(n: nat, s: Set<usize>) -> nat
    decreases n,
{
    if n == 0 {
        0
    } else {
        unvisited((n - 1) as nat, s) + if s.contains((n - 1) as usize) {
            0nat
        } else {
            1nat
        }
    }
}

proof fn lemma_unvisited_insert(n: nat, s: Set<usize>, k: usize)
    requires
        n <= usize::MAX,
    ensures
        k < n && !s.contains(k) ==> unvisited(n, s.insert(k)) + 1 == unvisited(n, s),
        k >= n ==> unvisited(n, s.insert(k)) == unvisited(n, s),
    decreases n,
{
    if n > 0 {
        lemma_unvisited_insert((n - 1) as nat, s, k);
    }
}

proof fn lemma_unvisited_subset(n: nat, a: Set<usize>, b: Set<usize>)
    requires
        a.subset_of(b),
    ensures
        unvisited(n, b) <= unvisited(n, a),
    decreases n,
{
    if n > 0 {
        lemma_unvisited_subset((n - 1) as nat, a, b);
    }
}

/// The sum of the counts.
pub open spec fn total(s: Seq<usize>) -> nat
    decreases s.len(),
{
    if s.len() == 0 {
        0
    } else {
        total(s.drop_last()) + s.last() as nat
    }
}

proof fn lemma_total_decrement(s: Seq<usize>, k: int)
    requires
        0 <= k < s.len(),
        s[k] > 0,
    ensures
        total(s.update(k, (s[k] - 1) as usize)) + 1 == total(s),
    decreases s.len(),
{
    let u = s.update(k, (s[k] - 1) as usize);
    if k == s.len() - 1 {
        assert(u.drop_last() =~= s.drop_last());
    } else {
        lemma_total_decrement(s.drop_last(), k);
        assert(u.drop_last() =~= s.drop_last().update(k, (s[k] - 1) as usize));
    }
}

/// What an arrangement holds while it is made.
pub struct ArrView {
    /// For each block the edges into it that are counted and not yet walked.
    pub pending: Seq<usize>,
    /// The blocks on the path of the walk.
    pub path: Set<usize>,
    /// The blocks that the first walk has seen.
    pub seen: Set<usize>,
    /// The blocks that are placed, in their order.
    pub placed: Seq<usize>,
}

/// The arrangement of `n` blocks in which nothing is counted or placed.
pub open spec fn empty_arrangement(n: nat) -> ArrView {
    ArrView {
        pending: Seq::new(n, |i: int| 0usize),
        path: Set::empty(),
        seen: Set::empty(),
        placed: Seq::empty(),
    }
}

/// A count with one more edge; a count at the largest number stays there.
pub open spec fn one_more(count: usize) -> usize {
    if count == usize::MAX {
        usize::MAX
    } else {
        (count + 1) as usize
    }
}

/// The first walk, along an edge into block `id`. An edge that leads back
/// into the path of the walk is not counted. Any other edge is counted for
/// the block; where the block is seen for the first time, the walk goes on
/// along the edges out of it, the first target first, with the block on the
/// path.
///
/// The walk forgets no block that it has seen
/// (`lemma_count_walk_keeps`), so a walk along the second edge out of a
/// block always follows the walk along the first.
pub open spec fn count_walk(bb: Seq<BasicBlockView>, st: ArrView, id: usize) -> ArrView
    decreases unvisited(bb.len(), st.seen),
    via count_walk_decreases
{
    if id >= bb.len() || bb.len() > usize::MAX || st.path.contains(id) {
        st
    } else {
        let counted = ArrView {
            pending: st.pending.update(id as int, one_more(st.pending[id as int])),
            ..st
        };
        if st.seen.contains(id) {
            counted
        } else {
            let inner = ArrView {
                seen: st.seen.insert(id),
                path: st.path.insert(id),
                ..counted
            };
            let walked = match bb[id as int].jump {
                JumpInst::Jump(t) => count_walk(bb, inner, t),
                JumpInst::JumpIf(_, t, f) => {
                    let first = count_walk(bb, inner, t);
                    if inner.seen.subset_of(first.seen) {
                        count_walk(bb, first, f)
                    } else {
                        first
                    }
                },
                _ => inner,
            };
            ArrView { path: walked.path.remove(id), ..walked }
        }
    }
}

#[via_fn]
proof fn count_walk_decreases(bb: Seq<BasicBlockView>, st: ArrView, id: usize) {
    if !(id >= bb.len() || bb.len() > usize::MAX || st.path.contains(id)) && !st.seen.contains(id) {
        lemma_unvisited_insert(bb.len(), st.seen, id);
        let inner_seen = st.seen.insert(id);
        assert forall|later: Set<usize>| inner_seen.subset_of(later) implies #[trigger] unvisited(
            bb.len(),
            later,
        ) <= unvisited(bb.len(), inner_seen) by {
            lemma_unvisited_subset(bb.len(), inner_seen, later);
        }
    }
}

/// The second walk, along an edge into block `id`. An edge that leads back
/// into the path of the walk is not walked, nor one into a block that has
/// no counted edge left. Any other edge is taken off the count of the
/// block; with the last one the block is placed, and the walk goes on along
/// the edges out of it, the first target first, with the block on the path.
/// Nothing where a block that would be placed has no terminator.
///
/// The walk adds no edge to the counts (`lemma_place_walk_counts`), so a
/// walk along the second edge out of a block always follows the walk along
/// the first.
pub open spec fn place_walk(bb: Seq<BasicBlockView>, st: ArrView, id: usize) -> Option<ArrView>
    decreases total(st.pending),
    via place_walk_decreases
{
    if id >= bb.len() || id >= st.pending.len() || st.path.contains(id) || st.pending[id as int]
        == 0 {
        Some(st)
    } else {
        let walked = ArrView {
            pending: st.pending.update(id as int, (st.pending[id as int] - 1) as usize),
            ..st
        };
        if walked.pending[id as int] != 0 {
            Some(walked)
        } else if bb[id as int].jump is Undefined {
            None
        } else {
            let inner = ArrView {
                placed: walked.placed.push(id),
                path: walked.path.insert(id),
                ..walked
            };
            let done = match bb[id as int].jump {
                JumpInst::Jump(t) => place_walk(bb, inner, t),
                JumpInst::JumpIf(_, t, f) => match place_walk(bb, inner, t) {
                    Some(first) => if total(first.pending) <= total(inner.pending) {
                        place_walk(bb, first, f)
                    } else {
                        Some(first)
                    },
                    None => None,
                },
                _ => Some(inner),
            };
            match done {
                Some(d) => Some(ArrView { path: d.path.remove(id), ..d }),
                None => None,
            }
        }
    }
}

#[via_fn]
proof fn place_walk_decreases(bb: Seq<BasicBlockView>, st: ArrView, id: usize) {
    if !(id >= bb.len() || id >= st.pending.len() || st.path.contains(id) || st.pending[id as int]
        == 0) {
        lemma_total_decrement(st.pending, id as int);
    }
}

/// The first walk forgets no block that it has seen.
pub proof fn lemma_count_walk_keeps(bb: Seq<BasicBlockView>, st: ArrView, id: usize)
    ensures
        st.seen.subset_of(count_walk(bb, st, id).seen),
    decreases unvisited(bb.len(), st.seen),
{
    if !(id >= bb.len() || bb.len() > usize::MAX || st.path.contains(id)) && !st.seen.contains(id) {
        lemma_unvisited_insert(bb.len(), st.seen, id);
        let counted = ArrView {
            pending: st.pending.update(id as int, one_more(st.pending[id as int])),
            ..st
        };
        let inner = ArrView { seen: st.seen.insert(id), path: st.path.insert(id), ..counted };
        match bb[id as int].jump {
            JumpInst::Jump(t) => {
                lemma_count_walk_keeps(bb, inner, t);
            },
            JumpInst::JumpIf(_, t, f) => {
                lemma_count_walk_keeps(bb, inner, t);
                let first = count_walk(bb, inner, t);
                lemma_unvisited_subset(bb.len(), inner.seen, first.seen);
                lemma_count_walk_keeps(bb, first, f);
            },
            _ => {},
        }
    }
}

/// The second walk adds no edge to the counts.
pub proof fn lemma_place_walk_counts(bb: Seq<BasicBlockView>, st: ArrView, id: usize)
    ensures
        place_walk(bb, st, id) matches Some(after) ==> total(after.pending) <= total(st.pending),
    decreases total(st.pending),
{
    if !(id >= bb.len() || id >= st.pending.len() || st.path.contains(id) || st.pending[id as int]
        == 0) {
        lemma_total_decrement(st.pending, id as int);
        let walked = ArrView {
            pending: st.pending.update(id as int, (st.pending[id as int] - 1) as usize),
            ..st
        };
        if walked.pending[id as int] == 0 && !(bb[id as int].jump is Undefined) {
            let inner = ArrView {
                placed: walked.placed.push(id),
                path: walked.path.insert(id),
                ..walked
            };
            match bb[id as int].jump {
                JumpInst::Jump(t) => {
                    lemma_place_walk_counts(bb, inner, t);
                },
                JumpInst::JumpIf(_, t, f) => {
                    lemma_place_walk_counts(bb, inner, t);
                    match place_walk(bb, inner, t) {
                        Some(first) => {
                            lemma_place_walk_counts(bb, first, f);
                        },
                        None => {},
                    }
                },
                _ => {},
            }
        }
    }
}

/// The order in which the blocks of a function are laid out, from the block
/// `start` on: the first walk counts the edges, the second places the
/// blocks. Nothing where a block that would be placed has no terminator,
/// or where a placed block leads to one that is not placed.
pub open spec fn arrangement(bb: Seq<BasicBlockView>, start: usize) -> Option<Seq<usize>> {
    match place_walk(bb, count_walk(bb, empty_arrangement(bb.len()), start), start) {
        Some(st) => if all_targets_placed(bb, st.placed) {
            Some(st.placed)
        } else {
            None
        },
        None => None,
    }
}

/// The state of the arrangement of the blocks of one function.
pub struct BBArranger<'st> {
    bb: &'st Vec<BasicBlock>,
    path: Bits,
    vis: Bits,
    in_degree: Vec<usize>,
    arr: Vec<usize>,
}

impl<'st> BBArranger<'st> {
    /// The blocks that are arranged.
    pub closed spec fn blocks(&self) -> Seq<BasicBlockView> {
        block_views(self.bb@)
    }

    /// The blocks that are placed, in their order.
    pub closed spec fn placed(&self) -> Seq<usize> {
        self.arr@
    }

    /// For each block the edges into it that are counted and not yet walked.
    pub closed spec fn pending(&self) -> Seq<usize> {
        self.in_degree@
    }

    /// The blocks on the path of the walk.
    pub closed spec fn on_path(&self) -> Set<usize> {
        bit_set_members(self.path)
    }

    /// The blocks that the first walk has seen.
    pub closed spec fn seen(&self) -> Set<usize> {
        bit_set_members(self.vis)
    }

    /// What the arrangement holds.
    pub open spec fn state(&self) -> ArrView {
        ArrView {
            pending: self.pending(),
            path: self.on_path(),
            seen: self.seen(),
            placed: self.placed(),
        }
    }

    /// The invariant of the arrangement: every placed block is a block, is
    /// placed once, has no counted edge left, and has a terminator.
    pub open spec fn wf(&self) -> bool {
        &&& blocks_wf(self.blocks())
        &&& self.pending().len() == self.blocks().len()
        &&& self.placed().no_duplicates()
        &&& forall|i: int|
            0 <= i < self.placed().len() ==> (#[trigger] self.placed()[i]) < self.blocks().len()
                && self.pending()[self.placed()[i] as int] == 0 && !(
            self.blocks()[self.placed()[i] as int].jump is Undefined)
    }

    /// An arrangement of `bb` in which nothing is counted or placed.
    pub fn new(bb: &'st Vec<BasicBlock>) -> (a: BBArranger<'st>)
        requires
            blocks_wf(block_views(bb@)),
        ensures
            a.wf(),
            a.blocks() == block_views(bb@),
            a.placed() == Seq::<usize>::empty(),
            a.on_path() == Set::<usize>::empty(),
            a.seen() == Set::<usize>::empty(),
            forall|i: int| 0 <= i < bb@.len() ==> a.pending()[i] == 0,
            a.blocks().len() == bb@.len(),
            a.state() == empty_arrangement(bb@.len()),
    {
        let mut in_degree: Vec<usize> = Vec::new();
        let mut i: usize = 0;
        while i < bb.len()
            invariant
                i <= bb@.len(),
                in_degree@.len() == i,
                forall|k: int| 0 <= k < i ==> in_degree@[k] == 0,
            decreases bb@.len() - i,
        {
            in_degree.push(0);
            i = i + 1;
        }
        let a = BBArranger { bb, path: bit_set_new(), vis: bit_set_new(), in_degree, arr: Vec::new() };
        assert(a.pending() =~= empty_arrangement(bb@.len()).pending);
        a
    }

    /// Counts the edges in the part of the graph that can be reached from
    /// `start`, then places the blocks. Fails where a block that is placed has
    /// no terminator, or leads to a block that is not placed. Else the placed
    /// blocks are the blocks that can be reached from `start`, each once and
    /// each with a terminator; they begin with `start`, and each other one
    /// is led to by a block placed before it.
    pub fn construct_arrangement(&mut self, start: usize) -> (r: CompileResult<()>)
        requires
            old(self).wf(),
            start < old(self).blocks().len(),
            old(self).placed() == Seq::<usize>::empty(),
            old(self).on_path() == Set::<usize>::empty(),
            forall|i: int| 0 <= i < old(self).blocks().len() ==> old(self).pending()[i] == 0,
        ensures
            final(self).blocks() == old(self).blocks(),
            match r {
                Ok(()) => final(self).wf() && final(self).placed().len() > 0 && final(self).placed()[0] == start
                    && led(final(self).blocks(), final(self).placed()) && all_targets_placed(
                    final(self).blocks(),
                    final(self).placed(),
                ),
                Err(e) => e.kind == CompileErrorKind::NotAllRoutesReturn && e.span is None,
            },
            r is Ok ==> forall|b: usize|
                final(self).placed().contains(b) <==> #[trigger] reachable(
                    final(self).blocks(),
                    start,
                    b,
                ),
            match place_walk(
                old(self).blocks(),
                count_walk(old(self).blocks(), old(self).state(), start),
                start,
            ) {
                Some(st) => final(self).state() == st && (r is Ok <==> all_targets_placed(
                    old(self).blocks(),
                    st.placed,
                )),
                None => r is Err,
            },
    {
        self.vis(start);
        match self.arr(start) {
            Ok(()) => {},
            Err(e) => {
                return Err(e);
            },
        }
        if !terminators_placed(self.bb, &self.arr) {
            return Err(CompileError(CompileErrorKind::NotAllRoutesReturn, None));
        }
        proof {
            assert forall|b: usize| self.placed().contains(b) <==> #[trigger] reachable(
                self.blocks(),
                start,
                b,
            ) by {
                lemma_arranged_reachable(self.blocks(), self.placed(), b);
            }
        }
        Ok(())
    }

    /// Counts the edge that the walk takes into block `id`, unless it leads
    /// back into the path, and walks on from `id` where it is seen for the
    /// first time.
    pub fn vis(&mut self, id: usize)
        requires
            old(self).wf(),
            id < old(self).blocks().len(),
            old(self).placed() == Seq::<usize>::empty(),
        ensures
            final(self).wf(),
            final(self).blocks() == old(self).blocks(),
            final(self).placed() == old(self).placed(),
            final(self).on_path() == old(self).on_path(),
            old(self).seen().subset_of(final(self).seen()),
            final(self).state() == count_walk(old(self).blocks(), old(self).state(), id),
            forall|k: int|
                0 <= k < old(self).pending().len() && old(self).on_path().contains(k as usize)
                    ==> final(self).pending()[k] == old(self).pending()[k],
            !old(self).on_path().contains(id) ==> final(self).pending()[id as int] == if old(self).pending()[id as int] == usize::MAX {
                usize::MAX
            } else {
                (old(self).pending()[id as int] + 1) as usize
            },
        decreases unvisited(old(self).blocks().len(), old(self).seen()),
    {
        let n = self.bb.len();
        assert(id < n <= usize::MAX);
        if bit_set_contains(&self.path, id) {
            // cycle does not count
            return ;
        }
        let count = self.in_degree[id];
        self.in_degree.set(id, count.saturating_add(1));
        if bit_set_contains(&self.vis, id) {
            // visited node
            return ;
        }
        proof {
            lemma_unvisited_insert(self.blocks().len(), self.seen(), id);
        }
        let ghost path_before = self.on_path();
        let ghost pending_before = self.pending();
        bit_set_insert(&mut self.vis, id);
        bit_set_insert(&mut self.path, id);
        assert(self.blocks()[id as int] == self.bb@[id as int]@);
        match self.bb[id].jump {
            JumpInst::Jump(bb1) => {
                self.vis(bb1);
            },
            JumpInst::JumpIf(_, bb1, bb2) => {
                self.vis(bb1);
                proof {
                    lemma_unvisited_subset(
                        self.blocks().len(),
                        old(self).seen().insert(id),
                        self.seen(),
                    );
                }
                self.vis(bb2);
            },
            _ => {},
        }
        bit_set_remove(&mut self.path, id);
        assert(self.on_path() =~= path_before);
    }

    /// Walks the edge into block `id`, unless it leads back into the path or
    /// no edge into the block is left to walk, and places the block when the
    /// last edge into it has been walked; then walks on from it. Fails where
    /// a placed block has no terminator.
    pub fn arr(&mut self, id: usize) -> (r: CompileResult<()>)
        requires
            old(self).wf(),
            id < old(self).blocks().len(),
        ensures
            final(self).blocks() == old(self).blocks(),
            final(self).pending().len() == old(self).pending().len(),
            total(final(self).pending()) <= total(old(self).pending()),
            match place_walk(old(self).blocks(), old(self).state(), id) {
                Some(st) => r is Ok && final(self).state() == st,
                None => r is Err,
            },
            match r {
                Ok(()) => final(self).wf() && old(self).placed().is_prefix_of(final(self).placed())
                    && final(self).on_path() == old(self).on_path() && (!old(self).on_path().contains(id) && old(self).pending()[id as int] == 1 ==> final(self).placed().len() > old(self).placed().len() && final(self).placed()[old(self).placed().len() as int] == id),
                Err(e) => e.kind == CompileErrorKind::NotAllRoutesReturn && e.span is None,
            },
            r is Ok && led(old(self).blocks(), old(self).placed()) && (old(self).placed().len() == 0
                || led_from(old(self).blocks(), old(self).placed(), id)) ==> led(
                final(self).blocks(),
                final(self).placed(),
            ),
        decreases total(old(self).pending()),
    {
        let n = self.bb.len();
        assert(id < n <= usize::MAX);
        if bit_set_contains(&self.path, id) {
            // cycle does not count
            return Ok(());
        }
        let count = self.in_degree[id];
        if count == 0 {
            // every counted edge into the block has been walked
            return Ok(());
        }
        proof {
            lemma_total_decrement(self.pending(), id as int);
        }
        let ghost placed_before = self.placed();
        let ghost path_before = self.on_path();
        self.in_degree.set(id, count - 1);
        assert(self.wf()) by {
            assert forall|i: int| 0 <= i < self.placed().len() implies (
            #[trigger] self.placed()[i]) < self.blocks().len() && self.pending()[self.placed()[i] as int]
                == 0 && !(self.blocks()[self.placed()[i] as int].jump is Undefined) by {
                assert(old(self).placed()[i] != id);
            }
        }
        if count - 1 != 0 {
            return Ok(());
        }
        let jump = self.bb[id].jump;
        assert(self.blocks()[id as int] == self.bb@[id as int]@);
        if let JumpInst::Undefined = jump {
            return Err(CompileError(CompileErrorKind::NotAllRoutesReturn, None));
        }
        self.arr.push(id);
        assert(self.wf()) by {
            assert forall|i: int, j: int|
                0 <= i < self.placed().len() && 0 <= j < self.placed().len() && i
                    != j implies self.placed()[i] != self.placed()[j] by {
                if i < placed_before.len() && j < placed_before.len() {
                    assert(placed_before[i] != placed_before[j]);
                } else if i < placed_before.len() {
                    assert(old(self).pending()[placed_before[i] as int] == 0);
                } else if j < placed_before.len() {
                    assert(old(self).pending()[placed_before[j] as int] == 0);
                }
            }
            assert forall|i: int| 0 <= i < self.placed().len() implies (
            #[trigger] self.placed()[i]) < self.blocks().len() && self.pending()[self.placed()[i] as int]
                == 0 && !(self.blocks()[self.placed()[i] as int].jump is Undefined) by {
                if i < placed_before.len() {
                    assert(self.placed()[i] == placed_before[i]);
                    assert(old(self).placed()[i] != id);
                }
            }
        }
        bit_set_insert(&mut self.path, id);
        let ghost mid = self.placed();
        let ghost at = placed_before.len() as int;
        proof {
            if led(self.blocks(), placed_before) && (at == 0 || led_from(
                self.blocks(),
                placed_before,
                id,
            )) {
                assert forall|i: int| 0 < i < mid.len() implies led_from(
                    self.blocks(),
                    mid.take(i),
                    #[trigger] mid[i],
                ) by {
                    if i < at {
                        assert(mid.take(i) =~= placed_before.take(i));
                        assert(mid[i] == placed_before[i]);
                    } else {
                        assert(mid.take(i) =~= placed_before);
                    }
                }
            }
        }
        match jump {
            JumpInst::Jump(bb1) => {
                assert(mid[at] == id && leads_to(self.blocks()[mid[at] as int].jump, bb1));
                match self.arr(bb1) {
                    Ok(()) => {},
                    Err(e) => {
                        return Err(e);
                    },
                }
            },
            JumpInst::JumpIf(_, bb1, bb2) => {
                assert(mid[at] == id && leads_to(self.blocks()[mid[at] as int].jump, bb1));
                match self.arr(bb1) {
                    Ok(()) => {},
                    Err(e) => {
                        return Err(e);
                    },
                }
                assert(self.placed()[at] == id && leads_to(
                    self.blocks()[self.placed()[at] as int].jump,
                    bb2,
                ));
                match self.arr(bb2) {
                    Ok(()) => {},
                    Err(e) => {
                        return Err(e);
                    },
                }
            },
            _ => {},
        }
        bit_set_remove(&mut self.path, id);
        assert(self.on_path() =~= path_before);
        assert(mid.is_prefix_of(self.placed()));
        assert(self.placed()[placed_before.len() as int] == mid[placed_before.len() as int]);
        Ok(())
    }

    /// The blocks that are placed, in their order.
    pub fn arrange(self) -> (order: Vec<usize>)
        ensures
            order@ == self.placed(),
    {
        self.arr
    }
}

/// The block that is laid out behind the `k`-th one, if one is.
pub open spec fn next_in(order: Seq<usize>, k: int) -> Option<usize> {
    if k + 1 < order.len() {
        Some(order[k + 1])
    } else {
        None
    }
}

/// The number of instructions that a terminator becomes. A two-way jump
/// whose first target is laid out next needs one branch, else two.
pub open spec fn term_len(jump: JumpInst, next: Option<usize>) -> nat {
    match jump {
        JumpInst::Return => 1,
        JumpInst::Jump(_) => 1,
        JumpInst::JumpIf(_, t, _) => if next == Some(t) {
            1
        } else {
            2
        },
        _ => 0,
    }
}

/// The number of instructions of the `k`-th block of the layout.
pub open spec fn block_len(bb: Seq<BasicBlockView>, order: Seq<usize>, k: int) -> nat {
    bb[order[k] as int].code.len() + term_len(bb[order[k] as int].jump, next_in(order, k))
}

/// The index of the first instruction of the `k`-th block of the layout.
pub open spec fn start_of(bb: Seq<BasicBlockView>, order: Seq<usize>, k: int) -> nat
    decreases k,
{
    if k <= 0 {
        0
    } else {
        start_of(bb, order, k - 1) + block_len(bb, order, k - 1)
    }
}

/// The index of the first instruction of block `b` in the layout.
pub open spec fn block_start(bb: Seq<BasicBlockView>, order: Seq<usize>, b: usize) -> nat {
    start_of(bb, order, order.index_of(b))
}

/// The instructions that the terminator of the `k`-th block of the layout
/// becomes. The offset of a branch counts from the instruction behind the
/// branch to the first instruction of the target.
pub open spec fn term_code(bb: Seq<BasicBlockView>, order: Seq<usize>, k: int) -> Seq<Op> {
    let block = bb[order[k] as int];
    let end = start_of(bb, order, k) + block.code.len();
    match block.jump {
        JumpInst::Return => seq![Op::Ret],
        JumpInst::Jump(b) => seq![Op::Br((block_start(bb, order, b) - (end + 1)) as i32)],
        JumpInst::JumpIf(_, t, f) => if next_in(order, k) == Some(t) {
            seq![Op::BrFalse((block_start(bb, order, f) - (end + 1)) as i32)]
        } else {
            seq![
                Op::BrTrue((block_start(bb, order, t) - (end + 1)) as i32),
                Op::Br((block_start(bb, order, f) - (end + 2)) as i32),
            ]
        },
        _ => Seq::empty(),
    }
}

/// The instructions of the first `n` blocks of the layout: of each block its
/// own instructions and then its terminator.
pub open spec fn linear_code(bb: Seq<BasicBlockView>, order: Seq<usize>, n: int) -> Seq<Op>
    decreases n,
{
    if n <= 0 {
        Seq::empty()
    } else {
        linear_code(bb, order, n - 1) + bb[order[n - 1] as int].code + term_code(bb, order, n - 1)
    }
}

/// Whether a terminator leads only to blocks of the layout.
pub open spec fn targets_placed(jump: JumpInst, order: Seq<usize>) -> bool {
    match jump {
        JumpInst::Return => true,
        JumpInst::Jump(b) => order.contains(b),
        JumpInst::JumpIf(_, t, f) => order.contains(t) && order.contains(f),
        _ => false,
    }
}

/// A layout names blocks, and each block once.
pub open spec fn layout_wf(bb: Seq<BasicBlockView>, order: Seq<usize>) -> bool {
    &&& order.no_duplicates()
    &&& forall|k: int| 0 <= k < order.len() ==> (#[trigger] order[k]) < bb.len()
}

proof fn lemma_linear_len(bb: Seq<BasicBlockView>, order: Seq<usize>, n: int)
    requires
        0 <= n <= order.len(),
    ensures
        linear_code(bb, order, n).len() == start_of(bb, order, n),
    decreases n,
{
    if n > 0 {
        lemma_linear_len(bb, order, n - 1);
    }
}

proof fn lemma_start_grows(bb: Seq<BasicBlockView>, order: Seq<usize>, j: int, n: int)
    requires
        0 <= j <= n,
    ensures
        start_of(bb, order, j) <= start_of(bb, order, n),
    decreases n,
{
    if j < n {
        lemma_start_grows(bb, order, j, n - 1);
    }
}

/// Whether every block of a layout has a terminator that leads only to
/// blocks of the layout.
pub open spec fn all_targets_placed(bb: Seq<BasicBlockView>, order: Seq<usize>) -> bool {
    forall|k: int|
        0 <= k < order.len() ==> targets_placed((#[trigger] bb[order[k] as int]).jump, order)
}

/// Whether a terminator leads to block `b`.
pub open spec fn leads_to(jump: JumpInst, b: usize) -> bool {
    match jump {
        JumpInst::Jump(t) => t == b,
        JumpInst::JumpIf(_, t, f) => t == b || f == b,
        _ => false,
    }
}

/// Whether each block of a sequence is a block whose terminator leads to
/// the next one.
pub open spec fn is_walk(bb: Seq<BasicBlockView>, walk: Seq<usize>) -> bool {
    forall|i: int|
        0 <= i < walk.len() - 1 ==> (#[trigger] walk[i]) < bb.len() && leads_to(
            bb[walk[i] as int].jump,
            walk[i + 1],
        )
}

/// Whether a block of the order leads to block `b`.
pub open spec fn led_from(bb: Seq<BasicBlockView>, order: Seq<usize>, b: usize) -> bool {
    exists|j: int| 0 <= j < order.len() && leads_to(bb[#[trigger] order[j] as int].jump, b)
}

/// Whether every block of the order but the first is led to by a block
/// before it.
pub open spec fn led(bb: Seq<BasicBlockView>, order: Seq<usize>) -> bool {
    forall|i: int| 0 < i < order.len() ==> led_from(bb, order.take(i), #[trigger] order[i])
}

/// In an order in which every block but the first is led to by a block
/// before it, every block can be reached from the first one: there is a
/// walk from the first block to it through blocks of the order.
pub proof fn lemma_placed_reachable(bb: Seq<BasicBlockView>, order: Seq<usize>, i: int) -> (walk: Seq<
    usize,
>)
    requires
        led(bb, order),
        0 <= i < order.len(),
        forall|k: int| 0 <= k < order.len() ==> (#[trigger] order[k]) < bb.len(),
    ensures
        walk.len() > 0,
        walk[0] == order[0],
        walk.last() == order[i],
        is_walk(bb, walk),
        forall|k: int| 0 <= k < walk.len() ==> order.contains(#[trigger] walk[k]),
    decreases i,
{
    if i == 0 {
        seq![order[0]]
    } else {
        let before = order.take(i);
        assert(led_from(bb, before, order[i]));
        let j = choose|j: int|
            0 <= j < before.len() && leads_to(bb[#[trigger] before[j] as int].jump, order[i]);
        assert(before[j] == order[j]);
        let head = lemma_placed_reachable(bb, order, j);
        let walk = head.push(order[i]);
        assert forall|k: int| 0 <= k < walk.len() - 1 implies (#[trigger] walk[k]) < bb.len()
            && leads_to(bb[walk[k] as int].jump, walk[k + 1]) by {
            if k < head.len() - 1 {
                assert(walk[k] == head[k]);
                assert(walk[k + 1] == head[k + 1]);
            } else {
                assert(walk[k] == order[j]);
            }
        }
        assert forall|k: int| 0 <= k < walk.len() implies order.contains(#[trigger] walk[k]) by {
            if k < head.len() {
                assert(walk[k] == head[k]);
            }
        }
        walk
    }
}

/// In a layout whose blocks lead only to blocks of the layout, every block
/// that can be reached from a block of the layout is in the layout, and
/// has a terminator.
pub proof fn lemma_reachable_placed(bb: Seq<BasicBlockView>, order: Seq<usize>, walk: Seq<usize>)
    requires
        layout_wf(bb, order),
        all_targets_placed(bb, order),
        walk.len() > 0,
        order.contains(walk[0]),
        is_walk(bb, walk),
    ensures
        forall|i: int|
            0 <= i < walk.len() ==> order.contains(#[trigger] walk[i]) && targets_placed(
                bb[walk[i] as int].jump,
                order,
            ),
    decreases walk.len(),
{
    let last = walk.len() - 1;
    if last > 0 {
        let shorter = walk.drop_last();
        assert forall|i: int| 0 <= i < shorter.len() - 1 implies (#[trigger] shorter[i]) < bb.len()
            && leads_to(bb[shorter[i] as int].jump, shorter[i + 1]) by {
            assert(shorter[i] == walk[i]);
            assert(shorter[i + 1] == walk[i + 1]);
        }
        lemma_reachable_placed(bb, order, shorter);
        assert(shorter[last - 1] == walk[last - 1]);
        assert(order.contains(walk[last - 1]));
        assert(leads_to(bb[walk[last - 1] as int].jump, walk[last]));
        assert forall|i: int| 0 <= i < walk.len() implies order.contains(#[trigger] walk[i])
            && targets_placed(bb[walk[i] as int].jump, order) by {
            if i < last {
                assert(shorter[i] == walk[i]);
            }
            let k = order.index_of(walk[i]);
            assert(order[k] == walk[i]);
        }
    } else {
        let k = order.index_of(walk[0]);
        assert(order[k] == walk[0]);
    }
}

/// Whether block `b` can be reached from block `start`: a walk leads from
/// the one to the other.
pub open spec fn reachable(bb: Seq<BasicBlockView>, start: usize, b: usize) -> bool {
    exists|walk: Seq<usize>| #[trigger]
        is_walk(bb, walk) && walk.len() > 0 && walk[0] == start && walk.last() == b
}

/// An order that begins with a block, in which every other block is led to
/// by a block before it and every block leads only to blocks of the order,
/// holds exactly the blocks that can be reached from its first block, and
/// each of them has a terminator.
pub proof fn lemma_arranged_reachable(bb: Seq<BasicBlockView>, order: Seq<usize>, b: usize)
    requires
        layout_wf(bb, order),
        order.len() > 0,
        led(bb, order),
        all_targets_placed(bb, order),
    ensures
        order.contains(b) <==> reachable(bb, order[0], b),
        reachable(bb, order[0], b) ==> targets_placed(bb[b as int].jump, order),
{
    if order.contains(b) {
        let i = order.index_of(b);
        let walk = lemma_placed_reachable(bb, order, i);
        assert(is_walk(bb, walk) && walk.len() > 0 && walk[0] == order[0] && walk.last() == b);
    }
    if reachable(bb, order[0], b) {
        let walk = choose|walk: Seq<usize>| #[trigger]
            is_walk(bb, walk) && walk.len() > 0 && walk[0] == order[0] && walk.last() == b;
        assert(order[0] == walk[0]);
        lemma_reachable_placed(bb, order, walk);
        assert(order.contains(walk[walk.len() - 1]));
    }
}

/// The longest layout whose branches can be written.
pub const MAX_CODE_LEN: usize = 0x7fff_ffff;

/// What a layout becomes. A block without a terminator, or one that leads
/// to a block outside the layout, fails it with `NotAllRoutesReturn`; a
/// layout of more than `MAX_CODE_LEN` instructions fails with
/// `InvalidCalculation`.
pub open spec fn layout_code(bb: Seq<BasicBlockView>, order: Seq<usize>) -> Result<
    Seq<Op>,
    CompileErrorKindView,
> {
    if !all_targets_placed(bb, order) {
        Err(CompileErrorKindView::NotAllRoutesReturn)
    } else if start_of(bb, order, order.len() as int) > MAX_CODE_LEN {
        Err(CompileErrorKindView::InvalidCalculation("branch offset"@))
    } else {
        Ok(linear_code(bb, order, order.len() as int))
    }
}

/// Marks the blocks of a layout.
fn mark_placed(n: usize, order: &Vec<usize>) -> (marks: Vec<bool>)
    requires
        forall|k: int| 0 <= k < order@.len() ==> (#[trigger] order@[k]) < n,
    ensures
        marks@.len() == n,
        forall|b: int| 0 <= b < n ==> #[trigger] marks@[b] == order@.contains(b as usize),
{
    let mut marks: Vec<bool> = Vec::new();
    let mut i: usize = 0;
    while i < n
        invariant
            i <= n,
            marks@.len() == i,
            forall|b: int| 0 <= b < i ==> !(#[trigger] marks@[b]),
        decreases n - i,
    {
        marks.push(false);
        i = i + 1;
    }
    let mut k: usize = 0;
    while k < order.len()
        invariant
            k <= order@.len(),
            marks@.len() == n,
            forall|j: int| 0 <= j < order@.len() ==> (#[trigger] order@[j]) < n,
            forall|b: int|
                0 <= b < n ==> #[trigger] marks@[b] == order@.take(k as int).contains(b as usize),
        decreases order@.len() - k,
    {
        let ghost before = marks@;
        marks.set(order[k], true);
        proof {
            let shorter = order@.take(k as int);
            let longer = order@.take(k + 1);
            assert forall|b: int| 0 <= b < n implies #[trigger] marks@[b] == longer.contains(
                b as usize,
            ) by {
                if b == order@[k as int] {
                    assert(longer[k as int] == b as usize);
                } else if before[b] {
                    let w = choose|w: int| 0 <= w < shorter.len() && #[trigger] shorter[w] == b as usize;
                    assert(longer[w] == b as usize);
                } else if longer.contains(b as usize) {
                    let w = choose|w: int| 0 <= w < longer.len() && #[trigger] longer[w] == b as usize;
                    assert(shorter[w] == b as usize);
                }
            }
        }
        k = k + 1;
    }
    assert(order@.take(k as int) =~= order@);
    marks
}

fn is_marked(marks: &Vec<bool>, t: usize, Ghost(order): Ghost<Seq<usize>>) -> (r: bool)
    requires
        forall|k: int| 0 <= k < order.len() ==> (#[trigger] order[k]) < marks@.len(),
        forall|b: int| 0 <= b < marks@.len() ==> #[trigger] marks@[b] == order.contains(b as usize),
    ensures
        r == order.contains(t),
{
    if t < marks.len() {
        marks[t]
    } else {
        false
    }
}

/// Whether every block of a layout has a terminator that leads only to
/// blocks of the layout.
fn terminators_placed(bb: &Vec<BasicBlock>, order: &Vec<usize>) -> (r: bool)
    requires
        layout_wf(block_views(bb@), order@),
    ensures
        r == all_targets_placed(block_views(bb@), order@),
{
    let marks = mark_placed(bb.len(), order);
    let mut k: usize = 0;
    while k < order.len()
        invariant
            k <= order@.len(),
            layout_wf(block_views(bb@), order@),
            marks@.len() == bb@.len(),
            forall|b: int|
                0 <= b < marks@.len() ==> #[trigger] marks@[b] == order@.contains(b as usize),
            forall|j: int|
                0 <= j < k ==> targets_placed(
                    (#[trigger] block_views(bb@)[order@[j] as int]).jump,
                    order@,
                ),
        decreases order@.len() - k,
    {
        let block = &bb[order[k]];
        assert(block_views(bb@)[order@[k as int] as int] == block@);
        let placed = match block.jump {
            JumpInst::Return => true,
            JumpInst::Jump(t) => is_marked(&marks, t, Ghost(order@)),
            JumpInst::JumpIf(_, t, f) => is_marked(&marks, t, Ghost(order@)) && is_marked(
                &marks,
                f,
                Ghost(order@),
            ),
            _ => false,
        };
        if !placed {
            return false;
        }
        k = k + 1;
    }
    true
}

/// What the table of block starts holds once the layout is measured.
#[verifier::opaque]
spec fn table_wf(bb: Seq<BasicBlockView>, order: Seq<usize>, table: Seq<usize>) -> bool {
    &&& layout_wf(bb, order)
    &&& table.len() == bb.len()
    &&& start_of(bb, order, order.len() as int) <= MAX_CODE_LEN
    &&& forall|j: int|
        0 <= j < order.len() ==> table[(#[trigger] order[j]) as int] == start_of(bb, order, j)
}

/// The index of the first instruction of each block of the layout, where
/// the layout is not too long.
fn measure(bb: &Vec<BasicBlock>, order: &Vec<usize>) -> (r: Option<Vec<usize>>)
    requires
        layout_wf(block_views(bb@), order@),
    ensures
        match r {
            Some(table) => table_wf(block_views(bb@), order@, table@),
            None => start_of(block_views(bb@), order@, order@.len() as int) > MAX_CODE_LEN,
        },
{
    let n = order.len();
    let mut table: Vec<usize> = Vec::new();
    let mut i: usize = 0;
    while i < bb.len()
        invariant
            i <= bb@.len(),
            table@.len() == i,
        decreases bb@.len() - i,
    {
        table.push(0);
        i = i + 1;
    }
    let mut pos: usize = 0;
    let mut k: usize = 0;
    while k < n
        invariant
            k <= n,
            n == order@.len(),
            layout_wf(block_views(bb@), order@),
            table@.len() == bb@.len(),
            pos == start_of(block_views(bb@), order@, k as int),
            pos <= MAX_CODE_LEN,
            forall|j: int|
                0 <= j < k ==> table@[(#[trigger] order@[j]) as int] == start_of(
                    block_views(bb@),
                    order@,
                    j,
                ),
        decreases n - k,
    {
        let b = order[k];
        let block = &bb[b];
        assert(block_views(bb@)[b as int] == block@);
        let next: Option<usize> = if k + 1 < n {
            Some(order[k + 1])
        } else {
            None
        };
        let tlen: usize = match block.jump {
            JumpInst::Return => 1,
            JumpInst::Jump(_) => 1,
            JumpInst::JumpIf(_, t, _) => {
                match next {
                    Some(x) => if x == t {
                        1
                    } else {
                        2
                    },
                    None => 2,
                }
            },
            _ => 0,
        };
        let len = block.code.len();
        if len > MAX_CODE_LEN - tlen || pos > MAX_CODE_LEN - tlen - len {
            proof {
                lemma_start_grows(block_views(bb@), order@, k + 1, n as int);
            }
            return None;
        }
        table.set(b, pos);
        proof {
            assert forall|j: int| 0 <= j < k + 1 implies table@[(#[trigger] order@[j]) as int]
                == start_of(block_views(bb@), order@, j) by {
                if j < k {
                    assert(order@[j] != order@[k as int]);
                }
            }
        }
        pos = pos + len + tlen;
        k = k + 1;
    }
    assert(table_wf(block_views(bb@), order@, table@)) by {
        reveal(table_wf);
    }
    Some(table)
}

/// The offset of a branch at the instruction before `from` to the
/// instruction `to`.
fn offset_between(from: usize, to: usize) -> (r: i32)
    requires
        from <= MAX_CODE_LEN,
        to <= MAX_CODE_LEN,
    ensures
        r == to - from,
{
    if to >= from {
        (to - from) as i32
    } else {
        let back: i32 = (from - to) as i32;
        0 - back
    }
}

/// The end of a block of a measured layout lies within the layout.
proof fn lemma_block_end(bb: Seq<BasicBlockView>, order: Seq<usize>, table: Seq<usize>, k: int)
    requires
        table_wf(bb, order, table),
        0 <= k < order.len(),
    ensures
        start_of(bb, order, k) + block_len(bb, order, k) <= MAX_CODE_LEN,
{
    reveal(table_wf);
    lemma_start_grows(bb, order, k + 1, order.len() as int);
}

fn start_in(bb: &Vec<BasicBlock>, order: &Vec<usize>, table: &Vec<usize>, t: usize) -> (r: usize)
    requires
        table_wf(block_views(bb@), order@, table@),
        order@.contains(t),
    ensures
        r == block_start(block_views(bb@), order@, t),
        r <= MAX_CODE_LEN,
{
    proof {
        reveal(table_wf);
        let j = order@.index_of(t);
        assert(order@[j] == t);
        lemma_start_grows(block_views(bb@), order@, j, order@.len() as int);
    }
    table[t]
}

fn push_terminator(
    bb: &Vec<BasicBlock>,
    order: &Vec<usize>,
    table: &Vec<usize>,
    k: usize,
    out: &mut Vec<Op>,
)
    requires
        table_wf(block_views(bb@), order@, table@),
        k < order@.len(),
        order@[k as int] < bb@.len(),
        targets_placed(block_views(bb@)[order@[k as int] as int].jump, order@),
        old(out)@.len() == start_of(block_views(bb@), order@, k as int) + block_views(
            bb@,
        )[order@[k as int] as int].code.len(),
    ensures
        final(out)@ == old(out)@ + term_code(block_views(bb@), order@, k as int),
{
    let n = order.len();
    let block = &bb[order[k]];
    assert(block_views(bb@)[order@[k as int] as int] == block@);
    let end = out.len();
    let next: Option<usize> = if k + 1 < n {
        Some(order[k + 1])
    } else {
        None
    };
    proof {
        lemma_block_end(block_views(bb@), order@, table@, k as int);
    }
    match block.jump {
        JumpInst::Return => {
            out.push(Op::Ret);
            assert(out@ =~= old(out)@ + term_code(block_views(bb@), order@, k as int));
        },
        JumpInst::Jump(t) => {
            let start = start_in(bb, order, table, t);
            out.push(Op::Br(offset_between(end + 1, start)));
            assert(out@ =~= old(out)@ + term_code(block_views(bb@), order@, k as int));
        },
        JumpInst::JumpIf(_, t, f) => {
            let start_t = start_in(bb, order, table, t);
            let start_f = start_in(bb, order, table, f);
            let falls_through = match next {
                Some(x) => x == t,
                None => false,
            };
            if falls_through {
                out.push(Op::BrFalse(offset_between(end + 1, start_f)));
                assert(out@ =~= old(out)@ + term_code(block_views(bb@), order@, k as int));
            } else {
                let off_t = offset_between(end + 1, start_t);
                let off_f = offset_between(end + 2, start_f);
                out.push(Op::BrTrue(off_t));
                out.push(Op::Br(off_f));
                assert(out@ =~= old(out)@ + term_code(block_views(bb@), order@, k as int));
            }
        },
        _ => {},
    }
}

fn emit_block(
    bb: &Vec<BasicBlock>,
    order: &Vec<usize>,
    table: &Vec<usize>,
    k: usize,
    out: &mut Vec<Op>,
)
    requires
        table_wf(block_views(bb@), order@, table@),
        k < order@.len(),
        targets_placed(block_views(bb@)[order@[k as int] as int].jump, order@),
        old(out)@ == linear_code(block_views(bb@), order@, k as int),
    ensures
        final(out)@ == linear_code(block_views(bb@), order@, k + 1),
{
    proof {
        reveal(table_wf);
        lemma_linear_len(block_views(bb@), order@, k as int);
    }
    let b = order[k];
    let block = &bb[b];
    let ghost base = out@;
    let mut c: usize = 0;
    while c < block.code.len()
        invariant
            c <= block.code@.len(),
            out@ == base + block.code@.take(c as int),
        decreases block.code@.len() - c,
    {
        out.push(block.code[c]);
        assert(out@ =~= base + block.code@.take(c + 1));
        c = c + 1;
    }
    assert(block.code@.take(c as int) =~= block.code@);
    push_terminator(bb, order, table, k, out);
}

/// Lays the blocks out in the given order and turns their terminators into
/// branches. Fails with `NotAllRoutesReturn` where a block of the layout has
/// no terminator, ends in `Unreachable`, or leads to a block outside the
/// layout, and with
/// `InvalidCalculation` where the function is too long for its branches.
pub fn linearize(bb: &Vec<BasicBlock>, order: &Vec<usize>) -> (r: CompileResult<Vec<Op>>)
    requires
        layout_wf(block_views(bb@), order@),
    ensures
        match layout_code(block_views(bb@), order@) {
            Ok(code) => r matches Ok(c) && c@ == code && c@.len() <= MAX_CODE_LEN,
            Err(kind) => r matches Err(e) && e@ == (CompileErrorView { kind, span: None }),
        },
{
    if !terminators_placed(bb, order) {
        return Err(CompileError(CompileErrorKind::NotAllRoutesReturn, None));
    }
    let table = match measure(bb, order) {
        Some(table) => table,
        None => {
            return Err(
                CompileError(
                    CompileErrorKind::InvalidCalculation(String::from_str("branch offset")),
                    None,
                ),
            );
        },
    };
    let n = order.len();
    let mut out: Vec<Op> = Vec::new();
    let mut k: usize = 0;
    proof {
        reveal(table_wf);
    }
    while k < n
        invariant
            k <= n,
            n == order@.len(),
            table_wf(block_views(bb@), order@, table@),
            all_targets_placed(block_views(bb@), order@),
            out@ == linear_code(block_views(bb@), order@, k as int),
        decreases n - k,
    {
        emit_block(bb, order, &table, k, &mut out);
        k = k + 1;
    }
    proof {
        lemma_linear_len(block_views(bb@), order@, n as int);
    }
    Ok(out)
}

} // verus!
