//! Where the program is: control points and how they move on.

use crate::context::{Context, ControlNode};
use crate::graph::{acyclic, rank_bound, rank_drops, rank_of};
use crate::index::{ControlIdx, GlobalCellIdx};
use std::collections::VecDeque;
use vstd::prelude::*;

verus! {

/// A control node that is active in a component instance.
#[derive(Clone, Copy, Debug, PartialEq, Eq, Hash, Structural)]
pub struct ControlPoint {
    pub comp: GlobalCellIdx,
    pub control_node_idx: ControlIdx,
}

/// All control points that are active.
#[derive(Debug)]
pub struct ProgramCounter {
    points: Vec<ControlPoint>,
}

impl View for ProgramCounter {
    type V = Seq<ControlPoint>;

    closed spec fn view(&self) -> Seq<ControlPoint> {
        self.points@
    }
}

impl ControlNode {
    /// The number of statements directly below a node.
    pub fn child_count(&self) -> (count: usize)
        ensures
            count == self.children().len(),
    {
        match self {
            ControlNode::Sequence(stms) => stms.len(),
            ControlNode::Parallel(stms) => stms.len(),
            ControlNode::If(_) => 2,
            ControlNode::While(_) => 1,
            ControlNode::Empty => 0,
            ControlNode::Enable(_) => 0,
            ControlNode::Invoke => 0,
        }
    }

    /// One of the statements directly below a node.
    pub fn child(&self, i: usize) -> (child: ControlIdx)
        requires
            i < self.children().len(),
        ensures
            child == self.children()[i as int],
    {
        match self {
            ControlNode::Sequence(stms) => stms[i],
            ControlNode::Parallel(stms) => stms[i],
            ControlNode::If(n) => if i == 0 {
                n.tbranch
            } else {
                n.fbranch
            },
            ControlNode::While(n) => n.body,
            ControlNode::Empty => ControlIdx(0),
            ControlNode::Enable(_) => ControlIdx(0),
            ControlNode::Invoke => ControlIdx(0),
        }
    }

    /// The statements directly below a node, first to last.
    pub fn child_queue(&self) -> (queue: VecDeque<ControlIdx>)
        ensures
            queue@ == self.children(),
    {
        let mut queue: VecDeque<ControlIdx> = VecDeque::new();
        let count: usize = self.child_count();
        for i in 0..count
            invariant
                count == self.children().len(),
                queue@ == self.children().take(i as int),
        {
            queue.push_back(self.child(i));
            assert(queue@ =~= self.children().take(i + 1));
        }
        assert(queue@ =~= self.children());
        queue
    }
}

impl Context {
    /// Node `n` is the `i`-th statement below node `p`.
    pub open spec fn is_child(&self, p: int, i: int, n: int) -> bool {
        &&& 0 <= p < self.primary.control@.len()
        &&& 0 <= i < self.control_graph()[p].len()
        &&& self.control_graph()[p][i] == n
    }

    /// The node above a node, and its position there.
    pub open spec fn parent_of(&self, n: int) -> Option<(int, int)> {
        if exists|p: int, i: int| self.is_child(p, i, n) {
            Some(choose|p: int, i: int| self.is_child(p, i, n))
        } else {
            None
        }
    }

    /// The node that is to run once a node is finished: the next statement of
    /// the innermost sequence that has one, unless a loop lies in between,
    /// which then is to run. An arm of a parallel block has no successor of its
    /// own.
    pub open spec fn next_node(&self, n: int) -> Option<ControlIdx>
        decreases self.primary.control@.len() - rank_of(self.control_graph(), n),
        when acyclic(self.control_graph()) && 0 <= n < self.primary.control@.len()
        via Self::next_node_decreases
    {
        match self.parent_of(n) {
            None => None,
            Some((p, i)) => match self.control(p) {
                ControlNode::Sequence(stms) => if i + 1 < stms@.len() {
                    Some(stms@[i + 1])
                } else {
                    self.next_node(p)
                },
                ControlNode::If(_) => self.next_node(p),
                ControlNode::While(_) => Some(ControlIdx(p as usize)),
                _ => None,
            },
        }
    }

    #[via_fn]
    proof fn next_node_decreases(&self, n: int) {
        if let Some((p, i)) = self.parent_of(n) {
            assert(self.is_child(p, i, n));
            rank_drops(self.control_graph(), p, i);
            rank_bound(self.control_graph(), n);
        }
    }

    /// Finds the node above a node.
    fn find_parent(&self, n: ControlIdx) -> (found: Option<(ControlIdx, usize)>)
        requires
            self.control_is_forest(),
        ensures
            match found {
                Some((p, i)) => self.parent_of(n.0 as int) == Some((p.0 as int, i as int))
                    && self.is_child(p.0 as int, i as int, n.0 as int),
                None => self.parent_of(n.0 as int) is None,
            },
    {
        let len: usize = self.primary.control.len();
        for p in 0..len
            invariant
                len == self.primary.control@.len(),
                self.control_is_forest(),
                forall|q: int, j: int| 0 <= q < p ==> !self.is_child(q, j, n.0 as int),
        {
            let node = self.primary.control.get(ControlIdx(p));
            let count: usize = node.child_count();
            for i in 0..count
                invariant
                    p < len == self.primary.control@.len(),
                    self.control_is_forest(),
                    *node == self.control(p as int),
                    count == node.children().len(),
                    forall|j: int| 0 <= j < i ==> !self.is_child(p as int, j, n.0 as int),
            {
                if node.child(i).0 == n.0 {
                    assert(self.is_child(p as int, i as int, n.0 as int));
                    assert forall|q: int, j: int| self.is_child(q, j, n.0 as int) implies q == p && j
                        == i by {
                        assert(self.control_graph()[q][j] == self.control_graph()[p as int][i as int]);
                    }
                    return Some((ControlIdx(p), i));
                }
            }
        }
        None
    }

    /// The node that is to run once a node is finished.
    pub fn successor(&self, n: ControlIdx) -> (next: Option<ControlIdx>)
        requires
            acyclic(self.control_graph()),
            self.control_is_forest(),
            n.0 < self.primary.control@.len(),
        ensures
            next == self.next_node(n.0 as int),
        decreases self.primary.control@.len() - rank_of(self.control_graph(), n.0 as int),
    {
        match self.find_parent(n) {
            None => None,
            Some((p, i)) => {
                proof {
                    rank_drops(self.control_graph(), p.0 as int, i as int);
                    rank_bound(self.control_graph(), n.0 as int);
                }
                match self.primary.control.get(p) {
                    ControlNode::Sequence(stms) => {
                        let len: usize = stms.len();
                        if i + 1 < len {
                            Some(stms[i + 1])
                        } else {
                            self.successor(p)
                        }
                    },
                    ControlNode::If(_) => self.successor(p),
                    ControlNode::While(_) => Some(p),
                    _ => None,
                }
            },
        }
    }
}

impl ControlPoint {
    /// A control point in the same component instance.
    pub open spec fn moved(self, target: ControlIdx) -> ControlPoint {
        ControlPoint { comp: self.comp, control_node_idx: target }
    }

    /// The control point that follows this one.
    pub open spec fn next(self, ctx: Context) -> Option<ControlPoint> {
        match ctx.next_node(self.control_node_idx.0 as int) {
            Some(n) => Some(self.moved(n)),
            None => None,
        }
    }

    /// A control point in the same component instance.
    pub fn new_retain_comp(&self, target: ControlIdx) -> (point: Self)
        ensures
            point == self.moved(target),
    {
        ControlPoint { comp: self.comp, control_node_idx: target }
    }

    /// The control point that follows this one, if the program goes on.
    pub fn get_next(node: &Self, ctx: &Context) -> (next: Option<Self>)
        requires
            acyclic(ctx.control_graph()),
            ctx.control_is_forest(),
            node.control_node_idx.0 < ctx.primary.control@.len(),
        ensures
            next == node.next(*ctx),
    {
        match ctx.successor(node.control_node_idx) {
            Some(n) => Some(node.new_retain_comp(n)),
            None => None,
        }
    }

    /// Moves on to the control point that follows this one. Returns false, and
    /// does not move, if there is none.
    pub fn mutate_into_next(&mut self, ctx: &Context) -> (moved: bool)
        requires
            acyclic(ctx.control_graph()),
            ctx.control_is_forest(),
            old(self).control_node_idx.0 < ctx.primary.control@.len(),
        ensures
            match old(self).next(*ctx) {
                Some(next) => moved && *final(self) == next,
                None => !moved && *final(self) == *old(self),
            },
    {
        match Self::get_next(self, ctx) {
            Some(next) => {
                *self = next;
                true
            },
            None => false,
        }
    }
}

impl ProgramCounter {
    /// The start of the program: the root of the entry component's control, in
    /// the instance that is laid out first.
    pub fn new(ctx: &Context) -> (pc: Self)
        requires
            ctx.entry_point.0 < ctx.primary.components@.len(),
        ensures
            match ctx.primary.components@[ctx.entry_point.0 as int].control {
                Some(root) => pc@ == seq![
                    ControlPoint { comp: GlobalCellIdx(0), control_node_idx: root },
                ],
                None => pc@ == Seq::<ControlPoint>::empty(),
            },
    {
        let mut points: Vec<ControlPoint> = Vec::new();
        match ctx.primary.components.get(ctx.entry_point).control {
            Some(root) => {
                points.push(ControlPoint { comp: GlobalCellIdx(0), control_node_idx: root });
            },
            None => {},
        }
        ProgramCounter { points }
    }

    /// A program counter of the given points.
    pub fn from_points(points: Vec<ControlPoint>) -> (pc: Self)
        ensures
            pc@ == points@,
    {
        ProgramCounter { points }
    }

    /// Whether nothing is left to run.
    pub fn is_done(&self) -> (done: bool)
        ensures
            done == (self@.len() == 0),
    {
        self.points.is_empty()
    }

    /// The number of active points.
    pub fn len(&self) -> (len: usize)
        ensures
            len == self@.len(),
    {
        self.points.len()
    }

    /// An active point.
    pub fn get(&self, i: usize) -> (point: ControlPoint)
        requires
            i < self@.len(),
        ensures
            point == self@[i as int],
    {
        self.points[i]
    }

    /// Adds a point.
    pub fn insert_node(&mut self, node: ControlPoint)
        ensures
            final(self)@ == old(self)@.push(node),
    {
        self.points.push(node);
    }
}

/// The node that runs next lies in the same component.
pub proof fn successor_stays_in_component(ctx: Context, c: int, n: int)
    requires
        ctx.wf(),
        ctx.present(c),
        ctx.comp(c).definitions.control.has(n),
    ensures
        ctx.next_node(n) matches Some(next) ==> ctx.comp(c).definitions.control.has(next.0 as int),
    decreases ctx.primary.control@.len() - rank_of(ctx.control_graph(), n),
{
    assert(ctx.runnable(c));
    if let Some((p, i)) = ctx.parent_of(n) {
        assert(ctx.is_child(p, i, n));
        assert(ctx.comp(c).definitions.control.has(ctx.control_graph()[p][i] as int));
        assert(ctx.node_fits(c, p));
        rank_drops(ctx.control_graph(), p, i);
        rank_bound(ctx.control_graph(), n);
        match ctx.control(p) {
            ControlNode::Sequence(stms) => {
                if i + 1 < stms@.len() {
                    assert(ctx.control_graph()[p][i + 1] == stms@[i + 1].0);
                } else {
                    successor_stays_in_component(ctx, c, p);
                }
            },
            ControlNode::If(_) => {
                successor_stays_in_component(ctx, c, p);
            },
            _ => {},
        }
    }
}

/// Once a statement of a sequence is finished, the statement after it runs.
pub proof fn sequence_runs_in_order(ctx: Context, p: int, i: int)
    requires
        ctx.wf(),
        0 <= p < ctx.primary.control@.len(),
        ctx.control(p) matches ControlNode::Sequence(stms) && 0 <= i < stms@.len() - 1,
    ensures
        ctx.control(p) matches ControlNode::Sequence(stms) && ctx.next_node(stms@[i].0 as int)
            == Some(stms@[i + 1]),
{
    if let ControlNode::Sequence(stms) = ctx.control(p) {
        let n = stms@[i].0 as int;
        assert(ctx.control_graph()[p][i] == n);
        assert(ctx.is_child(p, i, n));
        rank_drops(ctx.control_graph(), p, i);
        only_parent(ctx, p, i, n);
    }
}

/// Once the last statement of a sequence is finished, so is the sequence.
pub proof fn sequence_ends_with_its_last(ctx: Context, p: int)
    requires
        ctx.wf(),
        0 <= p < ctx.primary.control@.len(),
        ctx.control(p) matches ControlNode::Sequence(stms) && stms@.len() > 0,
    ensures
        ctx.control(p) matches ControlNode::Sequence(stms) && ctx.next_node(
            stms@.last().0 as int,
        ) == ctx.next_node(p),
{
    if let ControlNode::Sequence(stms) = ctx.control(p) {
        let i = stms@.len() - 1;
        let n = stms@.last().0 as int;
        assert(ctx.control_graph()[p][i] == n);
        assert(ctx.is_child(p, i, n));
        rank_drops(ctx.control_graph(), p, i);
        only_parent(ctx, p, i, n);
    }
}

/// Once the body of a loop is finished, the loop decides again.
pub proof fn loop_body_returns_to_loop(ctx: Context, p: int)
    requires
        ctx.wf(),
        0 <= p < ctx.primary.control@.len(),
        ctx.control(p) is While,
    ensures
        ctx.control(p) matches ControlNode::While(w) && ctx.next_node(w.body.0 as int) == Some(
            ControlIdx(p as usize),
        ),
{
    if let ControlNode::While(w) = ctx.control(p) {
        let n = w.body.0 as int;
        assert(ctx.control_graph()[p][0] == n);
        assert(ctx.is_child(p, 0, n));
        rank_drops(ctx.control_graph(), p, 0);
        only_parent(ctx, p, 0, n);
    }
}

/// Once either branch of a conditional is finished, so is the conditional.
pub proof fn branch_ends_conditional(ctx: Context, p: int)
    requires
        ctx.wf(),
        0 <= p < ctx.primary.control@.len(),
        ctx.control(p) is If,
    ensures
        ctx.control(p) matches ControlNode::If(f) && ctx.next_node(f.tbranch.0 as int)
            == ctx.next_node(p) && ctx.next_node(f.fbranch.0 as int) == ctx.next_node(p),
{
    if let ControlNode::If(f) = ctx.control(p) {
        assert(ctx.control_graph()[p][0] == f.tbranch.0);
        assert(ctx.control_graph()[p][1] == f.fbranch.0);
        assert(ctx.is_child(p, 0, f.tbranch.0 as int));
        assert(ctx.is_child(p, 1, f.fbranch.0 as int));
        rank_drops(ctx.control_graph(), p, 0);
        rank_drops(ctx.control_graph(), p, 1);
        only_parent(ctx, p, 0, f.tbranch.0 as int);
        only_parent(ctx, p, 1, f.fbranch.0 as int);
    }
}

proof fn only_parent(ctx: Context, p: int, i: int, n: int)
    requires
        ctx.control_is_forest(),
        ctx.is_child(p, i, n),
    ensures
        ctx.parent_of(n) == Some((p, i)),
{
    assert forall|q: int, j: int| ctx.is_child(q, j, n) implies q == p && j == i by {
        assert(ctx.control_graph()[q][j] == ctx.control_graph()[p][i]);
    }
}

/// What is below no other node has nothing that follows it, and neither has an
/// arm of a parallel block.
pub proof fn roots_and_arms_have_no_successor(ctx: Context, n: int)
    requires
        ctx.wf(),
        0 <= n < ctx.primary.control@.len(),
        forall|p: int, i: int|
            0 <= p < ctx.primary.control@.len() && 0 <= i
                < ctx.primary.control@[p].children().len()
                && (#[trigger] ctx.primary.control@[p].children()[i]).0 == n
                ==> ctx.primary.control@[p] is Parallel,
    ensures
        ctx.next_node(n) is None,
{
    if let Some((p, i)) = ctx.parent_of(n) {
        assert(ctx.is_child(p, i, n));
        assert(ctx.primary.control@[p].children()[i].0 == n);
    }
}

/// Below a sequence and a parallel block are their statements, first to last,
/// below a conditional its first branch and then its second, below a loop its
/// body, and below everything else nothing.
pub proof fn statements_below_a_node(node: ControlNode)
    ensures
        match node {
            ControlNode::Sequence(stms) => node.children() == stms@,
            ControlNode::Parallel(stms) => node.children() == stms@,
            ControlNode::If(i) => node.children().len() == 2 && node.children()[0] == i.tbranch
                && node.children()[1] == i.fbranch,
            ControlNode::While(w) => node.children().len() == 1 && node.children()[0] == w.body,
            _ => node.children().len() == 0,
        },
{
}

/// Moving on never leaves the instance, and leads to the node that follows.
pub proof fn moving_on_stays_in_the_instance(point: ControlPoint, ctx: Context)
    ensures
        match (point.next(ctx), ctx.next_node(point.control_node_idx.0 as int)) {
            (Some(next), Some(n)) => next.comp == point.comp && next.control_node_idx == n,
            (None, None) => true,
            _ => false,
        },
{
}

} // verus!
