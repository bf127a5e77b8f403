//! What one step of a design means, told as functions on what its ports carry.

use crate::context::{Context, ControlNode, Guard, PortComp};
use crate::control::ControlPoint;
use crate::graph::{acyclic, rank_of};
use crate::index::{
    AssignmentIdx, GlobalCellIdx, GlobalPortIdx, GlobalPortRef, GroupIdx, LocalPortOffset, PortRef,
};
use crate::indexed_map::IndexRange;
use crate::layout::{CellModel, ComponentLedger};
use crate::ports::{
    AssignedView, AssignmentWinner, Effect, ErrorView, PortView, UpdateStatus, implicit_high,
    insertion, truth,
};
use crate::primitive::Primitive;
use crate::values::less;
use vstd::prelude::*;

verus! {

/// Everything that decides a step besides what the ports carry and where the
/// program is.
pub struct Fabric<P: Primitive> {
    pub ctx: Context,
    pub cells: Seq<CellModel<P>>,
    pub ref_ports: Seq<Option<GlobalPortIdx>>,
}

/// What ports carry after some work, and the error that ended it, if any.
pub struct Run {
    pub ports: Seq<PortView>,
    pub error: Option<ErrorView>,
}

/// What cells hold and ports carry after a clock edge, and the error that ended
/// it, if any.
pub struct Tick<P: Primitive> {
    pub cells: Seq<CellModel<P>>,
    pub ports: Seq<PortView>,
    pub error: Option<ErrorView>,
}

/// Assignments that are active in component instances.
pub type Bundle = Seq<(GlobalCellIdx, IndexRange<AssignmentIdx>)>;

/// What is known of evaluation after some rounds.
#[derive(Clone, Copy, Debug, PartialEq, Eq, Structural)]
pub enum Trial {
    /// It has come to an end.
    Settles,
    /// A ref port that stands for nothing is looked up.
    Unbound,
    /// Neither has happened yet.
    Unsettled,
}

/// What becomes of a control point when a step begins.
pub enum Advance {
    /// It moves without anything being run.
    Move(ControlPoint),
    /// It ends without anything being run.
    End,
    /// Its group runs in this step.
    Leaf,
    /// Its group is done, and reported so with this value.
    Done(PortView),
}

/// What becomes of all control points when a step begins.
pub struct Sweep {
    /// The points that stay active.
    pub kept: Seq<ControlPoint>,
    /// The points whose groups run in this step.
    pub leaves: Seq<ControlPoint>,
    /// The points whose groups are done, with the values that reported it.
    pub done: Seq<(ControlPoint, PortView)>,
}

/// Whether a comparison holds. Values of different widths are different, and
/// neither is above or below the other.
pub open spec fn compares(op: PortComp, a: Seq<bool>, b: Seq<bool>) -> bool {
    match op {
        PortComp::Eq => a == b,
        PortComp::Neq => a != b,
        PortComp::Gt => less(b, a),
        PortComp::Lt => less(a, b),
        PortComp::Geq => less(b, a) || a == b,
        PortComp::Leq => less(a, b) || a == b,
    }
}

/// The result of a series of attempts: the first error, or whether any of them,
/// or what was there before them, changed something.
pub open spec fn folded(start: UpdateStatus, results: Seq<Result<UpdateStatus, ErrorView>>) -> Result<
    UpdateStatus,
    ErrorView,
>
    decreases results.len(),
{
    if results.len() == 0 {
        Ok(start)
    } else {
        match folded(start, results.drop_last()) {
            Err(e) => Err(e),
            Ok(status) => match results.last() {
                Err(e) => Err(e),
                Ok(more) => Ok(status.merged(more)),
            },
        }
    }
}

// Ports and guards.
impl<P: Primitive> Fabric<P> {
    /// The instance that a cell is.
    pub open spec fn ledger(self, comp: GlobalCellIdx) -> ComponentLedger {
        self.cells[comp.0 as int]->Component_0
    }

    /// The cell is an instance.
    pub open spec fn is_instance(self, comp: GlobalCellIdx) -> bool {
        comp.0 < self.cells.len() && self.cells[comp.0 as int] is Component
    }

    /// A port reference in an instance leads to a port: a ref port has to stand
    /// for one.
    pub open spec fn usable(self, port: PortRef, comp: GlobalCellIdx) -> bool {
        &&& self.ctx.ref_fits(self.ledger(comp).comp_id.0 as int, port)
        &&& self.ledger(comp).index_bases.global(port) matches GlobalPortRef::Ref(r)
            ==> self.ref_ports[r.0 as int] is Some
    }

    /// The port that a reference in an instance leads to.
    pub open spec fn resolve(self, port: PortRef, comp: GlobalCellIdx) -> GlobalPortIdx {
        match self.ledger(comp).index_bases.global(port) {
            GlobalPortRef::Port(p) => p,
            GlobalPortRef::Ref(r) => self.ref_ports[r.0 as int]->0,
        }
    }

    /// The port at a place of an instance.
    pub open spec fn local(self, offset: LocalPortOffset, comp: GlobalCellIdx) -> GlobalPortIdx {
        GlobalPortIdx((self.ledger(comp).index_bases.port_base.0 + offset.0) as usize)
    }

    /// The value of a guard in an instance. It has none while a port that
    /// matters carries nothing; a compound guard has one only if its parts do.
    pub open spec fn guard_value(
        self,
        g: int,
        comp: GlobalCellIdx,
        ports: Seq<PortView>,
    ) -> Option<bool>
        decreases rank_of(self.ctx.guard_graph(), g),
        when acyclic(self.ctx.guard_graph()) && 0 <= g < self.ctx.primary.guards@.len()
        via Self::guard_value_decreases
    {
        match self.ctx.guard(g) {
            Guard::True => Some(true),
            Guard::Or(a, b) => match (
                self.guard_value(a.0 as int, comp, ports),
                self.guard_value(b.0 as int, comp, ports),
            ) {
                (Some(x), Some(y)) => Some(x || y),
                _ => None,
            },
            Guard::And(a, b) => match (
                self.guard_value(a.0 as int, comp, ports),
                self.guard_value(b.0 as int, comp, ports),
            ) {
                (Some(x), Some(y)) => Some(x && y),
                _ => None,
            },
            Guard::Not(a) => match self.guard_value(a.0 as int, comp, ports) {
                Some(x) => Some(!x),
                None => None,
            },
            Guard::Comp(op, a, b) => match (
                ports[self.resolve(a, comp).0 as int],
                ports[self.resolve(b, comp).0 as int],
            ) {
                (Some(x), Some(y)) => Some(compares(op, x.val, y.val)),
                _ => None,
            },
            Guard::Port(p) => truth(ports[self.resolve(p, comp).0 as int]),
        }
    }

    #[via_fn]
    proof fn guard_value_decreases(self, g: int, comp: GlobalCellIdx, ports: Seq<PortView>) {
        self.ctx.guard_rank_drops(g);
    }
}

// Combinational evaluation.
impl<P: Primitive> Fabric<P> {
    /// What an assignment does. It does nothing unless its guard holds. It
    /// fails if it would leave undefined a port that carries a value.
    pub open spec fn assign(self, a: int, comp: GlobalCellIdx, ports: Seq<PortView>) -> Run {
        let assignment = self.ctx.assignment(a);
        let dest = self.resolve(assignment.dst, comp);
        if self.guard_value(assignment.guard.0 as int, comp, ports) == Some(true) {
            match ports[self.resolve(assignment.src, comp).0 as int] {
                Some(v) => {
                    let effect = insertion(
                        ports,
                        dest.0 as int,
                        AssignedView {
                            val: v.val,
                            winner: AssignmentWinner::Assign(AssignmentIdx(a as usize)),
                        },
                    );
                    Run {
                        ports: effect.ports,
                        error: match effect.result {
                            Ok(_) => None,
                            Err(e) => Some(e),
                        },
                    }
                },
                None => Run {
                    ports,
                    error: if ports[dest.0 as int] is Some {
                        Some(ErrorView::UndefiningDefinedPort(dest))
                    } else {
                        None
                    },
                },
            }
        } else {
            Run { ports, error: None }
        }
    }

    /// What the `n` assignments from `start` on do, in order, up to the first
    /// error.
    pub open spec fn assign_range(
        self,
        start: int,
        n: int,
        comp: GlobalCellIdx,
        ports: Seq<PortView>,
    ) -> Run
        decreases n,
    {
        if n <= 0 {
            Run { ports, error: None }
        } else {
            let before = self.assign_range(start, n - 1, comp, ports);
            if before.error is Some {
                before
            } else {
                self.assign(start + n - 1, comp, before.ports)
            }
        }
    }

    /// What the first `n` parts of a bundle of assignments do, in order, up to
    /// the first error.
    pub open spec fn assign_bundle(self, bundle: Bundle, n: int, ports: Seq<PortView>) -> Run
        decreases n,
    {
        if n <= 0 {
            Run { ports, error: None }
        } else {
            let before = self.assign_bundle(bundle, n - 1, ports);
            if before.error is Some {
                before
            } else {
                let (comp, range) = bundle[n - 1];
                self.assign_range(range.start.0 as int, range.len() as int, comp, before.ports)
            }
        }
    }

    /// What evaluating the primitives among the first `n` cells does, in order,
    /// up to the first error.
    pub open spec fn comb_cells(self, n: int, ports: Seq<PortView>) -> Effect
        decreases n,
    {
        if n <= 0 {
            Effect { ports, result: Ok(UpdateStatus::Unchanged) }
        } else {
            let before = self.comb_cells(n - 1, ports);
            match before.result {
                Err(_) => before,
                Ok(status) => match self.cells[n - 1] {
                    CellModel::Component(_) => before,
                    CellModel::Primitive(s) => {
                        let effect = P::comb(s, before.ports);
                        Effect {
                            ports: effect.ports,
                            result: match effect.result {
                                Err(e) => Err(e),
                                Ok(more) => Ok(status.merged(more)),
                            },
                        }
                    },
                },
            }
        }
    }

    /// One round of combinational evaluation: all assignments, then all
    /// primitives. It counts as a change if a primitive changed something.
    pub open spec fn round(self, bundle: Bundle, ports: Seq<PortView>) -> Effect {
        let assigned = self.assign_bundle(bundle, bundle.len() as int, ports);
        match assigned.error {
            Some(e) => Effect { ports: assigned.ports, result: Err(e) },
            None => self.comb_cells(self.cells.len() as int, assigned.ports),
        }
    }

    /// What rounds of evaluation lead to, if at most `limit` of them are needed
    /// until one fails or changes nothing.
    pub open spec fn settle_within(
        self,
        bundle: Bundle,
        ports: Seq<PortView>,
        limit: nat,
    ) -> Option<Run>
        decreases limit,
    {
        if limit == 0 {
            None
        } else {
            let effect = self.round(bundle, ports);
            match effect.result {
                Err(e) => Some(Run { ports: effect.ports, error: Some(e) }),
                Ok(UpdateStatus::Unchanged) => Some(Run { ports: effect.ports, error: None }),
                Ok(UpdateStatus::Changed) => self.settle_within(
                    bundle,
                    effect.ports,
                    (limit - 1) as nat,
                ),
            }
        }
    }

    /// Evaluation comes to an end.
    pub open spec fn settles(self, bundle: Bundle, ports: Seq<PortView>) -> bool {
        exists|limit: nat| (#[trigger] self.settle_within(bundle, ports, limit)) is Some
    }

    /// What evaluation leads to.
    pub open spec fn settled(self, bundle: Bundle, ports: Seq<PortView>) -> Run {
        self.settle_within(
            bundle,
            ports,
            choose|limit: nat| (#[trigger] self.settle_within(bundle, ports, limit)) is Some,
        )->0
    }
}

// What is read. A ref port that stands for nothing must not be.
impl<P: Primitive> Fabric<P> {
    /// Every port reference that is looked up when a guard is evaluated leads
    /// to a port. The second part of a compound guard is not looked at if the
    /// first has no value.
    pub open spec fn guard_readable(
        self,
        g: int,
        comp: GlobalCellIdx,
        ports: Seq<PortView>,
    ) -> bool
        decreases rank_of(self.ctx.guard_graph(), g),
        when acyclic(self.ctx.guard_graph()) && 0 <= g < self.ctx.primary.guards@.len()
        via Self::guard_readable_decreases
    {
        match self.ctx.guard(g) {
            Guard::True => true,
            Guard::Or(a, b) => self.guard_readable(a.0 as int, comp, ports) && (self.guard_value(
                a.0 as int,
                comp,
                ports,
            ) is Some ==> self.guard_readable(b.0 as int, comp, ports)),
            Guard::And(a, b) => self.guard_readable(a.0 as int, comp, ports) && (self.guard_value(
                a.0 as int,
                comp,
                ports,
            ) is Some ==> self.guard_readable(b.0 as int, comp, ports)),
            Guard::Not(a) => self.guard_readable(a.0 as int, comp, ports),
            Guard::Comp(_, a, b) => self.usable(a, comp) && self.usable(b, comp),
            Guard::Port(p) => self.usable(p, comp),
        }
    }

    #[via_fn]
    proof fn guard_readable_decreases(self, g: int, comp: GlobalCellIdx, ports: Seq<PortView>) {
        self.ctx.guard_rank_drops(g);
    }

    /// Every port reference that is looked up when an assignment is made leads
    /// to a port. Source and target are looked up only if the guard holds.
    pub open spec fn assign_safe(self, a: int, comp: GlobalCellIdx, ports: Seq<PortView>) -> bool {
        let assignment = self.ctx.assignment(a);
        let guard = assignment.guard.0 as int;
        &&& self.guard_readable(guard, comp, ports)
        &&& self.guard_value(guard, comp, ports) == Some(true) ==> self.usable(
            assignment.src,
            comp,
        ) && self.usable(assignment.dst, comp)
    }

    /// Every port reference that is looked up when the `n` assignments from
    /// `start` on are made leads to a port.
    pub open spec fn range_safe(
        self,
        start: int,
        n: int,
        comp: GlobalCellIdx,
        ports: Seq<PortView>,
    ) -> bool
        decreases n,
    {
        n > 0 ==> {
            let before = self.assign_range(start, n - 1, comp, ports);
            &&& self.range_safe(start, n - 1, comp, ports)
            &&& before.error is None ==> self.assign_safe(start + n - 1, comp, before.ports)
        }
    }

    /// Every port reference that is looked up when the first `n` parts of a
    /// bundle of assignments are made leads to a port.
    pub open spec fn bundle_safe(self, bundle: Bundle, n: int, ports: Seq<PortView>) -> bool
        decreases n,
    {
        n > 0 ==> {
            let before = self.assign_bundle(bundle, n - 1, ports);
            let (comp, range) = bundle[n - 1];
            &&& self.bundle_safe(bundle, n - 1, ports)
            &&& before.error is None ==> self.range_safe(
                range.start.0 as int,
                range.len() as int,
                comp,
                before.ports,
            )
        }
    }

    /// Every port reference that is looked up in the first `limit` rounds of
    /// evaluation leads to a port.
    pub open spec fn settle_safe(self, bundle: Bundle, ports: Seq<PortView>, limit: nat) -> bool
        decreases limit,
    {
        limit > 0 ==> {
            let effect = self.round(bundle, ports);
            &&& self.bundle_safe(bundle, bundle.len() as int, ports)
            &&& effect.result == Ok::<UpdateStatus, ErrorView>(UpdateStatus::Changed)
                ==> self.settle_safe(bundle, effect.ports, (limit - 1) as nat)
        }
    }

    /// Evaluation comes to an end, and every port reference that is looked up
    /// on the way leads to a port.
    pub open spec fn settles_safely(self, bundle: Bundle, ports: Seq<PortView>) -> bool {
        exists|limit: nat|
            (#[trigger] self.settle_within(bundle, ports, limit)) is Some && self.settle_safe(
                bundle,
                ports,
                limit,
            )
    }

    /// What is known of evaluation after so many rounds.
    pub open spec fn trial(self, bundle: Bundle, ports: Seq<PortView>, limit: nat) -> Trial {
        if !self.settle_safe(bundle, ports, limit) {
            Trial::Unbound
        } else if self.settle_within(bundle, ports, limit) is Some {
            Trial::Settles
        } else {
            Trial::Unsettled
        }
    }

    /// The assignments of a range are there and belong to the component of an
    /// instance.
    pub open spec fn range_there(
        self,
        range: IndexRange<AssignmentIdx>,
        comp: GlobalCellIdx,
    ) -> bool {
        &&& self.is_instance(comp)
        &&& range.len() > 0 ==> range.end.0 <= self.ctx.primary.assignments@.len()
        &&& forall|a: int|
            range.has(a) ==> #[trigger] self.ctx.assignment_fits(
                self.ledger(comp).comp_id.0 as int,
                a,
            )
    }

    /// The assignments of a bundle are there and belong to the components of
    /// their instances.
    pub open spec fn bundle_there(self, bundle: Bundle) -> bool {
        forall|k: int|
            0 <= k < bundle.len() ==> self.range_there((#[trigger] bundle[k]).1, bundle[k].0)
    }
}

// Clock edges.
impl<P: Primitive> Fabric<P> {
    /// What a clock edge does to the first `n` cells and to the ports, in
    /// order, up to the first error.
    pub open spec fn tick(self, n: int, ports: Seq<PortView>) -> Tick<P>
        decreases n,
    {
        if n <= 0 {
            Tick { cells: self.cells, ports, error: None }
        } else {
            let before = self.tick(n - 1, ports);
            if before.error is Some {
                before
            } else {
                match self.cells[n - 1] {
                    CellModel::Component(_) => before,
                    CellModel::Primitive(s) => {
                        let effect = P::cycle(s, before.ports);
                        Tick {
                            cells: before.cells.update(n - 1, CellModel::Primitive(effect.state)),
                            ports: effect.ports,
                            error: match effect.result {
                                Err(e) => Some(e),
                                Ok(_) => None,
                            },
                        }
                    },
                }
            }
        }
    }
}

// Control.
impl<P: Primitive> Fabric<P> {
    /// The node of a control point.
    pub open spec fn node(self, point: ControlPoint) -> ControlNode {
        self.ctx.control(point.control_node_idx.0 as int)
    }

    /// The group that a control point runs.
    pub open spec fn group_of(self, point: ControlPoint) -> GroupIdx {
        self.node(point)->Enable_0
    }

    /// The hole by which a control point's group is started.
    pub open spec fn go_port(self, point: ControlPoint) -> GlobalPortIdx {
        self.local(self.ctx.group(self.group_of(point).0 as int).go, point.comp)
    }

    /// The hole by which a control point's group reports that it is done.
    pub open spec fn done_port(self, point: ControlPoint) -> GlobalPortIdx {
        self.local(self.ctx.group(self.group_of(point).0 as int).done, point.comp)
    }

    /// A control point that was moved on, if the program goes on.
    pub open spec fn moved_on(self, point: ControlPoint) -> Advance {
        match point.next(self.ctx) {
            Some(next) => Advance::Move(next),
            None => Advance::End,
        }
    }

    /// What becomes of a control point when a step begins. A sequence is
    /// entered, a conditional and a loop decide, and an empty statement is
    /// passed. A group runs until its done hole is high.
    pub open spec fn advance(self, point: ControlPoint, ports: Seq<PortView>) -> Advance {
        match self.node(point) {
            ControlNode::Sequence(stms) => if stms@.len() > 0 {
                Advance::Move(point.moved(stms@[0]))
            } else {
                self.moved_on(point)
            },
            ControlNode::If(i) => {
                let high = truth(ports[self.resolve(i.cond_port, point.comp).0 as int]);
                Advance::Move(
                    point.moved(
                        if high == Some(true) {
                            i.tbranch
                        } else {
                            i.fbranch
                        },
                    ),
                )
            },
            ControlNode::While(w) => {
                let high = truth(ports[self.resolve(w.cond_port, point.comp).0 as int]);
                if high == Some(true) {
                    Advance::Move(point.moved(w.body))
                } else {
                    self.moved_on(point)
                }
            },
            ControlNode::Enable(_) => if truth(ports[self.done_port(point).0 as int]) == Some(
                true,
            ) {
                Advance::Done(ports[self.done_port(point).0 as int])
            } else {
                Advance::Leaf
            },
            _ => self.moved_on(point),
        }
    }

    /// What becomes of the first `n` control points when a step begins.
    pub open spec fn sweep(
        self,
        points: Seq<ControlPoint>,
        ports: Seq<PortView>,
        n: int,
    ) -> Sweep
        decreases n,
    {
        if n <= 0 {
            Sweep { kept: Seq::empty(), leaves: Seq::empty(), done: Seq::empty() }
        } else {
            let before = self.sweep(points, ports, n - 1);
            let point = points[n - 1];
            match self.advance(point, ports) {
                Advance::Move(next) => Sweep { kept: before.kept.push(next), ..before },
                Advance::End => before,
                Advance::Leaf => Sweep {
                    kept: before.kept.push(point),
                    leaves: before.leaves.push(point),
                    ..before
                },
                Advance::Done(val) => Sweep { done: before.done.push((point, val)), ..before },
            }
        }
    }

    /// The first `n` of the groups that are done keep reporting it and stay
    /// started.
    pub open spec fn keep_done(
        self,
        done: Seq<(ControlPoint, PortView)>,
        n: int,
        ports: Seq<PortView>,
    ) -> Seq<PortView>
        decreases n,
    {
        if n <= 0 {
            ports
        } else {
            let (point, val) = done[n - 1];
            self.keep_done(done, n - 1, ports).update(self.done_port(point).0 as int, val).update(
                self.go_port(point).0 as int,
                implicit_high(),
            )
        }
    }

    /// The first `n` of the groups that run are started.
    pub open spec fn start_leaves(
        self,
        leaves: Seq<ControlPoint>,
        n: int,
        ports: Seq<PortView>,
    ) -> Seq<PortView>
        decreases n,
    {
        if n <= 0 {
            ports
        } else {
            self.start_leaves(leaves, n - 1, ports).update(
                self.go_port(leaves[n - 1]).0 as int,
                implicit_high(),
            )
        }
    }

    /// What the ports carry when evaluation begins: nothing but the holes of
    /// the groups that are done or run.
    pub open spec fn prepared(self, sweep: Sweep, ports: Seq<PortView>) -> Seq<PortView> {
        self.start_leaves(
            sweep.leaves,
            sweep.leaves.len() as int,
            self.keep_done(
                sweep.done,
                sweep.done.len() as int,
                Seq::new(ports.len(), |i: int| None),
            ),
        )
    }

    /// The assignments of the groups that control points run.
    pub open spec fn bundle(self, points: Seq<ControlPoint>) -> Bundle {
        Seq::new(
            points.len(),
            |k: int|
                (points[k].comp, self.ctx.group(self.group_of(points[k]).0 as int).assignments),
        )
    }

    /// The control points that follow the first `n` of those that are done.
    pub open spec fn followers(self, done: Seq<(ControlPoint, PortView)>, n: int) -> Seq<
        ControlPoint,
    >
        decreases n,
    {
        if n <= 0 {
            Seq::empty()
        } else {
            match done[n - 1].0.next(self.ctx) {
                Some(next) => self.followers(done, n - 1).push(next),
                None => self.followers(done, n - 1),
            }
        }
    }
}

/// What there is after a step.
pub struct Stepped<P: Primitive> {
    pub cells: Seq<CellModel<P>>,
    pub ports: Seq<PortView>,
    pub points: Seq<ControlPoint>,
    pub error: Option<ErrorView>,
}

// Steps.
impl<P: Primitive> Fabric<P> {
    /// What a step does: control points move, the groups they run are evaluated
    /// until nothing changes, and a clock edge passes. The points whose groups
    /// were done move on once all that has succeeded.
    pub open spec fn step(self, points: Seq<ControlPoint>, ports: Seq<PortView>) -> Stepped<P> {
        let sweep = self.sweep(points, ports, points.len() as int);
        let comb = self.settled(self.bundle(sweep.leaves), self.prepared(sweep, ports));
        let tick = self.tick(self.cells.len() as int, comb.ports);
        if comb.error is Some {
            Stepped {
                cells: self.cells,
                ports: comb.ports,
                points: sweep.kept,
                error: comb.error,
            }
        } else if tick.error is Some {
            Stepped {
                cells: tick.cells,
                ports: tick.ports,
                points: sweep.kept,
                error: tick.error,
            }
        } else {
            Stepped {
                cells: tick.cells,
                ports: tick.ports,
                points: sweep.kept + self.followers(sweep.done, sweep.done.len() as int),
                error: None,
            }
        }
    }

    /// Every control point can take part in a step.
    pub open spec fn points_ready(self, points: Seq<ControlPoint>, ports: Seq<PortView>) -> bool {
        forall|k: int|
            0 <= k < points.len() ==> self.point_ready(#[trigger] points[k], ports)
    }

    /// A step can be taken: every control point can take part in it, and
    /// evaluation comes to an end without looking up a ref port that stands for
    /// nothing.
    pub open spec fn can_step(self, points: Seq<ControlPoint>, ports: Seq<PortView>) -> bool {
        let sweep = self.sweep(points, ports, points.len() as int);
        &&& self.points_ready(points, ports)
        &&& self.settles_safely(self.bundle(sweep.leaves), self.prepared(sweep, ports))
    }

    /// A condition without a group of its own, on a port that carries a value.
    pub open spec fn condition_ready(
        self,
        cond_group: Option<GroupIdx>,
        cond_port: PortRef,
        comp: GlobalCellIdx,
        ports: Seq<PortView>,
    ) -> bool {
        &&& cond_group is None
        &&& self.usable(cond_port, comp)
        &&& ports[self.resolve(cond_port, comp).0 as int] is Some
    }

    /// A control point can take part in a step: it is no parallel block and no
    /// call, and the port that it decides on carries a value.
    pub open spec fn point_ready(self, point: ControlPoint, ports: Seq<PortView>) -> bool {
        match self.node(point) {
            ControlNode::Parallel(_) => false,
            ControlNode::Invoke => false,
            ControlNode::If(i) => self.condition_ready(
                i.cond_group,
                i.cond_port,
                point.comp,
                ports,
            ),
            ControlNode::While(w) => self.condition_ready(
                w.cond_group,
                w.cond_port,
                point.comp,
                ports,
            ),
            _ => true,
        }
    }
}

// Runs.
impl<P: Primitive> Fabric<P> {
    /// The same design with its cells as they are after some steps.
    pub open spec fn after(self, stepped: Stepped<P>) -> Fabric<P> {
        Fabric { ctx: self.ctx, cells: stepped.cells, ref_ports: self.ref_ports }
    }

    /// What there is after `n` steps, or after fewer if the program is done or a
    /// step fails before.
    pub open spec fn run(
        self,
        points: Seq<ControlPoint>,
        ports: Seq<PortView>,
        n: nat,
    ) -> Stepped<P>
        decreases n,
    {
        if n == 0 {
            Stepped { cells: self.cells, ports, points, error: None }
        } else {
            let before = self.run(points, ports, (n - 1) as nat);
            if before.is_over() {
                before
            } else {
                self.after(before).step(before.points, before.ports)
            }
        }
    }

    /// A run ends after `n` steps and not before.
    pub open spec fn ends_after(
        self,
        points: Seq<ControlPoint>,
        ports: Seq<PortView>,
        n: nat,
    ) -> bool {
        &&& self.run(points, ports, n).is_over()
        &&& forall|m: nat| m < n ==> !(#[trigger] self.run(points, ports, m)).is_over()
    }

    /// A run ends, and every step of it can be taken.
    pub open spec fn can_run(self, points: Seq<ControlPoint>, ports: Seq<PortView>) -> bool {
        exists|n: nat|
            #[trigger] self.ends_after(points, ports, n) && self.can_run_for(points, ports, n)
    }

    /// Each of the first `n` steps of a run can be taken.
    pub open spec fn can_run_for(
        self,
        points: Seq<ControlPoint>,
        ports: Seq<PortView>,
        n: nat,
    ) -> bool {
        forall|m: nat|
            m < n ==> {
                let before = #[trigger] self.run(points, ports, m);
                self.after(before).can_step(before.points, before.ports)
            }
    }

    /// What there is when a run has ended.
    pub open spec fn outcome(self, points: Seq<ControlPoint>, ports: Seq<PortView>) -> Stepped<P> {
        self.run(points, ports, choose|n: nat| #[trigger] self.ends_after(points, ports, n))
    }
}

impl<P: Primitive> Stepped<P> {
    /// Nothing follows: a step has failed, or no control point is left.
    pub open spec fn is_over(self) -> bool {
        self.error is Some || self.points.len() == 0
    }
}

/// However many rounds are allowed, as long as they are enough, evaluation
/// leads to the same outcome.
pub proof fn settling_is_unique<P: Primitive>(
    fabric: Fabric<P>,
    bundle: Bundle,
    ports: Seq<PortView>,
    limit: nat,
)
    requires
        fabric.settle_within(bundle, ports, limit) is Some,
    ensures
        fabric.settles(bundle, ports),
        fabric.settle_within(bundle, ports, limit) == Some(fabric.settled(bundle, ports)),
{
    let other = choose|other: nat|
        (#[trigger] fabric.settle_within(bundle, ports, other)) is Some;
    if limit <= other {
        settling_needs_no_more(fabric, bundle, ports, limit, other);
    } else {
        settling_needs_no_more(fabric, bundle, ports, other, limit);
    }
}

proof fn settling_needs_no_more<P: Primitive>(
    fabric: Fabric<P>,
    bundle: Bundle,
    ports: Seq<PortView>,
    limit: nat,
    more: nat,
)
    requires
        fabric.settle_within(bundle, ports, limit) is Some,
        limit <= more,
    ensures
        fabric.settle_within(bundle, ports, more) == fabric.settle_within(bundle, ports, limit),
    decreases limit,
{
    let effect = fabric.round(bundle, ports);
    if effect.result == Ok::<UpdateStatus, ErrorView>(UpdateStatus::Changed) {
        settling_needs_no_more(
            fabric,
            bundle,
            effect.ports,
            (limit - 1) as nat,
            (more - 1) as nat,
        );
    }
}

/// A round that fails, or in which no primitive changes anything, is the last.
pub proof fn last_round_settles<P: Primitive>(
    fabric: Fabric<P>,
    bundle: Bundle,
    ports: Seq<PortView>,
)
    requires
        fabric.round(bundle, ports).result != Ok::<UpdateStatus, ErrorView>(UpdateStatus::Changed),
    ensures
        fabric.settles(bundle, ports),
        fabric.settled(bundle, ports).ports == fabric.round(bundle, ports).ports,
        fabric.settled(bundle, ports).error == (match fabric.round(bundle, ports).result {
            Err(e) => Some(e),
            Ok(_) => None,
        }),
{
    reveal_with_fuel(Fabric::settle_within, 2);
    assert(fabric.settle_within(bundle, ports, 1) is Some);
    settling_is_unique(fabric, bundle, ports, 1);
}

/// A round that changes something leads on to the outcome of evaluation from
/// there.
pub proof fn settling_goes_on<P: Primitive>(fabric: Fabric<P>, bundle: Bundle, ports: Seq<PortView>)
    requires
        fabric.round(bundle, ports).result == Ok::<UpdateStatus, ErrorView>(UpdateStatus::Changed),
    ensures
        fabric.settles(bundle, ports) <==> fabric.settles(bundle, fabric.round(bundle, ports).ports),
        fabric.settles(bundle, ports) ==> fabric.settled(bundle, ports) == fabric.settled(
            bundle,
            fabric.round(bundle, ports).ports,
        ),
{
    let next = fabric.round(bundle, ports).ports;
    if fabric.settles(bundle, ports) {
        let limit = choose|limit: nat|
            (#[trigger] fabric.settle_within(bundle, ports, limit)) is Some;
        assert(fabric.settle_within(bundle, next, (limit - 1) as nat) is Some);
        settling_is_unique(fabric, bundle, next, (limit - 1) as nat);
    }
    if fabric.settles(bundle, next) {
        let limit = choose|limit: nat|
            (#[trigger] fabric.settle_within(bundle, next, limit)) is Some;
        assert(fabric.settle_within(bundle, ports, limit + 1) is Some);
    }
}

/// What is looked up in fewer rounds is looked up in more.
pub proof fn safety_of_more_rounds<P: Primitive>(
    fabric: Fabric<P>,
    bundle: Bundle,
    ports: Seq<PortView>,
    limit: nat,
    more: nat,
)
    requires
        limit <= more,
        fabric.settle_safe(bundle, ports, more),
    ensures
        fabric.settle_safe(bundle, ports, limit),
    decreases limit,
{
    let effect = fabric.round(bundle, ports);
    if limit > 0 && effect.result == Ok::<UpdateStatus, ErrorView>(UpdateStatus::Changed) {
        safety_of_more_rounds(
            fabric,
            bundle,
            effect.ports,
            (limit - 1) as nat,
            (more - 1) as nat,
        );
    }
}

/// Once evaluation has come to an end, nothing more is looked up.
proof fn settled_looks_up_no_more<P: Primitive>(
    fabric: Fabric<P>,
    bundle: Bundle,
    ports: Seq<PortView>,
    limit: nat,
    more: nat,
)
    requires
        limit <= more,
        fabric.settle_within(bundle, ports, limit) is Some,
        fabric.settle_safe(bundle, ports, limit),
    ensures
        fabric.settle_safe(bundle, ports, more),
    decreases limit,
{
    let effect = fabric.round(bundle, ports);
    if effect.result == Ok::<UpdateStatus, ErrorView>(UpdateStatus::Changed) {
        settled_looks_up_no_more(
            fabric,
            bundle,
            effect.ports,
            (limit - 1) as nat,
            (more - 1) as nat,
        );
    }
}

/// What a trial of any length finds out is so: evaluation that was seen to
/// settle does, safely, and evaluation that looks up a ref port that stands for
/// nothing does not.
pub proof fn trials_are_right<P: Primitive>(
    fabric: Fabric<P>,
    bundle: Bundle,
    ports: Seq<PortView>,
    limit: nat,
)
    ensures
        fabric.trial(bundle, ports, limit) is Settles ==> fabric.settles_safely(bundle, ports),
        fabric.trial(bundle, ports, limit) is Unbound ==> !fabric.settles_safely(bundle, ports),
{
    if fabric.settles_safely(bundle, ports) {
        let other = choose|other: nat|
            (#[trigger] fabric.settle_within(bundle, ports, other)) is Some && fabric.settle_safe(
                bundle,
                ports,
                other,
            );
        if other <= limit {
            settled_looks_up_no_more(fabric, bundle, ports, other, limit);
        } else {
            safety_of_more_rounds(fabric, bundle, ports, limit, other);
        }
    }
}

/// What is looked up for fewer assignments of a range is looked up for more.
pub(crate) proof fn range_safe_prefix<P: Primitive>(
    fabric: Fabric<P>,
    start: int,
    n: int,
    m: int,
    comp: GlobalCellIdx,
    ports: Seq<PortView>,
)
    requires
        n <= m,
        fabric.range_safe(start, m, comp, ports),
    ensures
        fabric.range_safe(start, n, comp, ports),
    decreases m - n,
{
    if n < m {
        range_safe_prefix(fabric, start, n, m - 1, comp, ports);
    }
}

/// What is looked up for fewer parts of a bundle is looked up for more.
pub(crate) proof fn bundle_safe_prefix<P: Primitive>(
    fabric: Fabric<P>,
    bundle: Bundle,
    n: int,
    m: int,
    ports: Seq<PortView>,
)
    requires
        n <= m,
        fabric.bundle_safe(bundle, m, ports),
    ensures
        fabric.bundle_safe(bundle, n, ports),
    decreases m - n,
{
    if n < m {
        bundle_safe_prefix(fabric, bundle, n, m - 1, ports);
    }
}

/// Assignments that follow a failed one of a range are not looked at.
pub(crate) proof fn range_safe_once_failed<P: Primitive>(
    fabric: Fabric<P>,
    start: int,
    n: int,
    m: int,
    comp: GlobalCellIdx,
    ports: Seq<PortView>,
)
    requires
        0 <= n <= m,
        fabric.range_safe(start, n, comp, ports),
        fabric.assign_range(start, n, comp, ports).error is Some,
    ensures
        fabric.range_safe(start, m, comp, ports),
    decreases m - n,
{
    if n < m {
        range_safe_once_failed(fabric, start, n, m - 1, comp, ports);
        range_stays_failed(fabric, start, n, m - 1, comp, ports);
    }
}

/// Parts of a bundle that follow a failed one are not looked at.
pub(crate) proof fn bundle_safe_once_failed<P: Primitive>(
    fabric: Fabric<P>,
    bundle: Bundle,
    n: int,
    m: int,
    ports: Seq<PortView>,
)
    requires
        0 <= n <= m,
        fabric.bundle_safe(bundle, n, ports),
        fabric.assign_bundle(bundle, n, ports).error is Some,
    ensures
        fabric.bundle_safe(bundle, m, ports),
    decreases m - n,
{
    if n < m {
        bundle_safe_once_failed(fabric, bundle, n, m - 1, ports);
        bundle_stays_failed(fabric, bundle, n, m - 1, ports);
    }
}

/// A run ends only once.
pub proof fn runs_end_once<P: Primitive>(
    fabric: Fabric<P>,
    points: Seq<ControlPoint>,
    ports: Seq<PortView>,
    n: nat,
    m: nat,
)
    requires
        fabric.ends_after(points, ports, n),
        fabric.ends_after(points, ports, m),
    ensures
        n == m,
{
    assert(fabric.run(points, ports, n).is_over());
    assert(fabric.run(points, ports, m).is_over());
}

/// Once an evaluation of cells has failed, the cells that follow do not matter.
pub proof fn failed_evaluation_stays<P: Primitive>(
    fabric: Fabric<P>,
    n: int,
    m: int,
    ports: Seq<PortView>,
)
    requires
        0 <= n <= m,
        fabric.comb_cells(n, ports).result is Err,
    ensures
        fabric.comb_cells(m, ports) == fabric.comb_cells(n, ports),
    decreases m - n,
{
    if n < m {
        failed_evaluation_stays(fabric, n, m - 1, ports);
    }
}

/// Once an assignment of a range has failed, those that follow do not matter.
pub proof fn range_stays_failed<P: Primitive>(
    fabric: Fabric<P>,
    start: int,
    n: int,
    m: int,
    comp: GlobalCellIdx,
    ports: Seq<PortView>,
)
    requires
        0 <= n <= m,
        fabric.assign_range(start, n, comp, ports).error is Some,
    ensures
        fabric.assign_range(start, m, comp, ports) == fabric.assign_range(start, n, comp, ports),
    decreases m - n,
{
    if n < m {
        range_stays_failed(fabric, start, n, m - 1, comp, ports);
    }
}

/// Once a part of a bundle has failed, those that follow do not matter.
pub proof fn bundle_stays_failed<P: Primitive>(
    fabric: Fabric<P>,
    bundle: Bundle,
    n: int,
    m: int,
    ports: Seq<PortView>,
)
    requires
        0 <= n <= m,
        fabric.assign_bundle(bundle, n, ports).error is Some,
    ensures
        fabric.assign_bundle(bundle, m, ports) == fabric.assign_bundle(bundle, n, ports),
    decreases m - n,
{
    if n < m {
        bundle_stays_failed(fabric, bundle, n, m - 1, ports);
    }
}

/// Once a clock edge has failed in a cell, the cells that follow do not matter.
pub proof fn tick_stays_failed<P: Primitive>(fabric: Fabric<P>, n: int, m: int, ports: Seq<PortView>)
    requires
        0 <= n <= m,
        fabric.tick(n, ports).error is Some,
    ensures
        fabric.tick(m, ports) == fabric.tick(n, ports),
    decreases m - n,
{
    if n < m {
        tick_stays_failed(fabric, n, m - 1, ports);
    }
}

/// A trial finds out all that so many rounds can show: that a ref port that
/// stands for nothing is looked up in them, or else that evaluation comes to an
/// end in them, or else neither. Evaluation that settles safely within some
/// rounds is found to do so by every trial of at least as many.
pub proof fn trials_find_out<P: Primitive>(
    fabric: Fabric<P>,
    bundle: Bundle,
    ports: Seq<PortView>,
    limit: nat,
    enough: nat,
)
    ensures
        fabric.trial(bundle, ports, limit) is Unbound <==> !fabric.settle_safe(
            bundle,
            ports,
            limit,
        ),
        fabric.trial(bundle, ports, limit) is Settles <==> fabric.settle_safe(bundle, ports, limit)
            && fabric.settle_within(bundle, ports, limit) is Some,
        enough <= limit && fabric.settle_within(bundle, ports, enough) is Some
            && fabric.settle_safe(bundle, ports, enough) ==> fabric.trial(bundle, ports, limit)
            is Settles,
{
    if enough <= limit && fabric.settle_within(bundle, ports, enough) is Some
        && fabric.settle_safe(bundle, ports, enough) {
        settling_needs_no_more(fabric, bundle, ports, enough, limit);
        settled_looks_up_no_more(fabric, bundle, ports, enough, limit);
    }
}

/// A run takes one step after the other, each from where the one before it left
/// cells, ports and control points, of the same program with the same
/// references.
pub proof fn runs_repeat_steps<P: Primitive>(
    fabric: Fabric<P>,
    points: Seq<ControlPoint>,
    ports: Seq<PortView>,
    n: nat,
)
    ensures
        ({
            let before = fabric.run(points, ports, n);
            let here = Fabric {
                ctx: fabric.ctx,
                cells: before.cells,
                ref_ports: fabric.ref_ports,
            };
            before.error is None && before.points.len() > 0 ==> fabric.run(points, ports, n + 1)
                == here.step(before.points, before.ports)
        }),
{
}

} // verus!
