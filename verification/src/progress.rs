//! Where a step leaves the program.

use crate::behaviour::{
    done_groups_are_followed, holes_in_range, moved_points_arrive, only_active_holes_carry,
    running_groups_are_started, running_groups_stay, sweep_places,
};
use crate::context::{ControlNode, Group};
use crate::control::ControlPoint;
use crate::fabric::{Advance, Fabric};
use crate::guards::{
    lookup_finds_what_a_reference_stands_for, stands_for, truth_is_not_zero,
};
use crate::index::{ControlIdx, GlobalCellIdx, GlobalPortIdx, LocalPortOffset};
use crate::layout::CellModel;
use crate::ports::{AssignedView, AssignmentWinner, PortView};
use crate::primitive::Primitive;
use crate::values::unsigned;
use vstd::prelude::*;

verus! {

/// The statement that a control point is at.
pub open spec fn statement<P: Primitive>(fabric: Fabric<P>, point: ControlPoint) -> ControlNode {
    fabric.ctx.primary.control@[point.control_node_idx.0 as int]
}

/// The program is at a statement of an instance.
pub open spec fn at(points: Seq<ControlPoint>, comp: GlobalCellIdx, node: ControlIdx) -> bool {
    exists|k: int|
        0 <= k < points.len() && (#[trigger] points[k]).comp == comp && points[k].control_node_idx
            == node
}

/// A hole of a group, in an instance of the group's component, is this port.
pub open spec fn hole_is<P: Primitive>(
    fabric: Fabric<P>,
    hole: LocalPortOffset,
    comp: GlobalCellIdx,
    index: GlobalPortIdx,
) -> bool {
    &&& comp.0 < fabric.cells.len()
    &&& fabric.cells[comp.0 as int] matches CellModel::Component(l) && index.0
        == l.index_bases.port_base.0 + hole.0
}

/// The group that a control point is to run.
pub open spec fn enabled_group<P: Primitive>(fabric: Fabric<P>, point: ControlPoint) -> Group {
    fabric.ctx.primary.groups@[statement(fabric, point)->Enable_0.0 as int]
}

/// A control point's group has reported that it is done.
pub open spec fn has_reported<P: Primitive>(
    fabric: Fabric<P>,
    point: ControlPoint,
    ports: Seq<PortView>,
    hole: GlobalPortIdx,
) -> bool {
    &&& hole_is(fabric, enabled_group(fabric, point).done, point.comp, hole)
    &&& ports[hole.0 as int] matches Some(v) && unsigned(v.val) > 0
}

/// A control point's group has not reported that it is done.
pub open spec fn still_runs<P: Primitive>(
    fabric: Fabric<P>,
    point: ControlPoint,
    ports: Seq<PortView>,
    hole: GlobalPortIdx,
) -> bool {
    &&& hole_is(fabric, enabled_group(fabric, point).done, point.comp, hole)
    &&& ports[hole.0 as int] matches Some(v) ==> unsigned(v.val) == 0
}

proof fn arrived(points: Seq<ControlPoint>, point: ControlPoint)
    requires
        points.contains(point),
    ensures
        at(points, point.comp, point.control_node_idx),
{
    let k = points.index_of(point);
    assert(points[k].comp == point.comp);
}

/// A conditional decides by the port that it names. After the step the program
/// is at the first branch, in the same instance, if the port carries a number
/// other than zero, and at the second if it carries zero.
pub proof fn conditionals_take_the_branch_of_their_condition<P: Primitive>(
    fabric: Fabric<P>,
    points: Seq<ControlPoint>,
    ports: Seq<PortView>,
    k: int,
    cond: GlobalPortIdx,
)
    requires
        0 <= k < points.len(),
        fabric.ref_ports.len() <= usize::MAX,
        statement(fabric, points[k]) matches ControlNode::If(i) && stands_for(
            fabric,
            i.cond_port,
            points[k].comp,
            cond,
        ),
        ports[cond.0 as int] is Some,
    ensures
        statement(fabric, points[k]) matches ControlNode::If(i) && at(
            fabric.step(points, ports).points,
            points[k].comp,
            if unsigned(ports[cond.0 as int]->0.val) > 0 {
                i.tbranch
            } else {
                i.fbranch
            },
        ),
{
    if let ControlNode::If(i) = statement(fabric, points[k]) {
        lookup_finds_what_a_reference_stands_for(fabric, i.cond_port, points[k].comp, cond);
        truth_is_not_zero(ports[cond.0 as int]);
        moved_points_arrive(fabric, points, ports, k);
        arrived(
            fabric.step(points, ports).points,
            fabric.advance(points[k], ports)->Move_0,
        );
    }
}

/// A loop decides by the port that it names. After the step the program is at
/// the body, in the same instance, if the port carries a number other than
/// zero, and at what follows the loop, if anything does, if it carries zero.
pub proof fn loops_go_on_while_their_condition_holds<P: Primitive>(
    fabric: Fabric<P>,
    points: Seq<ControlPoint>,
    ports: Seq<PortView>,
    k: int,
    cond: GlobalPortIdx,
)
    requires
        0 <= k < points.len(),
        fabric.ref_ports.len() <= usize::MAX,
        statement(fabric, points[k]) matches ControlNode::While(w) && stands_for(
            fabric,
            w.cond_port,
            points[k].comp,
            cond,
        ),
        ports[cond.0 as int] is Some,
    ensures
        ({
            let after = fabric.step(points, ports).points;
            let high = unsigned(ports[cond.0 as int]->0.val) > 0;
            &&& high ==> (statement(fabric, points[k]) matches ControlNode::While(w) && at(
                after,
                points[k].comp,
                w.body,
            ))
            &&& !high ==> (fabric.ctx.next_node(points[k].control_node_idx.0 as int) matches Some(
                next,
            ) ==> at(after, points[k].comp, next))
        }),
{
    if let ControlNode::While(w) = statement(fabric, points[k]) {
        lookup_finds_what_a_reference_stands_for(fabric, w.cond_port, points[k].comp, cond);
        truth_is_not_zero(ports[cond.0 as int]);
        moved_points_arrive(fabric, points, ports, k);
        if let Advance::Move(next) = fabric.advance(points[k], ports) {
            arrived(fabric.step(points, ports).points, next);
        }
    }
}

/// A sequence is entered at its first statement. What has no statements to run
/// is passed: the program is then at what follows, if anything does.
pub proof fn sequences_are_entered_and_nothing_is_passed<P: Primitive>(
    fabric: Fabric<P>,
    points: Seq<ControlPoint>,
    ports: Seq<PortView>,
    k: int,
)
    requires
        0 <= k < points.len(),
    ensures
        ({
            let after = fabric.step(points, ports).points;
            let comp = points[k].comp;
            let follows = fabric.ctx.next_node(points[k].control_node_idx.0 as int);
            match statement(fabric, points[k]) {
                ControlNode::Sequence(stms) => if stms@.len() > 0 {
                    at(after, comp, stms@[0])
                } else {
                    follows matches Some(next) ==> at(after, comp, next)
                },
                ControlNode::Empty => follows matches Some(next) ==> at(after, comp, next),
                _ => true,
            }
        }),
{
    moved_points_arrive(fabric, points, ports, k);
    if let Advance::Move(next) = fabric.advance(points[k], ports) {
        arrived(fabric.step(points, ports).points, next);
    }
}

/// A group runs until it reports that it is done. As long as its done hole
/// carries nothing or zero, the program stays at the statement that enables it.
/// Once the hole is high, a step that succeeds leads to what follows, if
/// anything does.
pub proof fn groups_run_until_they_report<P: Primitive>(
    fabric: Fabric<P>,
    points: Seq<ControlPoint>,
    ports: Seq<PortView>,
    k: int,
    hole: GlobalPortIdx,
)
    requires
        0 <= k < points.len(),
        statement(fabric, points[k]) is Enable,
        hole_is(fabric, enabled_group(fabric, points[k]).done, points[k].comp, hole),
    ensures
        ({
            let after = fabric.step(points, ports);
            let point = points[k];
            &&& still_runs(fabric, point, ports, hole) ==> at(
                after.points,
                point.comp,
                point.control_node_idx,
            )
            &&& has_reported(fabric, point, ports, hole) && after.error is None ==> (
            fabric.ctx.next_node(point.control_node_idx.0 as int) matches Some(next) ==> at(
                after.points,
                point.comp,
                next,
            ))
        }),
{
    let point = points[k];
    truth_is_not_zero(ports[hole.0 as int]);
    assert(fabric.done_port(point) == hole);
    if still_runs(fabric, point, ports, hole) {
        running_groups_stay(fabric, points, ports, k);
        arrived(fabric.step(points, ports).points, point);
    } else if fabric.step(points, ports).error is None {
        done_groups_are_followed(fabric, points, ports, k);
        if let Some(next) = point.next(fabric.ctx) {
            arrived(fabric.step(points, ports).points, next);
        }
    }
}

/// A program that is at one statement is, after a step that succeeds, at one
/// statement or at its end: where the statement leads and nowhere else.
pub proof fn one_statement_leads_to_one<P: Primitive>(
    fabric: Fabric<P>,
    point: ControlPoint,
    ports: Seq<PortView>,
    index: GlobalPortIdx,
)
    requires
        fabric.ref_ports.len() <= usize::MAX,
        fabric.step(seq![point], ports).error is None,
        match statement(fabric, point) {
            ControlNode::If(i) => stands_for(fabric, i.cond_port, point.comp, index)
                && ports[index.0 as int] is Some,
            ControlNode::While(w) => stands_for(fabric, w.cond_port, point.comp, index)
                && ports[index.0 as int] is Some,
            ControlNode::Enable(_) => hole_is(
                fabric,
                enabled_group(fabric, point).done,
                point.comp,
                index,
            ),
            ControlNode::Sequence(_) => true,
            ControlNode::Empty => true,
            _ => false,
        },
    ensures
        ({
            let after = fabric.step(seq![point], ports).points;
            let high = ports[index.0 as int] matches Some(v) && unsigned(v.val) > 0;
            let onwards = match fabric.ctx.next_node(point.control_node_idx.0 as int) {
                Some(next) => seq![ControlPoint { comp: point.comp, control_node_idx: next }],
                None => Seq::empty(),
            };
            match statement(fabric, point) {
                ControlNode::If(i) => after == seq![
                    ControlPoint {
                        comp: point.comp,
                        control_node_idx: if high {
                            i.tbranch
                        } else {
                            i.fbranch
                        },
                    },
                ],
                ControlNode::While(w) => if high {
                    after == seq![ControlPoint { comp: point.comp, control_node_idx: w.body }]
                } else {
                    after == onwards
                },
                ControlNode::Enable(_) => if high {
                    after == onwards
                } else {
                    after == seq![point]
                },
                ControlNode::Sequence(stms) => if stms@.len() > 0 {
                    after == seq![ControlPoint { comp: point.comp, control_node_idx: stms@[0] }]
                } else {
                    after == onwards
                },
                _ => after == onwards,
            }
        }),
{
    let points = seq![point];
    reveal_with_fuel(Fabric::sweep, 2);
    reveal_with_fuel(Fabric::followers, 2);
    truth_is_not_zero(ports[index.0 as int]);
    match statement(fabric, point) {
        ControlNode::If(i) => {
            lookup_finds_what_a_reference_stands_for(fabric, i.cond_port, point.comp, index);
        },
        ControlNode::While(w) => {
            lookup_finds_what_a_reference_stands_for(fabric, w.cond_port, point.comp, index);
        },
        ControlNode::Enable(_) => {
            assert(fabric.done_port(point) == index);
        },
        _ => {},
    }
    let sweep = fabric.sweep(points, ports, 1);
    let after = fabric.step(points, ports).points;
    assert(points[0] == point);
    assert(after =~= sweep.kept + fabric.followers(sweep.done, sweep.done.len() as int));
    match fabric.advance(point, ports) {
        Advance::Move(next) => {
            assert(after =~= seq![next]);
        },
        Advance::End => {
            assert(after =~= Seq::empty());
        },
        Advance::Leaf => {
            assert(after =~= seq![point]);
        },
        Advance::Done(val) => {
            assert(sweep.done =~= seq![(point, val)]);
            if let Some(next) = point.next(fabric.ctx) {
                assert(after =~= seq![next]);
            } else {
                assert(after =~= Seq::empty());
            }
        },
    }
}

/// What becomes of some control points does not depend on what others there
/// are: the points that stay, those whose groups run and those whose groups are
/// done are, for two lists put end to end, those of the one followed by those
/// of the other.
pub proof fn control_points_move_independently<P: Primitive>(
    fabric: Fabric<P>,
    a: Seq<ControlPoint>,
    b: Seq<ControlPoint>,
    ports: Seq<PortView>,
)
    ensures
        ({
            let first = fabric.sweep(a, ports, a.len() as int);
            let second = fabric.sweep(b, ports, b.len() as int);
            let both = fabric.sweep(a + b, ports, (a + b).len() as int);
            &&& both.kept == first.kept + second.kept
            &&& both.leaves == first.leaves + second.leaves
            &&& both.done == first.done + second.done
            &&& fabric.followers(both.done, both.done.len() as int) == fabric.followers(
                first.done,
                first.done.len() as int,
            ) + fabric.followers(second.done, second.done.len() as int)
        }),
    decreases b.len(),
{
    let first = fabric.sweep(a, ports, a.len() as int);
    if b.len() == 0 {
        assert(a + b =~= a);
        assert(first.kept + Seq::empty() =~= first.kept);
        assert(first.leaves + Seq::empty() =~= first.leaves);
        assert(first.done + Seq::empty() =~= first.done);
        assert(fabric.followers(first.done, first.done.len() as int) + Seq::empty()
            =~= fabric.followers(first.done, first.done.len() as int));
    } else {
        let c = b.drop_last();
        let before = fabric.sweep(c, ports, c.len() as int);
        let second = fabric.sweep(b, ports, b.len() as int);
        let shorter = fabric.sweep(a + c, ports, (a + c).len() as int);
        let both = fabric.sweep(a + b, ports, (a + b).len() as int);
        control_points_move_independently(fabric, a, c, ports);
        sweep_prefix(fabric, b, c, ports, c.len() as int);
        sweep_prefix(fabric, a + b, a + c, ports, (a + c).len() as int);
        assert((a + b)[(a + b).len() - 1] == b.last());
        assert(both.kept =~= first.kept + second.kept);
        assert(both.leaves =~= first.leaves + second.leaves);
        assert(both.done =~= first.done + second.done);
        if second.done.len() > before.done.len() {
            followers_prefix(fabric, second.done, before.done, before.done.len() as int);
            followers_prefix(fabric, both.done, shorter.done, shorter.done.len() as int);
        }
        assert(fabric.followers(both.done, both.done.len() as int) =~= fabric.followers(
            first.done,
            first.done.len() as int,
        ) + fabric.followers(second.done, second.done.len() as int));
    }
}

proof fn sweep_prefix<P: Primitive>(
    fabric: Fabric<P>,
    longer: Seq<ControlPoint>,
    shorter: Seq<ControlPoint>,
    ports: Seq<PortView>,
    n: int,
)
    requires
        n <= shorter.len() <= longer.len(),
        forall|k: int| 0 <= k < n ==> shorter[k] == longer[k],
    ensures
        fabric.sweep(longer, ports, n) == fabric.sweep(shorter, ports, n),
    decreases n,
{
    if n > 0 {
        sweep_prefix(fabric, longer, shorter, ports, n - 1);
    }
}

proof fn followers_prefix<P: Primitive>(
    fabric: Fabric<P>,
    longer: Seq<(ControlPoint, PortView)>,
    shorter: Seq<(ControlPoint, PortView)>,
    n: int,
)
    requires
        n <= shorter.len() <= longer.len(),
        forall|k: int| 0 <= k < n ==> shorter[k] == longer[k],
    ensures
        fabric.followers(longer, n) == fabric.followers(shorter, n),
    decreases n,
{
    if n > 0 {
        followers_prefix(fabric, longer, shorter, n - 1);
    }
}

/// A group is evaluated in a step exactly when the program is at a statement
/// that enables it and it has not reported that it is done. It is evaluated in
/// the instance of that statement, with the assignments that it has.
pub proof fn enabled_groups_are_evaluated<P: Primitive>(
    fabric: Fabric<P>,
    points: Seq<ControlPoint>,
    ports: Seq<PortView>,
    k: int,
    hole: GlobalPortIdx,
)
    requires
        0 <= k < points.len(),
        statement(fabric, points[k]) is Enable,
        hole_is(fabric, enabled_group(fabric, points[k]).done, points[k].comp, hole),
    ensures
        ({
            let bundle = fabric.bundle(fabric.sweep(points, ports, points.len() as int).leaves);
            still_runs(fabric, points[k], ports, hole) ==> bundle.contains(
                (points[k].comp, enabled_group(fabric, points[k]).assignments),
            )
        }),
{
    let sweep = fabric.sweep(points, ports, points.len() as int);
    truth_is_not_zero(ports[hole.0 as int]);
    assert(fabric.done_port(points[k]) == hole);
    if still_runs(fabric, points[k], ports, hole) {
        sweep_places(fabric, points, ports, points.len() as int, k);
        let m = sweep.leaves.index_of(points[k]);
        assert(fabric.bundle(sweep.leaves)[m] == (
            points[k].comp,
            enabled_group(fabric, points[k]).assignments,
        ));
    }
}

/// Nothing is evaluated in a step but groups that the program is at a statement
/// to enable and that have not reported that they are done.
pub proof fn only_enabled_groups_are_evaluated<P: Primitive>(
    fabric: Fabric<P>,
    points: Seq<ControlPoint>,
    ports: Seq<PortView>,
    m: int,
) -> (k: int)
    requires
        0 <= m < fabric.bundle(
            fabric.sweep(points, ports, points.len() as int).leaves,
        ).len(),
    ensures
        0 <= k < points.len(),
        statement(fabric, points[k]) is Enable,
        fabric.bundle(fabric.sweep(points, ports, points.len() as int).leaves)[m] == (
            points[k].comp,
            enabled_group(fabric, points[k]).assignments,
        ),
        forall|hole: GlobalPortIdx|
            #[trigger] hole_is(
                fabric,
                enabled_group(fabric, points[k]).done,
                points[k].comp,
                hole,
            ) ==> still_runs(fabric, points[k], ports, hole),
{
    let k = leaf_origin(fabric, points, ports, points.len() as int, m);
    assert forall|hole: GlobalPortIdx|
        #[trigger] hole_is(
            fabric,
            enabled_group(fabric, points[k]).done,
            points[k].comp,
            hole,
        ) implies still_runs(fabric, points[k], ports, hole) by {
        truth_is_not_zero(ports[hole.0 as int]);
        assert(fabric.done_port(points[k]) == hole);
    }
    k
}

proof fn leaf_origin<P: Primitive>(
    fabric: Fabric<P>,
    points: Seq<ControlPoint>,
    ports: Seq<PortView>,
    n: int,
    m: int,
) -> (k: int)
    requires
        0 <= n <= points.len(),
        0 <= m < fabric.sweep(points, ports, n).leaves.len(),
    ensures
        0 <= k < n,
        fabric.sweep(points, ports, n).leaves[m] == points[k],
        fabric.advance(points[k], ports) is Leaf,
    decreases n,
{
    if m < fabric.sweep(points, ports, n - 1).leaves.len() {
        leaf_origin(fabric, points, ports, n - 1, m)
    } else {
        n - 1
    }
}

/// Every statement that the program is at after a step is one that it was led
/// to: it was there before and its group still runs, or it is the first
/// statement of a sequence, a branch, a body, or what follows a statement that
/// it was at. No instance is ever left for another.
pub proof fn steps_lead_only_where_statements_lead<P: Primitive>(
    fabric: Fabric<P>,
    points: Seq<ControlPoint>,
    ports: Seq<PortView>,
    m: int,
) -> (k: int)
    requires
        0 <= m < fabric.step(points, ports).points.len(),
    ensures
        0 <= k < points.len(),
        ({
            let next = fabric.step(points, ports).points[m];
            let target = next.control_node_idx;
            &&& next.comp == points[k].comp
            &&& {
                ||| fabric.ctx.next_node(points[k].control_node_idx.0 as int) == Some(target)
                ||| match statement(fabric, points[k]) {
                    ControlNode::Sequence(stms) => stms@.len() > 0 && target == stms@[0],
                    ControlNode::If(i) => target == i.tbranch || target == i.fbranch,
                    ControlNode::While(w) => target == w.body,
                    ControlNode::Enable(_) => target == points[k].control_node_idx,
                    _ => false,
                }
            }
        }),
{
    let n = points.len() as int;
    let sweep = fabric.sweep(points, ports, n);
    if m < sweep.kept.len() {
        kept_origin(fabric, points, ports, n, m)
    } else {
        let j = follower_origin(fabric, sweep.done, sweep.done.len() as int, m - sweep.kept.len());
        done_origin(fabric, points, ports, n, j)
    }
}

proof fn kept_origin<P: Primitive>(
    fabric: Fabric<P>,
    points: Seq<ControlPoint>,
    ports: Seq<PortView>,
    n: int,
    m: int,
) -> (k: int)
    requires
        0 <= n <= points.len(),
        0 <= m < fabric.sweep(points, ports, n).kept.len(),
    ensures
        0 <= k < n,
        match fabric.advance(points[k], ports) {
            Advance::Move(next) => fabric.sweep(points, ports, n).kept[m] == next,
            Advance::Leaf => fabric.sweep(points, ports, n).kept[m] == points[k],
            _ => false,
        },
    decreases n,
{
    if m < fabric.sweep(points, ports, n - 1).kept.len() {
        kept_origin(fabric, points, ports, n - 1, m)
    } else {
        n - 1
    }
}

proof fn done_origin<P: Primitive>(
    fabric: Fabric<P>,
    points: Seq<ControlPoint>,
    ports: Seq<PortView>,
    n: int,
    m: int,
) -> (k: int)
    requires
        0 <= n <= points.len(),
        0 <= m < fabric.sweep(points, ports, n).done.len(),
    ensures
        0 <= k < n,
        fabric.sweep(points, ports, n).done[m].0 == points[k],
        fabric.advance(points[k], ports) is Done,
    decreases n,
{
    if m < fabric.sweep(points, ports, n - 1).done.len() {
        done_origin(fabric, points, ports, n - 1, m)
    } else {
        n - 1
    }
}

proof fn follower_origin<P: Primitive>(
    fabric: Fabric<P>,
    done: Seq<(ControlPoint, PortView)>,
    n: int,
    m: int,
) -> (k: int)
    requires
        0 <= n <= done.len(),
        0 <= m < fabric.followers(done, n).len(),
    ensures
        0 <= k < n,
        done[k].0.next(fabric.ctx) == Some(fabric.followers(done, n)[m]),
    decreases n,
{
    if m < fabric.followers(done, n - 1).len() {
        follower_origin(fabric, done, n - 1, m)
    } else {
        n - 1
    }
}

/// A step moves the control points, evaluates the groups that they run, and
/// then lets a clock edge pass. Where evaluation fails, its error is the step's,
/// no cell has changed, and the ports are as evaluation left them. Where the
/// edge fails, its error is the step's, and cells and ports are as the edge left
/// them. A step that succeeds leaves cells and ports as the edge did.
pub proof fn steps_evaluate_and_then_clock<P: Primitive>(
    fabric: Fabric<P>,
    points: Seq<ControlPoint>,
    ports: Seq<PortView>,
)
    ensures
        ({
            let sweep = fabric.sweep(points, ports, points.len() as int);
            let evaluated = fabric.settled(
                fabric.bundle(sweep.leaves),
                fabric.prepared(sweep, ports),
            );
            let edge = fabric.tick(fabric.cells.len() as int, evaluated.ports);
            let after = fabric.step(points, ports);
            match (evaluated.error, edge.error) {
                (Some(e), _) => after.error == Some(e) && after.cells == fabric.cells
                    && after.ports == evaluated.ports && after.points == sweep.kept,
                (None, Some(e)) => after.error == Some(e) && after.cells == edge.cells
                    && after.ports == edge.ports && after.points == sweep.kept,
                (None, None) => after.error is None && after.cells == edge.cells && after.ports
                    == edge.ports,
            }
        }),
{
}

/// When evaluation begins, the go hole of every group that is to run carries one
/// set bit, put there by the control program.
pub proof fn groups_that_run_are_started<P: Primitive>(
    fabric: Fabric<P>,
    points: Seq<ControlPoint>,
    ports: Seq<PortView>,
    k: int,
    done: GlobalPortIdx,
    go: GlobalPortIdx,
)
    requires
        0 <= k < points.len(),
        statement(fabric, points[k]) is Enable,
        still_runs(fabric, points[k], ports, done),
        hole_is(fabric, enabled_group(fabric, points[k]).go, points[k].comp, go),
        holes_in_range(fabric, fabric.sweep(points, ports, points.len() as int), ports.len()),
    ensures
        fabric.prepared(
            fabric.sweep(points, ports, points.len() as int),
            ports,
        )[go.0 as int] == Some(
            AssignedView { val: seq![true], winner: AssignmentWinner::Implicit },
        ),
{
    truth_is_not_zero(ports[done.0 as int]);
    assert(fabric.done_port(points[k]) == done);
    assert(fabric.go_port(points[k]) == go);
    running_groups_are_started(fabric, points, ports, k);
}

/// When evaluation begins, a port carries nothing unless it is a hole of a group
/// that the program is at a statement to enable.
pub proof fn everything_else_is_undefined<P: Primitive>(
    fabric: Fabric<P>,
    points: Seq<ControlPoint>,
    ports: Seq<PortView>,
    port: GlobalPortIdx,
)
    requires
        port.0 < ports.len(),
        holes_in_range(fabric, fabric.sweep(points, ports, points.len() as int), ports.len()),
        forall|k: int|
            0 <= k < points.len() && statement(fabric, #[trigger] points[k]) is Enable
                ==> has_holes(fabric, points[k]) && !hole_is(
                fabric,
                enabled_group(fabric, points[k]).go,
                points[k].comp,
                port,
            ) && !hole_is(fabric, enabled_group(fabric, points[k]).done, points[k].comp, port),
    ensures
        fabric.prepared(
            fabric.sweep(points, ports, points.len() as int),
            ports,
        )[port.0 as int] is None,
{
    let n = points.len() as int;
    let sweep = fabric.sweep(points, ports, n);
    assert forall|m: int| 0 <= m < sweep.leaves.len() implies fabric.go_port(
        #[trigger] sweep.leaves[m],
    ).0 != port.0 by {
        let k = leaf_origin(fabric, points, ports, n, m);
        assert(has_holes(fabric, points[k]));
    }
    assert forall|m: int| 0 <= m < sweep.done.len() implies fabric.go_port(
        (#[trigger] sweep.done[m]).0,
    ).0 != port.0 && fabric.done_port(sweep.done[m].0).0 != port.0 by {
        let k = done_origin(fabric, points, ports, n, m);
        assert(has_holes(fabric, points[k]));
    }
    only_active_holes_carry(fabric, sweep, ports, port.0 as int);
}

/// The holes of the group that a control point is to run are ports of its
/// instance.
pub open spec fn has_holes<P: Primitive>(fabric: Fabric<P>, point: ControlPoint) -> bool {
    &&& point.comp.0 < fabric.cells.len()
    &&& fabric.cells[point.comp.0 as int] matches CellModel::Component(l)
        && l.index_bases.port_base.0 + enabled_group(fabric, point).go.0 <= usize::MAX
        && l.index_bases.port_base.0 + enabled_group(fabric, point).done.0 <= usize::MAX
}

/// A sequence, an empty statement and the enabling of a group can always take
/// part in a step. A parallel block and a call never can. A conditional and a
/// loop can if they have no group for their condition and the port that they
/// decide on is there and carries something.
pub proof fn statements_that_can_take_part<P: Primitive>(
    fabric: Fabric<P>,
    point: ControlPoint,
    ports: Seq<PortView>,
    cond: GlobalPortIdx,
)
    requires
        fabric.ref_ports.len() <= usize::MAX,
        match statement(fabric, point) {
            ControlNode::If(i) => stands_for(fabric, i.cond_port, point.comp, cond)
                && fabric.ctx.ref_fits(
                fabric.ledger(point.comp).comp_id.0 as int,
                i.cond_port,
            ),
            ControlNode::While(w) => stands_for(fabric, w.cond_port, point.comp, cond)
                && fabric.ctx.ref_fits(
                fabric.ledger(point.comp).comp_id.0 as int,
                w.cond_port,
            ),
            _ => true,
        },
    ensures
        fabric.point_ready(point, ports) <==> match statement(fabric, point) {
            ControlNode::Sequence(_) => true,
            ControlNode::Empty => true,
            ControlNode::Enable(_) => true,
            ControlNode::Parallel(_) => false,
            ControlNode::Invoke => false,
            ControlNode::If(i) => i.cond_group is None && ports[cond.0 as int] is Some,
            ControlNode::While(w) => w.cond_group is None && ports[cond.0 as int] is Some,
        },
{
    match statement(fabric, point) {
        ControlNode::If(i) => {
            lookup_finds_what_a_reference_stands_for(fabric, i.cond_port, point.comp, cond);
        },
        ControlNode::While(w) => {
            lookup_finds_what_a_reference_stands_for(fabric, w.cond_port, point.comp, cond);
        },
        _ => {},
    }
}

} // verus!
