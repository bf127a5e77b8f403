//! What a clock edge does to the primitives of a design.

use crate::control::ControlPoint;
use crate::evaluation::{
    Course, assignments_add_no_ports, cells_course, evaluation_goes_on_until_nothing_changes,
    every_primitive_is_evaluated, rounds_course, targets_exist,
};
use crate::fabric::{Bundle, Fabric};
use crate::guards::truth_is_not_zero;
use crate::layout::CellModel;
use crate::placement::{apart, occupies, touches};
use crate::ports::{
    AssignedView, AssignmentWinner, ErrorView, PortView, UpdateStatus,
};
use crate::primitive::{Primitive, StdPrimitive, StdState};
use crate::values::unsigned;
use vstd::prelude::*;

verus! {

/// The course of a clock edge: it reaches each primitive once, in order, on what
/// the edge left on the ports at those before, and none before the last fails.
/// It passes instances by.
pub open spec fn edge_course<P: Primitive>(fabric: Fabric<P>, course: Course) -> bool {
    forall|g: int|
        0 <= g < course.len() - 1 ==> match fabric.cells[g] {
            CellModel::Primitive(s) => {
                let effect = P::cycle(s, #[trigger] course[g]);
                effect.ports == course[g + 1] && (g < course.len() - 2 ==> effect.result is Ok)
            },
            CellModel::Component(_) => course[g + 1] == course[g],
        }
}

/// A cell is what a clock edge makes of it that finds the ports as they are.
pub open spec fn clocked<P: Primitive>(
    before: CellModel<P>,
    after: CellModel<P>,
    ports: Seq<PortView>,
) -> bool {
    match before {
        CellModel::Primitive(s) => after == CellModel::<P>::Primitive(P::cycle(s, ports).state),
        CellModel::Component(_) => after == before,
    }
}

/// A clock edge reaches every primitive of a design, once and in order. After an
/// edge that succeeds, each of them is in the state that its own clock edge
/// leads to, on what the ports carried when the edge reached it, and the ports
/// carry what they did after the last. An edge that fails in a primitive stops
/// there, with that primitive's error, and leaves those behind it as they were.
pub proof fn clock_edges_reach_every_primitive<P: Primitive>(
    fabric: Fabric<P>,
    n: int,
    ports: Seq<PortView>,
) -> (course: Course)
    requires
        0 <= n <= fabric.cells.len(),
    ensures
        ({
            let tick = fabric.tick(n, ports);
            let last = course.len() - 1;
            &&& 0 <= last <= n
            &&& course[0] == ports
            &&& course[last] == tick.ports
            &&& edge_course(fabric, course)
            &&& tick.cells.len() == fabric.cells.len()
            &&& forall|g: int|
                0 <= g < last ==> clocked(
                    fabric.cells[g],
                    #[trigger] tick.cells[g],
                    course[g],
                )
            &&& forall|g: int|
                last <= g < fabric.cells.len() ==> #[trigger] tick.cells[g] == fabric.cells[g]
            &&& match tick.error {
                None => last == n && (n > 0 ==> (fabric.cells[n - 1] matches CellModel::Primitive(s)
                    ==> P::cycle(s, course[n - 1]).result is Ok)),
                Some(e) => last > 0 && (fabric.cells[last - 1] matches CellModel::Primitive(s)
                    && P::cycle(s, course[last - 1]).result == Err::<UpdateStatus, ErrorView>(e)),
            }
        }),
    decreases n,
{
    if n == 0 {
        seq![ports]
    } else {
        let before = clock_edges_reach_every_primitive(fabric, n - 1, ports);
        let earlier = fabric.tick(n - 1, ports);
        let tick = fabric.tick(n, ports);
        if earlier.error is Some {
            before
        } else {
            let course = before.push(tick.ports);
            assert forall|g: int| 0 <= g < course.len() - 1 implies match fabric.cells[g] {
                CellModel::Primitive(s) => {
                    let effect = P::cycle(s, #[trigger] course[g]);
                    effect.ports == course[g + 1] && (g < course.len() - 2 ==> effect.result is Ok)
                },
                CellModel::Component(_) => course[g + 1] == course[g],
            } by {
                assert(course[g] == before[g]);
                if g < n - 1 {
                    assert(course[g + 1] == before[g + 1]);
                }
            }
            assert forall|g: int| 0 <= g < n implies clocked(
                fabric.cells[g],
                #[trigger] tick.cells[g],
                course[g],
            ) by {
                assert(course[g] == before[g]);
                if g < n - 1 {
                    assert(tick.cells[g] == earlier.cells[g]);
                    assert(clocked(fabric.cells[g], earlier.cells[g], before[g]));
                } else {
                    assert(earlier.cells[g] == fabric.cells[g]);
                }
            }
            assert forall|g: int| n <= g < fabric.cells.len() implies #[trigger] tick.cells[g]
                == fabric.cells[g] by {
                assert(earlier.cells[g] == fabric.cells[g]);
            }
            course
        }
    }
}

/// A port carries a value that a cell put there.
pub open spec fn shows_value(ports: Seq<PortView>, port: int, value: Seq<bool>) -> bool {
    ports[port] == Some(AssignedView { val: value, winner: AssignmentWinner::Cell })
}

/// What a register makes of a clock edge that finds its inputs as they are:
/// zero after a reset, its input after a write, and what it held otherwise.
pub open spec fn register_follows(
    before: Seq<bool>,
    after: Seq<bool>,
    done: bool,
    base: int,
    ports: Seq<PortView>,
) -> bool {
    let reset = ports[base + 3] matches Some(v) && unsigned(v.val) > 0;
    let write = ports[base + 1] matches Some(v) && unsigned(v.val) > 0;
    if reset {
        after.len() == before.len() && unsigned(after) == 0 && !done
    } else if write {
        ports[base] matches Some(input) && after == input.val && done
    } else {
        after == before && !done
    }
}

proof fn zeroes_are_zero(bits: Seq<bool>)
    requires
        forall|i: int| 0 <= i < bits.len() ==> !bits[i],
    ensures
        unsigned(bits) == 0,
    decreases bits.len(),
{
    if bits.len() > 0 {
        assert forall|i: int| 0 <= i < bits.skip(1).len() implies !bits.skip(1)[i] by {
            assert(!bits[i + 1]);
        }
        zeroes_are_zero(bits.skip(1));
    }
}

/// A clock edge that passes a register without an error leaves it holding what
/// follows from its inputs, showing it on its output, and reporting on its done
/// port whether it was written.
pub proof fn registers_follow_their_inputs(
    base: int,
    value: Seq<bool>,
    done: bool,
    ports: Seq<PortView>,
)
    requires
        0 <= base,
        base + 6 <= ports.len(),
        StdPrimitive::cycle(StdState::Reg { base, value, done }, ports).result is Ok,
    ensures
        ({
            let edge = StdPrimitive::cycle(StdState::Reg { base, value, done }, ports);
            edge.state matches StdState::Reg { base: b, value: held, done: written } && b == base
                && register_follows(value, held, written, base, ports) && shows_value(
                edge.ports,
                base + 4,
                held,
            ) && shows_value(edge.ports, base + 5, seq![written])
        }),
{
    truth_is_not_zero(ports[base + 1]);
    truth_is_not_zero(ports[base + 3]);
    zeroes_are_zero(Seq::new(value.len(), |i: int| false));
}

/// A clock edge at a primitive changes no port that is not the primitive's, and
/// what it makes of the primitive depends on no other.
pub proof fn clock_edges_are_local(state: StdState, a: Seq<PortView>, b: Seq<PortView>)
    requires
        a.len() == b.len(),
        forall|p: int| #[trigger] touches(state, p) ==> 0 <= p < a.len() && a[p] == b[p],
    ensures
        StdPrimitive::cycle(state, a).state == StdPrimitive::cycle(state, b).state,
        StdPrimitive::cycle(state, a).result == StdPrimitive::cycle(state, b).result,
        StdPrimitive::cycle(state, a).ports.len() == a.len(),
        forall|p: int|
            0 <= p < a.len() && !touches(state, p) ==> #[trigger] StdPrimitive::cycle(
                state,
                a,
            ).ports[p] == a[p],
        forall|p: int|
            #[trigger] touches(state, p) ==> StdPrimitive::cycle(state, a).ports[p]
                == StdPrimitive::cycle(state, b).ports[p],
{
    if let StdState::Reg { base, value, done } = state {
        assert(touches(state, base) && touches(state, base + 1) && touches(state, base + 3)
            && touches(state, base + 4) && touches(state, base + 5));
    }
}

/// Evaluating a primitive changes no port that is not the primitive's.
pub proof fn evaluation_is_local(state: StdState, ports: Seq<PortView>)
    requires
        forall|p: int| #[trigger] touches(state, p) ==> 0 <= p < ports.len(),
    ensures
        StdPrimitive::comb(state, ports).ports.len() == ports.len(),
        forall|p: int|
            0 <= p < ports.len() && !touches(state, p) ==> #[trigger] StdPrimitive::comb(
                state,
                ports,
            ).ports[p] == ports[p],
        StdPrimitive::comb(state, ports).result is Ok ==> match state {
            StdState::Const { value, out } => shows_value(
                StdPrimitive::comb(state, ports).ports,
                out,
                value,
            ),
            StdState::Reg { base, value, done } => shows_value(
                StdPrimitive::comb(state, ports).ports,
                base + 4,
                value,
            ) && shows_value(StdPrimitive::comb(state, ports).ports, base + 5, seq![done]),
            StdState::Inert => StdPrimitive::comb(state, ports).ports == ports,
        },
{
    match state {
        StdState::Const { value, out } => {
            assert(touches(state, out));
        },
        StdState::Reg { base, value, done } => {
            assert(touches(state, base + 4) && touches(state, base + 5));
        },
        StdState::Inert => {},
    }
}

proof fn edge_leaves_port(
    fabric: Fabric<StdPrimitive>,
    course: Course,
    i: int,
    j: int,
    port: int,
)
    requires
        edge_course(fabric, course),
        0 <= i <= j < course.len() <= fabric.cells.len() + 1,
        apart(fabric.cells, course[i].len()),
        0 <= port < course[i].len(),
        forall|g: int| i <= g < j ==> !#[trigger] occupies(fabric.cells, g, port),
    ensures
        course[j].len() == course[i].len(),
        course[j][port] == course[i][port],
    decreases j - i,
{
    if i < j {
        edge_leaves_port(fabric, course, i, j - 1, port);
        let g = j - 1;
        assert(!occupies(fabric.cells, g, port));
        if let CellModel::Primitive(s) = fabric.cells[g] {
            assert forall|p: int| #[trigger] touches(s, p) implies 0 <= p < course[g].len() by {
                assert(occupies(fabric.cells, g, p));
            }
            clock_edges_are_local(s, course[g], course[g]);
            assert(course[g + 1] == StdPrimitive::cycle(s, course[g]).ports);
        } else {
            assert(course[g + 1] == course[g]);
        }
    }
}

/// After a clock edge that succeeds, every register of a design holds what
/// follows from its own inputs as they were before the edge, wherever the
/// register is and whatever the others do, and shows it on its ports.
pub proof fn every_register_follows_its_inputs(
    fabric: Fabric<StdPrimitive>,
    ports: Seq<PortView>,
    g: int,
)
    requires
        apart(fabric.cells, ports.len()),
        0 <= g < fabric.cells.len(),
        fabric.cells[g] matches CellModel::Primitive(s) && s is Reg,
        fabric.tick(fabric.cells.len() as int, ports).error is None,
    ensures
        ({
            let tick = fabric.tick(fabric.cells.len() as int, ports);
            match (fabric.cells[g], tick.cells[g]) {
                (
                    CellModel::Primitive(StdState::Reg { base, value, done: _ }),
                    CellModel::Primitive(StdState::Reg { base: b, value: held, done: written }),
                ) => b == base && register_follows(value, held, written, base, ports)
                    && shows_value(tick.ports, base + 4, held) && shows_value(
                    tick.ports,
                    base + 5,
                    seq![written],
                ),
                _ => false,
            }
        }),
{
    let n = fabric.cells.len() as int;
    let tick = fabric.tick(n, ports);
    let course = clock_edges_reach_every_primitive(fabric, n, ports);
    if let CellModel::Primitive(s) = fabric.cells[g] {
        if let StdState::Reg { base, value, done } = s {
            let here = course[g];
            assert(course[g] == here);
            assert forall|p: int| #[trigger] touches(s, p) implies 0 <= p < ports.len() && here[p]
                == ports[p] && here.len() == ports.len() && course[n][p] == course[g + 1][p] by {
                assert(occupies(fabric.cells, g, p));
                assert forall|h: int| 0 <= h < g implies !#[trigger] occupies(
                    fabric.cells,
                    h,
                    p,
                ) by {}
                edge_leaves_port(fabric, course, 0, g, p);
                clock_edges_are_local_for(fabric, course, g);
                assert forall|h: int| g + 1 <= h < n implies !#[trigger] occupies(
                    fabric.cells,
                    h,
                    p,
                ) by {}
                edge_leaves_port(fabric, course, g + 1, n, p);
            }
            assert(touches(s, base) && touches(s, base + 1) && touches(s, base + 3) && touches(
                s,
                base + 4,
            ) && touches(s, base + 5));
            registers_follow_their_inputs(base, value, done, here);
            assert(clocked(fabric.cells[g], tick.cells[g], here));
        }
    }
}

proof fn clock_edges_are_local_for(fabric: Fabric<StdPrimitive>, course: Course, g: int)
    requires
        edge_course(fabric, course),
        0 <= g < course.len() - 1,
        course.len() <= fabric.cells.len() + 1,
        apart(fabric.cells, course[g].len()),
    ensures
        course[g + 1].len() == course[g].len(),
{
    let here = course[g];
    if let CellModel::Primitive(s) = fabric.cells[g] {
        assert forall|p: int| #[trigger] touches(s, p) implies 0 <= p < here.len() by {
            assert(occupies(fabric.cells, g, p));
        }
        clock_edges_are_local(s, here, here);
        assert(course[g + 1] == StdPrimitive::cycle(s, course[g]).ports);
    } else {
        assert(course[g + 1] == course[g]);
    }
}

/// After a step that succeeds, every register of the design holds what follows
/// from its inputs as evaluation left them, and shows it.
pub proof fn steps_clock_every_register(
    fabric: Fabric<StdPrimitive>,
    points: Seq<ControlPoint>,
    ports: Seq<PortView>,
    g: int,
)
    requires
        ({
            let sweep = fabric.sweep(points, ports, points.len() as int);
            apart(
                fabric.cells,
                fabric.settled(
                    fabric.bundle(sweep.leaves),
                    fabric.prepared(sweep, ports),
                ).ports.len(),
            )
        }),
        0 <= g < fabric.cells.len(),
        fabric.cells[g] matches CellModel::Primitive(s) && s is Reg,
        fabric.step(points, ports).error is None,
    ensures
        ({
            let sweep = fabric.sweep(points, ports, points.len() as int);
            let inputs = fabric.settled(
                fabric.bundle(sweep.leaves),
                fabric.prepared(sweep, ports),
            ).ports;
            let after = fabric.step(points, ports);
            match (fabric.cells[g], after.cells[g]) {
                (
                    CellModel::Primitive(StdState::Reg { base, value, done: _ }),
                    CellModel::Primitive(StdState::Reg { base: b, value: held, done: written }),
                ) => b == base && register_follows(value, held, written, base, inputs)
                    && shows_value(after.ports, base + 4, held) && shows_value(
                    after.ports,
                    base + 5,
                    seq![written],
                ),
                _ => false,
            }
        }),
{
    let sweep = fabric.sweep(points, ports, points.len() as int);
    every_register_follows_its_inputs(
        fabric,
        fabric.settled(fabric.bundle(sweep.leaves), fabric.prepared(sweep, ports)).ports,
        g,
    );
}

/// A primitive shows on its outputs what it holds.
pub open spec fn is_shown(state: StdState, ports: Seq<PortView>) -> bool {
    match state {
        StdState::Const { value, out } => shows_value(ports, out, value),
        StdState::Reg { base, value, done } => shows_value(ports, base + 4, value) && shows_value(
            ports,
            base + 5,
            seq![done],
        ),
        StdState::Inert => true,
    }
}

proof fn cells_leave_port(
    fabric: Fabric<StdPrimitive>,
    course: Course,
    i: int,
    j: int,
    port: int,
)
    requires
        cells_course(fabric, course),
        0 <= i <= j < course.len() <= fabric.cells.len() + 1,
        apart(fabric.cells, course[i].len()),
        forall|g: int| i <= g < j ==> !#[trigger] occupies(fabric.cells, g, port),
    ensures
        course[j].len() == course[i].len(),
        0 <= port < course[i].len() ==> course[j][port] == course[i][port],
    decreases j - i,
{
    if i < j {
        cells_leave_port(fabric, course, i, j - 1, port);
        let g = j - 1;
        assert(!occupies(fabric.cells, g, port));
        if let CellModel::Primitive(s) = fabric.cells[g] {
            assert forall|p: int| #[trigger] touches(s, p) implies 0 <= p < course[g].len() by {
                assert(occupies(fabric.cells, g, p));
            }
            evaluation_is_local(s, course[g]);
            assert(course[g + 1] == StdPrimitive::comb(s, course[g]).ports);
        } else {
            assert(course[g + 1] == course[g]);
        }
    }
}

/// After all cells were evaluated without an error, every primitive of the
/// design shows on its outputs what it holds, wherever it is.
pub proof fn every_primitive_shows_what_it_holds(
    fabric: Fabric<StdPrimitive>,
    ports: Seq<PortView>,
    g: int,
)
    requires
        apart(fabric.cells, ports.len()),
        0 <= g < fabric.cells.len(),
        fabric.comb_cells(fabric.cells.len() as int, ports).result is Ok,
    ensures
        fabric.cells[g] matches CellModel::Primitive(s) ==> is_shown(
            s,
            fabric.comb_cells(fabric.cells.len() as int, ports).ports,
        ),
{
    let n = fabric.cells.len() as int;
    let course = every_primitive_is_evaluated(fabric, n, ports);
    if let CellModel::Primitive(s) = fabric.cells[g] {
        let here = course[g];
        no_cell_adds_ports(fabric, course, 0, g);
        assert forall|p: int| #[trigger] touches(s, p) implies 0 <= p < here.len() && course[n][p]
            == course[g + 1][p] by {
            assert(occupies(fabric.cells, g, p));
            no_cell_adds_ports(fabric, course, 0, g + 1);
            assert forall|h: int| g + 1 <= h < n implies !#[trigger] occupies(
                fabric.cells,
                h,
                p,
            ) by {}
            cells_leave_port(fabric, course, g + 1, n, p);
        }
        assert(course[g + 1] == StdPrimitive::comb(s, course[g]).ports);
        evaluation_is_local(s, here);
        match s {
            StdState::Const { value, out } => {
                assert(touches(s, out));
            },
            StdState::Reg { base, value, done } => {
                assert(touches(s, base + 4) && touches(s, base + 5));
            },
            StdState::Inert => {},
        }
    }
}

pub(crate) proof fn no_cell_adds_ports(fabric: Fabric<StdPrimitive>, course: Course, i: int, j: int)
    requires
        cells_course(fabric, course),
        0 <= i <= j < course.len() <= fabric.cells.len() + 1,
        apart(fabric.cells, course[i].len()),
    ensures
        course[j].len() == course[i].len(),
    decreases j - i,
{
    assert forall|g: int| i <= g < j implies !#[trigger] occupies(fabric.cells, g, -1) by {
        if occupies(fabric.cells, g, -1) {
            assert(0 <= -1int);
        }
    }
    cells_leave_port(fabric, course, i, j, -1);
}

/// Once evaluation has settled without an error, every primitive of the design
/// shows on its outputs what it holds.
pub proof fn settled_designs_show_what_they_hold(
    fabric: Fabric<StdPrimitive>,
    bundle: Bundle,
    ports: Seq<PortView>,
    g: int,
)
    requires
        apart(fabric.cells, ports.len()),
        targets_exist(fabric, bundle, ports.len()),
        0 <= g < fabric.cells.len(),
        fabric.settles(bundle, ports),
        fabric.settled(bundle, ports).error is None,
    ensures
        fabric.settled(bundle, ports).ports.len() == ports.len(),
        fabric.cells[g] matches CellModel::Primitive(s) ==> is_shown(
            s,
            fabric.settled(bundle, ports).ports,
        ),
{
    let course = evaluation_goes_on_until_nothing_changes(fabric, bundle, ports);
    let last = course.len() - 1;
    let round = course[last - 1];
    rounds_keep_the_ports(fabric, bundle, course, last - 1);
    rounds_keep_the_ports(fabric, bundle, course, last);
    assignments_add_no_ports(fabric, bundle, bundle.len() as int, round);
    let assigned = fabric.assign_bundle(bundle, bundle.len() as int, round);
    assert(fabric.round(bundle, course[last - 1]).ports == course[last]);
    every_primitive_shows_what_it_holds(fabric, assigned.ports, g);
}

proof fn rounds_keep_the_ports(
    fabric: Fabric<StdPrimitive>,
    bundle: Bundle,
    course: Course,
    i: int,
)
    requires
        rounds_course(fabric, bundle, course),
        0 <= i < course.len(),
        apart(fabric.cells, course[0].len()),
        targets_exist(fabric, bundle, course[0].len()),
    ensures
        course[i].len() == course[0].len(),
    decreases i,
{
    if i > 0 {
        rounds_keep_the_ports(fabric, bundle, course, i - 1);
        let before = course[i - 1];
        assignments_add_no_ports(fabric, bundle, bundle.len() as int, before);
        let assigned = fabric.assign_bundle(bundle, bundle.len() as int, before).ports;
        assert(fabric.round(bundle, course[i - 1]).ports == course[i]);
        let inner = every_primitive_is_evaluated(fabric, fabric.cells.len() as int, assigned);
        no_cell_adds_ports(fabric, inner, 0, inner.len() - 1);
    }
}

/// A clock edge leaves every primitive on the ports that it is on.
pub proof fn clock_edges_keep_primitives_apart(
    fabric: Fabric<StdPrimitive>,
    n: int,
    ports: Seq<PortView>,
)
    requires
        apart(fabric.cells, ports.len()),
        0 <= n <= fabric.cells.len(),
    ensures
        apart(fabric.tick(n, ports).cells, ports.len()),
{
    let tick = fabric.tick(n, ports);
    let course = clock_edges_reach_every_primitive(fabric, n, ports);
    let last = course.len() - 1;
    assert forall|g: int, p: int| #[trigger] occupies(tick.cells, g, p) implies occupies(
        fabric.cells,
        g,
        p,
    ) by {
        if g < last {
            assert(clocked(fabric.cells[g], tick.cells[g], course[g]));
        } else {
            assert(tick.cells[g] == fabric.cells[g]);
        }
    }
}

/// Evaluating a primitive reports a change exactly when one of its outputs did
/// not already carry what the primitive holds, and it fails exactly when one
/// carries what is not a cell's.
pub proof fn evaluation_reports_what_it_does(state: StdState, ports: Seq<PortView>)
    requires
        forall|p: int| #[trigger] touches(state, p) ==> 0 <= p < ports.len(),
    ensures
        ({
            let result = StdPrimitive::comb(state, ports).result;
            &&& result is Err <==> match state {
                StdState::Const { value, out } => foreign(ports, out),
                StdState::Reg { base, value, done } => foreign(ports, base + 4) || foreign(
                    ports,
                    base + 5,
                ),
                StdState::Inert => false,
            }
            &&& result matches Ok(status) ==> (status is Unchanged <==> is_shown(state, ports))
        }),
{
    match state {
        StdState::Const { value, out } => {
            assert(touches(state, out));
        },
        StdState::Reg { base, value, done } => {
            assert(touches(state, base + 4) && touches(state, base + 5));
        },
        StdState::Inert => {},
    }
}

/// A port carries what somebody else than a cell put there.
pub open spec fn foreign(ports: Seq<PortView>, port: int) -> bool {
    ports[port] matches Some(v) && v.winner != AssignmentWinner::Cell
}

/// A clock edge fails in a register exactly when the register is to be written
/// without an input, or when one of its outputs carries what is not a cell's.
pub proof fn clock_edges_fail_only_on_conflicts(
    base: int,
    value: Seq<bool>,
    done: bool,
    ports: Seq<PortView>,
)
    requires
        0 <= base,
        base + 6 <= ports.len(),
    ensures
        ({
            let reset = ports[base + 3] matches Some(v) && unsigned(v.val) > 0;
            let write = ports[base + 1] matches Some(v) && unsigned(v.val) > 0;
            StdPrimitive::cycle(StdState::Reg { base, value, done }, ports).result is Err <==> (
            !reset && write && ports[base] is None) || foreign(ports, base + 4) || foreign(
                ports,
                base + 5,
            )
        }),
{
    truth_is_not_zero(ports[base + 1]);
    truth_is_not_zero(ports[base + 3]);
}

} // verus!
