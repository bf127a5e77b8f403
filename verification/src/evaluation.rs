//! What combinational evaluation does, told through what the ports carry on the
//! way.

use crate::behaviour::{carried, guard_depends_on_its_ports};
use crate::fabric::{Bundle, Fabric, folded, settling_is_unique};
use crate::graph::acyclic;
use crate::guards::{
    guards_over_bound_ports_can_be_read, lookup_finds_what_a_reference_stands_for, stands_for,
};
use crate::index::{AssignmentIdx, GlobalCellIdx, GlobalPortIdx, PortRef};
use crate::layout::CellModel;
use crate::ports::{
    AssignedView, AssignmentWinner, ErrorView, PortView, UpdateStatus,
};
use crate::primitive::Primitive;
use vstd::prelude::*;

verus! {

/// What the ports carry after each of a number of steps, from before the first
/// to after the last.
pub type Course = Seq<Seq<PortView>>;

/// An assignment whose guard holds puts the value of its source on its target,
/// in its own name. If the source carries nothing, so must the target. If the
/// target carries what somebody else put there, that is a conflict of the two.
/// An assignment that fails, or whose guard does not hold, changes nothing.
pub proof fn assignments_copy_their_source<P: Primitive>(
    fabric: Fabric<P>,
    a: AssignmentIdx,
    comp: GlobalCellIdx,
    ports: Seq<PortView>,
    src: GlobalPortIdx,
    dst: GlobalPortIdx,
)
    requires
        fabric.ref_ports.len() <= usize::MAX,
        stands_for(fabric, fabric.ctx.primary.assignments@[a.0 as int].src, comp, src),
        stands_for(fabric, fabric.ctx.primary.assignments@[a.0 as int].dst, comp, dst),
        src.0 < ports.len(),
        dst.0 < ports.len(),
    ensures
        ({
            let holds = fabric.guard_value(
                fabric.ctx.primary.assignments@[a.0 as int].guard.0 as int,
                comp,
                ports,
            ) == Some(true);
            let run = fabric.assign(a.0 as int, comp, ports);
            let winner = AssignmentWinner::Assign(a);
            &&& run.ports.len() == ports.len()
            &&& forall|p: int|
                0 <= p < ports.len() && p != dst.0 ==> #[trigger] run.ports[p] == ports[p]
            &&& !holds ==> run.ports == ports && run.error is None
            &&& holds ==> match (ports[src.0 as int], ports[dst.0 as int]) {
                (Some(v), Some(t)) => if t.winner == winner {
                    run.error is None && run.ports[dst.0 as int] == Some(
                        AssignedView { val: v.val, winner },
                    )
                } else {
                    run.ports == ports && run.error == Some(
                        ErrorView::FlatConflictingAssignments {
                            a1: t,
                            a2: AssignedView { val: v.val, winner },
                        },
                    )
                },
                (Some(v), None) => run.error is None && run.ports[dst.0 as int] == Some(
                    AssignedView { val: v.val, winner },
                ),
                (None, Some(_)) => run.ports == ports && run.error == Some(
                    ErrorView::UndefiningDefinedPort(dst),
                ),
                (None, None) => run.ports == ports && run.error is None,
            }
        }),
{
    let assignment = fabric.ctx.assignment(a.0 as int);
    lookup_finds_what_a_reference_stands_for(fabric, assignment.src, comp, src);
    lookup_finds_what_a_reference_stands_for(fabric, assignment.dst, comp, dst);
}

/// The course of a range of assignments: each is made once, in order, on what
/// those before it left, and none before the last fails.
pub open spec fn range_course<P: Primitive>(
    fabric: Fabric<P>,
    start: int,
    comp: GlobalCellIdx,
    course: Course,
) -> bool {
    forall|i: int|
        0 <= i < course.len() - 1 ==> {
            let run = fabric.assign(start + i, comp, #[trigger] course[i]);
            run.ports == course[i + 1] && (i < course.len() - 2 ==> run.error is None)
        }
}

/// Making the assignments of a range makes each of them once and in order. If
/// none fails, all of them were made. If one does, its error is that of the
/// range, and those behind it are not made.
pub proof fn ranges_make_every_assignment<P: Primitive>(
    fabric: Fabric<P>,
    start: int,
    n: int,
    comp: GlobalCellIdx,
    ports: Seq<PortView>,
) -> (course: Course)
    requires
        0 <= n,
    ensures
        ({
            let run = fabric.assign_range(start, n, comp, ports);
            let last = course.len() - 1;
            &&& 0 <= last <= n
            &&& course[0] == ports
            &&& course[last] == run.ports
            &&& range_course(fabric, start, comp, course)
            &&& run.error is None ==> last == n && (n > 0 ==> fabric.assign(
                start + n - 1,
                comp,
                course[n - 1],
            ).error is None)
            &&& run.error is Some ==> last > 0 && run.error == fabric.assign(
                start + last - 1,
                comp,
                course[last - 1],
            ).error
        }),
    decreases n,
{
    if n == 0 {
        seq![ports]
    } else {
        let before = ranges_make_every_assignment(fabric, start, n - 1, comp, ports);
        let earlier = fabric.assign_range(start, n - 1, comp, ports);
        if earlier.error is Some {
            before
        } else {
            let run = fabric.assign(start + n - 1, comp, earlier.ports);
            let course = before.push(run.ports);
            assert forall|i: int| 0 <= i < course.len() - 1 implies {
                let run = fabric.assign(start + i, comp, #[trigger] course[i]);
                run.ports == course[i + 1] && (i < course.len() - 2 ==> run.error is None)
            } by {
                assert(course[i] == before[i]);
                if i < n - 1 {
                    assert(course[i + 1] == before[i + 1]);
                }
            }
            course
        }
    }
}

/// The course of a bundle of assignments: its parts are made once each, in
/// order, on what those before left, and none before the last fails.
pub open spec fn bundle_course<P: Primitive>(
    fabric: Fabric<P>,
    bundle: Bundle,
    course: Course,
) -> bool {
    forall|k: int|
        0 <= k < course.len() - 1 ==> {
            let run = fabric.assign_range(
                bundle[k].1.start.0 as int,
                bundle[k].1.len() as int,
                bundle[k].0,
                #[trigger] course[k],
            );
            run.ports == course[k + 1] && (k < course.len() - 2 ==> run.error is None)
        }
}

/// Making the assignments of a bundle makes those of each part once and in
/// order, up to the first part that fails, whose error is that of the bundle.
pub proof fn bundles_make_every_part<P: Primitive>(
    fabric: Fabric<P>,
    bundle: Bundle,
    n: int,
    ports: Seq<PortView>,
) -> (course: Course)
    requires
        0 <= n <= bundle.len(),
    ensures
        ({
            let run = fabric.assign_bundle(bundle, n, ports);
            let last = course.len() - 1;
            &&& 0 <= last <= n
            &&& course[0] == ports
            &&& course[last] == run.ports
            &&& bundle_course(fabric, bundle, course)
            &&& run.error is None ==> last == n && (n > 0 ==> fabric.assign_range(
                bundle[n - 1].1.start.0 as int,
                bundle[n - 1].1.len() as int,
                bundle[n - 1].0,
                course[n - 1],
            ).error is None)
            &&& run.error is Some ==> last > 0 && run.error == fabric.assign_range(
                bundle[last - 1].1.start.0 as int,
                bundle[last - 1].1.len() as int,
                bundle[last - 1].0,
                course[last - 1],
            ).error
        }),
    decreases n,
{
    if n == 0 {
        seq![ports]
    } else {
        let before = bundles_make_every_part(fabric, bundle, n - 1, ports);
        let earlier = fabric.assign_bundle(bundle, n - 1, ports);
        if earlier.error is Some {
            before
        } else {
            let run = fabric.assign_range(
                bundle[n - 1].1.start.0 as int,
                bundle[n - 1].1.len() as int,
                bundle[n - 1].0,
                earlier.ports,
            );
            let course = before.push(run.ports);
            assert forall|k: int| 0 <= k < course.len() - 1 implies {
                let run = fabric.assign_range(
                    bundle[k].1.start.0 as int,
                    bundle[k].1.len() as int,
                    bundle[k].0,
                    #[trigger] course[k],
                );
                run.ports == course[k + 1] && (k < course.len() - 2 ==> run.error is None)
            } by {
                assert(course[k] == before[k]);
                if k < n - 1 {
                    assert(course[k + 1] == before[k + 1]);
                }
            }
            course
        }
    }
}

/// An assignment of a bundle drives a port.
pub open spec fn drives<P: Primitive>(
    fabric: Fabric<P>,
    bundle: Bundle,
    k: int,
    a: int,
    port: int,
) -> bool {
    &&& 0 <= k < bundle.len()
    &&& bundle[k].1.start.0 <= a < bundle[k].1.end.0
    &&& fabric.resolve(fabric.ctx.primary.assignments@[a].dst, bundle[k].0).0 == port
}

/// What the assignments of a bundle drive are ports.
pub open spec fn targets_exist<P: Primitive>(
    fabric: Fabric<P>,
    bundle: Bundle,
    ports: nat,
) -> bool {
    forall|k: int, a: int|
        0 <= k < bundle.len() && bundle[k].1.start.0 <= a < bundle[k].1.end.0
            ==> (#[trigger] fabric.resolve(
            fabric.ctx.primary.assignments@[a].dst,
            bundle[k].0,
        )).0 < ports
}

/// No assignment of a bundle drives a port.
pub open spec fn undriven<P: Primitive>(fabric: Fabric<P>, bundle: Bundle, port: int) -> bool {
    forall|k: int, a: int| !#[trigger] drives(fabric, bundle, k, a, port)
}

/// One of so many ports, but not this one.
spec fn is_another(index: GlobalPortIdx, port: int, ports: nat) -> bool {
    index.0 != port && index.0 < ports
}

proof fn range_leaves_port<P: Primitive>(
    fabric: Fabric<P>,
    start: int,
    n: int,
    comp: GlobalCellIdx,
    ports: Seq<PortView>,
    port: int,
)
    requires
        0 <= port < ports.len(),
        forall|a: int|
            start <= a < start + n ==> is_another(
                #[trigger] fabric.resolve(fabric.ctx.primary.assignments@[a].dst, comp),
                port,
                ports.len(),
            ),
    ensures
        fabric.assign_range(start, n, comp, ports).ports[port] == ports[port],
        fabric.assign_range(start, n, comp, ports).ports.len() == ports.len(),
    decreases n,
{
    if n > 0 {
        range_leaves_port(fabric, start, n - 1, comp, ports, port);
        let a = start + n - 1;
        assert(fabric.resolve(fabric.ctx.primary.assignments@[a].dst, comp).0 != port);
    }
}

proof fn bundle_leaves_port<P: Primitive>(
    fabric: Fabric<P>,
    bundle: Bundle,
    n: int,
    ports: Seq<PortView>,
    port: int,
)
    requires
        0 <= n <= bundle.len(),
        0 <= port < ports.len(),
        targets_exist(fabric, bundle, ports.len()),
        forall|k: int, a: int| k < n ==> !#[trigger] drives(fabric, bundle, k, a, port),
    ensures
        fabric.assign_bundle(bundle, n, ports).ports[port] == ports[port],
        fabric.assign_bundle(bundle, n, ports).ports.len() == ports.len(),
    decreases n,
{
    if n > 0 {
        bundle_leaves_port(fabric, bundle, n - 1, ports, port);
        let (comp, range) = bundle[n - 1];
        assert forall|a: int|
            range.start.0 <= a < range.start.0 + range.len() implies is_another(
            #[trigger] fabric.resolve(fabric.ctx.primary.assignments@[a].dst, comp),
            port,
            ports.len(),
        ) by {
            assert(!drives(fabric, bundle, n - 1, a, port));
        }
        range_leaves_port(
            fabric,
            range.start.0 as int,
            range.len() as int,
            comp,
            fabric.assign_bundle(bundle, n - 1, ports).ports,
            port,
        );
    }
}

proof fn range_adds_no_ports<P: Primitive>(
    fabric: Fabric<P>,
    start: int,
    n: int,
    comp: GlobalCellIdx,
    ports: Seq<PortView>,
)
    requires
        forall|a: int|
            start <= a < start + n ==> (#[trigger] fabric.resolve(
                fabric.ctx.primary.assignments@[a].dst,
                comp,
            )).0 < ports.len(),
    ensures
        fabric.assign_range(start, n, comp, ports).ports.len() == ports.len(),
    decreases n,
{
    if n > 0 {
        range_adds_no_ports(fabric, start, n - 1, comp, ports);
        let a = start + n - 1;
        assert(fabric.resolve(fabric.ctx.primary.assignments@[a].dst, comp).0 < ports.len());
    }
}

/// There are as many ports after the parts of a bundle as before.
pub proof fn assignments_add_no_ports<P: Primitive>(
    fabric: Fabric<P>,
    bundle: Bundle,
    n: int,
    ports: Seq<PortView>,
)
    requires
        n <= bundle.len(),
        targets_exist(fabric, bundle, ports.len()),
    ensures
        fabric.assign_bundle(bundle, n, ports).ports.len() == ports.len(),
    decreases n,
{
    if n > 0 {
        assignments_add_no_ports(fabric, bundle, n - 1, ports);
        let (comp, range) = bundle[n - 1];
        range_adds_no_ports(
            fabric,
            range.start.0 as int,
            range.len() as int,
            comp,
            fabric.assign_bundle(bundle, n - 1, ports).ports,
        );
    }
}

/// A port that no assignment drives carries after all assignments what it
/// carried before them.
pub proof fn undriven_ports_are_left_alone<P: Primitive>(
    fabric: Fabric<P>,
    bundle: Bundle,
    ports: Seq<PortView>,
    port: int,
)
    requires
        0 <= port < ports.len(),
        targets_exist(fabric, bundle, ports.len()),
        undriven(fabric, bundle, port),
    ensures
        fabric.assign_bundle(bundle, bundle.len() as int, ports).ports[port] == ports[port],
{
    bundle_leaves_port(fabric, bundle, bundle.len() as int, ports, port);
}

proof fn range_failed_stays<P: Primitive>(
    fabric: Fabric<P>,
    start: int,
    n: int,
    m: int,
    comp: GlobalCellIdx,
    ports: Seq<PortView>,
)
    requires
        n <= m,
        fabric.assign_range(start, m, comp, ports).error is None,
    ensures
        fabric.assign_range(start, n, comp, ports).error is None,
    decreases m - n,
{
    if n < m {
        range_failed_stays(fabric, start, n, m - 1, comp, ports);
    }
}

proof fn bundle_failed_stays<P: Primitive>(
    fabric: Fabric<P>,
    bundle: Bundle,
    n: int,
    m: int,
    ports: Seq<PortView>,
)
    requires
        n <= m,
        fabric.assign_bundle(bundle, m, ports).error is None,
    ensures
        fabric.assign_bundle(bundle, n, ports).error is None,
    decreases m - n,
{
    if n < m {
        bundle_failed_stays(fabric, bundle, n, m - 1, ports);
    }
}

/// Where the ports that an assignment reads are driven by none, and its target
/// by it alone, the assignment takes effect whatever else is assigned: if its
/// guard holds, then after all assignments, none of which failed, its target
/// carries what its source does.
pub proof fn active_assignments_take_effect<P: Primitive>(
    fabric: Fabric<P>,
    bundle: Bundle,
    ports: Seq<PortView>,
    k: int,
    a: AssignmentIdx,
    src: GlobalPortIdx,
    dst: GlobalPortIdx,
)
    requires
        acyclic(fabric.ctx.guard_graph()),
        fabric.ref_ports.len() <= usize::MAX,
        0 <= k < bundle.len(),
        bundle[k].1.start.0 <= a.0 < bundle[k].1.end.0,
        ({
            let assignment = fabric.ctx.primary.assignments@[a.0 as int];
            &&& assignment.guard.0 < fabric.ctx.primary.guards@.len()
            &&& stands_for(fabric, assignment.src, bundle[k].0, src)
            &&& stands_for(fabric, assignment.dst, bundle[k].0, dst)
            &&& forall|p: PortRef|
                fabric.ctx.guard_ports(assignment.guard.0 as int).contains(p)
                    ==> #[trigger] fabric.resolve(p, bundle[k].0).0 < ports.len() && undriven(
                    fabric,
                    bundle,
                    fabric.resolve(p, bundle[k].0).0 as int,
                )
            &&& fabric.guard_value(assignment.guard.0 as int, bundle[k].0, ports) == Some(true)
        }),
        src.0 < ports.len(),
        dst.0 < ports.len(),
        targets_exist(fabric, bundle, ports.len()),
        undriven(fabric, bundle, src.0 as int),
        forall|j: int, b: int|
            #[trigger] drives(fabric, bundle, j, b, dst.0 as int) ==> j == k && b == a.0,
        ports[src.0 as int] is Some,
        fabric.assign_bundle(bundle, bundle.len() as int, ports).error is None,
    ensures
        fabric.assign_bundle(bundle, bundle.len() as int, ports).ports[dst.0 as int] == Some(
            AssignedView {
                val: ports[src.0 as int]->0.val,
                winner: AssignmentWinner::Assign(a),
            },
        ),
{
    let assignment = fabric.ctx.assignment(a.0 as int);
    let n = bundle.len() as int;
    let (comp, range) = bundle[k];
    let start = range.start.0 as int;
    let i = a.0 - start;
    let before = fabric.assign_bundle(bundle, k, ports).ports;
    let earlier = fabric.assign_range(start, i, comp, before).ports;
    let all = fabric.assign_range(start, range.len() as int, comp, before);
    bundle_failed_stays(fabric, bundle, k, n, ports);
    bundle_failed_stays(fabric, bundle, k + 1, n, ports);
    range_failed_stays(fabric, start, i, range.len() as int, comp, before);
    range_failed_stays(fabric, start, i + 1, range.len() as int, comp, before);
    lookup_finds_what_a_reference_stands_for(fabric, assignment.src, comp, src);
    lookup_finds_what_a_reference_stands_for(fabric, assignment.dst, comp, dst);
    assert forall|p: int| 0 <= p < ports.len() && #[trigger] undriven(fabric, bundle, p) implies
        earlier[p] == ports[p] && earlier.len() == ports.len() by {
        bundle_leaves_port(fabric, bundle, k, ports, p);
        assert forall|b: int| start <= b < start + i implies is_another(
            #[trigger] fabric.resolve(fabric.ctx.primary.assignments@[b].dst, comp),
            p,
            ports.len(),
        ) by {
            assert(!drives(fabric, bundle, k, b, p));
        }
        range_leaves_port(fabric, start, i, comp, before, p);
    }
    assert(earlier[src.0 as int] == ports[src.0 as int]);
    assert forall|p: PortRef|
        fabric.ctx.guard_ports(assignment.guard.0 as int).contains(p) implies #[trigger] carried(
        fabric,
        p,
        comp,
        ports,
    ) == carried(fabric, p, comp, earlier) by {
        assert(fabric.resolve(p, comp).0 < ports.len());
        assert(undriven(fabric, bundle, fabric.resolve(p, comp).0 as int));
    }
    guard_depends_on_its_ports(fabric, assignment.guard.0 as int, comp, ports, earlier);
    assignments_copy_their_source(fabric, a, comp, earlier, src, dst);
    let made = fabric.assign_range(start, i + 1, comp, before).ports;
    assert(made == fabric.assign(a.0 as int, comp, earlier).ports);
    range_tail(fabric, bundle, k, i + 1, range.len() as int, before, dst.0 as int);
    bundle_tail(fabric, bundle, k + 1, n, ports, dst.0 as int);
}

/// The assignments of a part of a bundle from one on that leave a port alone.
proof fn range_tail<P: Primitive>(
    fabric: Fabric<P>,
    bundle: Bundle,
    k: int,
    n: int,
    m: int,
    ports: Seq<PortView>,
    port: int,
)
    requires
        0 <= k < bundle.len(),
        0 <= n <= m <= bundle[k].1.len(),
        0 <= port < fabric.assign_range(
            bundle[k].1.start.0 as int,
            n,
            bundle[k].0,
            ports,
        ).ports.len(),
        targets_exist(
            fabric,
            bundle,
            fabric.assign_range(bundle[k].1.start.0 as int, n, bundle[k].0, ports).ports.len(),
        ),
        forall|a: int|
            bundle[k].1.start.0 + n <= a ==> !#[trigger] drives(fabric, bundle, k, a, port),
    ensures
        fabric.assign_range(bundle[k].1.start.0 as int, m, bundle[k].0, ports).ports[port]
            == fabric.assign_range(bundle[k].1.start.0 as int, n, bundle[k].0, ports).ports[port],
        fabric.assign_range(bundle[k].1.start.0 as int, m, bundle[k].0, ports).ports.len()
            == fabric.assign_range(bundle[k].1.start.0 as int, n, bundle[k].0, ports).ports.len(),
    decreases m - n,
{
    if n < m {
        range_tail(fabric, bundle, k, n, m - 1, ports, port);
        let a = bundle[k].1.start.0 + m - 1;
        assert(!drives(fabric, bundle, k, a, port));
        assert(fabric.resolve(fabric.ctx.primary.assignments@[a].dst, bundle[k].0).0 != port);
    }
}

/// The parts of a bundle from one on that leave a port alone.
proof fn bundle_tail<P: Primitive>(
    fabric: Fabric<P>,
    bundle: Bundle,
    n: int,
    m: int,
    ports: Seq<PortView>,
    port: int,
)
    requires
        0 <= n <= m <= bundle.len(),
        0 <= port < fabric.assign_bundle(bundle, n, ports).ports.len(),
        targets_exist(fabric, bundle, fabric.assign_bundle(bundle, n, ports).ports.len()),
        forall|k: int, a: int| n <= k ==> !#[trigger] drives(fabric, bundle, k, a, port),
    ensures
        fabric.assign_bundle(bundle, m, ports).ports[port] == fabric.assign_bundle(
            bundle,
            n,
            ports,
        ).ports[port],
        fabric.assign_bundle(bundle, m, ports).ports.len() == fabric.assign_bundle(
            bundle,
            n,
            ports,
        ).ports.len(),
    decreases m - n,
{
    if n < m {
        bundle_tail(fabric, bundle, n, m - 1, ports, port);
        let (comp, range) = bundle[m - 1];
        let before = fabric.assign_bundle(bundle, m - 1, ports).ports;
        assert forall|a: int|
            range.start.0 <= a < range.start.0 + range.len() implies is_another(
            #[trigger] fabric.resolve(fabric.ctx.primary.assignments@[a].dst, comp),
            port,
            before.len(),
        ) by {
            assert(!drives(fabric, bundle, m - 1, a, port));
        }
        range_leaves_port(
            fabric,
            range.start.0 as int,
            range.len() as int,
            comp,
            before,
            port,
        );
    }
}

/// The course of an evaluation of cells: each primitive is evaluated once, in
/// order, on what those before it left, and none before the last fails.
/// Instances do nothing themselves.
pub open spec fn cells_course<P: Primitive>(fabric: Fabric<P>, course: Course) -> bool {
    forall|g: int|
        0 <= g < course.len() - 1 ==> match fabric.cells[g] {
            CellModel::Primitive(s) => {
                let effect = P::comb(s, #[trigger] course[g]);
                effect.ports == course[g + 1] && (g < course.len() - 2 ==> effect.result is Ok)
            },
            CellModel::Component(_) => course[g + 1] == course[g],
        }
}

/// A primitive reports a change at its turn.
pub open spec fn reports_change<P: Primitive>(
    fabric: Fabric<P>,
    course: Course,
    g: int,
) -> bool {
    fabric.cells[g] matches CellModel::Primitive(s) && P::comb(s, course[g]).result == Ok::<
        UpdateStatus,
        ErrorView,
    >(UpdateStatus::Changed)
}

/// Evaluating the cells evaluates each primitive once and in order. It fails
/// with the first error. Otherwise it counts as a change exactly when one of the
/// primitives reports one.
pub proof fn every_primitive_is_evaluated<P: Primitive>(
    fabric: Fabric<P>,
    n: int,
    ports: Seq<PortView>,
) -> (course: Course)
    requires
        0 <= n <= fabric.cells.len(),
    ensures
        ({
            let effect = fabric.comb_cells(n, ports);
            let last = course.len() - 1;
            &&& 0 <= last <= n
            &&& course[0] == ports
            &&& course[last] == effect.ports
            &&& cells_course(fabric, course)
            &&& match effect.result {
                Ok(status) => last == n && (status is Changed <==> exists|g: int|
                    0 <= g < n && #[trigger] reports_change(fabric, course, g)) && (n > 0
                    ==> (fabric.cells[n - 1] matches CellModel::Primitive(s) ==> P::comb(
                    s,
                    course[n - 1],
                ).result is Ok)),
                Err(e) => last > 0 && (fabric.cells[last - 1] matches CellModel::Primitive(s)
                    && P::comb(s, course[last - 1]).result == Err::<UpdateStatus, ErrorView>(e)),
            }
        }),
    decreases n,
{
    if n == 0 {
        seq![ports]
    } else {
        let before = every_primitive_is_evaluated(fabric, n - 1, ports);
        let earlier = fabric.comb_cells(n - 1, ports);
        let effect = fabric.comb_cells(n, ports);
        if earlier.result is Err {
            before
        } else {
            let course = before.push(effect.ports);
            assert forall|g: int| 0 <= g < course.len() - 1 implies match fabric.cells[g] {
                CellModel::Primitive(s) => {
                    let effect = P::comb(s, #[trigger] course[g]);
                    effect.ports == course[g + 1] && (g < course.len() - 2 ==> effect.result is Ok)
                },
                CellModel::Component(_) => course[g + 1] == course[g],
            } by {
                assert(course[g] == before[g]);
                if g < n - 1 {
                    assert(course[g + 1] == before[g + 1]);
                }
            }
            assert forall|g: int| 0 <= g < n - 1 implies #[trigger] reports_change(
                fabric,
                course,
                g,
            ) == reports_change(fabric, before, g) by {
                assert(course[g] == before[g]);
            }
            if let Ok(status) = effect.result {
                if status is Changed {
                    if earlier.result == Ok::<UpdateStatus, ErrorView>(UpdateStatus::Changed) {
                        let g = choose|g: int|
                            0 <= g < n - 1 && #[trigger] reports_change(fabric, before, g);
                        assert(reports_change(fabric, course, g));
                    } else {
                        assert(reports_change(fabric, course, n - 1));
                    }
                } else {
                    assert forall|g: int| 0 <= g < n implies !#[trigger] reports_change(
                        fabric,
                        course,
                        g,
                    ) by {
                        if g < n - 1 {
                            assert(!reports_change(fabric, before, g));
                        }
                    }
                }
            }
            course
        }
    }
}

/// A round makes all assignments first and evaluates all cells on what those
/// left. It stops at an assignment that fails.
pub proof fn rounds_assign_and_then_evaluate<P: Primitive>(
    fabric: Fabric<P>,
    bundle: Bundle,
    ports: Seq<PortView>,
)
    ensures
        ({
            let assigned = fabric.assign_bundle(bundle, bundle.len() as int, ports);
            let round = fabric.round(bundle, ports);
            match assigned.error {
                Some(e) => round.ports == assigned.ports && round.result == Err::<
                    UpdateStatus,
                    ErrorView,
                >(e),
                None => round == fabric.comb_cells(fabric.cells.len() as int, assigned.ports),
            }
        }),
{
}

/// The course of an evaluation until it settles: round after round, of which
/// all but the last change something.
pub open spec fn rounds_course<P: Primitive>(
    fabric: Fabric<P>,
    bundle: Bundle,
    course: Course,
) -> bool {
    forall|i: int|
        0 <= i < course.len() - 1 ==> {
            let round = fabric.round(bundle, #[trigger] course[i]);
            round.ports == course[i + 1] && (i < course.len() - 2 ==> round.result == Ok::<
                UpdateStatus,
                ErrorView,
            >(UpdateStatus::Changed))
        }
}

/// Evaluation goes on round after round until a round fails, or until there is
/// one in which no primitive changes anything, and with that it ends. Where it
/// fails, the round's error is that of the evaluation.
pub proof fn evaluation_goes_on_until_nothing_changes<P: Primitive>(
    fabric: Fabric<P>,
    bundle: Bundle,
    ports: Seq<PortView>,
) -> (course: Course)
    requires
        fabric.settles(bundle, ports),
    ensures
        ({
            let settled = fabric.settled(bundle, ports);
            let last = course.len() - 1;
            &&& last > 0
            &&& course[0] == ports
            &&& course[last] == settled.ports
            &&& rounds_course(fabric, bundle, course)
            &&& fabric.round(bundle, course[last - 1]).result == match settled.error {
                Some(e) => Err::<UpdateStatus, ErrorView>(e),
                None => Ok(UpdateStatus::Unchanged),
            }
        }),
{
    let limit = choose|limit: nat| (#[trigger] fabric.settle_within(bundle, ports, limit)) is Some;
    settling_is_unique(fabric, bundle, ports, limit);
    settling_course(fabric, bundle, ports, limit)
}

proof fn settling_course<P: Primitive>(
    fabric: Fabric<P>,
    bundle: Bundle,
    ports: Seq<PortView>,
    limit: nat,
) -> (course: Course)
    requires
        fabric.settle_within(bundle, ports, limit) is Some,
    ensures
        ({
            let settled = fabric.settle_within(bundle, ports, limit)->0;
            let last = course.len() - 1;
            &&& last > 0
            &&& course[0] == ports
            &&& course[last] == settled.ports
            &&& rounds_course(fabric, bundle, course)
            &&& fabric.round(bundle, course[last - 1]).result == match settled.error {
                Some(e) => Err::<UpdateStatus, ErrorView>(e),
                None => Ok(UpdateStatus::Unchanged),
            }
        }),
    decreases limit,
{
    let round = fabric.round(bundle, ports);
    if round.result == Ok::<UpdateStatus, ErrorView>(UpdateStatus::Changed) {
        let rest = settling_course(fabric, bundle, round.ports, (limit - 1) as nat);
        let course = seq![ports] + rest;
        assert forall|i: int| 0 <= i < course.len() - 1 implies {
            let round = fabric.round(bundle, #[trigger] course[i]);
            round.ports == course[i + 1] && (i < course.len() - 2 ==> round.result == Ok::<
                UpdateStatus,
                ErrorView,
            >(UpdateStatus::Changed))
        } by {
            if i > 0 {
                assert(course[i] == rest[i - 1]);
                assert(course[i + 1] == rest[i]);
            } else {
                assert(course[1] == rest[0]);
            }
        }
        assert(course[course.len() - 2] == rest[rest.len() - 2]);
        course
    } else {
        seq![ports, round.ports]
    }
}

/// Of a series of attempts the first that failed decides. If none did, the
/// series counts as a change exactly when what was there before it, or one of
/// the attempts, does.
pub proof fn attempts_fold_into_one(
    start: UpdateStatus,
    results: Seq<Result<UpdateStatus, ErrorView>>,
)
    ensures
        match folded(start, results) {
            Err(e) => exists|i: int|
                0 <= i < results.len() && #[trigger] results[i] == Err::<UpdateStatus, ErrorView>(
                    e,
                ) && forall|j: int| 0 <= j < i ==> (#[trigger] results[j]) is Ok,
            Ok(status) => (forall|i: int| 0 <= i < results.len() ==> (#[trigger] results[i]) is Ok)
                && (status is Changed <==> start is Changed || exists|i: int|
                0 <= i < results.len() && #[trigger] results[i] == Ok::<UpdateStatus, ErrorView>(
                    UpdateStatus::Changed,
                )),
        },
    decreases results.len(),
{
    if results.len() > 0 {
        let before = results.drop_last();
        attempts_fold_into_one(start, before);
        match folded(start, before) {
            Err(e) => {
                let i = choose|i: int|
                    0 <= i < before.len() && #[trigger] before[i] == Err::<
                        UpdateStatus,
                        ErrorView,
                    >(e) && forall|j: int| 0 <= j < i ==> (#[trigger] before[j]) is Ok;
                assert(results[i] == before[i]);
                assert forall|j: int| 0 <= j < i implies (#[trigger] results[j]) is Ok by {
                    assert(before[j] is Ok);
                }
            },
            Ok(status) => {
                assert forall|i: int| 0 <= i < before.len() implies #[trigger] results[i]
                    == before[i] by {}
                if status is Changed && !(start is Changed) {
                    let i = choose|i: int|
                        0 <= i < before.len() && #[trigger] before[i] == Ok::<
                            UpdateStatus,
                            ErrorView,
                        >(UpdateStatus::Changed);
                    assert(results[i] == before[i]);
                }
                assert(results[results.len() - 1] == results.last());
                assert forall|i: int| 0 <= i < results.len() - 1 implies (#[trigger] results[i])
                    is Ok by {
                    assert(before[i] is Ok);
                }
                if !(status is Changed) {
                    assert forall|i: int| 0 <= i < results.len() - 1 implies #[trigger] results[i]
                        != Ok::<UpdateStatus, ErrorView>(UpdateStatus::Changed) by {
                        assert(before[i] != Ok::<UpdateStatus, ErrorView>(UpdateStatus::Changed));
                    }
                }
            },
        }
    }
}

/// Every port that an assignment of a bundle reads or drives is there.
pub open spec fn all_bound<P: Primitive>(fabric: Fabric<P>, bundle: Bundle) -> bool {
    forall|k: int, a: int, p: PortRef|
        #![trigger fabric.ctx.assignment_ports(a).contains(p), bundle[k]]
        0 <= k < bundle.len() && bundle[k].1.start.0 <= a < bundle[k].1.end.0
            && fabric.ctx.assignment_ports(a).contains(p) ==> fabric.usable(p, bundle[k].0)
}

/// The guards of the assignments of a bundle are there.
pub open spec fn guards_exist<P: Primitive>(fabric: Fabric<P>, bundle: Bundle) -> bool {
    forall|k: int, a: int|
        #![trigger bundle[k], fabric.ctx.assignment(a)]
        0 <= k < bundle.len() && bundle[k].1.start.0 <= a < bundle[k].1.end.0
            ==> fabric.ctx.assignment(a).guard.0 < fabric.ctx.primary.guards@.len()
}

proof fn bound_range_is_safe<P: Primitive>(
    fabric: Fabric<P>,
    bundle: Bundle,
    k: int,
    n: int,
    ports: Seq<PortView>,
)
    requires
        acyclic(fabric.ctx.guard_graph()),
        all_bound(fabric, bundle),
        guards_exist(fabric, bundle),
        0 <= k < bundle.len(),
        n <= bundle[k].1.len(),
    ensures
        fabric.range_safe(bundle[k].1.start.0 as int, n, bundle[k].0, ports),
    decreases n,
{
    if n > 0 {
        let (comp, range) = bundle[k];
        let a = range.start.0 + n - 1;
        let assignment = fabric.ctx.assignment(a);
        let before = fabric.assign_range(range.start.0 as int, n - 1, comp, ports);
        bound_range_is_safe(fabric, bundle, k, n - 1, ports);
        assert forall|p: PortRef|
            fabric.ctx.guard_ports(assignment.guard.0 as int).contains(
                p,
            ) implies #[trigger] fabric.usable(p, comp) by {
            assert(fabric.ctx.assignment_ports(a).contains(p));
        }
        assert(fabric.ctx.assignment_ports(a).contains(assignment.src));
        assert(fabric.ctx.assignment_ports(a).contains(assignment.dst));
        guards_over_bound_ports_can_be_read(
            fabric,
            assignment.guard.0 as int,
            comp,
            before.ports,
        );
    }
}

proof fn bound_bundle_is_safe<P: Primitive>(
    fabric: Fabric<P>,
    bundle: Bundle,
    n: int,
    ports: Seq<PortView>,
)
    requires
        acyclic(fabric.ctx.guard_graph()),
        all_bound(fabric, bundle),
        guards_exist(fabric, bundle),
        n <= bundle.len(),
    ensures
        fabric.bundle_safe(bundle, n, ports),
    decreases n,
{
    if n > 0 {
        bound_bundle_is_safe(fabric, bundle, n - 1, ports);
        bound_range_is_safe(
            fabric,
            bundle,
            n - 1,
            bundle[n - 1].1.len() as int,
            fabric.assign_bundle(bundle, n - 1, ports).ports,
        );
    }
}

/// Where every port that the assignments name is there, evaluation looks up
/// nothing that is not, however long it goes on. All that can keep it from
/// being tried is then that it does not come to an end.
pub proof fn bound_programs_are_safe<P: Primitive>(
    fabric: Fabric<P>,
    bundle: Bundle,
    ports: Seq<PortView>,
    limit: nat,
)
    requires
        acyclic(fabric.ctx.guard_graph()),
        all_bound(fabric, bundle),
        guards_exist(fabric, bundle),
    ensures
        fabric.settle_safe(bundle, ports, limit),
        fabric.settles(bundle, ports) ==> fabric.settles_safely(bundle, ports),
{
    bound_rounds_are_safe(fabric, bundle, ports, limit);
    if fabric.settles(bundle, ports) {
        let enough = choose|enough: nat|
            (#[trigger] fabric.settle_within(bundle, ports, enough)) is Some;
        bound_rounds_are_safe(fabric, bundle, ports, enough);
        assert(fabric.settle_within(bundle, ports, enough) is Some);
    }
}

proof fn bound_rounds_are_safe<P: Primitive>(
    fabric: Fabric<P>,
    bundle: Bundle,
    ports: Seq<PortView>,
    limit: nat,
)
    requires
        acyclic(fabric.ctx.guard_graph()),
        all_bound(fabric, bundle),
        guards_exist(fabric, bundle),
    ensures
        fabric.settle_safe(bundle, ports, limit),
    decreases limit,
{
    if limit > 0 {
        bound_bundle_is_safe(fabric, bundle, bundle.len() as int, ports);
        let round = fabric.round(bundle, ports);
        bound_rounds_are_safe(fabric, bundle, round.ports, (limit - 1) as nat);
    }
}

/// An assignment looks up its guard, and its source and target only if the guard
/// holds.
pub proof fn assignments_are_looked_up_lazily<P: Primitive>(
    fabric: Fabric<P>,
    a: int,
    comp: GlobalCellIdx,
    ports: Seq<PortView>,
)
    ensures
        ({
            let assignment = fabric.ctx.primary.assignments@[a];
            let guard = assignment.guard.0 as int;
            fabric.assign_safe(a, comp, ports) <==> fabric.guard_readable(guard, comp, ports) && (
            fabric.guard_value(guard, comp, ports) == Some(true) ==> fabric.usable(
                assignment.src,
                comp,
            ) && fabric.usable(assignment.dst, comp))
        }),
{
}

/// A range of assignments is looked up one by one, up to the first that fails,
/// each on what those before it left.
pub proof fn ranges_are_looked_up_in_order<P: Primitive>(
    fabric: Fabric<P>,
    start: int,
    n: int,
    comp: GlobalCellIdx,
    ports: Seq<PortView>,
)
    ensures
        fabric.range_safe(start, n, comp, ports) <==> forall|i: int|
            0 <= i < n && (#[trigger] fabric.assign_range(start, i, comp, ports)).error is None
                ==> fabric.assign_safe(
                start + i,
                comp,
                fabric.assign_range(start, i, comp, ports).ports,
            ),
    decreases n,
{
    if n > 0 {
        ranges_are_looked_up_in_order(fabric, start, n - 1, comp, ports);
        let last = fabric.assign_range(start, n - 1, comp, ports);
    }
}

/// A bundle is looked up part by part, up to the first that fails, each on what
/// those before it left, and evaluation is looked up round by round, as long as
/// rounds change something.
pub proof fn rounds_are_looked_up_in_order<P: Primitive>(
    fabric: Fabric<P>,
    bundle: Bundle,
    n: int,
    ports: Seq<PortView>,
    limit: nat,
)
    ensures
        fabric.bundle_safe(bundle, n, ports) <==> forall|k: int|
            0 <= k < n && (#[trigger] fabric.assign_bundle(bundle, k, ports)).error is None
                ==> fabric.range_safe(
                bundle[k].1.start.0 as int,
                bundle[k].1.len() as int,
                bundle[k].0,
                fabric.assign_bundle(bundle, k, ports).ports,
            ),
        fabric.settle_safe(bundle, ports, 0),
        fabric.settle_safe(bundle, ports, limit + 1) <==> fabric.bundle_safe(
            bundle,
            bundle.len() as int,
            ports,
        ) && (fabric.round(bundle, ports).result == Ok::<UpdateStatus, ErrorView>(
            UpdateStatus::Changed,
        ) ==> fabric.settle_safe(bundle, fabric.round(bundle, ports).ports, limit)),
    decreases n,
{
    if n > 0 {
        rounds_are_looked_up_in_order(fabric, bundle, n - 1, ports, limit);
        let last = fabric.assign_bundle(bundle, n - 1, ports);
    }
}

} // verus!
