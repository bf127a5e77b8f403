//! What holds of evaluation and of steps, whatever the program.

use crate::context::Guard;
use crate::control::ControlPoint;
use crate::fabric::{
    Advance, Bundle, Fabric, Run, Stepped, Sweep, runs_end_once, settling_is_unique,
};
use crate::graph::{acyclic, rank_of};
use crate::index::{AssignmentIdx, GlobalCellIdx, PortRef};
use crate::layout::CellModel;
use crate::ports::{
    AssignedView, AssignmentWinner, Effect, ErrorView, PortView, UpdateStatus, implicit_high,
};
use crate::primitive::{Primitive, StdPrimitive, StdState};
use vstd::prelude::*;

verus! {

/// What a port carries that a reference in an instance leads to.
pub open spec fn carried<P: Primitive>(
    fabric: Fabric<P>,
    port: PortRef,
    comp: GlobalCellIdx,
    ports: Seq<PortView>,
) -> PortView {
    ports[fabric.resolve(port, comp).0 as int]
}

/// A guard has a value exactly when every port that it reads carries one.
pub proof fn guard_has_value_iff_its_ports_do<P: Primitive>(
    fabric: Fabric<P>,
    g: int,
    comp: GlobalCellIdx,
    ports: Seq<PortView>,
)
    requires
        acyclic(fabric.ctx.guard_graph()),
        0 <= g < fabric.ctx.primary.guards@.len(),
    ensures
        fabric.guard_value(g, comp, ports) is Some <==> forall|p: PortRef|
            fabric.ctx.guard_ports(g).contains(p) ==> #[trigger] carried(
                fabric,
                p,
                comp,
                ports,
            ) is Some,
    decreases rank_of(fabric.ctx.guard_graph(), g),
{
    fabric.ctx.guard_rank_drops(g);
    let all = fabric.ctx.guard_ports(g);
    match fabric.ctx.guard(g) {
        Guard::Or(a, b) => {
            guard_has_value_iff_its_ports_do(fabric, a.0 as int, comp, ports);
            guard_has_value_iff_its_ports_do(fabric, b.0 as int, comp, ports);
        },
        Guard::And(a, b) => {
            guard_has_value_iff_its_ports_do(fabric, a.0 as int, comp, ports);
            guard_has_value_iff_its_ports_do(fabric, b.0 as int, comp, ports);
        },
        Guard::Not(a) => {
            guard_has_value_iff_its_ports_do(fabric, a.0 as int, comp, ports);
        },
        Guard::Comp(_, a, b) => {
            assert(all.contains(a) && all.contains(b));
            assert(carried(fabric, a, comp, ports) is Some || carried(fabric, a, comp, ports)
                is None);
            assert(carried(fabric, b, comp, ports) is Some || carried(fabric, b, comp, ports)
                is None);
        },
        Guard::Port(p) => {
            assert(all.contains(p));
            assert(carried(fabric, p, comp, ports) is Some || carried(fabric, p, comp, ports)
                is None);
        },
        Guard::True => {},
    }
}

/// The value of a guard depends on nothing but what the ports carry that it
/// reads.
pub proof fn guard_depends_on_its_ports<P: Primitive>(
    fabric: Fabric<P>,
    g: int,
    comp: GlobalCellIdx,
    a: Seq<PortView>,
    b: Seq<PortView>,
)
    requires
        acyclic(fabric.ctx.guard_graph()),
        0 <= g < fabric.ctx.primary.guards@.len(),
        forall|p: PortRef|
            fabric.ctx.guard_ports(g).contains(p) ==> #[trigger] carried(fabric, p, comp, a)
                == carried(fabric, p, comp, b),
    ensures
        fabric.guard_value(g, comp, a) == fabric.guard_value(g, comp, b),
    decreases rank_of(fabric.ctx.guard_graph(), g),
{
    fabric.ctx.guard_rank_drops(g);
    let all = fabric.ctx.guard_ports(g);
    match fabric.ctx.guard(g) {
        Guard::Or(x, y) => {
            guard_depends_on_its_ports(fabric, x.0 as int, comp, a, b);
            guard_depends_on_its_ports(fabric, y.0 as int, comp, a, b);
        },
        Guard::And(x, y) => {
            guard_depends_on_its_ports(fabric, x.0 as int, comp, a, b);
            guard_depends_on_its_ports(fabric, y.0 as int, comp, a, b);
        },
        Guard::Not(x) => {
            guard_depends_on_its_ports(fabric, x.0 as int, comp, a, b);
        },
        Guard::Comp(_, x, y) => {
            assert(all.contains(x) && all.contains(y));
            assert(carried(fabric, x, comp, a) == carried(fabric, x, comp, b));
            assert(carried(fabric, y, comp, a) == carried(fabric, y, comp, b));
        },
        Guard::Port(p) => {
            assert(all.contains(p));
            assert(carried(fabric, p, comp, a) == carried(fabric, p, comp, b));
        },
        Guard::True => {},
    }
}

/// An assignment changes no port but its target, and nothing at all if it fails
/// or its guard does not hold.
pub proof fn assignment_changes_only_its_target<P: Primitive>(
    fabric: Fabric<P>,
    a: int,
    comp: GlobalCellIdx,
    ports: Seq<PortView>,
)
    requires
        fabric.resolve(fabric.ctx.assignment(a).dst, comp).0 < ports.len(),
    ensures
        ({
            let assignment = fabric.ctx.assignment(a);
            let dest = fabric.resolve(assignment.dst, comp).0 as int;
            let run = fabric.assign(a, comp, ports);
            &&& run.ports.len() == ports.len()
            &&& forall|i: int|
                0 <= i < ports.len() && i != dest ==> #[trigger] run.ports[i] == ports[i]
            &&& run.error is Some ==> run.ports == ports
            &&& fabric.guard_value(assignment.guard.0 as int, comp, ports) != Some(true)
                ==> run.ports == ports && run.error is None
        }),
{
}

/// An assignment whose guard holds and that does not fail puts the value of its
/// source on its target, in its own name.
pub proof fn assignment_connects<P: Primitive>(
    fabric: Fabric<P>,
    a: int,
    comp: GlobalCellIdx,
    ports: Seq<PortView>,
    v: AssignedView,
)
    requires
        fabric.resolve(fabric.ctx.assignment(a).dst, comp).0 < ports.len(),
        fabric.guard_value(fabric.ctx.assignment(a).guard.0 as int, comp, ports) == Some(true),
        carried(fabric, fabric.ctx.assignment(a).src, comp, ports) == Some(v),
        fabric.assign(a, comp, ports).error is None,
    ensures
        carried(
            fabric,
            fabric.ctx.assignment(a).dst,
            comp,
            fabric.assign(a, comp, ports).ports,
        ) == Some(
            AssignedView {
                val: v.val,
                winner: AssignmentWinner::Assign(AssignmentIdx(a as usize)),
            },
        ),
{
}

/// An assignment fails exactly when its guard holds and its target carries a
/// value that it would have to leave undefined or take over from another
/// winner.
pub proof fn assignment_fails_only_on_conflicts<P: Primitive>(
    fabric: Fabric<P>,
    a: int,
    comp: GlobalCellIdx,
    ports: Seq<PortView>,
)
    requires
        fabric.resolve(fabric.ctx.assignment(a).dst, comp).0 < ports.len(),
    ensures
        ({
            let assignment = fabric.ctx.assignment(a);
            let target = carried(fabric, assignment.dst, comp, ports);
            let source = carried(fabric, assignment.src, comp, ports);
            fabric.assign(a, comp, ports).error is Some <==> fabric.guard_value(
                assignment.guard.0 as int,
                comp,
                ports,
            ) == Some(true) && target is Some && (source is None || target->0.winner
                != AssignmentWinner::Assign(AssignmentIdx(a as usize)))
        }),
{
}

/// Making an assignment again changes nothing and does not fail, as long as it
/// does not drive a port that it reads.
pub proof fn assignment_is_idempotent<P: Primitive>(
    fabric: Fabric<P>,
    a: int,
    comp: GlobalCellIdx,
    ports: Seq<PortView>,
)
    requires
        acyclic(fabric.ctx.guard_graph()),
        fabric.ctx.assignment(a).guard.0 < fabric.ctx.primary.guards@.len(),
        fabric.resolve(fabric.ctx.assignment(a).dst, comp).0 < ports.len(),
        fabric.resolve(fabric.ctx.assignment(a).dst, comp) != fabric.resolve(
            fabric.ctx.assignment(a).src,
            comp,
        ),
        fabric.resolve(fabric.ctx.assignment(a).src, comp).0 < ports.len(),
        forall|p: PortRef|
            fabric.ctx.guard_ports(fabric.ctx.assignment(a).guard.0 as int).contains(p)
                ==> #[trigger] fabric.resolve(p, comp).0 < ports.len() && fabric.resolve(p, comp)
                != fabric.resolve(fabric.ctx.assignment(a).dst, comp),
        fabric.assign(a, comp, ports).error is None,
    ensures
        fabric.assign(a, comp, fabric.assign(a, comp, ports).ports) == fabric.assign(
            a,
            comp,
            ports,
        ),
{
    let assignment = fabric.ctx.assignment(a);
    let after = fabric.assign(a, comp, ports).ports;
    assignment_changes_only_its_target(fabric, a, comp, ports);
    assert forall|p: PortRef|
        fabric.ctx.guard_ports(assignment.guard.0 as int).contains(p) implies #[trigger] carried(
        fabric,
        p,
        comp,
        ports,
    ) == carried(fabric, p, comp, after) by {
        assert(fabric.resolve(p, comp).0 < ports.len());
    }
    guard_depends_on_its_ports(fabric, assignment.guard.0 as int, comp, ports, after);
}

/// A primitive that reports no change has made none.
pub open spec fn honest<P: Primitive>(state: P::State) -> bool {
    forall|ports: Seq<PortView>|
        (#[trigger] P::comb(state, ports)).result == Ok::<UpdateStatus, ErrorView>(
            UpdateStatus::Unchanged,
        ) ==> P::comb(state, ports).ports == ports
}

/// All primitives of a design are honest.
pub open spec fn all_honest<P: Primitive>(fabric: Fabric<P>) -> bool {
    forall|g: int|
        0 <= g < fabric.cells.len() ==> (#[trigger] fabric.cells[g] matches CellModel::Primitive(s)
            ==> honest::<P>(s))
}

/// The primitives that the interpreter brings along are honest.
pub proof fn standard_primitives_are_honest(state: StdState)
    ensures
        honest::<StdPrimitive>(state),
{
}

proof fn unchanged_cells_keep_ports<P: Primitive>(fabric: Fabric<P>, n: int, ports: Seq<PortView>)
    requires
        all_honest(fabric),
        n <= fabric.cells.len(),
        fabric.comb_cells(n, ports).result == Ok::<UpdateStatus, ErrorView>(
            UpdateStatus::Unchanged,
        ),
    ensures
        fabric.comb_cells(n, ports).ports == ports,
    decreases n,
{
    if n > 0 {
        unchanged_cells_keep_ports(fabric, n - 1, ports);
    }
}

/// Evaluating once more what has settled changes nothing, as long as the
/// assignments alone would change nothing. (What assignments change in the last
/// round does not make for another one.)
pub proof fn settled_design_is_stable<P: Primitive>(
    fabric: Fabric<P>,
    bundle: Bundle,
    ports: Seq<PortView>,
)
    requires
        all_honest(fabric),
        fabric.settles(bundle, ports),
        fabric.settled(bundle, ports).error is None,
        fabric.assign_bundle(
            bundle,
            bundle.len() as int,
            fabric.settled(bundle, ports).ports,
        ) == (Run { ports: fabric.settled(bundle, ports).ports, error: None }),
    ensures
        fabric.round(bundle, fabric.settled(bundle, ports).ports) == (Effect {
            ports: fabric.settled(bundle, ports).ports,
            result: Ok(UpdateStatus::Unchanged),
        }),
        fabric.settles(bundle, fabric.settled(bundle, ports).ports),
        fabric.settled(bundle, fabric.settled(bundle, ports).ports) == fabric.settled(
            bundle,
            ports,
        ),
{
    let end = fabric.settled(bundle, ports).ports;
    let limit = choose|limit: nat|
        (#[trigger] fabric.settle_within(bundle, ports, limit)) is Some;
    let last = last_round(fabric, bundle, ports, limit);
    let assigned = fabric.assign_bundle(bundle, bundle.len() as int, last).ports;
    unchanged_cells_keep_ports(fabric, fabric.cells.len() as int, assigned);
    reveal_with_fuel(Fabric::settle_within, 2);
    assert(fabric.settle_within(bundle, end, 1) == Some(Run { ports: end, error: None }));
    settling_is_unique(fabric, bundle, end, 1);
}

/// What the ports carry when the last round begins.
proof fn last_round<P: Primitive>(
    fabric: Fabric<P>,
    bundle: Bundle,
    ports: Seq<PortView>,
    limit: nat,
) -> (last: Seq<PortView>)
    requires
        fabric.settle_within(bundle, ports, limit) is Some,
        fabric.settle_within(bundle, ports, limit)->0.error is None,
    ensures
        fabric.round(bundle, last) == (Effect {
            ports: fabric.settle_within(bundle, ports, limit)->0.ports,
            result: Ok(UpdateStatus::Unchanged),
        }),
    decreases limit,
{
    let effect = fabric.round(bundle, ports);
    if effect.result == Ok::<UpdateStatus, ErrorView>(UpdateStatus::Changed) {
        last_round(fabric, bundle, effect.ports, (limit - 1) as nat)
    } else {
        ports
    }
}

// Sweeps: where a control point ends up.

pub(crate) proof fn sweep_places<P: Primitive>(
    fabric: Fabric<P>,
    points: Seq<ControlPoint>,
    ports: Seq<PortView>,
    n: int,
    k: int,
)
    requires
        0 <= k < n <= points.len(),
    ensures
        ({
            let sweep = fabric.sweep(points, ports, n);
            match fabric.advance(points[k], ports) {
                Advance::Move(next) => sweep.kept.contains(next),
                Advance::End => true,
                Advance::Leaf => sweep.kept.contains(points[k]) && sweep.leaves.contains(
                    points[k],
                ),
                Advance::Done(val) => sweep.done.contains((points[k], val)),
            }
        }),
    decreases n,
{
    let before = fabric.sweep(points, ports, n - 1);
    let after = fabric.sweep(points, ports, n);
    if k < n - 1 {
        sweep_places(fabric, points, ports, n - 1, k);
        assert forall|p: ControlPoint| before.kept.contains(p) implies after.kept.contains(p) by {
            let m = before.kept.index_of(p);
            assert(after.kept[m] == p);
        }
        assert forall|p: ControlPoint| before.leaves.contains(p) implies after.leaves.contains(
            p,
        ) by {
            let m = before.leaves.index_of(p);
            assert(after.leaves[m] == p);
        }
        assert forall|p: (ControlPoint, PortView)|
            before.done.contains(p) implies after.done.contains(p) by {
            let m = before.done.index_of(p);
            assert(after.done[m] == p);
        }
    } else {
        match fabric.advance(points[k], ports) {
            Advance::Move(next) => {
                assert(after.kept.last() == next);
            },
            Advance::End => {},
            Advance::Leaf => {
                assert(after.kept.last() == points[k]);
                assert(after.leaves.last() == points[k]);
            },
            Advance::Done(val) => {
                assert(after.done.last() == (points[k], val));
            },
        }
    }
}

proof fn sweep_sizes<P: Primitive>(
    fabric: Fabric<P>,
    points: Seq<ControlPoint>,
    ports: Seq<PortView>,
    n: int,
)
    requires
        0 <= n,
    ensures
        fabric.sweep(points, ports, n).kept.len() + fabric.sweep(points, ports, n).done.len() <= n,
        fabric.sweep(points, ports, n).leaves.len() <= fabric.sweep(points, ports, n).kept.len(),
    decreases n,
{
    if n > 0 {
        sweep_sizes(fabric, points, ports, n - 1);
    }
}

proof fn follower_is_there<P: Primitive>(
    fabric: Fabric<P>,
    done: Seq<(ControlPoint, PortView)>,
    n: int,
    k: int,
)
    requires
        0 <= k < n <= done.len(),
    ensures
        done[k].0.next(fabric.ctx) matches Some(next) ==> fabric.followers(done, n).contains(next),
    decreases n,
{
    if let Some(next) = done[k].0.next(fabric.ctx) {
        let after = fabric.followers(done, n);
        if k == n - 1 {
            assert(after.last() == next);
        } else {
            let before = fabric.followers(done, n - 1);
            follower_is_there(fabric, done, n - 1, k);
            let m = before.index_of(next);
            assert(after[m] == next);
        }
    }
}

proof fn followers_are_few<P: Primitive>(
    fabric: Fabric<P>,
    done: Seq<(ControlPoint, PortView)>,
    n: int,
)
    requires
        0 <= n,
    ensures
        fabric.followers(done, n).len() <= n,
    decreases n,
{
    if n > 0 {
        followers_are_few(fabric, done, n - 1);
    }
}

/// A control point that moves without running anything is, after a step, where
/// it moved to.
pub proof fn moved_points_arrive<P: Primitive>(
    fabric: Fabric<P>,
    points: Seq<ControlPoint>,
    ports: Seq<PortView>,
    k: int,
)
    requires
        0 <= k < points.len(),
    ensures
        fabric.advance(points[k], ports) matches Advance::Move(next) ==> fabric.step(
            points,
            ports,
        ).points.contains(next),
{
    if let Advance::Move(next) = fabric.advance(points[k], ports) {
        let sweep = fabric.sweep(points, ports, points.len() as int);
        sweep_places(fabric, points, ports, points.len() as int, k);
        let m = sweep.kept.index_of(next);
        assert(fabric.step(points, ports).points[m] == next);
    }
}

/// A control point whose group is not done yet stays active.
pub proof fn running_groups_stay<P: Primitive>(
    fabric: Fabric<P>,
    points: Seq<ControlPoint>,
    ports: Seq<PortView>,
    k: int,
)
    requires
        0 <= k < points.len(),
        fabric.advance(points[k], ports) is Leaf,
    ensures
        fabric.step(points, ports).points.contains(points[k]),
{
    let sweep = fabric.sweep(points, ports, points.len() as int);
    sweep_places(fabric, points, ports, points.len() as int, k);
    let m = sweep.kept.index_of(points[k]);
    assert(fabric.step(points, ports).points[m] == points[k]);
}

/// After a step that succeeds, a group that was done has been left for what
/// follows it.
pub proof fn done_groups_are_followed<P: Primitive>(
    fabric: Fabric<P>,
    points: Seq<ControlPoint>,
    ports: Seq<PortView>,
    k: int,
)
    requires
        0 <= k < points.len(),
        fabric.advance(points[k], ports) is Done,
        fabric.step(points, ports).error is None,
    ensures
        points[k].next(fabric.ctx) matches Some(next) ==> fabric.step(
            points,
            ports,
        ).points.contains(next),
{
    if let Some(next) = points[k].next(fabric.ctx) {
        let sweep = fabric.sweep(points, ports, points.len() as int);
        let val = fabric.advance(points[k], ports)->Done_0;
        sweep_places(fabric, points, ports, points.len() as int, k);
        let m = sweep.done.index_of((points[k], val));
        follower_is_there(fabric, sweep.done, sweep.done.len() as int, m);
        let followers = fabric.followers(sweep.done, sweep.done.len() as int);
        let j = followers.index_of(next);
        assert(fabric.step(points, ports).points[sweep.kept.len() + j] == next);
    }
}

/// A step never adds to the number of active control points.
pub proof fn steps_add_no_points<P: Primitive>(
    fabric: Fabric<P>,
    points: Seq<ControlPoint>,
    ports: Seq<PortView>,
)
    ensures
        fabric.step(points, ports).points.len() <= points.len(),
{
    let sweep = fabric.sweep(points, ports, points.len() as int);
    sweep_sizes(fabric, points, ports, points.len() as int);
    followers_are_few(fabric, sweep.done, sweep.done.len() as int);
}

/// A program that is done stays done.
pub proof fn done_programs_stay_done<P: Primitive>(
    fabric: Fabric<P>,
    points: Seq<ControlPoint>,
    ports: Seq<PortView>,
)
    requires
        points.len() == 0,
    ensures
        fabric.step(points, ports).points.len() == 0,
{
    steps_add_no_points(fabric, points, ports);
}

// Runs.

/// A run of no steps changes nothing, and a program that is done at the start
/// ends with it.
pub proof fn done_programs_do_nothing<P: Primitive>(
    fabric: Fabric<P>,
    points: Seq<ControlPoint>,
    ports: Seq<PortView>,
)
    ensures
        fabric.run(points, ports, 0) == (Stepped {
            cells: fabric.cells,
            ports,
            points,
            error: None,
        }),
        fabric.ends_after(points, ports, 0) <==> points.len() == 0,
        points.len() == 0 ==> fabric.outcome(points, ports) == fabric.run(points, ports, 0),
{
    if points.len() == 0 {
        assert(fabric.ends_after(points, ports, 0));
        let n = choose|n: nat| #[trigger] fabric.ends_after(points, ports, n);
        runs_end_once(fabric, points, ports, 0, n);
    }
}

/// Once a run is over, it stays as it is.
pub proof fn ended_runs_stay<P: Primitive>(
    fabric: Fabric<P>,
    points: Seq<ControlPoint>,
    ports: Seq<PortView>,
    n: nat,
    m: nat,
)
    requires
        n <= m,
        fabric.run(points, ports, n).is_over(),
    ensures
        fabric.run(points, ports, m) == fabric.run(points, ports, n),
    decreases m,
{
    if n < m {
        ended_runs_stay(fabric, points, ports, n, (m - 1) as nat);
    }
}

/// A run that is over after some steps has ended after a least number of them,
/// and what there was then is its outcome.
pub proof fn runs_end_at_the_first_end<P: Primitive>(
    fabric: Fabric<P>,
    points: Seq<ControlPoint>,
    ports: Seq<PortView>,
    n: nat,
) -> (end: nat)
    requires
        fabric.run(points, ports, n).is_over(),
    ensures
        end <= n,
        fabric.ends_after(points, ports, end),
        fabric.outcome(points, ports) == fabric.run(points, ports, end),
        fabric.outcome(points, ports) == fabric.run(points, ports, n),
    decreases n,
{
    if n > 0 && fabric.run(points, ports, (n - 1) as nat).is_over() {
        let end = runs_end_at_the_first_end(fabric, points, ports, (n - 1) as nat);
        ended_runs_stay(fabric, points, ports, (n - 1) as nat, n);
        end
    } else {
        assert forall|m: nat| m < n implies !(#[trigger] fabric.run(
            points,
            ports,
            m,
        )).is_over() by {
            if fabric.run(points, ports, m).is_over() {
                ended_runs_stay(fabric, points, ports, m, (n - 1) as nat);
            }
        }
        assert(fabric.ends_after(points, ports, n));
        let other = choose|other: nat| #[trigger] fabric.ends_after(points, ports, other);
        runs_end_once(fabric, points, ports, n, other);
        n
    }
}

/// A run that ends without an error ends as soon as no control point is left.
pub proof fn runs_end_when_no_point_is_left<P: Primitive>(
    fabric: Fabric<P>,
    points: Seq<ControlPoint>,
    ports: Seq<PortView>,
    n: nat,
)
    requires
        fabric.ends_after(points, ports, n),
        fabric.outcome(points, ports).error is None,
    ensures
        fabric.outcome(points, ports) == fabric.run(points, ports, n),
        fabric.run(points, ports, n).points.len() == 0,
        forall|m: nat|
            m < n ==> (#[trigger] fabric.run(points, ports, m)).points.len() > 0 && fabric.run(
                points,
                ports,
                m,
            ).error is None,
{
    let other = choose|other: nat| #[trigger] fabric.ends_after(points, ports, other);
    runs_end_once(fabric, points, ports, n, other);
}

/// The first step that fails ends a run, and its error is the run's.
pub proof fn first_error_ends_the_run<P: Primitive>(
    fabric: Fabric<P>,
    points: Seq<ControlPoint>,
    ports: Seq<PortView>,
    n: nat,
)
    requires
        !fabric.run(points, ports, n).is_over(),
        fabric.after(fabric.run(points, ports, n)).step(
            fabric.run(points, ports, n).points,
            fabric.run(points, ports, n).ports,
        ).error is Some,
    ensures
        fabric.ends_after(points, ports, n + 1),
        fabric.outcome(points, ports) == fabric.after(fabric.run(points, ports, n)).step(
            fabric.run(points, ports, n).points,
            fabric.run(points, ports, n).ports,
        ),
        forall|m: nat| m <= n ==> (#[trigger] fabric.run(points, ports, m)).error is None,
{
    assert forall|m: nat| m <= n implies !(#[trigger] fabric.run(points, ports, m)).is_over() by {
        if fabric.run(points, ports, m).is_over() {
            ended_runs_stay(fabric, points, ports, m, n);
        }
    }
    assert(fabric.ends_after(points, ports, n + 1));
    let other = choose|other: nat| #[trigger] fabric.ends_after(points, ports, other);
    runs_end_once(fabric, points, ports, n + 1, other);
}

// What the ports carry when evaluation begins.

pub(crate) proof fn keep_done_len<P: Primitive>(
    fabric: Fabric<P>,
    done: Seq<(ControlPoint, PortView)>,
    n: int,
    ports: Seq<PortView>,
)
    requires
        n <= done.len(),
        forall|k: int|
            0 <= k < done.len() ==> fabric.go_port((#[trigger] done[k]).0).0 < ports.len()
                && fabric.done_port(done[k].0).0 < ports.len(),
    ensures
        fabric.keep_done(done, n, ports).len() == ports.len(),
    decreases n,
{
    if n > 0 {
        keep_done_len(fabric, done, n - 1, ports);
    }
}

pub(crate) proof fn start_leaves_len<P: Primitive>(
    fabric: Fabric<P>,
    leaves: Seq<ControlPoint>,
    n: int,
    ports: Seq<PortView>,
)
    requires
        n <= leaves.len(),
        forall|k: int|
            0 <= k < leaves.len() ==> fabric.go_port(#[trigger] leaves[k]).0 < ports.len(),
    ensures
        fabric.start_leaves(leaves, n, ports).len() == ports.len(),
    decreases n,
{
    if n > 0 {
        start_leaves_len(fabric, leaves, n - 1, ports);
    }
}

proof fn started_go_is_high<P: Primitive>(
    fabric: Fabric<P>,
    leaves: Seq<ControlPoint>,
    n: int,
    ports: Seq<PortView>,
    k: int,
)
    requires
        0 <= k < n <= leaves.len(),
        forall|m: int|
            0 <= m < leaves.len() ==> fabric.go_port(#[trigger] leaves[m]).0 < ports.len(),
    ensures
        fabric.start_leaves(leaves, n, ports)[fabric.go_port(leaves[k]).0 as int]
            == implicit_high(),
    decreases n,
{
    start_leaves_len(fabric, leaves, n - 1, ports);
    if k < n - 1 {
        started_go_is_high(fabric, leaves, n - 1, ports, k);
    }
}

/// The holes of the groups that run or are done are ports.
pub open spec fn holes_in_range<P: Primitive>(
    fabric: Fabric<P>,
    sweep: Sweep,
    ports: nat,
) -> bool {
    &&& forall|k: int|
        0 <= k < sweep.leaves.len() ==> fabric.go_port(#[trigger] sweep.leaves[k]).0 < ports
    &&& forall|k: int|
        0 <= k < sweep.done.len() ==> fabric.go_port((#[trigger] sweep.done[k]).0).0 < ports
            && fabric.done_port(sweep.done[k].0).0 < ports
}

/// When evaluation begins, the go hole of every group that runs is high.
pub proof fn running_groups_are_started<P: Primitive>(
    fabric: Fabric<P>,
    points: Seq<ControlPoint>,
    ports: Seq<PortView>,
    k: int,
)
    requires
        0 <= k < points.len(),
        fabric.advance(points[k], ports) is Leaf,
        holes_in_range(fabric, fabric.sweep(points, ports, points.len() as int), ports.len()),
    ensures
        fabric.prepared(
            fabric.sweep(points, ports, points.len() as int),
            ports,
        )[fabric.go_port(points[k]).0 as int] == implicit_high(),
{
    let sweep = fabric.sweep(points, ports, points.len() as int);
    let nothing = Seq::<PortView>::new(ports.len(), |i: int| None);
    let kept = fabric.keep_done(sweep.done, sweep.done.len() as int, nothing);
    sweep_places(fabric, points, ports, points.len() as int, k);
    keep_done_len(fabric, sweep.done, sweep.done.len() as int, nothing);
    let m = sweep.leaves.index_of(points[k]);
    started_go_is_high(fabric, sweep.leaves, sweep.leaves.len() as int, kept, m);
}

/// A port is a hole of a group that runs or is done.
pub open spec fn is_active_hole<P: Primitive>(fabric: Fabric<P>, sweep: Sweep, port: int) -> bool {
    ||| exists|k: int|
        0 <= k < sweep.leaves.len() && fabric.go_port(#[trigger] sweep.leaves[k]).0 == port
    ||| exists|k: int|
        0 <= k < sweep.done.len() && (fabric.go_port((#[trigger] sweep.done[k]).0).0 == port
            || fabric.done_port(sweep.done[k].0).0 == port)
}

/// When evaluation begins, no port carries anything but the holes of the groups
/// that run or are done.
pub proof fn only_active_holes_carry<P: Primitive>(
    fabric: Fabric<P>,
    sweep: Sweep,
    ports: Seq<PortView>,
    port: int,
)
    requires
        0 <= port < ports.len(),
        holes_in_range(fabric, sweep, ports.len()),
        !is_active_hole(fabric, sweep, port),
    ensures
        fabric.prepared(sweep, ports)[port] is None,
{
    let nothing = Seq::<PortView>::new(ports.len(), |i: int| None);
    let kept = fabric.keep_done(sweep.done, sweep.done.len() as int, nothing);
    done_leaves_others(fabric, sweep, sweep.done.len() as int, nothing, port);
    keep_done_len(fabric, sweep.done, sweep.done.len() as int, nothing);
    start_leaves_others(fabric, sweep, sweep.leaves.len() as int, kept, port);
}

proof fn done_leaves_others<P: Primitive>(
    fabric: Fabric<P>,
    sweep: Sweep,
    n: int,
    ports: Seq<PortView>,
    port: int,
)
    requires
        0 <= n <= sweep.done.len(),
        0 <= port < ports.len(),
        holes_in_range(fabric, sweep, ports.len()),
        !is_active_hole(fabric, sweep, port),
    ensures
        fabric.keep_done(sweep.done, n, ports)[port] == ports[port],
    decreases n,
{
    if n > 0 {
        done_leaves_others(fabric, sweep, n - 1, ports, port);
        keep_done_len(fabric, sweep.done, n - 1, ports);
        let point = sweep.done[n - 1].0;
        assert(fabric.go_port(point).0 != port && fabric.done_port(point).0 != port);
    }
}

proof fn start_leaves_others<P: Primitive>(
    fabric: Fabric<P>,
    sweep: Sweep,
    n: int,
    ports: Seq<PortView>,
    port: int,
)
    requires
        0 <= n <= sweep.leaves.len(),
        0 <= port < ports.len(),
        holes_in_range(fabric, sweep, ports.len()),
        !is_active_hole(fabric, sweep, port),
    ensures
        fabric.start_leaves(sweep.leaves, n, ports)[port] == ports[port],
    decreases n,
{
    if n > 0 {
        start_leaves_others(fabric, sweep, n - 1, ports, port);
        start_leaves_len(fabric, sweep.leaves, n - 1, ports);
        let point = sweep.leaves[n - 1];
        assert(fabric.go_port(point).0 != port);
    }
}

} // verus!
