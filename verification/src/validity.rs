//! What it takes for a program to be valid.

use crate::context::{CellPrototype, Context, ControlNode, Guard};
use crate::graph::acyclic;
use crate::index::{ComponentIdx, PortRef};
use vstd::prelude::*;

verus! {

/// The cells of a component are at their places: each is as many cells behind
/// the first as the cells before it take, and the ports of a primitive come
/// right behind those of everything before it.
pub open spec fn cells_in_place(ctx: Context, c: int) -> bool {
    forall|i: int|
        0 <= i < ctx.entries(c).len() ==> {
            let (offset, def) = #[trigger] ctx.entries(c)[i];
            let info = ctx.secondary.cells@[def.0 as int];
            let before = ctx.walk(c, i);
            &&& def.0 < ctx.secondary.cells@.len()
            &&& offset.0 == before.cell
            &&& match info.prototype {
                CellPrototype::Component(k) => k.0 < ctx.secondary.components@.len() && (
                info.ports.start.0 < info.ports.end.0 ==> before.port <= info.ports.start.0
                    && info.ports.end.0 <= before.port
                    + ctx.secondary.components@[k.0 as int].port_offset_map.count),
                _ => info.ports.start.0 < info.ports.end.0 ==> info.ports.start.0 == before.port,
            }
        }
}

/// The ref cells of a component are at their places: they follow the ref cells
/// of the instances inside, one by one, and so do their ports.
pub open spec fn ref_cells_in_place(ctx: Context, c: int) -> bool {
    let refs = ctx.secondary.components@[c].ref_cell_offset_map@;
    forall|i: int|
        0 <= i < refs.len() ==> {
            let (offset, def) = #[trigger] refs[i];
            let info = ctx.secondary.ref_cells@[def.0 as int];
            &&& def.0 < ctx.secondary.ref_cells@.len()
            &&& offset.0 == ctx.walk(c, ctx.entries(c).len() as int).ref_cell + i
            &&& info.ports.start.0 < info.ports.end.0 ==> info.ports.start.0 == ctx.ref_walk(c, i)
        }
}

/// The holes of the groups of a component follow its signature, two by two.
pub open spec fn holes_in_place(ctx: Context, c: int) -> bool {
    let comp = ctx.secondary.components@[c];
    forall|g: int|
        comp.definitions.groups.start.0 <= g < comp.definitions.groups.end.0 ==> {
            let group = #[trigger] ctx.primary.groups@[g];
            let place = comp.signature.len() + 2 * (g - comp.definitions.groups.start.0);
            ||| group.go.0 == place && group.done.0 == place + 1
            ||| group.done.0 == place && group.go.0 == place + 1
        }
}

/// A component has everything at its place exactly when its signature comes
/// first, the holes of its groups follow, then its cells, then its ref cells,
/// and it takes as much room as they do together.
pub proof fn what_placing_takes(ctx: Context, c: int)
    ensures
        ctx.placed(c) <==> {
            let comp = ctx.secondary.components@[c];
            let groups = comp.definitions.groups;
            let end = ctx.walk(c, ctx.entries(c).len() as int);
            let refs = comp.ref_cell_offset_map@.len() as int;
            &&& comp.signature.start.0 < comp.signature.end.0 ==> comp.signature.start.0 == 0
            &&& groups.start.0 < groups.end.0 ==> groups.end.0 <= ctx.primary.groups@.len()
            &&& holes_in_place(ctx, c)
            &&& cells_in_place(ctx, c)
            &&& ref_cells_in_place(ctx, c)
            &&& comp.port_offset_map.count == end.port
            &&& comp.cell_offset_map.count == end.cell
            &&& comp.ref_cell_offset_map.count == end.ref_cell + refs
            &&& comp.ref_port_offset_map.count == ctx.ref_walk(c, refs)
        },
{
    let groups = ctx.secondary.components@[c].definitions.groups;
    if ctx.placed(c) {
        assert forall|g: int| groups.start.0 <= g < groups.end.0 implies {
            let group = #[trigger] ctx.primary.groups@[g];
            let place = ctx.comp(c).signature.len() + 2 * (g - groups.start.0);
            ||| group.go.0 == place && group.done.0 == place + 1
            ||| group.done.0 == place && group.go.0 == place + 1
        } by {
            assert(ctx.holes_placed(c, g - groups.start.0));
        }
        assert forall|i: int| 0 <= i < ctx.entries(c).len() implies {
            let (offset, def) = #[trigger] ctx.entries(c)[i];
            let info = ctx.secondary.cells@[def.0 as int];
            let before = ctx.walk(c, i);
            &&& def.0 < ctx.secondary.cells@.len()
            &&& offset.0 == before.cell
            &&& match info.prototype {
                CellPrototype::Component(k) => k.0 < ctx.secondary.components@.len() && (
                info.ports.start.0 < info.ports.end.0 ==> before.port <= info.ports.start.0
                    && info.ports.end.0 <= before.port
                    + ctx.secondary.components@[k.0 as int].port_offset_map.count),
                _ => info.ports.start.0 < info.ports.end.0 ==> info.ports.start.0 == before.port,
            }
        } by {
            assert(ctx.entry_placed(c, i));
        }
        assert forall|i: int| 0 <= i < ctx.ref_entries(c).len() implies {
            let (offset, def) = #[trigger] ctx.ref_entries(c)[i];
            let info = ctx.secondary.ref_cells@[def.0 as int];
            &&& def.0 < ctx.secondary.ref_cells@.len()
            &&& offset.0 == ctx.walk(c, ctx.entries(c).len() as int).ref_cell + i
            &&& info.ports.start.0 < info.ports.end.0 ==> info.ports.start.0 == ctx.ref_walk(c, i)
        } by {
            assert(ctx.ref_entry_placed(c, i));
        }
    }
    if holes_in_place(ctx, c) {
        assert forall|j: int| 0 <= j < groups.len() implies #[trigger] ctx.holes_placed(c, j) by {
            let group = ctx.primary.groups@[groups.start.0 + j];
        }
    }
    if cells_in_place(ctx, c) {
        assert forall|i: int| 0 <= i < ctx.entries(c).len() implies #[trigger] ctx.entry_placed(
            c,
            i,
        ) by {
            let entry = ctx.entries(c)[i];
        }
    }
    if ref_cells_in_place(ctx, c) {
        assert forall|i: int|
            0 <= i < ctx.ref_entries(c).len() implies #[trigger] ctx.ref_entry_placed(c, i) by {
            let entry = ctx.ref_entries(c)[i];
        }
    }
}

/// The ref ports of a component's ref cells follow those of the instances
/// inside, without gaps.
pub proof fn ref_ports_are_packed(ctx: Context, c: int, i: int)
    requires
        0 <= i,
    ensures
        ctx.ref_walk(c, 0) == ctx.walk(c, ctx.entries(c).len() as int).ref_port,
        ctx.ref_walk(c, i + 1) == ctx.ref_walk(c, i) + ctx.secondary.ref_cells@[
            ctx.secondary.components@[c].ref_cell_offset_map@[i].1.0 as int
        ].ports.len(),
{
}

/// A program can be laid out exactly when its tables agree, its entry component
/// is one of them and leaves room for its own cell, no component of the design
/// contains itself, and the parts of every component of the design are at their
/// places.
pub proof fn what_laying_out_takes(ctx: Context)
    ensures
        ctx.layable() <==> {
            let count = ctx.secondary.components@.len();
            &&& ctx.primary.components@.len() == count
            &&& ctx.entry_point.0 < count
            &&& ctx.secondary.components@[ctx.entry_point.0 as int].cell_offset_map.count
                < usize::MAX
            &&& acyclic(ctx.component_graph())
            &&& forall|c: int| ctx.present(c) ==> #[trigger] ctx.placed(c)
        },
{
}

/// Which component contains which: in the row of a component of the design are
/// exactly those of which it lists an instance, and the row of any other is
/// empty.
pub proof fn containment_follows_the_lists(ctx: Context, c: int, d: usize)
    requires
        0 <= c < ctx.secondary.components@.len(),
    ensures
        ctx.component_graph().len() == ctx.secondary.components@.len(),
        !ctx.present(c) ==> ctx.component_graph()[c].len() == 0,
        ctx.present(c) ==> (ctx.component_graph()[c].contains(d) <==> exists|i: int|
            0 <= i < ctx.secondary.components@[c].cell_offset_map@.len() && (
            #[trigger] ctx.listed_def(c, i)).prototype == CellPrototype::Component(
                ComponentIdx(d),
            )),
{
    contained_so_far(ctx, c, ctx.listed(c).len() as int, d);
}

proof fn contained_so_far(ctx: Context, c: int, n: int, d: usize)
    requires
        0 <= n,
    ensures
        ctx.instantiated(c, n).contains(d) <==> exists|i: int|
            0 <= i < n && (#[trigger] ctx.listed_def(c, i)).prototype == CellPrototype::Component(
                ComponentIdx(d),
            ),
    decreases n,
{
    if n > 0 {
        contained_so_far(ctx, c, n - 1, d);
        let before = ctx.instantiated(c, n - 1);
        let after = ctx.instantiated(c, n);
        if before.contains(d) {
            let j = before.index_of(d);
            assert(after[j] == d);
        }
        if after.contains(d) {
            let j = after.index_of(d);
            if j < before.len() {
                assert(before[j] == d);
            } else {
                assert(ctx.listed_def(c, n - 1).prototype is Component);
            }
        }
        if let CellPrototype::Component(k) = ctx.listed_def(c, n - 1).prototype {
            assert(after[after.len() - 1] == k.0);
        }
    }
}

/// A reference lies within a component exactly when the component has as many
/// ports, or ref ports, as it counts.
pub proof fn references_that_fit(ctx: Context, c: int, port: PortRef)
    ensures
        ctx.ref_fits(c, port) <==> match port {
            PortRef::Local(l) => l.0 < ctx.secondary.components@[c].port_offset_map.count,
            PortRef::Ref(r) => r.0 < ctx.secondary.components@[c].ref_port_offset_map.count,
        },
{
}

/// An assignment stays within a component exactly when its guard is there and
/// its source, its target and every port that its guard reads lie within it.
pub proof fn assignments_that_fit(ctx: Context, c: int, a: int)
    ensures
        ctx.assignment_fits(c, a) <==> {
            let assignment = ctx.primary.assignments@[a];
            &&& assignment.guard.0 < ctx.primary.guards@.len()
            &&& ctx.ref_fits(c, assignment.src)
            &&& ctx.ref_fits(c, assignment.dst)
            &&& forall|p: PortRef|
                ctx.guard_ports(assignment.guard.0 as int).contains(p) ==> #[trigger] ctx.ref_fits(
                    c,
                    p,
                )
        },
{
    let assignment = ctx.assignment(a);
    if ctx.assignment_fits(c, a) {
        assert(ctx.assignment_ports(a).contains(assignment.src));
        assert(ctx.assignment_ports(a).contains(assignment.dst));
        assert forall|p: PortRef|
            ctx.guard_ports(assignment.guard.0 as int).contains(p) implies #[trigger] ctx.ref_fits(
            c,
            p,
        ) by {
            assert(ctx.assignment_ports(a).contains(p));
        }
    }
}

/// A component can be run exactly when its control program and its groups are
/// there and stay within it: its root is one of its nodes, the nodes below and
/// above its nodes are its own, what its nodes enable are its own groups, what
/// they decide on are its own ports, and the assignments of its groups fit.
pub proof fn what_running_a_component_takes(ctx: Context, c: int)
    ensures
        ctx.runnable(c) <==> {
            let control = ctx.secondary.components@[c].definitions.control;
            let groups = ctx.secondary.components@[c].definitions.groups;
            &&& ctx.primary.components@[c].control matches Some(root) ==> control.has(
                root.0 as int,
            )
            &&& control.start.0 < control.end.0 ==> control.end.0 <= ctx.primary.control@.len()
            &&& forall|n: int| #[trigger] control.has(n) ==> node_stays_inside(ctx, c, n)
            &&& forall|p: int, i: int|
                0 <= p < ctx.primary.control@.len() && 0 <= i
                    < ctx.primary.control@[p].children().len() && control.has(
                    (#[trigger] ctx.primary.control@[p].children()[i]).0 as int,
                ) ==> control.has(p)
            &&& forall|g: int| #[trigger] groups.has(g) ==> group_stays_inside(ctx, c, g)
        },
{
    let control = ctx.comp(c).definitions.control;
    let groups = ctx.comp(c).definitions.groups;
    assert forall|n: int| 0 <= n < ctx.primary.control@.len() implies (#[trigger] ctx.node_fits(
        c,
        n,
    ) <==> node_stays_inside(ctx, c, n)) by {
        let node = ctx.control(n);
        if ctx.node_fits(c, n) {
            assert forall|i: int| 0 <= i < node.children().len() implies control.has(
                (#[trigger] node.children()[i]).0 as int,
            ) by {
                assert(ctx.control_graph()[n][i] == node.children()[i].0);
            }
        }
    }
    if ctx.runnable(c) {
        assert forall|n: int| #[trigger] control.has(n) implies node_stays_inside(ctx, c, n) by {
            assert(ctx.node_fits(c, n));
        }
        assert forall|p: int, i: int|
            0 <= p < ctx.primary.control@.len() && 0 <= i < ctx.primary.control@[p].children().len()
                && control.has((#[trigger] ctx.primary.control@[p].children()[i]).0 as int) implies
            control.has(p) by {
            assert(ctx.control_graph()[p][i] == ctx.control(p).children()[i].0);
        }
        assert forall|g: int| #[trigger] groups.has(g) implies group_stays_inside(ctx, c, g) by {
            assert(ctx.group_fits(c, g));
        }
    }
    if control.start.0 < control.end.0 ==> control.end.0 <= ctx.primary.control@.len() {
        if forall|n: int| #[trigger] control.has(n) ==> node_stays_inside(ctx, c, n) {
            assert forall|n: int| control.has(n) implies #[trigger] ctx.node_fits(c, n) by {}
        }
        if forall|p: int, i: int|
            0 <= p < ctx.primary.control@.len() && 0 <= i < ctx.primary.control@[p].children().len()
                && control.has((#[trigger] ctx.primary.control@[p].children()[i]).0 as int)
                ==> control.has(p) {
            assert forall|p: int, i: int|
                0 <= p < ctx.primary.control@.len() && 0 <= i < ctx.control_graph()[p].len()
                    && control.has((#[trigger] ctx.control_graph()[p][i]) as int) implies control.has(
                p,
            ) by {
                assert(ctx.control_graph()[p][i] == ctx.primary.control@[p].children()[i].0);
            }
        }
        if forall|g: int| #[trigger] groups.has(g) ==> group_stays_inside(ctx, c, g) {
            assert forall|g: int| groups.has(g) implies #[trigger] ctx.group_fits(c, g) by {
                assert(groups.has(g));
            }
        }
    }
}

/// A control node of a component refers only to what is the component's.
pub open spec fn node_stays_inside(ctx: Context, c: int, n: int) -> bool {
    let comp = ctx.secondary.components@[c];
    let node = ctx.primary.control@[n];
    &&& forall|i: int|
        0 <= i < node.children().len() ==> comp.definitions.control.has(
            (#[trigger] node.children()[i]).0 as int,
        )
    &&& match node {
        ControlNode::Enable(g) => comp.definitions.groups.has(g.0 as int),
        ControlNode::If(i) => ctx.ref_fits(c, i.cond_port),
        ControlNode::While(w) => ctx.ref_fits(c, w.cond_port),
        _ => true,
    }
}

/// The assignments of a group are there and fit into a component.
pub open spec fn group_stays_inside(ctx: Context, c: int, g: int) -> bool {
    let range = ctx.primary.groups@[g].assignments;
    &&& range.start.0 < range.end.0 ==> range.end.0 <= ctx.primary.assignments@.len()
    &&& forall|a: int|
        range.start.0 <= a < range.end.0 ==> #[trigger] ctx.assignment_fits(c, a)
}

/// A program can be run exactly when it can be laid out, no guard and no control
/// node is below itself, no control node is below two places, and every
/// component of the design can be run.
pub proof fn what_running_takes(ctx: Context)
    ensures
        ctx.wf() <==> {
            &&& ctx.layable()
            &&& acyclic(ctx.guard_graph())
            &&& acyclic(ctx.control_graph())
            &&& below_one_place(ctx)
            &&& forall|c: int| ctx.present(c) ==> #[trigger] ctx.runnable(c)
        },
{
    if ctx.control_is_forest() {
        assert forall|p: int, i: int, q: int, j: int|
            0 <= p < ctx.primary.control@.len() && 0 <= q < ctx.primary.control@.len() && 0 <= i
                < ctx.primary.control@[p].children().len() && 0 <= j
                < ctx.primary.control@[q].children().len() && (
            #[trigger] ctx.primary.control@[p].children()[i]) == (
            #[trigger] ctx.primary.control@[q].children()[j]) implies p == q && i == j by {
            assert(ctx.control_graph()[p][i] == ctx.control_graph()[q][j]);
        }
    }
    if below_one_place(ctx) {
        assert forall|p: int, i: int, q: int, j: int|
            #![trigger ctx.control_graph()[p][i], ctx.control_graph()[q][j]]
            0 <= p < ctx.primary.control@.len() && 0 <= i < ctx.control_graph()[p].len() && 0 <= q
                < ctx.primary.control@.len() && 0 <= j < ctx.control_graph()[q].len()
                && ctx.control_graph()[p][i] == ctx.control_graph()[q][j] implies p == q && i
            == j by {
            let a = ctx.primary.control@[p].children()[i];
            let b = ctx.primary.control@[q].children()[j];
        }
    }
}

/// No control node is directly below two nodes, or twice below one.
pub open spec fn below_one_place(ctx: Context) -> bool {
    forall|p: int, i: int, q: int, j: int|
        0 <= p < ctx.primary.control@.len() && 0 <= q < ctx.primary.control@.len() && 0 <= i
            < ctx.primary.control@[p].children().len() && 0 <= j
            < ctx.primary.control@[q].children().len() && (
        #[trigger] ctx.primary.control@[p].children()[i]) == (
        #[trigger] ctx.primary.control@[q].children()[j]) ==> p == q && i == j
}

/// Which guard and which control node is below which: the parts of a compound
/// guard, and the statements of a control node, in order.
pub proof fn graphs_follow_the_tables(ctx: Context, g: int, n: int)
    requires
        0 <= g < ctx.primary.guards@.len(),
        0 <= n < ctx.primary.control@.len(),
    ensures
        ctx.guard_graph().len() == ctx.primary.guards@.len(),
        ctx.guard_graph()[g] == match ctx.primary.guards@[g] {
            Guard::Or(a, b) => seq![a.0, b.0],
            Guard::And(a, b) => seq![a.0, b.0],
            Guard::Not(a) => seq![a.0],
            _ => Seq::empty(),
        },
        ctx.control_graph().len() == ctx.primary.control@.len(),
        ctx.control_graph()[n].len() == ctx.primary.control@[n].children().len(),
        forall|i: int|
            0 <= i < ctx.control_graph()[n].len() ==> #[trigger] ctx.control_graph()[n][i]
                == ctx.primary.control@[n].children()[i].0,
{
}

/// Everything that is reported by name has one exactly when the entry component
/// has a name, and so has every cell that a component of the design lists and
/// every port of such a cell.
pub proof fn what_naming_takes(ctx: Context)
    ensures
        ctx.named() <==> {
            let names = ctx.secondary.names@.len();
            &&& ctx.secondary.components@[ctx.entry_point.0 as int].name.0 < names
            &&& forall|c: int, i: int|
                ctx.present(c) && 0 <= i < ctx.secondary.components@[c].cell_offset_map@.len()
                    ==> (#[trigger] ctx.listed_def(c, i)).name.0 < names
            &&& forall|c: int, i: int, port: int|
                ctx.present(c) && 0 <= i < ctx.secondary.components@[c].cell_offset_map@.len()
                    && #[trigger] ctx.listed_def(c, i).ports.has(port) ==> port_has_name(
                    ctx,
                    c,
                    port,
                )
        },
{
    if ctx.named() {
        assert forall|c: int, i: int|
            ctx.present(c) && 0 <= i < ctx.secondary.components@[c].cell_offset_map@.len() implies (
        #[trigger] ctx.listed_def(c, i)).name.0 < ctx.secondary.names@.len() by {
            assert(ctx.component_named(c));
            assert(ctx.entry_named(c, i));
        }
        assert forall|c: int, i: int, port: int|
            ctx.present(c) && 0 <= i < ctx.secondary.components@[c].cell_offset_map@.len()
                && #[trigger] ctx.listed_def(c, i).ports.has(port) implies port_has_name(
            ctx,
            c,
            port,
        ) by {
            assert(ctx.component_named(c));
            assert(ctx.entry_named(c, i));
            assert(ctx.port_named(c, port));
        }
    } else if ctx.comp(ctx.entry_point.0 as int).name.0 < ctx.secondary.names@.len() {
        let c = choose|c: int| ctx.present(c) && !#[trigger] ctx.component_named(c);
        let i = choose|i: int|
            0 <= i < ctx.listed(c).len() && !#[trigger] ctx.entry_named(c, i);
        let info = ctx.listed_def(c, i);
        if info.name.0 < ctx.secondary.names@.len() {
            let port = choose|port: int| info.ports.has(port) && !#[trigger] ctx.port_named(c, port);
            assert(ctx.listed_def(c, i).ports.has(port));
        }
    }
}

/// A port of a component is there, is defined and has a name.
pub open spec fn port_has_name(ctx: Context, c: int, port: int) -> bool {
    let map = ctx.secondary.components@[c].port_offset_map;
    let def = map.lookup(port);
    &&& port < map.count
    &&& map.has_key(port)
    &&& def.0 < ctx.secondary.ports@.len()
    &&& ctx.secondary.ports@[def.0 as int].name.0 < ctx.secondary.names@.len()
}

} // verus!
