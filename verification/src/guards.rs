//! What guards and comparisons stand for.

use crate::context::{Guard, PortComp};
use crate::fabric::{Fabric, compares};
use crate::graph::{acyclic, rank_of};
use crate::index::{GlobalCellIdx, GlobalPortIdx, PortRef};
use crate::layout::CellModel;
use crate::ports::{PortView, truth};
use crate::primitive::Primitive;
use crate::values::{high_means_not_zero, unsigned, unsigned_injective};
use vstd::prelude::*;

verus! {

/// Comparing two values of one width compares the numbers that they stand for.
pub proof fn comparisons_compare_numbers(a: Seq<bool>, b: Seq<bool>)
    requires
        a.len() == b.len(),
    ensures
        compares(PortComp::Eq, a, b) <==> unsigned(a) == unsigned(b),
        compares(PortComp::Neq, a, b) <==> unsigned(a) != unsigned(b),
        compares(PortComp::Lt, a, b) <==> unsigned(a) < unsigned(b),
        compares(PortComp::Gt, a, b) <==> unsigned(a) > unsigned(b),
        compares(PortComp::Leq, a, b) <==> unsigned(a) <= unsigned(b),
        compares(PortComp::Geq, a, b) <==> unsigned(a) >= unsigned(b),
{
    if unsigned(a) == unsigned(b) {
        unsigned_injective(a, b);
    }
}

/// Values of different widths are different, and that is all that holds of
/// them.
pub proof fn widths_tell_values_apart(op: PortComp, a: Seq<bool>, b: Seq<bool>)
    requires
        a.len() != b.len(),
    ensures
        compares(op, a, b) <==> op == PortComp::Neq,
{
}

/// Exchanging what is compared turns an order around and leaves equality as it
/// is.
pub proof fn comparisons_turn_around(a: Seq<bool>, b: Seq<bool>)
    ensures
        compares(PortComp::Eq, a, b) == compares(PortComp::Eq, b, a),
        compares(PortComp::Neq, a, b) == !compares(PortComp::Eq, a, b),
        compares(PortComp::Lt, a, b) == compares(PortComp::Gt, b, a),
        compares(PortComp::Leq, a, b) == compares(PortComp::Geq, b, a),
        a.len() == b.len() ==> compares(PortComp::Lt, a, b) == !compares(PortComp::Geq, a, b),
        a.len() == b.len() ==> compares(PortComp::Gt, a, b) == !compares(PortComp::Leq, a, b),
{
    if a.len() == b.len() {
        comparisons_compare_numbers(a, b);
        comparisons_compare_numbers(b, a);
    }
}

/// What a port carries counts as true exactly when it stands for a number other
/// than zero. A port that carries nothing is neither true nor false.
pub proof fn truth_is_not_zero(port: PortView)
    ensures
        truth(port) is None <==> port is None,
        truth(port) == Some(true) <==> (port matches Some(v) && unsigned(v.val) > 0),
        truth(port) == Some(false) <==> (port matches Some(v) && unsigned(v.val) == 0),
{
    if let Some(v) = port {
        high_means_not_zero(v.val);
    }
}

/// A guard over two others, both of which have a value, holds if one of them
/// does where it is a disjunction, and if both do where it is a conjunction.
pub proof fn compound_guards_combine_their_parts<P: Primitive>(
    fabric: Fabric<P>,
    g: int,
    comp: GlobalCellIdx,
    ports: Seq<PortView>,
    x: bool,
    y: bool,
)
    requires
        acyclic(fabric.ctx.guard_graph()),
        0 <= g < fabric.ctx.primary.guards@.len(),
        match fabric.ctx.primary.guards@[g] {
            Guard::Or(a, b) => fabric.guard_value(a.0 as int, comp, ports) == Some(x)
                && fabric.guard_value(b.0 as int, comp, ports) == Some(y),
            Guard::And(a, b) => fabric.guard_value(a.0 as int, comp, ports) == Some(x)
                && fabric.guard_value(b.0 as int, comp, ports) == Some(y),
            _ => false,
        },
    ensures
        fabric.ctx.primary.guards@[g] is Or ==> (fabric.guard_value(g, comp, ports) == Some(true)
            <==> x || y) && (fabric.guard_value(g, comp, ports) == Some(false) <==> !x && !y),
        fabric.ctx.primary.guards@[g] is And ==> (fabric.guard_value(g, comp, ports) == Some(true)
            <==> x && y) && (fabric.guard_value(g, comp, ports) == Some(false) <==> !x || !y),
{
    fabric.ctx.guard_rank_drops(g);
}

/// A compound guard has no value as long as one of its parts has none.
pub proof fn compound_guards_need_their_parts<P: Primitive>(
    fabric: Fabric<P>,
    g: int,
    comp: GlobalCellIdx,
    ports: Seq<PortView>,
)
    requires
        acyclic(fabric.ctx.guard_graph()),
        0 <= g < fabric.ctx.primary.guards@.len(),
        match fabric.ctx.primary.guards@[g] {
            Guard::Or(a, b) => fabric.guard_value(a.0 as int, comp, ports) is None
                || fabric.guard_value(b.0 as int, comp, ports) is None,
            Guard::And(a, b) => fabric.guard_value(a.0 as int, comp, ports) is None
                || fabric.guard_value(b.0 as int, comp, ports) is None,
            Guard::Not(a) => fabric.guard_value(a.0 as int, comp, ports) is None,
            _ => false,
        },
    ensures
        fabric.guard_value(g, comp, ports) is None,
{
    fabric.ctx.guard_rank_drops(g);
}

/// A negated guard holds exactly when its part does not, and negating twice
/// changes nothing.
pub proof fn negation_turns_a_guard_over<P: Primitive>(
    fabric: Fabric<P>,
    g: int,
    comp: GlobalCellIdx,
    ports: Seq<PortView>,
)
    requires
        acyclic(fabric.ctx.guard_graph()),
        0 <= g < fabric.ctx.primary.guards@.len(),
        fabric.ctx.primary.guards@[g] is Not,
    ensures
        fabric.ctx.primary.guards@[g] matches Guard::Not(a) && {
            let part = fabric.guard_value(a.0 as int, comp, ports);
            let whole = fabric.guard_value(g, comp, ports);
            &&& whole == Some(true) <==> part == Some(false)
            &&& whole == Some(false) <==> part == Some(true)
            &&& fabric.ctx.primary.guards@[a.0 as int] matches Guard::Not(b) ==> whole
                == fabric.guard_value(b.0 as int, comp, ports)
        },
{
    fabric.ctx.guard_rank_drops(g);
    if let Guard::Not(a) = fabric.ctx.guard(g) {
        fabric.ctx.guard_rank_drops(a.0 as int);
    }
}

/// The parts of a compound guard can be exchanged.
pub proof fn compound_guards_are_symmetric<P: Primitive>(
    fabric: Fabric<P>,
    g: int,
    h: int,
    comp: GlobalCellIdx,
    ports: Seq<PortView>,
)
    requires
        acyclic(fabric.ctx.guard_graph()),
        0 <= g < fabric.ctx.primary.guards@.len(),
        0 <= h < fabric.ctx.primary.guards@.len(),
        match (fabric.ctx.primary.guards@[g], fabric.ctx.primary.guards@[h]) {
            (Guard::Or(a, b), Guard::Or(c, d)) => a == d && b == c,
            (Guard::And(a, b), Guard::And(c, d)) => a == d && b == c,
            _ => false,
        },
    ensures
        fabric.guard_value(g, comp, ports) == fabric.guard_value(h, comp, ports),
{
    fabric.ctx.guard_rank_drops(g);
    fabric.ctx.guard_rank_drops(h);
}

/// The negation of a disjunction has the value of the conjunction of the
/// negations, and the negation of a conjunction that of the disjunction of the
/// negations.
pub proof fn negation_exchanges_compound_guards<P: Primitive>(
    fabric: Fabric<P>,
    g: int,
    h: int,
    comp: GlobalCellIdx,
    ports: Seq<PortView>,
)
    requires
        acyclic(fabric.ctx.guard_graph()),
        0 <= g < fabric.ctx.primary.guards@.len(),
        0 <= h < fabric.ctx.primary.guards@.len(),
        ({
            let guards = fabric.ctx.primary.guards@;
            match (guards[g], guards[h]) {
                (Guard::Not(n), Guard::And(c, d)) => match (
                    guards[n.0 as int],
                    guards[c.0 as int],
                    guards[d.0 as int],
                ) {
                    (Guard::Or(a, b), Guard::Not(na), Guard::Not(nb)) => na == a && nb == b,
                    _ => false,
                },
                (Guard::Not(n), Guard::Or(c, d)) => match (
                    guards[n.0 as int],
                    guards[c.0 as int],
                    guards[d.0 as int],
                ) {
                    (Guard::And(a, b), Guard::Not(na), Guard::Not(nb)) => na == a && nb == b,
                    _ => false,
                },
                _ => false,
            }
        }),
    ensures
        fabric.guard_value(g, comp, ports) == fabric.guard_value(h, comp, ports),
{
    reveal_with_fuel(Fabric::guard_value, 3);
    fabric.ctx.guard_rank_drops(g);
    fabric.ctx.guard_rank_drops(h);
    match (fabric.ctx.guard(g), fabric.ctx.guard(h)) {
        (Guard::Not(n), Guard::And(c, d)) => {
            fabric.ctx.guard_rank_drops(n.0 as int);
            fabric.ctx.guard_rank_drops(c.0 as int);
            fabric.ctx.guard_rank_drops(d.0 as int);
        },
        (Guard::Not(n), Guard::Or(c, d)) => {
            fabric.ctx.guard_rank_drops(n.0 as int);
            fabric.ctx.guard_rank_drops(c.0 as int);
            fabric.ctx.guard_rank_drops(d.0 as int);
        },
        _ => {},
    }
}

/// The port of the whole design that a reference in an instance stands for: a
/// port of the instance is as far behind the instance's first port as the
/// reference says, and a port of a ref cell is the one that it was bound to.
pub open spec fn stands_for<P: Primitive>(
    fabric: Fabric<P>,
    port: PortRef,
    comp: GlobalCellIdx,
    index: GlobalPortIdx,
) -> bool {
    &&& comp.0 < fabric.cells.len()
    &&& fabric.cells[comp.0 as int] matches CellModel::Component(l) && match port {
        PortRef::Local(offset) => index.0 == l.index_bases.port_base.0 + offset.0,
        PortRef::Ref(offset) => {
            let at = l.index_bases.ref_port_base.0 + offset.0;
            at < fabric.ref_ports.len() && fabric.ref_ports[at] == Some(index)
        },
    }
}

/// Looking up a reference leads to the port that it stands for, and to no
/// other.
pub proof fn lookup_finds_what_a_reference_stands_for<P: Primitive>(
    fabric: Fabric<P>,
    port: PortRef,
    comp: GlobalCellIdx,
    index: GlobalPortIdx,
)
    requires
        stands_for(fabric, port, comp, index),
        fabric.ref_ports.len() <= usize::MAX,
    ensures
        fabric.resolve(port, comp) == index,
{
}

/// A guard without parts holds always, or if the port that it names carries a
/// number other than zero, or if the numbers that the two ports that it
/// compares carry are in the order that it asks for.
pub proof fn simple_guards_read_their_ports<P: Primitive>(
    fabric: Fabric<P>,
    g: int,
    comp: GlobalCellIdx,
    ports: Seq<PortView>,
    a: GlobalPortIdx,
    b: GlobalPortIdx,
)
    requires
        acyclic(fabric.ctx.guard_graph()),
        0 <= g < fabric.ctx.primary.guards@.len(),
        fabric.ref_ports.len() <= usize::MAX,
        match fabric.ctx.primary.guards@[g] {
            Guard::True => true,
            Guard::Port(p) => stands_for(fabric, p, comp, a),
            Guard::Comp(_, p, q) => stands_for(fabric, p, comp, a) && stands_for(
                fabric,
                q,
                comp,
                b,
            ),
            _ => false,
        },
    ensures
        ({
            let value = fabric.guard_value(g, comp, ports);
            match fabric.ctx.primary.guards@[g] {
                Guard::True => value == Some(true),
                Guard::Port(_) => match ports[a.0 as int] {
                    Some(v) => value == Some(unsigned(v.val) != 0),
                    None => value is None,
                },
                Guard::Comp(op, _, _) => match (ports[a.0 as int], ports[b.0 as int]) {
                    (Some(v), Some(w)) => {
                        let x = unsigned(v.val);
                        let y = unsigned(w.val);
                        value == Some(
                            if v.val.len() != w.val.len() {
                                op == PortComp::Neq
                            } else {
                                match op {
                                    PortComp::Eq => x == y,
                                    PortComp::Neq => x != y,
                                    PortComp::Lt => x < y,
                                    PortComp::Gt => x > y,
                                    PortComp::Leq => x <= y,
                                    PortComp::Geq => x >= y,
                                }
                            },
                        )
                    },
                    _ => value is None,
                },
                _ => true,
            }
        }),
{
    match fabric.ctx.guard(g) {
        Guard::Port(_) => {
            truth_is_not_zero(ports[a.0 as int]);
        },
        Guard::Comp(op, _, _) => {
            if let (Some(v), Some(w)) = (ports[a.0 as int], ports[b.0 as int]) {
                if v.val.len() == w.val.len() {
                    comparisons_compare_numbers(v.val, w.val);
                } else {
                    widths_tell_values_apart(op, v.val, w.val);
                }
            }
        },
        _ => {},
    }
}

/// A guard can be evaluated if every port that it reads is there.
pub proof fn guards_over_bound_ports_can_be_read<P: Primitive>(
    fabric: Fabric<P>,
    g: int,
    comp: GlobalCellIdx,
    ports: Seq<PortView>,
)
    requires
        acyclic(fabric.ctx.guard_graph()),
        0 <= g < fabric.ctx.primary.guards@.len(),
        forall|p: PortRef|
            fabric.ctx.guard_ports(g).contains(p) ==> #[trigger] fabric.usable(p, comp),
    ensures
        fabric.guard_readable(g, comp, ports),
    decreases rank_of(fabric.ctx.guard_graph(), g),
{
    fabric.ctx.guard_rank_drops(g);
    let all = fabric.ctx.guard_ports(g);
    match fabric.ctx.guard(g) {
        Guard::Or(a, b) => {
            guards_over_bound_ports_can_be_read(fabric, a.0 as int, comp, ports);
            guards_over_bound_ports_can_be_read(fabric, b.0 as int, comp, ports);
        },
        Guard::And(a, b) => {
            guards_over_bound_ports_can_be_read(fabric, a.0 as int, comp, ports);
            guards_over_bound_ports_can_be_read(fabric, b.0 as int, comp, ports);
        },
        Guard::Not(a) => {
            guards_over_bound_ports_can_be_read(fabric, a.0 as int, comp, ports);
        },
        Guard::Comp(_, a, b) => {
            assert(all.contains(a) && all.contains(b));
        },
        Guard::Port(p) => {
            assert(all.contains(p));
        },
        Guard::True => {},
    }
}

/// A guard that can be evaluated and has a value reads only ports that are
/// there.
pub proof fn evaluated_guards_read_bound_ports<P: Primitive>(
    fabric: Fabric<P>,
    g: int,
    comp: GlobalCellIdx,
    ports: Seq<PortView>,
    p: PortRef,
)
    requires
        acyclic(fabric.ctx.guard_graph()),
        0 <= g < fabric.ctx.primary.guards@.len(),
        fabric.guard_readable(g, comp, ports),
        fabric.guard_value(g, comp, ports) is Some,
        fabric.ctx.guard_ports(g).contains(p),
    ensures
        fabric.usable(p, comp),
    decreases rank_of(fabric.ctx.guard_graph(), g),
{
    fabric.ctx.guard_rank_drops(g);
    match fabric.ctx.guard(g) {
        Guard::Or(a, b) => {
            if fabric.ctx.guard_ports(a.0 as int).contains(p) {
                evaluated_guards_read_bound_ports(fabric, a.0 as int, comp, ports, p);
            } else {
                evaluated_guards_read_bound_ports(fabric, b.0 as int, comp, ports, p);
            }
        },
        Guard::And(a, b) => {
            if fabric.ctx.guard_ports(a.0 as int).contains(p) {
                evaluated_guards_read_bound_ports(fabric, a.0 as int, comp, ports, p);
            } else {
                evaluated_guards_read_bound_ports(fabric, b.0 as int, comp, ports, p);
            }
        },
        Guard::Not(a) => {
            evaluated_guards_read_bound_ports(fabric, a.0 as int, comp, ports, p);
        },
        _ => {},
    }
}

/// A guard reads the ports that it names itself and those that its parts read,
/// and no others.
pub proof fn guards_read_what_they_name<P: Primitive>(fabric: Fabric<P>, g: int, p: PortRef)
    requires
        acyclic(fabric.ctx.guard_graph()),
        0 <= g < fabric.ctx.primary.guards@.len(),
    ensures
        fabric.ctx.guard_ports(g).contains(p) <==> match fabric.ctx.primary.guards@[g] {
            Guard::True => false,
            Guard::Or(a, b) => fabric.ctx.guard_ports(a.0 as int).contains(p)
                || fabric.ctx.guard_ports(b.0 as int).contains(p),
            Guard::And(a, b) => fabric.ctx.guard_ports(a.0 as int).contains(p)
                || fabric.ctx.guard_ports(b.0 as int).contains(p),
            Guard::Not(a) => fabric.ctx.guard_ports(a.0 as int).contains(p),
            Guard::Comp(_, a, b) => p == a || p == b,
            Guard::Port(a) => p == a,
        },
{
    fabric.ctx.guard_rank_drops(g);
}

/// A guard is looked up part by part: the second part of a compound guard is
/// looked up only if the first has a value, and a guard without parts looks up
/// the ports that it names.
pub proof fn guards_are_looked_up_lazily<P: Primitive>(
    fabric: Fabric<P>,
    g: int,
    comp: GlobalCellIdx,
    ports: Seq<PortView>,
)
    requires
        acyclic(fabric.ctx.guard_graph()),
        0 <= g < fabric.ctx.primary.guards@.len(),
    ensures
        fabric.guard_readable(g, comp, ports) <==> match fabric.ctx.primary.guards@[g] {
            Guard::True => true,
            Guard::Or(a, b) => fabric.guard_readable(a.0 as int, comp, ports) && (
            fabric.guard_value(a.0 as int, comp, ports) is None || fabric.guard_readable(
                b.0 as int,
                comp,
                ports,
            )),
            Guard::And(a, b) => fabric.guard_readable(a.0 as int, comp, ports) && (
            fabric.guard_value(a.0 as int, comp, ports) is None || fabric.guard_readable(
                b.0 as int,
                comp,
                ports,
            )),
            Guard::Not(a) => fabric.guard_readable(a.0 as int, comp, ports),
            Guard::Comp(_, a, b) => fabric.usable(a, comp) && fabric.usable(b, comp),
            Guard::Port(p) => fabric.usable(p, comp),
        },
{
    fabric.ctx.guard_rank_drops(g);
}

} // verus!
