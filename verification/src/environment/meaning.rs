//! What holds of every design that was laid out.

use super::{CellLedger, Environment, cell_text, nones, root_bases, start_points};
use crate::behaviour::{keep_done_len, start_leaves_len};
use crate::clock::{
    clock_edges_keep_primitives_apart, no_cell_adds_ports, register_follows, shows_value,
    steps_clock_every_register,
};
use crate::context::{
    Context, owner_is_first, owners_are_unique, ref_owner_is_first, ref_owners_are_unique,
};
use crate::evaluation::every_primitive_is_evaluated;
use crate::fabric::{Bundle, settling_is_unique};
use crate::guards::{stands_for, truth_is_not_zero};
use crate::index::{GlobalCellIdx, GlobalPortIdx, PortRef};
use crate::layout::{CellModel, ComponentLedger, instance, layout, layout_len};
use crate::placement::{apart, layouts_give_primitives_their_own_ports};
use crate::ports::{AssignedView, AssignmentWinner, ErrorView, PortView, UpdateStatus};
use crate::primitive::{Primitive, StdPrimitive, StdState};
use crate::progress::{enabled_group, has_reported, hole_is, statement};
use crate::text::decimal;
use vstd::prelude::*;

verus! {

impl<'a, P: Primitive> Environment<'a, P> {
    /// A reference of an instance can be looked up exactly when it stands for a
    /// port: one to a port of the instance always does, and one to a port of a
    /// ref cell does once it was bound.
    pub proof fn usable_references_stand_for_ports(&self, port: PortRef, comp: GlobalCellIdx)
        requires
            self.design_ok(),
            self.fabric().is_instance(comp),
            self.program().ref_fits(self.fabric().ledger(comp).comp_id.0 as int, port),
        ensures
            self.fabric().usable(port, comp) <==> exists|index: GlobalPortIdx|
                #[trigger] stands_for(self.fabric(), port, comp, index),
            port is Local ==> self.fabric().usable(port, comp),
            self.fabric().usable(port, comp) ==> stands_for(
                self.fabric(),
                port,
                comp,
                self.fabric().resolve(port, comp),
            ),
    {
        self.ports.len_fits();
        self.ref_ports.len_fits();
        assert(self.cell_ok(comp.0 as int));
        if self.fabric().usable(port, comp) {
            assert(stands_for(
                self.fabric(),
                port,
                comp,
                self.fabric().resolve(port, comp),
            ));
        }
    }

    /// A port of an instance belongs to the cell among whose ports it is, and
    /// that cell is as far behind the place where the instance's cells start as
    /// its own place says. A port that is among no cell's ports belongs to none.
    pub proof fn ports_belong_to_the_cell_that_has_them(
        &self,
        comp: GlobalCellIdx,
        port: PortRef,
        i: int,
    )
        requires
            self.design_ok(),
            self.fabric().is_instance(comp),
        ensures
            ({
                let ctx = self.program();
                let ledger = self.fabric().ledger(comp);
                let info = ctx.secondary.components@[ledger.comp_id.0 as int];
                match port {
                    PortRef::Local(l) => {
                        let cells = info.cell_offset_map@;
                        &&& 0 <= i < cells.len() && ctx.secondary.cells@[
                            cells[i].1.0 as int
                        ].ports.has(l.0 as int) ==> self.parent_place(port, comp) == Some(
                            ledger.index_bases.cell_base.0 + cells[i].0.0,
                        )
                        &&& (forall|j: int|
                            0 <= j < cells.len() ==> !ctx.secondary.cells@[
                                (#[trigger] cells[j]).1.0 as int
                            ].ports.has(l.0 as int)) ==> self.parent_place(port, comp) is None
                    },
                    PortRef::Ref(r) => {
                        let cells = info.ref_cell_offset_map@;
                        &&& 0 <= i < cells.len() && ctx.secondary.ref_cells@[
                            cells[i].1.0 as int
                        ].ports.has(r.0 as int) ==> self.parent_place(port, comp) == Some(
                            ledger.index_bases.ref_cell_base.0 + cells[i].0.0,
                        )
                        &&& (forall|j: int|
                            0 <= j < cells.len() ==> !ctx.secondary.ref_cells@[
                                (#[trigger] cells[j]).1.0 as int
                            ].ports.has(r.0 as int)) ==> self.parent_place(port, comp) is None
                    },
                }
            }),
    {
        let ctx = self.program();
        let c = self.fabric().ledger(comp).comp_id.0 as int;
        assert(self.cell_ok(comp.0 as int));
        assert(ctx.placed(c));
        match port {
            PortRef::Local(l) => {
                let n = ctx.listed(c).len() as int;
                owner_is_first(ctx, c, l.0 as int, n);
                if let Some(j) = ctx.owner(c, l.0 as int, n) {
                    if 0 <= i < n && ctx.listed_def(c, i).ports.has(l.0 as int) {
                        owners_are_unique(ctx, c, i, j, l.0 as int);
                    }
                    assert(ctx.listed_def(c, j).ports.has(l.0 as int));
                    let (offset, def) = ctx.listed(c)[j];
                }
            },
            PortRef::Ref(r) => {
                let n = ctx.ref_entries(c).len() as int;
                ref_owner_is_first(ctx, c, r.0 as int, n);
                if let Some(j) = ctx.ref_owner(c, r.0 as int, n) {
                    if 0 <= i < n && ctx.ref_entry_def(c, i).ports.has(r.0 as int) {
                        ref_owners_are_unique(ctx, c, i, j, r.0 as int);
                    }
                    assert(ctx.ref_entry_def(c, j).ports.has(r.0 as int));
                    let (offset, def) = ctx.ref_entries(c)[j];
                }
            },
        }
    }

    /// When evaluation begins, a group that has reported that it is done still
    /// does, with the value with which it did, and its go hole carries one set
    /// bit, put there by the control program.
    pub proof fn groups_that_are_done_stay_so(
        &self,
        k: int,
        done: GlobalPortIdx,
        go: GlobalPortIdx,
    )
        requires
            self.wf(),
            self.can_step(),
            0 <= k < self.points().len(),
            statement(self.fabric(), self.points()[k]) is Enable,
            has_reported(self.fabric(), self.points()[k], self.ports(), done),
            hole_is(
                self.fabric(),
                enabled_group(self.fabric(), self.points()[k]).go,
                self.points()[k].comp,
                go,
            ),
        ensures
            ({
                let prepared = self.fabric().prepared(self.swept(), self.ports());
                &&& prepared[done.0 as int] == self.ports()[done.0 as int]
                &&& prepared[go.0 as int] == Some(
                    AssignedView { val: seq![true], winner: AssignmentWinner::Implicit },
                )
            }),
    {
        let point = self.points()[k];
        truth_is_not_zero(self.ports()[done.0 as int]);
        assert(self.fabric().done_port(point) == done);
        assert(self.fabric().go_port(point) == go);
        self.done_groups_keep_reporting(k);
    }
}

/// A program starts at the root of the entry component's control, in the
/// outermost instance, and at nothing if that component has no control.
pub proof fn programs_start_at_their_root(ctx: Context)
    ensures
        match ctx.primary.components@[ctx.entry_point.0 as int].control {
            Some(root) => start_points(ctx).len() == 1 && start_points(ctx)[0].comp.0 == 0
                && start_points(ctx)[0].control_node_idx == root,
            None => start_points(ctx).len() == 0,
        },
        root_bases().port_base.0 == 0,
        root_bases().cell_base.0 == 1,
        root_bases().ref_cell_base.0 == 0,
        root_bases().ref_port_base.0 == 0,
{
}

/// In a newly laid out design every primitive is on ports of its own.
pub proof fn new_designs_give_primitives_their_own_ports(ctx: Context)
    requires
        ctx.layable(),
    ensures
        ({
            let c = ctx.entry_point.0 as int;
            apart(
                instance::<StdPrimitive>(
                    ComponentLedger { index_bases: root_bases(), comp_id: ctx.entry_point },
                ) + layout::<StdPrimitive>(ctx, c, root_bases(), ctx.entries(c).len() as int),
                ctx.size(c).port,
            )
        }),
{
    let c = ctx.entry_point.0 as int;
    let n = ctx.entries(c).len() as int;
    let inner = layout::<StdPrimitive>(ctx, c, root_bases(), n);
    let cells = instance::<StdPrimitive>(
        ComponentLedger { index_bases: root_bases(), comp_id: ctx.entry_point },
    ) + inner;
    ctx.entry_is_present();
    assert(ctx.placed(c));
    layout_len::<StdPrimitive>(ctx, c, root_bases(), n);
    assert(cells.subrange(1, cells.len() as int) =~= inner);
    layouts_give_primitives_their_own_ports(ctx, cells, c, root_bases(), ctx.size(c).port);
}

/// Where there is nothing yet, there is nothing at any place.
pub proof fn nothing_is_there_at_first<T>(n: nat, i: int)
    ensures
        nones::<T>(n).len() == n,
        0 <= i < n ==> nones::<T>(n)[i] is None,
{
}

/// A cell is shown while debugging as a primitive, or as an instance with the
/// places where its ports, cells, ref cells and ref ports start and the
/// component that it is one of.
pub proof fn debugging_shows_where_an_instance_lies<P: Primitive>(cell: CellLedger<P>)
    ensures
        match cell {
            CellLedger::Primitive { .. } => cell_text(cell) == "Primitive"@,
            CellLedger::Component(l) => cell_text(cell) == "Component { index_bases: "@ + (
            "BaseIndices { port_base: "@ + ("GlobalPortIdx"@ + "("@ + decimal(
                l.index_bases.port_base.0 as nat,
            ) + ")"@) + ", cell_base: "@ + ("GlobalCellIdx"@ + "("@ + decimal(
                l.index_bases.cell_base.0 as nat,
            ) + ")"@) + ", ref_cell_base: "@ + ("GlobalRefCellIdx"@ + "("@ + decimal(
                l.index_bases.ref_cell_base.0 as nat,
            ) + ")"@) + ", ref_port_base: "@ + ("GlobalRefPortIdx"@ + "("@ + decimal(
                l.index_bases.ref_port_base.0 as nat,
            ) + ")"@) + " }"@) + ", comp_id: "@ + ("ComponentIdx"@ + "("@ + decimal(
                l.comp_id.0 as nat,
            ) + ")"@) + " }"@,
        },
{
}

impl<'a, P: Primitive> Environment<'a, P> {
    proof fn safe_range_adds_no_ports(
        &self,
        start: int,
        n: int,
        comp: GlobalCellIdx,
        ports: Seq<PortView>,
    )
        requires
            self.design_ok(),
            self.fabric().is_instance(comp),
            self.fabric().range_safe(start, n, comp, ports),
            ports.len() == self.ports().len(),
        ensures
            self.fabric().assign_range(start, n, comp, ports).ports.len() == ports.len(),
        decreases n,
    {
        if n > 0 {
            self.safe_range_adds_no_ports(start, n - 1, comp, ports);
            let a = start + n - 1;
            let before = self.fabric().assign_range(start, n - 1, comp, ports);
            let assignment = self.program().assignment(a);
            if before.error is None && self.fabric().guard_value(
                assignment.guard.0 as int,
                comp,
                before.ports,
            ) == Some(true) {
                self.usable_resolves(assignment.dst, comp);
            }
        }
    }

    proof fn safe_bundle_adds_no_ports(&self, bundle: Bundle, n: int, ports: Seq<PortView>)
        requires
            self.design_ok(),
            n <= bundle.len(),
            self.fabric().bundle_there(bundle),
            self.fabric().bundle_safe(bundle, n, ports),
            ports.len() == self.ports().len(),
        ensures
            self.fabric().assign_bundle(bundle, n, ports).ports.len() == ports.len(),
        decreases n,
    {
        if n > 0 {
            self.safe_bundle_adds_no_ports(bundle, n - 1, ports);
            let before = self.fabric().assign_bundle(bundle, n - 1, ports);
            let (comp, range) = bundle[n - 1];
            if before.error is None {
                self.safe_range_adds_no_ports(
                    range.start.0 as int,
                    range.len() as int,
                    comp,
                    before.ports,
                );
            }
        }
    }

    proof fn prepared_ports_are_all(&self)
        requires
            self.wf(),
            self.can_step(),
        ensures
            self.fabric().prepared(self.swept(), self.ports()).len() == self.ports().len(),
    {
        let fabric = self.fabric();
        let sweep = self.swept();
        let nothing = Seq::<PortView>::new(self.ports().len(), |i: int| None);
        self.swept_holes_are_ports();
        keep_done_len(fabric, sweep.done, sweep.done.len() as int, nothing);
        start_leaves_len(
            fabric,
            sweep.leaves,
            sweep.leaves.len() as int,
            fabric.keep_done(sweep.done, sweep.done.len() as int, nothing),
        );
    }
}

impl<'a> Environment<'a, StdPrimitive> {
    proof fn settling_adds_no_ports(&self, bundle: Bundle, ports: Seq<PortView>, limit: nat)
        requires
            self.design_ok(),
            apart(self.cells(), self.ports().len()),
            self.fabric().bundle_there(bundle),
            self.fabric().settle_safe(bundle, ports, limit),
            self.fabric().settle_within(bundle, ports, limit) is Some,
            ports.len() == self.ports().len(),
        ensures
            self.fabric().settle_within(bundle, ports, limit)->0.ports.len() == ports.len(),
        decreases limit,
    {
        let fabric = self.fabric();
        let assigned = fabric.assign_bundle(bundle, bundle.len() as int, ports);
        let round = fabric.round(bundle, ports);
        self.safe_bundle_adds_no_ports(bundle, bundle.len() as int, ports);
        let course = every_primitive_is_evaluated(
            fabric,
            fabric.cells.len() as int,
            assigned.ports,
        );
        no_cell_adds_ports(fabric, course, 0, course.len() - 1);
        if round.result == Ok::<UpdateStatus, ErrorView>(UpdateStatus::Changed) {
            self.settling_adds_no_ports(bundle, round.ports, (limit - 1) as nat);
        }
    }

    /// After a step that succeeds, every register of a design whose primitives
    /// are on ports of their own holds what follows from its inputs as
    /// evaluation left them, wherever in the design it is: zero after a reset,
    /// its input after a write, and what it held otherwise. It shows that on its
    /// output, and on its done port whether it was written. The primitives are
    /// then still on ports of their own.
    pub proof fn registers_hold_what_they_are_given(&self, g: int)
        requires
            self.wf(),
            self.can_step(),
            apart(self.cells(), self.ports().len()),
            0 <= g < self.cells().len(),
            self.cells()[g] matches CellModel::Primitive(s) && s is Reg,
            self.fabric().step(self.points(), self.ports()).error is None,
        ensures
            ({
                let fabric = self.fabric();
                let inputs = fabric.settled(
                    fabric.bundle(self.swept().leaves),
                    fabric.prepared(self.swept(), self.ports()),
                ).ports;
                let after = fabric.step(self.points(), self.ports());
                &&& match (self.cells()[g], after.cells[g]) {
                    (
                        CellModel::Primitive(StdState::Reg { base, value, done: _ }),
                        CellModel::Primitive(
                            StdState::Reg { base: b, value: held, done: written },
                        ),
                    ) => b == base && register_follows(value, held, written, base, inputs)
                        && shows_value(after.ports, base + 4, held) && shows_value(
                        after.ports,
                        base + 5,
                        seq![written],
                    ),
                    _ => false,
                }
                &&& inputs.len() == self.ports().len()
                &&& apart(after.cells, self.ports().len())
            }),
    {
        let fabric = self.fabric();
        let sweep = self.swept();
        let bundle = fabric.bundle(sweep.leaves);
        let prepared = fabric.prepared(sweep, self.ports());
        self.sweep_ok(self.points().len() as int);
        self.bundle_is_there(sweep.leaves);
        self.prepared_ports_are_all();
        let limit = choose|limit: nat|
            (#[trigger] fabric.settle_within(bundle, prepared, limit)) is Some
                && fabric.settle_safe(bundle, prepared, limit);
        settling_is_unique(fabric, bundle, prepared, limit);
        self.settling_adds_no_ports(bundle, prepared, limit);
        steps_clock_every_register(fabric, self.points(), self.ports(), g);
        clock_edges_keep_primitives_apart(
            fabric,
            fabric.cells.len() as int,
            fabric.settled(bundle, prepared).ports,
        );
    }
}

} // verus!
