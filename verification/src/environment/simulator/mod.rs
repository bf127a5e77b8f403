//! Running a design.

use super::report::{ReportLine, line_views};
use super::{AssignmentRange, Environment};
use crate::context::{Context, holes_have_no_owner};
use crate::control::ControlPoint;
use crate::index::{ControlIdx, GlobalCellIdx, GlobalPortIdx, GlobalPortRef, PortRef};
use crate::layout::{CellModel, child_in_place, headers_apart};
use crate::ports::{ErrorView, InterpreterResult, PortValue};
use crate::primitive::Primitive;
use std::collections::VecDeque;
use vstd::prelude::*;

pub mod evaluate;
pub mod ready;
pub mod step;

verus! {

/// Assignments that are active in component instances.
pub type AssignmentBundle = Vec<(GlobalCellIdx, AssignmentRange)>;

/// A wrapper struct for the environment that provides the functions used to
/// simulate the actual program. This is just to keep the simulation logic under
/// a different namespace than the environment to avoid confusion
pub struct Simulator<'a, P: Primitive> {
    env: Environment<'a, P>,
}

impl<'a, P: Primitive> Simulator<'a, P> {
    /// The environment that is simulated.
    pub closed spec fn env(&self) -> Environment<'a, P> {
        self.env
    }

    /// Takes an environment to simulate it.
    pub fn new(env: Environment<'a, P>) -> (simulator: Self)
        ensures
            simulator.env() == env,
    {
        Self { env }
    }

    /// The program.
    pub fn ctx(&self) -> (ctx: &Context)
        ensures
            *ctx == self.env().program(),
    {
        self.env.ctx
    }

    /// Reports all cells of the design, with their ports and what they hold.
    pub fn print_env(&self) -> (lines: Vec<ReportLine>)
        requires
            self.env().design_ok(),
            self.env().program().named(),
        ensures
            line_views(lines@) == self.env().report(),
    {
        self.env.print_env()
    }

    /// The environment as it is now.
    pub fn environment(&self) -> (env: &Environment<'a, P>)
        ensures
            *env == self.env(),
    {
        &self.env
    }
}

/// The error of a result, if it is one.
pub open spec fn error_of<T>(result: InterpreterResult<T>) -> Option<ErrorView> {
    match result {
        Ok(_) => None,
        Err(e) => Some(e@),
    }
}

/// Nothing but what the ports carry differs.
pub open spec fn only_ports_differ<P: Primitive>(
    a: Environment<'_, P>,
    b: Environment<'_, P>,
) -> bool {
    &&& a.program() == b.program()
    &&& a.cells() == b.cells()
    &&& a.ref_cells() == b.ref_cells()
    &&& a.ref_ports() == b.ref_ports()
    &&& a.points() == b.points()
    &&& a.ports().len() == b.ports().len()
}

/// What the ports carry has no part in whether an environment is well formed.
pub proof fn ports_keep_wf<P: Primitive>(a: Environment<'_, P>, b: Environment<'_, P>)
    requires
        a.wf(),
        only_ports_differ(a, b),
    ensures
        b.wf(),
{
    assert forall|g: int| 0 <= g < b.cells().len() implies #[trigger] b.cell_ok(g) by {
        assert(a.cell_ok(g));
    }
    assert forall|k: int| 0 <= k < b.points().len() implies b.point_ok(
        #[trigger] b.points()[k],
    ) by {
        assert(a.point_ok(a.points()[k]));
    }
}

/// Two environments hold the same design, whatever their ports carry, their
/// primitives hold and their programs are about to do.
pub open spec fn same_design<P: Primitive>(a: Environment<'_, P>, b: Environment<'_, P>) -> bool {
    &&& a.program() == b.program()
    &&& a.ref_cells() == b.ref_cells()
    &&& a.ref_ports() == b.ref_ports()
    &&& a.ports().len() == b.ports().len()
    &&& a.cells().len() == b.cells().len()
    &&& forall|g: int|
        0 <= g < a.cells().len() ==> same_cell::<P>(#[trigger] a.cells()[g], b.cells()[g])
}

/// Two cells are the same instance, or primitives that touch the same ports.
pub open spec fn same_cell<P: Primitive>(a: CellModel<P>, b: CellModel<P>) -> bool {
    match (a, b) {
        (CellModel::Primitive(s), CellModel::Primitive(t)) => P::extent(s) == P::extent(t),
        _ => a == b,
    }
}

/// What holds the same design as something that holds the same design as a third
/// holds the same design as that.
pub proof fn same_design_is_transitive<P: Primitive>(
    a: Environment<'_, P>,
    b: Environment<'_, P>,
    c: Environment<'_, P>,
)
    requires
        same_design(a, b),
        same_design(b, c),
    ensures
        same_design(a, c),
{
    assert forall|g: int| 0 <= g < a.cells().len() implies same_cell::<P>(
        #[trigger] a.cells()[g],
        c.cells()[g],
    ) by {
        assert(same_cell::<P>(a.cells()[g], b.cells()[g]));
        assert(same_cell::<P>(b.cells()[g], c.cells()[g]));
    }
}

/// An environment is well formed if it holds the design of one that is, and its
/// control points fit.
pub proof fn same_design_keeps_wf<P: Primitive>(a: Environment<'_, P>, b: Environment<'_, P>)
    requires
        a.wf(),
        same_design(a, b),
        forall|k: int| 0 <= k < b.points().len() ==> a.point_ok(#[trigger] b.points()[k]),
    ensures
        b.wf(),
{
    assert(same_cell::<P>(a.cells()[0], b.cells()[0]));
    assert forall|g: int| 0 <= g < b.cells().len() implies #[trigger] b.cell_ok(g) by {
        assert(a.cell_ok(g));
        assert(same_cell::<P>(a.cells()[g], b.cells()[g]));
        if let CellModel::Component(l) = b.cells()[g] {
            let c = l.comp_id.0 as int;
            assert forall|i: int|
                0 <= i < b.program().entries(c).len() implies #[trigger] child_in_place(
                b.program(),
                b.cells(),
                l,
                i,
            ) by {
                assert(child_in_place(a.program(), a.cells(), l, i));
                let at = l.index_bases.cell_base.0 + a.program().entries(c)[i].0.0;
                assert(same_cell::<P>(a.cells()[at], b.cells()[at]));
            }
        }
    }
    assert forall|g: int, h: int|
        0 <= g < h < b.cells().len() && (#[trigger] b.cells()[g]) is Component && (
        #[trigger] b.cells()[h]) is Component implies headers_apart(
        b.program(),
        b.cells()[g]->Component_0,
        b.cells()[h]->Component_0,
    ) by {
        assert(same_cell::<P>(a.cells()[g], b.cells()[g]));
        assert(same_cell::<P>(a.cells()[h], b.cells()[h]));
    }
    assert forall|k: int| 0 <= k < b.points().len() implies b.point_ok(
        #[trigger] b.points()[k],
    ) by {
        let point = b.points()[k];
        assert(a.point_ok(point));
        assert(same_cell::<P>(a.cells()[point.comp.0 as int], b.cells()[point.comp.0 as int]));
    }
}

impl<'a, P: Primitive> Environment<'a, P> {
    /// A control point that runs a group of its instance's component.
    pub open spec fn leaf_ok(&self, point: ControlPoint) -> bool {
        self.point_ok(point) && self.fabric().node(point) is Enable
    }

    /// Control points that all run groups.
    pub open spec fn leaves_ok(&self, points: Seq<ControlPoint>) -> bool {
        forall|k: int| 0 <= k < points.len() ==> self.leaf_ok(#[trigger] points[k])
    }

    /// The group that a control point runs is there.
    pub(crate) proof fn leaf_group(&self, point: ControlPoint)
        requires
            self.wf(),
            self.leaf_ok(point),
        ensures
            point.control_node_idx.0 < self.program().primary.control@.len(),
            self.fabric().group_of(point).0 < self.program().primary.groups@.len(),
            self.program().group_fits(
                self.fabric().ledger(point.comp).comp_id.0 as int,
                self.fabric().group_of(point).0 as int,
            ),
    {
        let c = self.fabric().ledger(point.comp).comp_id.0 as int;
        assert(self.cell_ok(point.comp.0 as int));
        assert(self.program().runnable(c));
        assert(self.program().placed(c));
        assert(self.program().node_fits(c, point.control_node_idx.0 as int));
    }

    /// The holes of the group that a control point runs are ports.
    pub(crate) proof fn leaf_holes(&self, point: ControlPoint)
        requires
            self.wf(),
            self.leaf_ok(point),
        ensures
            ({
                let group = self.program().group(self.fabric().group_of(point).0 as int);
                let base = self.fabric().ledger(point.comp).index_bases.port_base.0;
                &&& base + group.go.0 < self.ports().len()
                &&& base + group.done.0 < self.ports().len()
                &&& self.fabric().go_port(point).0 == base + group.go.0
                &&& self.fabric().done_port(point).0 == base + group.done.0
            }),
    {
        let ctx = self.program();
        let c = self.fabric().ledger(point.comp).comp_id.0 as int;
        let g = self.fabric().group_of(point).0 as int;
        let groups = ctx.comp(c).definitions.groups;
        self.leaf_group(point);
        self.ports.len_fits();
        assert(self.cell_ok(point.comp.0 as int));
        assert(ctx.runnable(c));
        assert(ctx.placed(c));
        assert(ctx.node_fits(c, point.control_node_idx.0 as int));
        assert(ctx.holes_placed(c, g - groups.start.0));
        ctx.walk_grows(c, 0, ctx.entries(c).len() as int);
    }

    /// No group's go hole is any group's done hole.
    pub(crate) proof fn holes_differ(&self, a: ControlPoint, b: ControlPoint)
        requires
            self.wf(),
            self.leaf_ok(a),
            self.leaf_ok(b),
        ensures
            self.fabric().go_port(a) != self.fabric().done_port(b),
    {
        let ctx = self.program();
        self.leaf_holes(a);
        self.leaf_holes(b);
        self.hole_places(a);
        self.hole_places(b);
        let g = a.comp.0 as int;
        let h = b.comp.0 as int;
        if g < h {
            assert(headers_apart(ctx, self.cells()[g]->Component_0, self.cells()[h]->Component_0));
        } else if h < g {
            assert(headers_apart(ctx, self.cells()[h]->Component_0, self.cells()[g]->Component_0));
        }
    }

    /// Where in its component the holes of the group are that a control point
    /// runs.
    proof fn hole_places(&self, point: ControlPoint)
        requires
            self.wf(),
            self.leaf_ok(point),
        ensures
            ({
                let ctx = self.program();
                let c = self.fabric().ledger(point.comp).comp_id.0 as int;
                let g = self.fabric().group_of(point).0 as int;
                let first = ctx.comp(c).definitions.groups.start.0;
                &&& 0 <= g - first < ctx.comp(c).definitions.groups.len()
                &&& ctx.holes_placed(c, g - first)
                &&& ctx.group(g).go.0 < ctx.header_ports(c)
                &&& ctx.group(g).done.0 < ctx.header_ports(c)
            }),
    {
        let ctx = self.program();
        let c = self.fabric().ledger(point.comp).comp_id.0 as int;
        let g = self.fabric().group_of(point).0 as int;
        self.point_node(point);
        assert(self.cell_ok(point.comp.0 as int));
        assert(ctx.placed(c));
        assert(ctx.holes_placed(c, g - ctx.comp(c).definitions.groups.start.0));
    }

    /// The node of a control point is there, and the ports it decides on are.
    pub(crate) proof fn point_node(&self, point: ControlPoint)
        requires
            self.wf(),
            self.point_ok(point),
        ensures
            self.fabric().is_instance(point.comp),
            point.control_node_idx.0 < self.program().primary.control@.len(),
            self.program().node_fits(
                self.fabric().ledger(point.comp).comp_id.0 as int,
                point.control_node_idx.0 as int,
            ),
    {
        let c = self.fabric().ledger(point.comp).comp_id.0 as int;
        assert(self.cell_ok(point.comp.0 as int));
        assert(self.program().runnable(c));
        assert(self.program().node_fits(c, point.control_node_idx.0 as int));
    }
}

impl<'a, P: Primitive> Environment<'a, P> {
    /// What a usable port reference leads to is a port.
    pub(crate) proof fn usable_resolves(&self, port: PortRef, comp: GlobalCellIdx)
        requires
            self.design_ok(),
            self.fabric().is_instance(comp),
            self.fabric().usable(port, comp),
        ensures
            self.fabric().ledger(comp).index_bases.reaches(port),
            self.fabric().resolve(port, comp).0 < self.ports().len(),
            match self.fabric().ledger(comp).index_bases.global(port) {
                GlobalPortRef::Port(p) => true,
                GlobalPortRef::Ref(r) => r.0 < self.ref_ports().len()
                    && self.ref_ports()[r.0 as int] is Some,
            },
    {
        self.ports.len_fits();
        self.ref_ports.len_fits();
        assert(self.cell_ok(comp.0 as int));
    }
}

// Looking things up.
impl<'a, P: Primitive> Simulator<'a, P> {
    /// The statements directly below a node, first to last.
    pub fn extract_next_search(&self, idx: ControlIdx) -> (queue: VecDeque<ControlIdx>)
        requires
            idx.0 < self.env().program().primary.control@.len(),
        ensures
            queue@ == self.env().program().control(idx.0 as int).children(),
    {
        self.env.ctx.primary.control.get(idx).child_queue()
    }

    /// The port that a reference leads to. A ref port has to stand for one.
    pub fn lookup_global_port_id(&self, port: GlobalPortRef) -> (index: GlobalPortIdx)
        requires
            port matches GlobalPortRef::Ref(r) ==> r.0 < self.env().ref_ports().len()
                && self.env().ref_ports()[r.0 as int] is Some,
        ensures
            index == (match port {
                GlobalPortRef::Port(p) => p,
                GlobalPortRef::Ref(r) => self.env().ref_ports()[r.0 as int]->0,
            }),
    {
        match port {
            GlobalPortRef::Port(p) => p,
            GlobalPortRef::Ref(r) => self.env.ref_ports.get(r).unwrap(),
        }
    }

    /// The port that a reference in a component instance leads to.
    pub fn get_global_idx(&self, port: &PortRef, comp: GlobalCellIdx) -> (index: GlobalPortIdx)
        requires
            self.env().design_ok(),
            self.env().fabric().is_instance(comp),
            self.env().fabric().usable(*port, comp),
        ensures
            index == self.env().fabric().resolve(*port, comp),
            index.0 < self.env().ports().len(),
    {
        proof {
            self.env.usable_resolves(*port, comp);
        }
        let ledger = self.env.cells.get(comp).unwrap_comp();
        self.lookup_global_port_id(ledger.convert_to_global(port))
    }

    /// What the port carries that a reference in a component instance leads to.
    pub fn get_value(&self, port: &PortRef, comp: GlobalCellIdx) -> (value: &PortValue)
        requires
            self.env().design_ok(),
            self.env().fabric().is_instance(comp),
            self.env().fabric().usable(*port, comp),
        ensures
            value@ == self.env().ports()[self.env().fabric().resolve(*port, comp).0 as int],
    {
        let port_idx = self.get_global_idx(port, comp);
        self.env.ports.get(port_idx)
    }

    /// Attempt to find the parent cell for a port. If no such cell exists (i.e.
    /// it is a hole port, then it returns None)
    pub fn get_parent_cell(&self, port: PortRef, comp: GlobalCellIdx) -> (parent: Option<
        GlobalCellIdx,
    >)
        requires
            self.env().design_ok(),
            self.env().fabric().is_instance(comp),
            port is Ref ==> match self.env().parent_place(port, comp) {
                Some(place) => self.env().ref_cells()[place] is Some,
                None => true,
            },
        ensures
            match (port, self.env().parent_place(port, comp)) {
                (_, None) => parent is None,
                (PortRef::Local(_), Some(place)) => parent == Some(
                    GlobalCellIdx(place as usize),
                ),
                (PortRef::Ref(_), Some(place)) => parent == self.env().ref_cells()[place],
            },
            port matches PortRef::Local(l) && l.0 < self.env().program().header_ports(
                self.env().fabric().ledger(comp).comp_id.0 as int,
            ) ==> parent is None,
    {
        let component = self.env.cells.get(comp).unwrap_comp();
        let ghost env = self.env;
        let ghost ctx = *self.env.ctx;
        let ghost c = component.comp_id.0 as int;
        proof {
            assert(env.cell_ok(comp.0 as int));
            assert(ctx.placed(c));
            if let PortRef::Local(l) = port {
                if l.0 < ctx.header_ports(c) {
                    holes_have_no_owner(ctx, c, l.0 as int);
                }
            }
            env.cells.len_fits();
            env.ref_cells.len_fits();
        }
        let comp_info = self.env.ctx.secondary.components.get(component.comp_id);
        match port {
            PortRef::Local(l) => {
                let len: usize = comp_info.cell_offset_map.len();
                for i in 0..len
                    invariant
                        len == ctx.listed(c).len(),
                        env == self.env,
                        env.design_ok(),
                        ctx == *self.env.ctx,
                        ctx == env.program(),
                        ctx.placed(c),
                        env.fabric().is_instance(comp),
                        env.cell_ok(comp.0 as int),
                        env.cells().len() <= usize::MAX,
                        *component == env.fabric().ledger(comp),
                        c == component.comp_id.0,
                        *comp_info == ctx.comp(c),
                        port == PortRef::Local(l),
                        ctx.owner(c, l.0 as int, i as int) is None,
                        l.0 < ctx.header_ports(c) ==> ctx.owner(c, l.0 as int, len as int) is None,
                {
                    let (cell_offset, cell_def_idx) = comp_info.cell_offset_map.entries[i];
                    proof {
                        ctx.cell_has_its_turn(c, i as int);
                        assert(ctx.entry_placed(c, ctx.turn(c, i as int)));
                    }
                    assert(cell_def_idx == ctx.listed(c)[i as int].1);
                    if self.env.ctx.secondary.cells.get(cell_def_idx).ports.contains(l) {
                        proof {
                            first_owner_stays(ctx, c, l.0 as int, i + 1, len as int);
                            ctx.walk_grows(c, ctx.turn(c, i as int) + 1, len as int);
                        }
                        return Some(component.index_bases.cell(cell_offset));
                    }
                }
            },
            PortRef::Ref(r) => {
                let len: usize = comp_info.ref_cell_offset_map.len();
                for i in 0..len
                    invariant
                        len == ctx.ref_entries(c).len(),
                        env == self.env,
                        env.design_ok(),
                        ctx == *self.env.ctx,
                        ctx == env.program(),
                        ctx.placed(c),
                        env.fabric().is_instance(comp),
                        env.cell_ok(comp.0 as int),
                        env.ref_cells().len() <= usize::MAX,
                        *component == env.fabric().ledger(comp),
                        c == component.comp_id.0,
                        *comp_info == ctx.comp(c),
                        port == PortRef::Ref(r),
                        ctx.ref_owner(c, r.0 as int, i as int) is None,
                {
                    let (cell_offset, cell_def_idx) = comp_info.ref_cell_offset_map.entries[i];
                    assert(ctx.ref_entry_placed(c, i as int));
                    assert(cell_def_idx == ctx.ref_entries(c)[i as int].1);
                    if self.env.ctx.secondary.ref_cells.get(cell_def_idx).ports.contains(r) {
                        proof {
                            first_ref_owner_stays(ctx, c, r.0 as int, i + 1, len as int);
                        }
                        let ref_cell_idx = component.index_bases.ref_cell(cell_offset);
                        return *self.env.ref_cells.get(ref_cell_idx);
                    }
                }
            },
        }
        None
    }

    /// Whether the program has nothing left to run. A program whose entry
    /// component has no control is not handled.
    pub fn is_done(&self) -> (done: bool)
        requires
            self.env().program().primary.components@[self.env().program().entry_point.0 as int].control
                is Some,
        ensures
            done == (self.env().points().len() == 0),
    {
        self.env.pc.is_done()
    }
}

impl<'a, P: Primitive> Environment<'a, P> {
    /// Where the cell, or the ref cell, is to which a port of an instance
    /// belongs.
    pub open spec fn parent_place(&self, port: PortRef, comp: GlobalCellIdx) -> Option<int> {
        let ctx = self.program();
        let ledger = self.fabric().ledger(comp);
        let c = ledger.comp_id.0 as int;
        match port {
            PortRef::Local(l) => match ctx.owner(c, l.0 as int, ctx.listed(c).len() as int) {
                Some(i) => Some(ledger.index_bases.cell_base.0 + ctx.listed(c)[i].0.0),
                None => None,
            },
            PortRef::Ref(r) => match ctx.ref_owner(
                c,
                r.0 as int,
                ctx.ref_entries(c).len() as int,
            ) {
                Some(i) => Some(ledger.index_bases.ref_cell_base.0 + ctx.ref_entries(c)[i].0.0),
                None => None,
            },
        }
    }
}

proof fn first_owner_stays(ctx: Context, c: int, port: int, n: int, m: int)
    requires
        0 <= n <= m,
        ctx.owner(c, port, n) is Some,
    ensures
        ctx.owner(c, port, m) == ctx.owner(c, port, n),
    decreases m - n,
{
    if n < m {
        first_owner_stays(ctx, c, port, n, m - 1);
    }
}

proof fn first_ref_owner_stays(ctx: Context, c: int, port: int, n: int, m: int)
    requires
        0 <= n <= m,
        ctx.ref_owner(c, port, n) is Some,
    ensures
        ctx.ref_owner(c, port, m) == ctx.ref_owner(c, port, n),
    decreases m - n,
{
    if n < m {
        first_ref_owner_stays(ctx, c, port, n, m - 1);
    }
}

} // verus!
