//! Steps: control points move, groups are evaluated, a clock edge passes.

use super::super::{CellLedger, Environment, nones};
use super::{
    Simulator, error_of, only_ports_differ, ports_keep_wf, same_cell, same_design,
    same_design_is_transitive, same_design_keeps_wf,
};
use crate::behaviour::{holes_in_range, keep_done_len, sweep_places};
use crate::context::ControlNode;
use crate::control::{ControlPoint, ProgramCounter, successor_stays_in_component};
use crate::fabric::{
    Advance, Stepped, Sweep, Trial, runs_end_once, tick_stays_failed, trials_are_right,
};
use crate::index::{GlobalCellIdx, PortRef};
use crate::layout::CellModel;
use crate::ports::{
    AssignedView, InterpreterResult, PortMap, PortValue, PortView, implicit_high, truth,
};
use crate::primitive::Primitive;
use crate::values::Value;
use vstd::prelude::*;

verus! {

// Clock edges.
impl<'a, P: Primitive> Simulator<'a, P> {
    /// Lets a clock edge pass through all primitives, up to the first error.
    fn run_clock(&mut self) -> (result: InterpreterResult<()>)
        requires
            old(self).env().wf(),
        ensures
            same_design(old(self).env(), final(self).env()),
            final(self).env().points() == old(self).env().points(),
            final(self).env().cells() == old(self).env().fabric().tick(
                old(self).env().cells().len() as int,
                old(self).env().ports(),
            ).cells,
            final(self).env().ports() == old(self).env().fabric().tick(
                old(self).env().cells().len() as int,
                old(self).env().ports(),
            ).ports,
            error_of(result) == old(self).env().fabric().tick(
                old(self).env().cells().len() as int,
                old(self).env().ports(),
            ).error,
    {
        let ghost fabric = self.env.fabric();
        let ghost ports0 = self.env.ports();
        let len: usize = self.env.cells.len();
        for g in 0..len
            invariant
                len == fabric.cells.len(),
                old(self).env().wf(),
                fabric == old(self).env().fabric(),
                ports0 == old(self).env().ports(),
                same_design(old(self).env(), self.env()),
                self.env().points() == old(self).env().points(),
                self.env().cells() == fabric.tick(g as int, ports0).cells,
                self.env().ports() == fabric.tick(g as int, ports0).ports,
                fabric.tick(g as int, ports0).error is None,
                forall|h: int|
                    g <= h < len ==> #[trigger] self.env().cells()[h] == fabric.cells[h],
        {
            let ghost before = self.env.cells();
            assert(old(self).env().cell_ok(g as int));
            assert(same_cell::<P>(old(self).env().cells()[g as int], before[g as int]));
            assert(before[g as int] == fabric.cells[g as int]);
            match self.env.cells.get_mut(GlobalCellIdx(g)) {
                CellLedger::Primitive { cell_dyn } => {
                    let result = cell_dyn.exec_cycle(&mut self.env.ports);
                    proof {
                        let state = self.env.cells()[g as int]->Primitive_0;
                        assert(self.env.cells() =~= before.update(
                            g as int,
                            CellModel::Primitive(state),
                        ));
                        assert forall|h: int| 0 <= h < len implies same_cell::<P>(
                            #[trigger] old(self).env().cells()[h],
                            self.env().cells()[h],
                        ) by {
                            assert(same_cell::<P>(old(self).env().cells()[h], before[h]));
                        }
                    }
                    match result {
                        Err(e) => {
                            proof {
                                tick_stays_failed(fabric, g + 1, len as int, ports0);
                            }
                            return Err(e);
                        },
                        Ok(_) => {},
                    }
                },
                CellLedger::Component(_) => {
                    assert(self.env.cells() =~= before);
                },
            }
        }
        Ok(())
    }
}

/// What becomes of a control point when a step begins.
enum Progress {
    Move(ControlPoint),
    End,
    Leaf,
    Done(PortValue),
}

spec fn progress_view(progress: Progress) -> Advance {
    match progress {
        Progress::Move(point) => Advance::Move(point),
        Progress::End => Advance::End,
        Progress::Leaf => Advance::Leaf,
        Progress::Done(val) => Advance::Done(val@),
    }
}

/// Control points that are done, with the values that reported it.
pub open spec fn done_views(done: Seq<(ControlPoint, PortValue)>) -> Seq<
    (ControlPoint, PortView),
> {
    Seq::new(done.len(), |k: int| (done[k].0, done[k].1@))
}

impl<'a, P: Primitive> Environment<'a, P> {
    /// What becomes of the control points when a step begins.
    pub open spec fn swept(&self) -> Sweep {
        self.fabric().sweep(self.points(), self.ports(), self.points().len() as int)
    }

    /// Every control point can take part in a step.
    pub open spec fn points_ready(&self) -> bool {
        self.fabric().points_ready(self.points(), self.ports())
    }

    /// A step can be taken: every control point can take part in it, and
    /// evaluation comes to an end without looking up a ref port that stands for
    /// nothing.
    pub open spec fn can_step(&self) -> bool {
        self.fabric().can_step(self.points(), self.ports())
    }

    /// The control point that follows one fits too.
    proof fn next_point_ok(&self, point: ControlPoint)
        requires
            self.wf(),
            self.point_ok(point),
        ensures
            point.next(self.program()) matches Some(next) ==> self.point_ok(next),
    {
        let c = self.fabric().ledger(point.comp).comp_id.0 as int;
        assert(self.cell_ok(point.comp.0 as int));
        successor_stays_in_component(self.program(), c, point.control_node_idx.0 as int);
    }

    /// Wherever a control point moves, it fits.
    proof fn advance_ok(&self, point: ControlPoint)
        requires
            self.wf(),
            self.point_ok(point),
            self.fabric().point_ready(point, self.ports()),
        ensures
            match self.fabric().advance(point, self.ports()) {
                Advance::Move(next) => self.point_ok(next),
                Advance::End => true,
                Advance::Leaf => self.leaf_ok(point),
                Advance::Done(_) => self.leaf_ok(point),
            },
    {
        let ctx = self.program();
        let n = point.control_node_idx.0 as int;
        self.point_node(point);
        self.next_point_ok(point);
        match ctx.control(n) {
            ControlNode::Sequence(stms) => {
                if stms@.len() > 0 {
                    assert(ctx.control_graph()[n][0] == stms@[0].0);
                }
            },
            ControlNode::If(i) => {
                assert(ctx.control_graph()[n][0] == i.tbranch.0);
                assert(ctx.control_graph()[n][1] == i.fbranch.0);
            },
            ControlNode::While(w) => {
                assert(ctx.control_graph()[n][0] == w.body.0);
            },
            _ => {},
        }
    }

    /// In a well-formed environment, the holes of the groups that run or are
    /// done are ports.
    pub proof fn swept_holes_are_ports(&self)
        requires
            self.wf(),
            self.can_step(),
        ensures
            holes_in_range(self.fabric(), self.swept(), self.ports().len()),
    {
        self.sweep_ok(self.points().len() as int);
        let sweep = self.swept();
        assert forall|k: int| 0 <= k < sweep.leaves.len() implies self.fabric().go_port(
            #[trigger] sweep.leaves[k],
        ).0 < self.ports().len() by {
            self.leaf_holes(sweep.leaves[k]);
        }
        assert forall|k: int| 0 <= k < sweep.done.len() implies self.fabric().go_port(
            (#[trigger] sweep.done[k]).0,
        ).0 < self.ports().len() && self.fabric().done_port(sweep.done[k].0).0
            < self.ports().len() by {
            self.leaf_holes(sweep.done[k].0);
        }
    }

    /// When evaluation begins, a group that was done still reports it, with the
    /// value with which it did, and is still started.
    pub proof fn done_groups_keep_reporting(&self, k: int)
        requires
            self.wf(),
            self.can_step(),
            0 <= k < self.points().len(),
            self.fabric().advance(self.points()[k], self.ports()) is Done,
        ensures
            ({
                let point = self.points()[k];
                let prepared = self.fabric().prepared(self.swept(), self.ports());
                &&& prepared[self.fabric().done_port(point).0 as int]
                    == self.ports()[self.fabric().done_port(point).0 as int]
                &&& prepared[self.fabric().go_port(point).0 as int] == implicit_high()
            }),
    {
        let fabric = self.fabric();
        let sweep = self.swept();
        let n = self.points().len() as int;
        let point = self.points()[k];
        let val = fabric.advance(point, self.ports())->Done_0;
        let nothing = Seq::<PortView>::new(self.ports().len(), |i: int| None);
        let kept = fabric.keep_done(sweep.done, sweep.done.len() as int, nothing);
        self.sweep_ok(n);
        self.swept_holes_are_ports();
        sweep_places(fabric, self.points(), self.ports(), n, k);
        keep_done_len(fabric, sweep.done, sweep.done.len() as int, nothing);
        let m = sweep.done.index_of((point, val));
        self.done_values(n);
        self.kept_holes(sweep.done, sweep.done.len() as int, m);
        self.started_holes(sweep.leaves, sweep.leaves.len() as int, kept, point);
    }

    proof fn done_values(&self, n: int)
        requires
            0 <= n <= self.points().len(),
        ensures
            ({
                let done = self.fabric().sweep(self.points(), self.ports(), n).done;
                forall|m: int|
                    0 <= m < done.len() ==> (#[trigger] done[m]).1
                        == self.ports()[self.fabric().done_port(done[m].0).0 as int]
            }),
        decreases n,
    {
        if n > 0 {
            let before = self.fabric().sweep(self.points(), self.ports(), n - 1).done;
            let done = self.fabric().sweep(self.points(), self.ports(), n).done;
            self.done_values(n - 1);
            assert forall|m: int| 0 <= m < done.len() implies (#[trigger] done[m]).1
                == self.ports()[self.fabric().done_port(done[m].0).0 as int] by {
                if m < before.len() {
                    assert(done[m] == before[m]);
                }
            }
        }
    }

    proof fn kept_holes(&self, done: Seq<(ControlPoint, PortView)>, n: int, m: int)
        requires
            self.wf(),
            0 <= m < n <= done.len(),
            forall|j: int| 0 <= j < done.len() ==> self.leaf_ok((#[trigger] done[j]).0),
            forall|j: int|
                0 <= j < done.len() ==> (#[trigger] done[j]).1
                    == self.ports()[self.fabric().done_port(done[j].0).0 as int],
        ensures
            ({
                let nothing = Seq::<PortView>::new(self.ports().len(), |i: int| None);
                let kept = self.fabric().keep_done(done, n, nothing);
                let point = done[m].0;
                &&& kept.len() == self.ports().len()
                &&& kept[self.fabric().done_port(point).0 as int]
                    == self.ports()[self.fabric().done_port(point).0 as int]
                &&& kept[self.fabric().go_port(point).0 as int] == implicit_high()
            }),
        decreases n,
    {
        let nothing = Seq::<PortView>::new(self.ports().len(), |i: int| None);
        assert forall|j: int| 0 <= j < done.len() implies self.fabric().go_port(
            (#[trigger] done[j]).0,
        ).0 < self.ports().len() && self.fabric().done_port(done[j].0).0 < self.ports().len() by {
            self.leaf_holes(done[j].0);
        }
        keep_done_len(self.fabric(), done, n, nothing);
        keep_done_len(self.fabric(), done, n - 1, nothing);
        self.holes_differ(done[m].0, done[n - 1].0);
        self.holes_differ(done[n - 1].0, done[m].0);
        self.holes_differ(done[n - 1].0, done[n - 1].0);
        if m < n - 1 {
            self.kept_holes(done, n - 1, m);
        }
    }

    proof fn started_holes(
        &self,
        leaves: Seq<ControlPoint>,
        n: int,
        ports: Seq<PortView>,
        point: ControlPoint,
    )
        requires
            self.wf(),
            0 <= n <= leaves.len(),
            ports.len() == self.ports().len(),
            self.leaves_ok(leaves),
            self.leaf_ok(point),
            ports[self.fabric().go_port(point).0 as int] == implicit_high(),
        ensures
            ({
                let started = self.fabric().start_leaves(leaves, n, ports);
                &&& started.len() == ports.len()
                &&& started[self.fabric().done_port(point).0 as int]
                    == ports[self.fabric().done_port(point).0 as int]
                &&& started[self.fabric().go_port(point).0 as int] == implicit_high()
            }),
        decreases n,
    {
        if n > 0 {
            self.started_holes(leaves, n - 1, ports, point);
            self.holes_differ(leaves[n - 1], point);
            self.leaf_holes(leaves[n - 1]);
            self.leaf_holes(point);
        }
    }

    pub(crate) proof fn sweep_ok(&self, n: int)
        requires
            self.wf(),
            self.can_step(),
            0 <= n <= self.points().len(),
        ensures
            ({
                let sweep = self.fabric().sweep(self.points(), self.ports(), n);
                &&& forall|k: int|
                    0 <= k < sweep.leaves.len() ==> self.leaf_ok(#[trigger] sweep.leaves[k])
                &&& forall|k: int|
                    0 <= k < sweep.done.len() ==> self.leaf_ok((#[trigger] sweep.done[k]).0)
            }),
        decreases n,
    {
        if n > 0 {
            let before = self.fabric().sweep(self.points(), self.ports(), n - 1);
            let sweep = self.fabric().sweep(self.points(), self.ports(), n);
            self.sweep_ok(n - 1);
            self.advance_ok(self.points()[n - 1]);
            assert forall|k: int| 0 <= k < sweep.leaves.len() implies self.leaf_ok(
                #[trigger] sweep.leaves[k],
            ) by {
                if k < before.leaves.len() {
                    assert(sweep.leaves[k] == before.leaves[k]);
                }
            }
            assert forall|k: int| 0 <= k < sweep.done.len() implies self.leaf_ok(
                (#[trigger] sweep.done[k]).0,
            ) by {
                if k < before.done.len() {
                    assert(sweep.done[k] == before.done[k]);
                }
            }
        }
    }
}

// Steps.
impl<'a, P: Primitive> Simulator<'a, P> {
    /// Whether the port that a statement decides on is high.
    fn condition(&self, cond_port: PortRef, comp: GlobalCellIdx) -> (high: bool)
        requires
            self.env().wf(),
            self.env().fabric().is_instance(comp),
            self.env().fabric().usable(cond_port, comp),
            self.env().ports()[self.env().fabric().resolve(cond_port, comp).0 as int] is Some,
        ensures
            Some(high) == truth(
                self.env().ports()[self.env().fabric().resolve(cond_port, comp).0 as int],
            ),
    {
        self.get_value(&cond_port, comp).as_bool().unwrap()
    }

    /// Decides what becomes of a control point when a step begins.
    fn advance(&self, node: ControlPoint) -> (progress: Progress)
        requires
            self.env().wf(),
            self.env().point_ok(node),
            self.env().fabric().point_ready(node, self.env().ports()),
        ensures
            progress_view(progress) == self.env().fabric().advance(node, self.env().ports()),
    {
        let ctx = self.env.ctx;
        proof {
            self.env.point_node(node);
        }
        match ctx.primary.control.get(node.control_node_idx) {
            ControlNode::Sequence(stms) => {
                if stms.len() > 0 {
                    return Progress::Move(node.new_retain_comp(stms[0]));
                }
            },
            ControlNode::If(i) => {
                let target = if self.condition(i.cond_port, node.comp) {
                    i.tbranch
                } else {
                    i.fbranch
                };
                return Progress::Move(node.new_retain_comp(target));
            },
            ControlNode::While(w) => {
                if self.condition(w.cond_port, node.comp) {
                    // enter the body
                    return Progress::Move(node.new_retain_comp(w.body));
                }
            },
            ControlNode::Enable(group) => {
                proof {
                    self.env.leaf_group(node);
                    self.env.leaf_holes(node);
                }
                let done_local = ctx.primary.groups.get(*group).done;
                let done_idx = self.env.cells.get(node.comp).unwrap_comp().index_bases.port(
                    done_local,
                );
                let done = self.env.ports.get(done_idx);
                return if done.as_bool().unwrap_or(false) {
                    Progress::Done(done.clone())
                } else {
                    Progress::Leaf
                };
            },
            _ => {},
        }
        // ascend the tree
        let mut next = node;
        if next.mutate_into_next(ctx) {
            Progress::Move(next)
        } else {
            Progress::End
        }
    }

    /// Lets groups that are done keep reporting it and stay started.
    fn keep_done(&mut self, done_groups: &Vec<(ControlPoint, PortValue)>)
        requires
            old(self).env().wf(),
            forall|k: int|
                0 <= k < done_groups@.len() ==> old(self).env().leaf_ok(
                    (#[trigger] done_groups@[k]).0,
                ),
        ensures
            only_ports_differ(old(self).env(), final(self).env()),
            final(self).env().ports() == old(self).env().fabric().keep_done(
                done_views(done_groups@),
                done_groups@.len() as int,
                old(self).env().ports(),
            ),
    {
        let ghost fabric = self.env.fabric();
        let ghost ports0 = self.env.ports();
        let ghost done = done_views(done_groups@);
        let len: usize = done_groups.len();
        for k in 0..len
            invariant
                len == done_groups@.len(),
                old(self).env().wf(),
                forall|k: int|
                    0 <= k < done_groups@.len() ==> old(self).env().leaf_ok(
                        (#[trigger] done_groups@[k]).0,
                    ),
                fabric == old(self).env().fabric(),
                ports0 == old(self).env().ports(),
                done == done_views(done_groups@),
                only_ports_differ(old(self).env(), self.env()),
                self.env().ports() == fabric.keep_done(done, k as int, ports0),
        {
            let node = done_groups[k].0;
            proof {
                old(self).env().leaf_group(node);
                old(self).env().leaf_holes(node);
                assert(self.env().cells()[node.comp.0 as int] == fabric.cells[node.comp.0 as int]);
            }
            match self.env.ctx.primary.control.get(node.control_node_idx) {
                ControlNode::Enable(group) => {
                    let group = self.env.ctx.primary.groups.get(*group);
                    let index_bases = self.env.cells.get(node.comp).unwrap_comp().index_bases;
                    let done_idx = index_bases.port(group.done);
                    let go_idx = index_bases.port(group.go);
                    // retain done condition from before
                    self.env.ports.write(done_idx, done_groups[k].1.clone());
                    assert(self.env.ports().len() == ports0.len());
                    self.env.ports.write(go_idx, PortValue::new_implicit(Value::bit_high()));
                    assert(self.env.ports().len() == ports0.len());
                },
                _ => {},
            }
        }
    }

    /// Starts the groups that run.
    fn start_leaves(&mut self, leaf_nodes: &Vec<ControlPoint>)
        requires
            old(self).env().wf(),
            old(self).env().leaves_ok(leaf_nodes@),
        ensures
            only_ports_differ(old(self).env(), final(self).env()),
            final(self).env().ports() == old(self).env().fabric().start_leaves(
                leaf_nodes@,
                leaf_nodes@.len() as int,
                old(self).env().ports(),
            ),
    {
        let ghost fabric = self.env.fabric();
        let ghost ports0 = self.env.ports();
        let len: usize = leaf_nodes.len();
        for k in 0..len
            invariant
                len == leaf_nodes@.len(),
                old(self).env().wf(),
                old(self).env().leaves_ok(leaf_nodes@),
                fabric == old(self).env().fabric(),
                ports0 == old(self).env().ports(),
                only_ports_differ(old(self).env(), self.env()),
                self.env().ports() == fabric.start_leaves(leaf_nodes@, k as int, ports0),
        {
            let node = leaf_nodes[k];
            proof {
                old(self).env().leaf_group(node);
                old(self).env().leaf_holes(node);
                assert(self.env().cells()[node.comp.0 as int] == fabric.cells[node.comp.0 as int]);
            }
            match self.env.ctx.primary.control.get(node.control_node_idx) {
                ControlNode::Enable(group) => {
                    let go_local = self.env.ctx.primary.groups.get(*group).go;
                    let index_bases = self.env.cells.get(node.comp).unwrap_comp().index_bases;
                    // set go high
                    let go_idx = index_bases.port(go_local);
                    self.env.ports.write(go_idx, PortValue::new_implicit(Value::bit_high()));
                    assert(self.env.ports().len() == ports0.len());
                },
                _ => {},
            }
        }
    }

    /// Decides what becomes of the control points when a step begins: which
    /// ones stay active, whose groups run, and whose groups are done.
    fn sweep_points(&self) -> (sweep: (
        Vec<ControlPoint>,
        Vec<ControlPoint>,
        Vec<(ControlPoint, PortValue)>,
    ))
        requires
            self.env().wf(),
            self.env().points_ready(),
        ensures
            sweep.0@ == self.env().swept().kept,
            sweep.1@ == self.env().swept().leaves,
            done_views(sweep.2@) == self.env().swept().done,
            forall|m: int| 0 <= m < sweep.0@.len() ==> self.env().point_ok(#[trigger] sweep.0@[m]),
            self.env().leaves_ok(sweep.1@),
            forall|m: int|
                0 <= m < sweep.2@.len() ==> self.env().leaf_ok((#[trigger] sweep.2@[m]).0),
    {
        let ghost fabric = self.env.fabric();
        let ghost points = self.env.points();
        let ghost ports = self.env.ports();
        let mut leaf_nodes: Vec<ControlPoint> = Vec::new();
        let mut done_groups: Vec<(ControlPoint, PortValue)> = Vec::new();
        let mut kept: Vec<ControlPoint> = Vec::new();

        let len: usize = self.env.pc.len();
        for k in 0..len
            invariant
                len == points.len(),
                fabric == self.env().fabric(),
                points == self.env().points(),
                ports == self.env().ports(),
                self.env().wf(),
                self.env().points_ready(),
                kept@ == fabric.sweep(points, ports, k as int).kept,
                leaf_nodes@ == fabric.sweep(points, ports, k as int).leaves,
                done_views(done_groups@) == fabric.sweep(points, ports, k as int).done,
                forall|m: int| 0 <= m < kept@.len() ==> self.env().point_ok(#[trigger] kept@[m]),
                self.env().leaves_ok(leaf_nodes@),
                forall|m: int|
                    0 <= m < done_groups@.len() ==> self.env().leaf_ok(
                        (#[trigger] done_groups@[m]).0,
                    ),
        {
            let node = self.env.pc.get(k);
            proof {
                assert(node == points[k as int]);
                self.env.advance_ok(node);
            }
            let ghost before = done_groups@;
            match self.advance(node) {
                Progress::Move(next) => {
                    kept.push(next);
                },
                Progress::End => {},
                Progress::Leaf => {
                    kept.push(node);
                    leaf_nodes.push(node);
                },
                Progress::Done(val) => {
                    // remove from the list now
                    done_groups.push((node, val));
                    assert(done_views(done_groups@) =~= done_views(before).push((node, val@)));
                },
            }
        }
        (kept, leaf_nodes, done_groups)
    }

    /// Takes a step: control points move, the groups that they run are
    /// evaluated, and a clock edge passes. Groups that were done when the step
    /// began are left once all that has succeeded.
    pub fn step(&mut self) -> (result: InterpreterResult<()>)
        requires
            old(self).env().wf(),
            old(self).env().can_step(),
        ensures
            final(self).env().wf(),
            same_design(old(self).env(), final(self).env()),
            ({
                let stepped = old(self).env().fabric().step(
                    old(self).env().points(),
                    old(self).env().ports(),
                );
                &&& final(self).env().cells() == stepped.cells
                &&& final(self).env().ports() == stepped.ports
                &&& final(self).env().points() == stepped.points
                &&& error_of(result) == stepped.error
            }),
    {
        let ghost fabric = self.env.fabric();
        let ghost ports = self.env.ports();
        let ghost swept = self.env.swept();
        let (kept, leaf_nodes, done_groups) = self.sweep_points();
        self.env.pc = ProgramCounter::from_points(kept);
        proof {
            same_design_keeps_wf(old(self).env(), self.env());
        }
        let ghost env0 = self.env;

        self.undef_all_ports();
        proof {
            ports_keep_wf(env0, self.env());
        }
        self.keep_done(&done_groups);
        proof {
            ports_keep_wf(env0, self.env());
        }
        self.start_leaves(&leaf_nodes);
        proof {
            ports_keep_wf(env0, self.env());
            assert(self.env().ports() == fabric.prepared(swept, ports));
        }

        let evaluated = self.simulate_combinational(&leaf_nodes);
        if evaluated.is_err() {
            return evaluated;
        }
        let ghost env2 = self.env;
        let clocked = self.run_clock();
        proof {
            same_design_keeps_wf(env2, self.env());
        }
        if clocked.is_err() {
            return clocked;
        }

        // need to cleanup the finished groups
        let ghost env3 = self.env;
        let done: usize = done_groups.len();
        for k in 0..done
            invariant
                done == done_groups@.len(),
                done_views(done_groups@) == swept.done,
                old(self).env().wf(),
                fabric == old(self).env().fabric(),
                same_design(old(self).env(), self.env()),
                self.env().cells() == env3.cells(),
                self.env().ports() == env3.ports(),
                self.env().points() == swept.kept + fabric.followers(swept.done, k as int),
                forall|m: int|
                    0 <= m < done_groups@.len() ==> old(self).env().leaf_ok(
                        (#[trigger] done_groups@[m]).0,
                    ),
                forall|m: int|
                    0 <= m < self.env().points().len() ==> old(self).env().point_ok(
                        #[trigger] self.env().points()[m],
                    ),
        {
            let node = done_groups[k].0;
            proof {
                assert(swept.done[k as int].0 == node);
                old(self).env().point_node(node);
                old(self).env().next_point_ok(node);
            }
            match ControlPoint::get_next(&node, self.env.ctx) {
                Some(next) => {
                    self.env.pc.insert_node(next);
                },
                None => {},
            }
            assert(self.env.points() =~= swept.kept + fabric.followers(swept.done, k + 1));
        }
        proof {
            same_design_keeps_wf(old(self).env(), self.env());
        }
        Ok(())
    }

    /// Evaluate the entire program: takes steps until no control point is left
    /// or one fails.
    pub fn run_program(&mut self) -> (result: InterpreterResult<()>)
        requires
            old(self).env().wf(),
            old(self).env().program().primary.components@[old(
                self,
            ).env().program().entry_point.0 as int].control is Some,
            old(self).env().fabric().can_run(old(self).env().points(), old(self).env().ports()),
        ensures
            final(self).env().wf(),
            same_design(old(self).env(), final(self).env()),
            ({
                let outcome = old(self).env().fabric().outcome(
                    old(self).env().points(),
                    old(self).env().ports(),
                );
                &&& final(self).env().cells() == outcome.cells
                &&& final(self).env().ports() == outcome.ports
                &&& final(self).env().points() == outcome.points
                &&& error_of(result) == outcome.error
            }),
    {
        let ghost fabric = self.env.fabric();
        let ghost points = self.env.points();
        let ghost ports = self.env.ports();
        let ghost n = choose|n: nat|
            #[trigger] fabric.ends_after(points, ports, n) && fabric.can_run_for(points, ports, n);
        let ghost mut taken: nat = 0;
        proof {
            runs_end_once(
                fabric,
                points,
                ports,
                n,
                choose|m: nat| #[trigger] fabric.ends_after(points, ports, m),
            );
        }
        while !self.is_done()
            invariant
                old(self).env().wf(),
                fabric == old(self).env().fabric(),
                points == old(self).env().points(),
                ports == old(self).env().ports(),
                fabric.ends_after(points, ports, n),
                fabric.can_run_for(points, ports, n),
                fabric.outcome(points, ports) == fabric.run(points, ports, n),
                fabric.ctx.primary.components@[fabric.ctx.entry_point.0 as int].control is Some,
                taken <= n,
                self.env().wf(),
                same_design(old(self).env(), self.env()),
                fabric.run(points, ports, taken) == (Stepped {
                    cells: self.env().cells(),
                    ports: self.env().ports(),
                    points: self.env().points(),
                    error: None,
                }),
            decreases n - taken,
        {
            let ghost before = self.env;
            let ghost state = fabric.run(points, ports, taken);
            proof {
                assert(!state.is_over());
                assert(self.env().fabric() == fabric.after(state));
                assert(taken < n);
            }
            let result = self.step();
            proof {
                same_design_is_transitive(old(self).env(), before, self.env());
                taken = taken + 1;
                assert(fabric.run(points, ports, taken) == fabric.after(state).step(
                    state.points,
                    state.ports,
                ));
            }
            if result.is_err() {
                assert(fabric.run(points, ports, taken).is_over());
                return result;
            }
        }
        assert(fabric.run(points, ports, taken).is_over());
        Ok(())
    }

    /// Tries out the evaluation of the next step for as many rounds as are
    /// allowed. What the ports carry is the same afterwards.
    pub fn foresee(&mut self, limit: usize) -> (trial: Trial)
        requires
            old(self).env().wf(),
            old(self).env().points_ready(),
        ensures
            only_ports_differ(old(self).env(), final(self).env()),
            final(self).env().ports() == old(self).env().ports(),
            final(self).env().wf(),
            trial == old(self).env().fabric().trial(
                old(self).env().fabric().bundle(old(self).env().swept().leaves),
                old(self).env().fabric().prepared(
                    old(self).env().swept(),
                    old(self).env().ports(),
                ),
                limit as nat,
            ),
            trial is Settles ==> final(self).env().can_step(),
            trial is Unbound ==> !final(self).env().can_step(),
    {
        let ghost env0 = self.env;
        let (_, leaf_nodes, done_groups) = self.sweep_points();
        // the step is tried on ports of its own
        let len: usize = self.env.ports.len();
        let mut trial_ports = PortMap::with_capacity(len);
        for i in 0..len
            invariant
                trial_ports@.len() == i,
                forall|j: int| 0 <= j < i ==> (#[trigger] trial_ports@[j])@ is None,
        {
            trial_ports.push(PortValue::new_undef());
        }
        std::mem::swap(&mut self.env.ports, &mut trial_ports);
        proof {
            assert(self.env().ports() =~= nones::<AssignedView>(env0.ports().len()));
            ports_keep_wf(env0, self.env());
        }
        self.keep_done(&done_groups);
        proof {
            ports_keep_wf(env0, self.env());
        }
        self.start_leaves(&leaf_nodes);
        proof {
            ports_keep_wf(env0, self.env());
            self.env.bundle_is_there(leaf_nodes@);
        }
        let bundle = self.get_assignments(&leaf_nodes);
        let ghost prepared = self.env.ports();
        let trial = self.try_rounds(&bundle, limit);
        std::mem::swap(&mut self.env.ports, &mut trial_ports);
        proof {
            ports_keep_wf(env0, self.env());
            trials_are_right(env0.fabric(), bundle@, prepared, limit as nat);
        }
        trial
    }

    /// Whether a step can be taken in which evaluation needs at most so many
    /// rounds. What the ports carry is the same afterwards.
    pub fn can_step_within(&mut self, limit: usize) -> (answer: bool)
        requires
            old(self).env().wf(),
        ensures
            only_ports_differ(old(self).env(), final(self).env()),
            final(self).env().ports() == old(self).env().ports(),
            final(self).env().wf(),
            answer == (old(self).env().points_ready() && old(self).env().fabric().trial(
                old(self).env().fabric().bundle(old(self).env().swept().leaves),
                old(self).env().fabric().prepared(
                    old(self).env().swept(),
                    old(self).env().ports(),
                ),
                limit as nat,
            ) is Settles),
            answer ==> final(self).env().can_step(),
    {
        self.is_ready() && matches!(self.foresee(limit), Trial::Settles)
    }
}

} // verus!
