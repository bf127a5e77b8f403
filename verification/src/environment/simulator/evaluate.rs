//! Combinational evaluation: guards, assignments and primitives.

use super::super::{AssignmentRange, CellLedger, Environment, nones};
use super::{AssignmentBundle, Simulator, error_of, only_ports_differ, ports_keep_wf};
use crate::context::{ControlNode, Guard, PortComp};
use crate::control::ControlPoint;
use crate::fabric::{
    bundle_safe_prefix, bundle_stays_failed, compares, failed_evaluation_stays, folded,
    range_safe_prefix, range_stays_failed, settling_is_unique,
};
use crate::graph::{acyclic, rank_of};
use crate::index::{AssignmentIdx, GlobalCellIdx, GlobalPortIdx, GuardIdx};
use crate::ports::{
    AssignedValue, AssignedView, AssignmentWinner, ErrorView, InterpreterResult, UpdateStatus,
    result_view,
};
use crate::primitive::Primitive;
use crate::values::Value;
use itertools::Itertools;
use vstd::prelude::*;

verus! {

/// Compares two values.
pub fn compare_values(op: PortComp, a: &Value, b: &Value) -> (answer: bool)
    ensures
        answer == compares(op, a@, b@),
{
    match op {
        PortComp::Eq => a.same(b),
        PortComp::Neq => !a.same(b),
        PortComp::Gt => b.is_less(a),
        PortComp::Lt => a.is_less(b),
        PortComp::Geq => b.is_less(a) || a.same(b),
        PortComp::Leq => a.is_less(b) || a.same(b),
    }
}

// Guards.
impl<'a, P: Primitive> Simulator<'a, P> {
    /// The value of a guard in a component instance, if the ports that it reads
    /// carry values. The ports that it comes to look up have to be there.
    pub fn evaluate_guard(&self, guard: GuardIdx, comp: GlobalCellIdx) -> (value: Option<bool>)
        requires
            self.env().design_ok(),
            acyclic(self.env().program().guard_graph()),
            self.env().fabric().is_instance(comp),
            guard.0 < self.env().program().primary.guards@.len(),
            self.env().fabric().guard_readable(guard.0 as int, comp, self.env().ports()),
        ensures
            value == self.env().fabric().guard_value(guard.0 as int, comp, self.env().ports()),
        decreases rank_of(self.env().program().guard_graph(), guard.0 as int),
    {
        proof {
            self.env.program().guard_rank_drops(guard.0 as int);
        }
        match self.env.ctx.primary.guards.get(guard) {
            Guard::True => Some(true),
            Guard::Or(a, b) => {
                let g1 = self.evaluate_guard(*a, comp)?;
                let g2 = self.evaluate_guard(*b, comp)?;
                Some(g1 || g2)
            },
            Guard::And(a, b) => {
                let g1 = self.evaluate_guard(*a, comp)?;
                let g2 = self.evaluate_guard(*b, comp)?;
                Some(g1 && g2)
            },
            Guard::Not(n) => Some(!self.evaluate_guard(*n, comp)?),
            Guard::Comp(c, a, b) => {
                let a_val = self.get_value(a, comp).val()?;
                let b_val = self.get_value(b, comp).val()?;
                Some(compare_values(*c, a_val, b_val))
            },
            Guard::Port(p) => self.get_value(p, comp).as_bool(),
        }
    }
}

/// What a series of results stands for.
pub open spec fn result_views(results: Seq<InterpreterResult<UpdateStatus>>) -> Seq<
    Result<UpdateStatus, ErrorView>,
> {
    Seq::new(results.len(), |i: int| result_view(results[i]))
}

/// `itertools::Itertools::fold_ok`: it goes through the results from the first
/// to the last, merges those that succeeded into what it started with, and
/// returns the first error as soon as it meets one.
#[verifier::external_body]
fn fold_results(start: UpdateStatus, results: Vec<InterpreterResult<UpdateStatus>>) -> (total:
    InterpreterResult<UpdateStatus>)
    ensures
        result_view(total) == folded(start, result_views(results@)),
{
    results.into_iter().fold_ok(start, |all, one| all.merge(one))
}

// Combinational evaluation.
impl<'a, P: Primitive> Simulator<'a, P> {
    /// Makes all ports undefined.
    pub fn undef_all_ports(&mut self)
        ensures
            only_ports_differ(old(self).env(), final(self).env()),
            final(self).env().ports() == nones::<AssignedView>(old(self).env().ports().len()),
    {
        let len: usize = self.env.ports.len();
        for i in 0..len
            invariant
                len == self.env().ports().len(),
                only_ports_differ(old(self).env(), self.env()),
                forall|j: int| 0 <= j < i ==> (#[trigger] self.env().ports()[j]) is None,
        {
            self.env.ports.write_undef_unchecked(GlobalPortIdx(i));
            assert(self.env.ports().len() == len);
        }
        assert(self.env().ports() =~= nones::<AssignedView>(old(self).env().ports().len()));
    }

    /// Does what an assignment in a component instance is to do.
    pub(crate) fn run_assignment(&mut self, assign_idx: AssignmentIdx, comp: GlobalCellIdx) -> (result:
        InterpreterResult<()>)
        requires
            old(self).env().wf(),
            old(self).env().fabric().is_instance(comp),
            assign_idx.0 < old(self).env().program().primary.assignments@.len(),
            old(self).env().program().assignment(assign_idx.0 as int).guard.0
                < old(self).env().program().primary.guards@.len(),
            old(self).env().fabric().assign_safe(
                assign_idx.0 as int,
                comp,
                old(self).env().ports(),
            ),
        ensures
            only_ports_differ(old(self).env(), final(self).env()),
            final(self).env().ports() == old(self).env().fabric().assign(
                assign_idx.0 as int,
                comp,
                old(self).env().ports(),
            ).ports,
            error_of(result) == old(self).env().fabric().assign(
                assign_idx.0 as int,
                comp,
                old(self).env().ports(),
            ).error,
    {
        let assign = self.env.ctx.primary.assignments.get(assign_idx);
        // an assignment whose guard has no value is not made
        if self.evaluate_guard(assign.guard, comp).unwrap_or(false) {
            let dest = self.get_global_idx(&assign.dst, comp);
            let val = self.get_value(&assign.src, comp);
            match val.as_option() {
                Some(v) => {
                    let assigned = AssignedValue::new(
                        v.val().clone(),
                        AssignmentWinner::Assign(assign_idx),
                    );
                    let result = self.env.ports.insert_val(dest, assigned);
                    assert(self.env.ports().len() == old(self).env().ports().len());
                    match result {
                        Ok(_) => Ok(()),
                        Err(e) => Err(e),
                    }
                },
                None => self.env.ports.write_undef(dest),
            }
        } else {
            Ok(())
        }
    }

    /// Does what the assignments of a range are to do in a component instance,
    /// up to the first error.
    fn run_range(&mut self, assigns: AssignmentRange, comp: GlobalCellIdx) -> (result:
        InterpreterResult<()>)
        requires
            old(self).env().wf(),
            old(self).env().fabric().range_there(assigns, comp),
            old(self).env().fabric().range_safe(
                assigns.start.0 as int,
                assigns.len() as int,
                comp,
                old(self).env().ports(),
            ),
        ensures
            only_ports_differ(old(self).env(), final(self).env()),
            final(self).env().ports() == old(self).env().fabric().assign_range(
                assigns.start.0 as int,
                assigns.len() as int,
                comp,
                old(self).env().ports(),
            ).ports,
            error_of(result) == old(self).env().fabric().assign_range(
                assigns.start.0 as int,
                assigns.len() as int,
                comp,
                old(self).env().ports(),
            ).error,
    {
        let ghost fabric = self.env.fabric();
        let ghost ports0 = self.env.ports();
        let ghost start = assigns.start.0 as int;
        let len: usize = assigns.size();
        for i in 0..len
            invariant
                len == assigns.len(),
                start == assigns.start.0,
                old(self).env().wf(),
                fabric == old(self).env().fabric(),
                ports0 == old(self).env().ports(),
                fabric.range_there(assigns, comp),
                fabric.range_safe(start, len as int, comp, ports0),
                only_ports_differ(old(self).env(), self.env()),
                self.env().ports() == fabric.assign_range(start, i as int, comp, ports0).ports,
                fabric.assign_range(start, i as int, comp, ports0).error is None,
        {
            proof {
                ports_keep_wf(old(self).env(), self.env());
                assert(assigns.has(start + i));
                assert(fabric.ctx.assignment_fits(
                    fabric.ledger(comp).comp_id.0 as int,
                    start + i,
                ));
                range_safe_prefix(fabric, start, i + 1, len as int, comp, ports0);
                assert(self.env().fabric() == fabric);
            }
            let result = self.run_assignment(AssignmentIdx(assigns.start.0 + i), comp);
            if result.is_err() {
                proof {
                    range_stays_failed(fabric, start, i + 1, len as int, comp, ports0);
                }
                return result;
            }
        }
        Ok(())
    }

    /// Does what the assignments of a bundle are to do, up to the first error.
    fn run_bundle(&mut self, bundle: &AssignmentBundle) -> (result: InterpreterResult<()>)
        requires
            old(self).env().wf(),
            old(self).env().fabric().bundle_there(bundle@),
            old(self).env().fabric().bundle_safe(
                bundle@,
                bundle@.len() as int,
                old(self).env().ports(),
            ),
        ensures
            only_ports_differ(old(self).env(), final(self).env()),
            final(self).env().ports() == old(self).env().fabric().assign_bundle(
                bundle@,
                bundle@.len() as int,
                old(self).env().ports(),
            ).ports,
            error_of(result) == old(self).env().fabric().assign_bundle(
                bundle@,
                bundle@.len() as int,
                old(self).env().ports(),
            ).error,
    {
        let ghost fabric = self.env.fabric();
        let ghost ports0 = self.env.ports();
        let len: usize = bundle.len();
        for k in 0..len
            invariant
                len == bundle@.len(),
                old(self).env().wf(),
                fabric == old(self).env().fabric(),
                ports0 == old(self).env().ports(),
                fabric.bundle_there(bundle@),
                fabric.bundle_safe(bundle@, len as int, ports0),
                only_ports_differ(old(self).env(), self.env()),
                self.env().ports() == fabric.assign_bundle(bundle@, k as int, ports0).ports,
                fabric.assign_bundle(bundle@, k as int, ports0).error is None,
        {
            proof {
                ports_keep_wf(old(self).env(), self.env());
                assert(self.env().fabric() == fabric);
                bundle_safe_prefix(fabric, bundle@, k + 1, len as int, ports0);
            }
            let (comp, assigns) = bundle[k];
            let result = self.run_range(assigns, comp);
            if result.is_err() {
                proof {
                    bundle_stays_failed(fabric, bundle@, k + 1, len as int, ports0);
                }
                return result;
            }
        }
        Ok(())
    }

    /// Evaluates all primitives, up to the first error.
    pub(crate) fn run_primitives(&mut self) -> (result: InterpreterResult<UpdateStatus>)
        requires
            old(self).env().wf(),
        ensures
            only_ports_differ(old(self).env(), final(self).env()),
            final(self).env().ports() == old(self).env().fabric().comb_cells(
                old(self).env().cells().len() as int,
                old(self).env().ports(),
            ).ports,
            result_view(result) == old(self).env().fabric().comb_cells(
                old(self).env().cells().len() as int,
                old(self).env().ports(),
            ).result,
    {
        let ghost fabric = self.env.fabric();
        let ghost ports0 = self.env.ports();
        let mut statuses: Vec<InterpreterResult<UpdateStatus>> = Vec::new();
        let mut failed = false;
        let len: usize = self.env.cells.len();
        let mut g: usize = 0;
        while g < len && !failed
            invariant
                g <= len == fabric.cells.len(),
                old(self).env().wf(),
                fabric == old(self).env().fabric(),
                ports0 == old(self).env().ports(),
                only_ports_differ(old(self).env(), self.env()),
                self.env().ports() == fabric.comb_cells(g as int, ports0).ports,
                fabric.comb_cells(g as int, ports0).result == folded(
                    UpdateStatus::Unchanged,
                    result_views(statuses@),
                ),
                failed == (fabric.comb_cells(g as int, ports0).result is Err),
            decreases len - g,
        {
            assert(old(self).env().cell_ok(g as int));
            assert(self.env().cells()[g as int] == fabric.cells[g as int]);
            match self.env.cells.get(GlobalCellIdx(g)) {
                CellLedger::Primitive { cell_dyn } => {
                    let ghost before = statuses@;
                    let status = cell_dyn.exec_comb(&mut self.env.ports);
                    failed = status.is_err();
                    statuses.push(status);
                    assert(result_views(statuses@).drop_last() =~= result_views(before));
                },
                CellLedger::Component(_) => {},
            }
            g = g + 1;
        }
        proof {
            if failed {
                failed_evaluation_stays(fabric, g as int, len as int, ports0);
            }
        }
        fold_results(UpdateStatus::Unchanged, statuses)
    }
}

impl<'a, P: Primitive> Environment<'a, P> {
    /// The assignments of the groups that control points run are there.
    pub(crate) proof fn bundle_is_there(&self, points: Seq<ControlPoint>)
        requires
            self.wf(),
            self.leaves_ok(points),
        ensures
            self.fabric().bundle_there(self.fabric().bundle(points)),
    {
        let fabric = self.fabric();
        let bundle = fabric.bundle(points);
        assert forall|k: int| 0 <= k < bundle.len() implies fabric.range_there(
            (#[trigger] bundle[k]).1,
            bundle[k].0,
        ) by {
            self.leaf_group(points[k]);
        }
    }
}

// Evaluating groups.
impl<'a, P: Primitive> Simulator<'a, P> {
    /// The assignments of the groups that control points run.
    pub fn get_assignments(&self, control_points: &Vec<ControlPoint>) -> (bundle: AssignmentBundle)
        requires
            self.env().wf(),
            self.env().leaves_ok(control_points@),
        ensures
            bundle@ == self.env().fabric().bundle(control_points@),
    {
        let mut bundle: AssignmentBundle = Vec::new();
        let len: usize = control_points.len();
        for k in 0..len
            invariant
                len == control_points@.len(),
                self.env().wf(),
                self.env().leaves_ok(control_points@),
                bundle@ == self.env().fabric().bundle(control_points@).take(k as int),
        {
            let node = control_points[k];
            proof {
                self.env.leaf_group(node);
            }
            match self.env.ctx.primary.control.get(node.control_node_idx) {
                ControlNode::Enable(group) => {
                    let assignments = self.env.ctx.primary.groups.get(*group).assignments;
                    bundle.push((node.comp, assignments));
                },
                _ => {},
            }
            assert(bundle@ =~= self.env().fabric().bundle(control_points@).take(k + 1));
        }
        assert(bundle@ =~= self.env().fabric().bundle(control_points@));
        bundle
    }

    /// Evaluates the groups that control points run, together with all
    /// primitives, until nothing changes or something fails.
    pub fn simulate_combinational(&mut self, control_points: &Vec<ControlPoint>) -> (result:
        InterpreterResult<()>)
        requires
            old(self).env().wf(),
            old(self).env().leaves_ok(control_points@),
            old(self).env().fabric().settles_safely(
                old(self).env().fabric().bundle(control_points@),
                old(self).env().ports(),
            ),
        ensures
            only_ports_differ(old(self).env(), final(self).env()),
            final(self).env().wf(),
            final(self).env().ports() == old(self).env().fabric().settled(
                old(self).env().fabric().bundle(control_points@),
                old(self).env().ports(),
            ).ports,
            error_of(result) == old(self).env().fabric().settled(
                old(self).env().fabric().bundle(control_points@),
                old(self).env().ports(),
            ).error,
    {
        let assigns_bundle = self.get_assignments(control_points);
        let ghost fabric = self.env.fabric();
        let ghost bundle = assigns_bundle@;
        let ghost outcome = fabric.settled(bundle, self.env.ports());
        let ghost mut limit: nat = choose|limit: nat|
            (#[trigger] fabric.settle_within(bundle, self.env.ports(), limit)) is Some
                && fabric.settle_safe(bundle, self.env.ports(), limit);
        proof {
            self.env.bundle_is_there(control_points@);
            settling_is_unique(fabric, bundle, self.env.ports(), limit);
        }
        let mut has_changed = true;
        while has_changed
            invariant
                old(self).env().wf(),
                fabric == old(self).env().fabric(),
                bundle == assigns_bundle@,
                fabric.bundle_there(bundle),
                outcome == fabric.settled(
                    old(self).env().fabric().bundle(control_points@),
                    old(self).env().ports(),
                ),
                only_ports_differ(old(self).env(), self.env()),
                has_changed ==> fabric.settle_within(bundle, self.env().ports(), limit) == Some(
                    outcome,
                ) && fabric.settle_safe(bundle, self.env().ports(), limit),
                !has_changed ==> self.env().ports() == outcome.ports && outcome.error is None,
            ensures
                !has_changed,
            decreases limit,
        {
            let ghost ports0 = self.env.ports();
            proof {
                ports_keep_wf(old(self).env(), self.env());
                assert(self.env().fabric() == fabric);
            }
            // evaluate all the assignments and make updates
            let assigned = self.run_bundle(&assigns_bundle);
            if assigned.is_err() {
                proof {
                    ports_keep_wf(old(self).env(), self.env());
                }
                return assigned;
            }
            proof {
                ports_keep_wf(old(self).env(), self.env());
                assert(self.env().fabric() == fabric);
                assert(limit > 0);
            }
            // Run all the primitives
            match self.run_primitives() {
                Err(e) => {
                    proof {
                        ports_keep_wf(old(self).env(), self.env());
                    }
                    return Err(e);
                },
                Ok(status) => {
                    has_changed = status.as_bool();
                },
            }
            proof {
                limit = (limit - 1) as nat;
            }
        }
        proof {
            ports_keep_wf(old(self).env(), self.env());
        }
        Ok(())
    }
}

} // verus!
