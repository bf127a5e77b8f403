//! Checking that a step can be taken.

use super::super::AssignmentRange;
use super::{AssignmentBundle, Simulator, error_of, only_ports_differ, ports_keep_wf};
use crate::context::{ControlNode, Guard};
use crate::control::ControlPoint;
use crate::fabric::{
    Trial, bundle_safe_once_failed, bundle_safe_prefix, bundle_stays_failed, range_safe_once_failed,
    range_safe_prefix, range_stays_failed,
};
use crate::graph::rank_of;
use crate::index::{AssignmentIdx, GlobalCellIdx, GroupIdx, GuardIdx, PortRef};
use crate::ports::InterpreterResult;
use crate::primitive::Primitive;
use vstd::prelude::*;

verus! {

impl<'a, P: Primitive> Simulator<'a, P> {
    /// Whether a port reference of an instance leads to a port.
    fn is_usable(&self, port: &PortRef, comp: GlobalCellIdx) -> (answer: bool)
        requires
            self.env().wf(),
            self.env().fabric().is_instance(comp),
            self.env().program().ref_fits(
                self.env().fabric().ledger(comp).comp_id.0 as int,
                *port,
            ),
        ensures
            answer == self.env().fabric().usable(*port, comp),
    {
        proof {
            assert(self.env.cell_ok(comp.0 as int));
            self.env.ref_ports.len_fits();
        }
        match port {
            PortRef::Local(_) => true,
            PortRef::Ref(r) => {
                let bases = self.env.cells.get(comp).unwrap_comp().index_bases;
                self.env.ref_ports.get(bases.ref_port(*r)).is_some()
            },
        }
    }

    /// Whether every port reference that is looked up when a guard is evaluated
    /// leads to a port.
    fn is_guard_readable(&self, guard: GuardIdx, comp: GlobalCellIdx) -> (answer: bool)
        requires
            self.env().wf(),
            self.env().fabric().is_instance(comp),
            guard.0 < self.env().program().primary.guards@.len(),
            forall|p: PortRef|
                self.env().program().guard_ports(guard.0 as int).contains(p)
                    ==> #[trigger] self.env().program().ref_fits(
                    self.env().fabric().ledger(comp).comp_id.0 as int,
                    p,
                ),
        ensures
            answer == self.env().fabric().guard_readable(
                guard.0 as int,
                comp,
                self.env().ports(),
            ),
        decreases rank_of(self.env().program().guard_graph(), guard.0 as int),
    {
        let ghost all = self.env.program().guard_ports(guard.0 as int);
        proof {
            self.env.program().guard_rank_drops(guard.0 as int);
        }
        match self.env.ctx.primary.guards.get(guard) {
            Guard::True => true,
            Guard::Or(a, b) => self.is_guard_readable(*a, comp) && (self.evaluate_guard(
                *a,
                comp,
            ).is_none() || self.is_guard_readable(*b, comp)),
            Guard::And(a, b) => self.is_guard_readable(*a, comp) && (self.evaluate_guard(
                *a,
                comp,
            ).is_none() || self.is_guard_readable(*b, comp)),
            Guard::Not(a) => self.is_guard_readable(*a, comp),
            Guard::Comp(_, a, b) => {
                assert(all.contains(*a) && all.contains(*b));
                self.is_usable(a, comp) && self.is_usable(b, comp)
            },
            Guard::Port(p) => {
                assert(all.contains(*p));
                self.is_usable(p, comp)
            },
        }
    }

    /// Whether every port reference that is looked up when an assignment is made
    /// leads to a port.
    fn is_assign_safe(&self, assign_idx: AssignmentIdx, comp: GlobalCellIdx) -> (answer: bool)
        requires
            self.env().wf(),
            self.env().fabric().is_instance(comp),
            assign_idx.0 < self.env().program().primary.assignments@.len(),
            self.env().program().assignment_fits(
                self.env().fabric().ledger(comp).comp_id.0 as int,
                assign_idx.0 as int,
            ),
        ensures
            answer == self.env().fabric().assign_safe(
                assign_idx.0 as int,
                comp,
                self.env().ports(),
            ),
    {
        let ghost ctx = self.env.program();
        let ghost c = self.env.fabric().ledger(comp).comp_id.0 as int;
        let assign = self.env.ctx.primary.assignments.get(assign_idx);
        proof {
            let all = ctx.assignment_ports(assign_idx.0 as int);
            assert(all.contains(assign.src) && all.contains(assign.dst));
            assert forall|p: PortRef|
                ctx.guard_ports(assign.guard.0 as int).contains(p) implies #[trigger] ctx.ref_fits(
                c,
                p,
            ) by {
                assert(all.contains(p));
            }
        }
        self.is_guard_readable(assign.guard, comp) && (!self.evaluate_guard(
            assign.guard,
            comp,
        ).unwrap_or(false) || (self.is_usable(&assign.src, comp) && self.is_usable(
            &assign.dst,
            comp,
        )))
    }

    /// Does what the assignments of a range are to do in a component instance,
    /// unless a ref port that stands for nothing is looked up.
    fn try_range(&mut self, assigns: AssignmentRange, comp: GlobalCellIdx) -> (result: Option<
        InterpreterResult<()>,
    >)
        requires
            old(self).env().wf(),
            old(self).env().fabric().range_there(assigns, comp),
        ensures
            only_ports_differ(old(self).env(), final(self).env()),
            ({
                let fabric = old(self).env().fabric();
                let start = assigns.start.0 as int;
                let len = assigns.len() as int;
                let run = fabric.assign_range(start, len, comp, old(self).env().ports());
                match result {
                    Some(r) => fabric.range_safe(start, len, comp, old(self).env().ports())
                        && final(self).env().ports() == run.ports && error_of(r) == run.error,
                    None => !fabric.range_safe(start, len, comp, old(self).env().ports()),
                }
            }),
    {
        let ghost fabric = self.env.fabric();
        let ghost ports0 = self.env.ports();
        let ghost start = assigns.start.0 as int;
        let len: usize = assigns.size();
        for i in 0..len
            invariant
                len == assigns.len(),
                start == assigns.start.0,
                old(self).env().wf(),
                fabric == old(self).env().fabric(),
                ports0 == old(self).env().ports(),
                fabric.range_there(assigns, comp),
                fabric.range_safe(start, i as int, comp, ports0),
                only_ports_differ(old(self).env(), self.env()),
                self.env().ports() == fabric.assign_range(start, i as int, comp, ports0).ports,
                fabric.assign_range(start, i as int, comp, ports0).error is None,
        {
            proof {
                ports_keep_wf(old(self).env(), self.env());
                assert(assigns.has(start + i));
                assert(fabric.ctx.assignment_fits(
                    fabric.ledger(comp).comp_id.0 as int,
                    start + i,
                ));
                assert(self.env().fabric() == fabric);
            }
            let assign_idx = AssignmentIdx(assigns.start.0 + i);
            if !self.is_assign_safe(assign_idx, comp) {
                proof {
                    if fabric.range_safe(start, len as int, comp, ports0) {
                        range_safe_prefix(fabric, start, i + 1, len as int, comp, ports0);
                    }
                }
                return None;
            }
            let result = self.run_assignment(assign_idx, comp);
            if result.is_err() {
                proof {
                    range_stays_failed(fabric, start, i + 1, len as int, comp, ports0);
                    range_safe_once_failed(fabric, start, i + 1, len as int, comp, ports0);
                }
                return Some(result);
            }
        }
        Some(Ok(()))
    }

    /// Does what the assignments of a bundle are to do, unless a ref port that
    /// stands for nothing is looked up.
    fn try_bundle(&mut self, bundle: &AssignmentBundle) -> (result: Option<InterpreterResult<()>>)
        requires
            old(self).env().wf(),
            old(self).env().fabric().bundle_there(bundle@),
        ensures
            only_ports_differ(old(self).env(), final(self).env()),
            ({
                let fabric = old(self).env().fabric();
                let len = bundle@.len() as int;
                let run = fabric.assign_bundle(bundle@, len, old(self).env().ports());
                match result {
                    Some(r) => fabric.bundle_safe(bundle@, len, old(self).env().ports())
                        && final(self).env().ports() == run.ports && error_of(r) == run.error,
                    None => !fabric.bundle_safe(bundle@, len, old(self).env().ports()),
                }
            }),
    {
        let ghost fabric = self.env.fabric();
        let ghost ports0 = self.env.ports();
        let len: usize = bundle.len();
        for k in 0..len
            invariant
                len == bundle@.len(),
                old(self).env().wf(),
                fabric == old(self).env().fabric(),
                ports0 == old(self).env().ports(),
                fabric.bundle_there(bundle@),
                fabric.bundle_safe(bundle@, k as int, ports0),
                only_ports_differ(old(self).env(), self.env()),
                self.env().ports() == fabric.assign_bundle(bundle@, k as int, ports0).ports,
                fabric.assign_bundle(bundle@, k as int, ports0).error is None,
        {
            proof {
                ports_keep_wf(old(self).env(), self.env());
                assert(self.env().fabric() == fabric);
            }
            let (comp, assigns) = bundle[k];
            match self.try_range(assigns, comp) {
                None => {
                    proof {
                        if fabric.bundle_safe(bundle@, len as int, ports0) {
                            bundle_safe_prefix(fabric, bundle@, k + 1, len as int, ports0);
                        }
                    }
                    return None;
                },
                Some(Err(e)) => {
                    proof {
                        bundle_stays_failed(fabric, bundle@, k + 1, len as int, ports0);
                        bundle_safe_once_failed(fabric, bundle@, k + 1, len as int, ports0);
                    }
                    return Some(Err(e));
                },
                Some(Ok(_)) => {},
            }
        }
        Some(Ok(()))
    }

    /// Evaluates assignments and primitives for as many rounds as are allowed,
    /// unless a ref port that stands for nothing is looked up.
    pub(crate) fn try_rounds(&mut self, bundle: &AssignmentBundle, limit: usize) -> (trial: Trial)
        requires
            old(self).env().wf(),
            old(self).env().fabric().bundle_there(bundle@),
        ensures
            only_ports_differ(old(self).env(), final(self).env()),
            trial == old(self).env().fabric().trial(
                bundle@,
                old(self).env().ports(),
                limit as nat,
            ),
    {
        let ghost fabric = self.env.fabric();
        let ghost whole = fabric.trial(bundle@, self.env.ports(), limit as nat);
        for i in 0..limit
            invariant
                old(self).env().wf(),
                fabric == old(self).env().fabric(),
                fabric.bundle_there(bundle@),
                whole == fabric.trial(bundle@, old(self).env().ports(), limit as nat),
                only_ports_differ(old(self).env(), self.env()),
                whole == fabric.trial(bundle@, self.env().ports(), (limit - i) as nat),
        {
            proof {
                ports_keep_wf(old(self).env(), self.env());
                assert(self.env().fabric() == fabric);
            }
            match self.try_bundle(bundle) {
                None => {
                    return Trial::Unbound;
                },
                Some(Err(_)) => {
                    return Trial::Settles;
                },
                Some(Ok(_)) => {},
            }
            proof {
                ports_keep_wf(old(self).env(), self.env());
                assert(self.env().fabric() == fabric);
            }
            match self.run_primitives() {
                Err(_) => {
                    return Trial::Settles;
                },
                Ok(status) => {
                    if !status.as_bool() {
                        return Trial::Settles;
                    }
                },
            }
        }
        Trial::Unsettled
    }

    /// Whether a condition has no group of its own, and the port that it is on
    /// carries a value.
    fn is_condition_ready(
        &self,
        cond_group: Option<GroupIdx>,
        cond_port: PortRef,
        comp: GlobalCellIdx,
    ) -> (answer: bool)
        requires
            self.env().wf(),
            self.env().fabric().is_instance(comp),
            self.env().program().ref_fits(
                self.env().fabric().ledger(comp).comp_id.0 as int,
                cond_port,
            ),
        ensures
            answer == self.env().fabric().condition_ready(
                cond_group,
                cond_port,
                comp,
                self.env().ports(),
            ),
    {
        cond_group.is_none() && self.is_usable(&cond_port, comp) && self.get_value(
            &cond_port,
            comp,
        ).is_def()
    }

    /// Whether a control point can take part in a step.
    fn is_point_ready(&self, node: ControlPoint) -> (answer: bool)
        requires
            self.env().wf(),
            self.env().point_ok(node),
        ensures
            answer == self.env().fabric().point_ready(node, self.env().ports()),
    {
        proof {
            self.env.point_node(node);
        }
        match self.env.ctx.primary.control.get(node.control_node_idx) {
            ControlNode::Parallel(_) => false,
            ControlNode::Invoke => false,
            ControlNode::If(i) => self.is_condition_ready(i.cond_group, i.cond_port, node.comp),
            ControlNode::While(w) => self.is_condition_ready(w.cond_group, w.cond_port, node.comp),
            _ => true,
        }
    }

    /// Whether every control point can take part in a step.
    pub fn is_ready(&self) -> (answer: bool)
        requires
            self.env().wf(),
        ensures
            answer == self.env().points_ready(),
    {
        let len: usize = self.env.pc.len();
        for k in 0..len
            invariant
                len == self.env().points().len(),
                self.env().wf(),
                forall|m: int|
                    0 <= m < k ==> self.env().fabric().point_ready(
                        #[trigger] self.env().points()[m],
                        self.env().ports(),
                    ),
        {
            let node = self.env.pc.get(k);
            assert(node == self.env().points()[k as int]);
            if !self.is_point_ready(node) {
                return false;
            }
        }
        true
    }
}

} // verus!
