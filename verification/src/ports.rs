//! What a port carries and the map of all ports.

use crate::index::{AssignmentIdx, GlobalPortIdx};
use crate::indexed_map::IndexedMap;
use crate::values::{Value, bits_text, nonzero};
use vstd::prelude::*;

verus! {

/// Who put a value on a port.
#[derive(Clone, Copy, Debug, PartialEq, Eq, Structural)]
pub enum AssignmentWinner {
    /// A cell's own computation. Cells do not share output ports, so it need
    /// not be recorded which cell it was.
    Cell,
    /// The control program.
    Implicit,
    /// An assignment.
    Assign(AssignmentIdx),
}

/// A value together with who assigned it.
#[derive(Debug)]
pub struct AssignedValue {
    val: Value,
    winner: AssignmentWinner,
}

/// What an assigned value stands for.
pub struct AssignedView {
    pub val: Seq<bool>,
    pub winner: AssignmentWinner,
}

impl View for AssignedValue {
    type V = AssignedView;

    closed spec fn view(&self) -> AssignedView {
        AssignedView { val: self.val@, winner: self.winner }
    }
}

impl Clone for AssignedValue {
    fn clone(&self) -> (copy: Self)
        ensures
            copy@ == self@,
    {
        AssignedValue { val: self.val.clone(), winner: self.winner }
    }
}

impl AssignedValue {
    /// A value and who assigned it.
    pub fn new(val: Value, winner: AssignmentWinner) -> (assigned: Self)
        ensures
            assigned@ == (AssignedView { val: val@, winner }),
    {
        AssignedValue { val, winner }
    }

    /// The value.
    pub fn val(&self) -> (val: &Value)
        ensures
            val@ == self@.val,
    {
        &self.val
    }

    /// Who assigned the value.
    pub fn winner(&self) -> (winner: AssignmentWinner)
        ensures
            winner == self@.winner,
    {
        self.winner
    }

    /// Whether both the values and who assigned them are equal.
    pub fn same(&self, other: &Self) -> (equal: bool)
        ensures
            equal == (self@ == other@),
    {
        self.winner == other.winner && self.val.same(&other.val)
    }

    /// Whether the two do not have the same winner.
    pub fn has_conflict_with(&self, other: &Self) -> (conflict: bool)
        ensures
            conflict == (self@.winner != other@.winner),
    {
        self.winner != other.winner
    }
}

/// What a port carries, if anything.
#[derive(Debug)]
pub struct PortValue(Option<AssignedValue>);

/// What a port carries, if anything.
pub type PortView = Option<AssignedView>;

impl View for PortValue {
    type V = PortView;

    closed spec fn view(&self) -> PortView {
        match self.0 {
            Some(v) => Some(v@),
            None => None,
        }
    }
}

/// The high value as the control program puts it on a port.
pub open spec fn implicit_high() -> PortView {
    Some(AssignedView { val: seq![true], winner: AssignmentWinner::Implicit })
}

/// What a port carries as a truth value.
pub open spec fn truth(port: PortView) -> Option<bool> {
    match port {
        Some(v) => Some(nonzero(v.val)),
        None => None,
    }
}

/// How what a port carries is written.
pub open spec fn port_text(port: PortView) -> Seq<char> {
    match port {
        Some(v) => bits_text(v.val),
        None => "undef"@,
    }
}

impl Clone for PortValue {
    fn clone(&self) -> (copy: Self)
        ensures
            copy@ == self@,
    {
        match &self.0 {
            Some(v) => PortValue(Some(v.clone())),
            None => PortValue(None),
        }
    }
}

impl PortValue {
    /// A defined port.
    pub fn new(val: AssignedValue) -> (port: Self)
        ensures
            port@ == Some(val@),
    {
        PortValue(Some(val))
    }

    /// An undefined port.
    pub fn new_undef() -> (port: Self)
        ensures
            port@ is None,
    {
        PortValue(None)
    }

    /// A port that the control program drives.
    pub fn new_implicit(val: Value) -> (port: Self)
        ensures
            port@ == Some(AssignedView { val: val@, winner: AssignmentWinner::Implicit }),
    {
        PortValue(Some(AssignedValue::new(val, AssignmentWinner::Implicit)))
    }

    /// Whether the port carries anything.
    pub fn is_def(&self) -> (defined: bool)
        ensures
            defined == (self@ is Some),
    {
        self.0.is_some()
    }

    /// The value and who assigned it.
    pub fn as_option(&self) -> (assigned: Option<&AssignedValue>)
        ensures
            match assigned {
                Some(v) => self@ == Some(v@),
                None => self@ is None,
            },
    {
        self.0.as_ref()
    }

    /// The value.
    pub fn val(&self) -> (val: Option<&Value>)
        ensures
            match val {
                Some(v) => self@ is Some && self@->0.val == v@,
                None => self@ is None,
            },
    {
        match &self.0 {
            Some(v) => Some(v.val()),
            None => None,
        }
    }

    /// The value as a truth value.
    pub fn as_bool(&self) -> (truth_value: Option<bool>)
        ensures
            truth_value == truth(self@),
    {
        match &self.0 {
            Some(v) => Some(v.val().as_bool()),
            None => None,
        }
    }

    /// Makes the port undefined and returns what it carried.
    pub fn set_undef(&mut self) -> (former: Option<AssignedValue>)
        ensures
            final(self)@ is None,
            match former {
                Some(v) => old(self)@ == Some(v@),
                None => old(self)@ is None,
            },
    {
        self.0.take()
    }

    /// Writes what the port carries.
    pub fn to_text(&self) -> (text: String)
        ensures
            text@ == port_text(self@),
    {
        match &self.0 {
            Some(v) => v.val().to_text(),
            None => String::from_str("undef"),
        }
    }
}

/// What can go wrong during interpretation.
#[derive(Debug)]
pub enum InterpreterError {
    /// Two assignments drive one port at the same time.
    FlatConflictingAssignments { a1: AssignedValue, a2: AssignedValue },
    /// A port that carries a value was to be left undefined.
    UndefiningDefinedPort(GlobalPortIdx),
    /// A primitive failed for a reason of its own.
    OtherError(String),
}

/// What an error stands for.
pub enum ErrorView {
    FlatConflictingAssignments { a1: AssignedView, a2: AssignedView },
    UndefiningDefinedPort(GlobalPortIdx),
    OtherError(Seq<char>),
}

impl View for InterpreterError {
    type V = ErrorView;

    open spec fn view(&self) -> ErrorView {
        match self {
            InterpreterError::FlatConflictingAssignments { a1, a2 } => {
                ErrorView::FlatConflictingAssignments { a1: a1@, a2: a2@ }
            },
            InterpreterError::UndefiningDefinedPort(p) => ErrorView::UndefiningDefinedPort(*p),
            InterpreterError::OtherError(s) => ErrorView::OtherError(s@),
        }
    }
}

pub type InterpreterResult<T> = Result<T, InterpreterError>;

/// What a result stands for.
pub open spec fn result_view<T>(result: InterpreterResult<T>) -> Result<T, ErrorView> {
    match result {
        Ok(t) => Ok(t),
        Err(e) => Err(e@),
    }
}

/// Whether anything changed.
#[derive(Clone, Copy, Debug, PartialEq, Eq, Structural)]
pub enum UpdateStatus {
    Unchanged,
    Changed,
}

impl UpdateStatus {
    /// Whether anything changed.
    pub fn as_bool(&self) -> (changed: bool)
        ensures
            changed == (*self is Changed),
    {
        matches!(self, UpdateStatus::Changed)
    }

    /// Whether anything changed in either of two steps.
    pub open spec fn merged(self, other: UpdateStatus) -> UpdateStatus {
        if self is Changed || other is Changed {
            UpdateStatus::Changed
        } else {
            UpdateStatus::Unchanged
        }
    }

    /// Whether anything changed in either of two steps.
    pub fn merge(self, other: UpdateStatus) -> (either: UpdateStatus)
        ensures
            either == self.merged(other),
    {
        match (self, other) {
            (UpdateStatus::Unchanged, UpdateStatus::Unchanged) => UpdateStatus::Unchanged,
            _ => UpdateStatus::Changed,
        }
    }
}

/// A map from global port indices to what the ports carry.
pub type PortMap = IndexedMap<GlobalPortIdx, PortValue>;

/// What ports carry after an attempted change, and how the attempt went.
pub struct Effect {
    pub ports: Seq<PortView>,
    pub result: Result<UpdateStatus, ErrorView>,
}

/// What driving a port with a value does. A port that already carries this
/// very value is left alone. A value from another winner is a conflict.
/// Otherwise the port carries the new value.
pub open spec fn insertion(ports: Seq<PortView>, target: int, val: AssignedView) -> Effect {
    match ports[target] {
        Some(t) => if t == val {
            Effect { ports, result: Ok(UpdateStatus::Unchanged) }
        } else if t.winner != val.winner {
            Effect {
                ports,
                result: Err(ErrorView::FlatConflictingAssignments { a1: t, a2: val }),
            }
        } else {
            Effect { ports: ports.update(target, Some(val)), result: Ok(UpdateStatus::Changed) }
        },
        None => Effect {
            ports: ports.update(target, Some(val)),
            result: Ok(UpdateStatus::Changed),
        },
    }
}

impl PortMap {
    /// What the ports carry.
    pub open spec fn model(&self) -> Seq<PortView> {
        Seq::new(self@.len(), |i: int| self@[i]@)
    }

    /// Essentially asserts that the port given is undefined, it errors out if
    /// the port is defined and otherwise does nothing
    pub fn write_undef(&mut self, target: GlobalPortIdx) -> (result: InterpreterResult<()>)
        requires
            target.0 < old(self)@.len(),
        ensures
            final(self)@ == old(self)@,
            match result {
                Ok(_) => old(self).model()[target.0 as int] is None,
                Err(e) => old(self).model()[target.0 as int] is Some && e@
                    == ErrorView::UndefiningDefinedPort(target),
            },
    {
        if self.get(target).is_def() {
            Err(InterpreterError::UndefiningDefinedPort(target))
        } else {
            Ok(())
        }
    }

    /// Sets the given index to undefined without checking whether or not it was
    /// already defined
    pub fn write_undef_unchecked(&mut self, target: GlobalPortIdx)
        requires
            target.0 < old(self)@.len(),
        ensures
            final(self).model() == old(self).model().update(target.0 as int, None),
    {
        self.set(target, PortValue::new_undef());
        assert(self.model() =~= old(self).model().update(target.0 as int, None));
    }

    /// Replaces what a port carries, whatever that was.
    pub fn write(&mut self, target: GlobalPortIdx, val: PortValue)
        requires
            target.0 < old(self)@.len(),
        ensures
            final(self).model() == old(self).model().update(target.0 as int, val@),
    {
        self.set(target, val);
        assert(self.model() =~= old(self).model().update(target.0 as int, val@));
    }

    /// Drives a port with a value.
    pub fn insert_val(&mut self, target: GlobalPortIdx, val: AssignedValue) -> (result:
        InterpreterResult<UpdateStatus>)
        requires
            target.0 < old(self)@.len(),
        ensures
            final(self).model() == insertion(old(self).model(), target.0 as int, val@).ports,
            result_view(result) == insertion(old(self).model(), target.0 as int, val@).result,
    {
        let ghost before = self.model();
        match self.get(target).as_option() {
            Some(t) => {
                if t.same(&val) {
                    // unchanged
                    return Ok(UpdateStatus::Unchanged);
                }
                if t.has_conflict_with(&val) {
                    // conflict
                    return Err(
                        InterpreterError::FlatConflictingAssignments { a1: t.clone(), a2: val },
                    );
                }
            },
            None => {},
        }
        // changed
        self.write(target, PortValue::new(val));
        Ok(UpdateStatus::Changed)
    }
}

/// Driving a port with the same value once more changes nothing and never
/// fails, unless the first attempt did.
pub proof fn insertion_is_idempotent(ports: Seq<PortView>, target: int, val: AssignedView)
    requires
        0 <= target < ports.len(),
        insertion(ports, target, val).result is Ok,
    ensures
        insertion(insertion(ports, target, val).ports, target, val) == (Effect {
            ports: insertion(ports, target, val).ports,
            result: Ok(UpdateStatus::Unchanged),
        }),
{
}

/// A port carries a value after it was driven with it, no other port is
/// touched, and an attempt that fails changes nothing at all.
pub proof fn insertion_is_local(ports: Seq<PortView>, target: int, val: AssignedView)
    requires
        0 <= target < ports.len(),
    ensures
        ({
            let effect = insertion(ports, target, val);
            &&& effect.ports.len() == ports.len()
            &&& effect.result is Ok ==> effect.ports[target] == Some(val)
            &&& effect.result is Err ==> effect.ports == ports
            &&& effect.result == Ok::<UpdateStatus, ErrorView>(UpdateStatus::Unchanged)
                <==> ports[target] == Some(val)
            &&& forall|i: int|
                0 <= i < ports.len() && i != target ==> #[trigger] effect.ports[i] == ports[i]
        }),
{
}

/// Driving a port fails exactly when it carries a value of another winner.
pub proof fn insertion_conflicts(ports: Seq<PortView>, target: int, val: AssignedView)
    requires
        0 <= target < ports.len(),
    ensures
        insertion(ports, target, val).result is Err <==> (ports[target] matches Some(t) && t.winner
            != val.winner),
{
}

/// A conflict is one of the value that the port carries with the value that it
/// was to be driven with.
pub proof fn conflicts_name_both_values(ports: Seq<PortView>, target: int, val: AssignedView)
    requires
        0 <= target < ports.len(),
    ensures
        insertion(ports, target, val).result matches Err(e) ==> match ports[target] {
            Some(t) => e == (ErrorView::FlatConflictingAssignments { a1: t, a2: val }),
            None => false,
        },
{
}

/// The high value is one bit that is set, and it is the control program's.
pub proof fn high_is_one_set_bit()
    ensures
        implicit_high() matches Some(v) && v.val.len() == 1 && v.val[0] && v.winner
            == AssignmentWinner::Implicit,
{
}

/// Two steps together change something exactly when one of them does.
pub proof fn changes_add_up(a: UpdateStatus, b: UpdateStatus)
    ensures
        a.merged(b) is Changed <==> a is Changed || b is Changed,
        a.merged(b) == b.merged(a),
{
}

/// A port is written as the bits that it carries, or as undefined.
pub proof fn ports_are_written_bit_by_bit(port: PortView)
    ensures
        match port {
            Some(v) => port_text(port).len() == v.val.len() && forall|i: int|
                0 <= i < v.val.len() ==> (#[trigger] v.val[i] <==> port_text(port)[v.val.len() - 1
                    - i] == '1') && (!v.val[i] <==> port_text(port)[v.val.len() - 1 - i] == '0'),
            None => port_text(port) == "undef"@,
        },
{
}

} // verus!
