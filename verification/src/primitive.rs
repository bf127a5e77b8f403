//! Cells that compute: what the interpreter asks of a primitive, and the
//! primitives it brings along.

use crate::context::{CellDefinitionInfo, CellPrototype};
use crate::index::GlobalPortIdx;
use crate::ports::{
    AssignedValue, AssignedView, AssignmentWinner, Effect, ErrorView, InterpreterError,
    InterpreterResult, PortMap, PortView, UpdateStatus, insertion, result_view, truth,
};
use crate::serialization::{
    Entry, EntryView, Serializable, SerializableView, representable, shows,
};
use crate::values::{PrintCode, Value};
use vstd::prelude::*;

verus! {

/// What a clock edge does to a primitive and to the ports.
pub struct ClockEffect<S> {
    pub state: S,
    pub ports: Seq<PortView>,
    pub result: Result<UpdateStatus, ErrorView>,
}

/// A cell that computes outputs from inputs and may keep a state.
pub trait Primitive: Sized {
    /// What there is to know of the primitive's state.
    type State;

    /// What there is to know of this primitive's state.
    spec fn state(&self) -> Self::State;

    /// One more than the highest port that the primitive touches.
    spec fn extent(state: Self::State) -> nat;

    /// The state of a newly built primitive whose ports start at the given
    /// place.
    spec fn built(info: CellDefinitionInfo, port_base: int) -> Self::State;

    /// What combinational evaluation does to the ports.
    spec fn comb(state: Self::State, ports: Seq<PortView>) -> Effect;

    /// What a clock edge does.
    spec fn cycle(state: Self::State, ports: Seq<PortView>) -> ClockEffect<Self::State>;

    /// What is serialized of a state when no way to show it is asked for.
    spec fn serialized(state: Self::State) -> SerializableView;

    /// Whether the state can be shown the given way.
    spec fn showable(state: Self::State, code: PrintCode) -> bool;

    /// Whether something shows the state the given way.
    spec fn presents(shown: SerializableView, state: Self::State, code: PrintCode) -> bool;

    /// Builds the primitive for a cell definition, its ports starting at
    /// `port_base`.
    fn build(info: &CellDefinitionInfo, port_base: GlobalPortIdx) -> (primitive: Self)
        requires
            port_base.0 + info.ports.len() <= usize::MAX,
        ensures
            primitive.state() == Self::built(*info, port_base.0 as int),
            Self::extent(primitive.state()) <= port_base.0 + info.ports.len(),
    ;

    /// Evaluates the primitive combinationally.
    fn exec_comb(&self, port_map: &mut PortMap) -> (result: InterpreterResult<UpdateStatus>)
        requires
            Self::extent(self.state()) <= old(port_map)@.len(),
        ensures
            final(port_map)@.len() == old(port_map)@.len(),
            final(port_map).model() == Self::comb(self.state(), old(port_map).model()).ports,
            result_view(result) == Self::comb(self.state(), old(port_map).model()).result,
    ;

    /// Lets a clock edge pass.
    fn exec_cycle(&mut self, port_map: &mut PortMap) -> (result: InterpreterResult<UpdateStatus>)
        requires
            Self::extent(old(self).state()) <= old(port_map)@.len(),
        ensures
            Self::extent(final(self).state()) == Self::extent(old(self).state()),
            final(port_map)@.len() == old(port_map)@.len(),
            final(self).state() == Self::cycle(old(self).state(), old(port_map).model()).state,
            final(port_map).model() == Self::cycle(old(self).state(), old(port_map).model()).ports,
            result_view(result) == Self::cycle(old(self).state(), old(port_map).model()).result,
    ;

    /// Whether there is anything to serialize.
    fn has_serializable_state(&self) -> (answer: bool)
        ensures
            answer == !(Self::serialized(self.state()) is Empty),
    ;

    /// The primitive's state, arranged for output.
    fn serialize(&self, code: Option<PrintCode>) -> (serializable: Serializable)
        requires
            code matches Some(c) ==> Self::showable(self.state(), c),
        ensures
            match code {
                Some(c) => Self::presents(serializable@, self.state(), c),
                None => serializable@ == Self::serialized(self.state()),
            },
    ;
}

/// The primitives that the interpreter brings along.
#[derive(Debug)]
pub enum StdPrimitive {
    /// A fixed value.
    Const { value: Value, out: GlobalPortIdx },
    /// A register. Its ports are, in order, `in`, `write_en`, `clk`, `reset`,
    /// `out` and `done`.
    Reg { base: GlobalPortIdx, value: Value, done: bool },
    /// A cell that does nothing.
    Inert,
}

/// The state of such a primitive.
pub enum StdState {
    Const { value: Seq<bool>, out: int },
    Reg { base: int, value: Seq<bool>, done: bool },
    Inert,
}

/// A value that a cell puts on a port.
pub open spec fn cell_value(val: Seq<bool>) -> AssignedView {
    AssignedView { val, winner: AssignmentWinner::Cell }
}

/// Drives one more port, unless something already failed.
pub open spec fn also_insert(before: Effect, target: int, val: AssignedView) -> Effect {
    match before.result {
        Err(_) => before,
        Ok(status) => {
            let effect = insertion(before.ports, target, val);
            Effect {
                ports: effect.ports,
                result: match effect.result {
                    Ok(more) => Ok(status.merged(more)),
                    Err(e) => Err(e),
                },
            }
        },
    }
}

/// The state of a register after a clock edge, if the edge succeeds in
/// updating it: zero and not done after a reset, the input and done after a
/// write, the old value and not done otherwise.
pub open spec fn reg_next(base: int, value: Seq<bool>, ports: Seq<PortView>) -> Option<StdState> {
    if truth(ports[base + 3]) == Some(true) {
        Some(StdState::Reg { base, value: Seq::new(value.len(), |i: int| false), done: false })
    } else if truth(ports[base + 1]) == Some(true) {
        match ports[base] {
            Some(input) => Some(StdState::Reg { base, value: input.val, done: true }),
            None => None,
        }
    } else {
        Some(StdState::Reg { base, value, done: false })
    }
}

/// The state of a cell of the given definition.
pub open spec fn std_built(info: CellDefinitionInfo, port_base: int) -> StdState {
    match info.prototype {
        CellPrototype::Constant(value) => if info.ports.len() >= 1 {
            StdState::Const { value: value@, out: port_base }
        } else {
            StdState::Inert
        },
        CellPrototype::Register(width) => if info.ports.len() >= 6 {
            StdState::Reg {
                base: port_base,
                value: Seq::new(width as nat, |i: int| false),
                done: false,
            }
        } else {
            StdState::Inert
        },
        _ => StdState::Inert,
    }
}

/// Drives a port from a cell.
fn drive(port_map: &mut PortMap, target: GlobalPortIdx, val: Value) -> (result: InterpreterResult<
    UpdateStatus,
>)
    requires
        target.0 < old(port_map)@.len(),
    ensures
        final(port_map)@.len() == old(port_map)@.len(),
        final(port_map).model() == insertion(
            old(port_map).model(),
            target.0 as int,
            cell_value(val@),
        ).ports,
        result_view(result) == insertion(
            old(port_map).model(),
            target.0 as int,
            cell_value(val@),
        ).result,
{
    let result = port_map.insert_val(target, AssignedValue::new(val, AssignmentWinner::Cell));
    assert(port_map@.len() == port_map.model().len());
    result
}

/// The one-bit value of a truth value.
fn bit(high: bool) -> (value: Value)
    ensures
        value@ == seq![high],
{
    if high {
        Value::bit_high()
    } else {
        Value::bit_low()
    }
}

impl Primitive for StdPrimitive {
    type State = StdState;

    open spec fn state(&self) -> StdState {
        match self {
            StdPrimitive::Const { value, out } => StdState::Const {
                value: value@,
                out: out.0 as int,
            },
            StdPrimitive::Reg { base, value, done } => StdState::Reg {
                base: base.0 as int,
                value: value@,
                done: *done,
            },
            StdPrimitive::Inert => StdState::Inert,
        }
    }

    open spec fn extent(state: StdState) -> nat {
        match state {
            StdState::Const { value, out } => (out + 1) as nat,
            StdState::Reg { base, value, done } => (base + 6) as nat,
            StdState::Inert => 0,
        }
    }

    open spec fn built(info: CellDefinitionInfo, port_base: int) -> StdState {
        std_built(info, port_base)
    }

    open spec fn comb(state: StdState, ports: Seq<PortView>) -> Effect {
        match state {
            StdState::Const { value, out } => insertion(ports, out, cell_value(value)),
            StdState::Reg { base, value, done } => also_insert(
                insertion(ports, base + 4, cell_value(value)),
                base + 5,
                cell_value(seq![done]),
            ),
            StdState::Inert => Effect { ports, result: Ok(UpdateStatus::Unchanged) },
        }
    }

    open spec fn cycle(state: StdState, ports: Seq<PortView>) -> ClockEffect<StdState> {
        match state {
            StdState::Reg { base, value, done } => match reg_next(base, value, ports) {
                Some(next) => {
                    let effect = also_insert(
                        insertion(ports, base + 5, cell_value(seq![next->Reg_done])),
                        base + 4,
                        cell_value(next->Reg_value),
                    );
                    ClockEffect { state: next, ports: effect.ports, result: effect.result }
                },
                None => ClockEffect {
                    state,
                    ports,
                    result: Err(
                        ErrorView::OtherError("a register was written from an undefined port"@),
                    ),
                },
            },
            _ => ClockEffect { state, ports, result: Ok(UpdateStatus::Unchanged) },
        }
    }

    open spec fn serialized(state: StdState) -> SerializableView {
        match state {
            StdState::Reg { base, value, done } => SerializableView::Val(EntryView::Value(value)),
            _ => SerializableView::Empty,
        }
    }

    open spec fn showable(state: StdState, code: PrintCode) -> bool {
        match state {
            StdState::Reg { base, value, done } => representable(value, code),
            _ => true,
        }
    }

    open spec fn presents(shown: SerializableView, state: StdState, code: PrintCode) -> bool {
        match state {
            StdState::Reg { base, value, done } => shown matches SerializableView::Val(e) && shows(
                e,
                value,
                code,
            ),
            _ => shown is Empty,
        }
    }

    fn build(info: &CellDefinitionInfo, port_base: GlobalPortIdx) -> (primitive: Self) {
        match &info.prototype {
            CellPrototype::Constant(value) => {
                if info.ports.size() >= 1 {
                    StdPrimitive::Const { value: value.clone(), out: port_base }
                } else {
                    StdPrimitive::Inert
                }
            },
            CellPrototype::Register(width) => {
                if info.ports.size() >= 6 {
                    StdPrimitive::Reg { base: port_base, value: Value::zeroes(*width), done: false }
                } else {
                    StdPrimitive::Inert
                }
            },
            _ => StdPrimitive::Inert,
        }
    }

    fn exec_comb(&self, port_map: &mut PortMap) -> (result: InterpreterResult<UpdateStatus>) {
        proof {
            port_map.len_fits();
        }
        match self {
            StdPrimitive::Const { value, out } => drive(port_map, *out, value.clone()),
            StdPrimitive::Reg { base, value, done } => {
                match drive(port_map, GlobalPortIdx(base.0 + 4), value.clone()) {
                    Err(e) => Err(e),
                    Ok(out_status) => match drive(
                        port_map,
                        GlobalPortIdx(base.0 + 5),
                        bit(*done),
                    ) {
                        Err(e) => Err(e),
                        Ok(done_status) => Ok(out_status.merge(done_status)),
                    },
                }
            },
            StdPrimitive::Inert => Ok(UpdateStatus::Unchanged),
        }
    }

    fn exec_cycle(&mut self, port_map: &mut PortMap) -> (result: InterpreterResult<
        UpdateStatus,
    >) {
        proof {
            port_map.len_fits();
        }
        match self {
            StdPrimitive::Reg { base, value, done } => {
                let write_en = port_map.get(GlobalPortIdx(base.0 + 1)).as_bool();
                let reset = port_map.get(GlobalPortIdx(base.0 + 3)).as_bool();
                if reset.unwrap_or(false) {
                    *value = Value::zeroes(value.width());
                    *done = false;
                } else if write_en.unwrap_or(false) {
                    match port_map.get(*base).val() {
                        Some(input) => {
                            *value = input.clone();
                            *done = true;
                        },
                        None => {
                            return Err(
                                InterpreterError::OtherError(
                                    String::from_str(
                                        "a register was written from an undefined port",
                                    ),
                                ),
                            );
                        },
                    }
                } else {
                    *done = false;
                }
                match drive(port_map, GlobalPortIdx(base.0 + 5), bit(*done)) {
                    Err(e) => Err(e),
                    Ok(done_status) => match drive(
                        port_map,
                        GlobalPortIdx(base.0 + 4),
                        value.clone(),
                    ) {
                        Err(e) => Err(e),
                        Ok(out_status) => Ok(done_status.merge(out_status)),
                    },
                }
            },
            _ => Ok(UpdateStatus::Unchanged),
        }
    }

    fn has_serializable_state(&self) -> (answer: bool) {
        matches!(self, StdPrimitive::Reg { .. })
    }

    fn serialize(&self, code: Option<PrintCode>) -> (serializable: Serializable) {
        match self {
            StdPrimitive::Reg { base: _, value, done: _ } => match code {
                Some(c) => Serializable::Val(Entry::from_val_code(value, &c)),
                None => Serializable::Val(Entry::from_val_code(value, &PrintCode::Binary)),
            },
            _ => Serializable::Empty,
        }
    }
}

/// A register that is written holds the input after the clock edge, shows it,
/// and reports that it is done.
pub proof fn register_holds_what_was_written(
    base: int,
    value: Seq<bool>,
    done: bool,
    ports: Seq<PortView>,
    input: AssignedView,
)
    requires
        0 <= base,
        base + 6 <= ports.len(),
        ports[base] == Some(input),
        truth(ports[base + 1]) == Some(true),
        truth(ports[base + 3]) != Some(true),
        StdPrimitive::cycle(StdState::Reg { base, value, done }, ports).result is Ok,
    ensures
        ({
            let edge = StdPrimitive::cycle(StdState::Reg { base, value, done }, ports);
            &&& edge.state == StdState::Reg { base, value: input.val, done: true }
            &&& edge.ports[base + 4] == Some(cell_value(input.val))
            &&& edge.ports[base + 5] == Some(cell_value(seq![true]))
        }),
{
}

/// A register that is neither written nor reset keeps its value over a clock
/// edge, shows it, and does not report that it is done.
pub proof fn register_keeps_its_value(
    base: int,
    value: Seq<bool>,
    done: bool,
    ports: Seq<PortView>,
)
    requires
        0 <= base,
        base + 6 <= ports.len(),
        truth(ports[base + 1]) != Some(true),
        truth(ports[base + 3]) != Some(true),
        StdPrimitive::cycle(StdState::Reg { base, value, done }, ports).result is Ok,
    ensures
        ({
            let edge = StdPrimitive::cycle(StdState::Reg { base, value, done }, ports);
            &&& edge.state == StdState::Reg { base, value, done: false }
            &&& edge.ports[base + 4] == Some(cell_value(value))
            &&& edge.ports[base + 5] == Some(cell_value(seq![false]))
        }),
{
}

/// A register that is reset holds zero after the clock edge, whether or not it
/// is written.
pub proof fn register_is_reset(base: int, value: Seq<bool>, done: bool, ports: Seq<PortView>)
    requires
        0 <= base,
        base + 6 <= ports.len(),
        truth(ports[base + 3]) == Some(true),
    ensures
        StdPrimitive::cycle(StdState::Reg { base, value, done }, ports).state == (StdState::Reg {
            base,
            value: Seq::new(value.len(), |i: int| false),
            done: false,
        }),
{
}

/// Evaluating a primitive again changes nothing and does not fail, unless it
/// failed before.
pub proof fn evaluation_is_idempotent(state: StdState, ports: Seq<PortView>)
    requires
        StdPrimitive::extent(state) <= ports.len(),
        match state {
            StdState::Const { value, out } => 0 <= out,
            StdState::Reg { base, value, done } => 0 <= base,
            StdState::Inert => true,
        },
        StdPrimitive::comb(state, ports).result is Ok,
    ensures
        StdPrimitive::comb(state, StdPrimitive::comb(state, ports).ports) == (Effect {
            ports: StdPrimitive::comb(state, ports).ports,
            result: Ok(UpdateStatus::Unchanged),
        }),
{
}

/// A newly built constant shows its value on its only port, and a newly built
/// register holds zero and is not done. A cell without the ports for that, and
/// any other cell, does nothing.
pub proof fn cells_are_built_from_their_definitions(info: CellDefinitionInfo, port_base: int)
    ensures
        match (info.prototype, StdPrimitive::built(info, port_base)) {
            (CellPrototype::Constant(v), StdState::Const { value, out }) => info.ports.len() >= 1
                && value == v@ && out == port_base,
            (CellPrototype::Constant(_), state) => info.ports.len() < 1 && state is Inert,
            (CellPrototype::Register(width), StdState::Reg { base, value, done }) => {
                &&& info.ports.len() >= 6
                &&& base == port_base
                &&& value.len() == width
                &&& forall|i: int| 0 <= i < width ==> !value[i]
                &&& !done
            },
            (CellPrototype::Register(_), state) => info.ports.len() < 6 && state is Inert,
            (_, state) => state is Inert,
        },
{
}

/// A register that is to be written while its input carries nothing fails and
/// keeps what it holds, and the ports stay as they are.
pub proof fn registers_need_an_input(
    base: int,
    value: Seq<bool>,
    done: bool,
    ports: Seq<PortView>,
)
    requires
        truth(ports[base + 1]) == Some(true),
        truth(ports[base + 3]) != Some(true),
        ports[base] is None,
    ensures
        ({
            let edge = StdPrimitive::cycle(StdState::Reg { base, value, done }, ports);
            edge.result is Err && edge.ports == ports && edge.state == (StdState::Reg {
                base,
                value,
                done,
            })
        }),
{
}

/// A clock edge does nothing to constants and to cells that do nothing.
pub proof fn only_registers_are_clocked(state: StdState, ports: Seq<PortView>)
    requires
        !(state is Reg),
    ensures
        StdPrimitive::cycle(state, ports).state == state,
        StdPrimitive::cycle(state, ports).ports == ports,
        StdPrimitive::cycle(state, ports).result == Ok::<UpdateStatus, ErrorView>(
            UpdateStatus::Unchanged,
        ),
{
}

/// A register shows the value that it holds, bit by bit or as it is asked for,
/// and no other cell has anything to show.
pub proof fn only_registers_have_something_to_show(
    state: StdState,
    shown: SerializableView,
    code: PrintCode,
)
    ensures
        match state {
            StdState::Reg { base, value, done } => StdPrimitive::serialized(state)
                == SerializableView::Val(EntryView::Value(value)) && (StdPrimitive::presents(
                shown,
                state,
                code,
            ) <==> (shown matches SerializableView::Val(e) && shows(e, value, code))),
            _ => StdPrimitive::serialized(state) is Empty && (StdPrimitive::presents(
                shown,
                state,
                code,
            ) <==> shown is Empty),
        },
{
}

/// A register can be shown in every way in which its value can be, and a cell
/// without anything to show in every way.
pub proof fn ways_to_show_a_primitive(state: StdState, code: PrintCode)
    ensures
        StdPrimitive::showable(state, code) <==> match state {
            StdState::Reg { base, value, done } => representable(value, code),
            _ => true,
        },
{
}

} // verus!
