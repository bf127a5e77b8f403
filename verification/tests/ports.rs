use calyx_interp::index::{AssignmentIdx, GlobalPortIdx};
use calyx_interp::ports::{
    AssignedValue, AssignmentWinner, InterpreterError, PortMap, PortValue, UpdateStatus,
};
use calyx_interp::values::Value;

fn two_ports() -> PortMap {
    PortMap::from_vec(vec![PortValue::new_undef(), PortValue::new_undef()])
}

fn assigned(number: u8, by: usize) -> AssignedValue {
    let bits = (0..4).map(|i| number >> i & 1 == 1).collect();
    AssignedValue::new(Value::from_bits(bits), AssignmentWinner::Assign(AssignmentIdx(by)))
}

fn text(ports: &PortMap, port: usize) -> String {
    ports.get(GlobalPortIdx(port)).to_text()
}

#[test]
fn driving_an_undefined_port_changes_it() {
    let mut ports = two_ports();
    let status = ports.insert_val(GlobalPortIdx(1), assigned(5, 0));
    assert!(matches!(status, Ok(UpdateStatus::Changed)));
    assert_eq!(text(&ports, 1), "0101");
    assert_eq!(text(&ports, 0), "undef");
}

#[test]
fn driving_a_port_again_changes_nothing() {
    let mut ports = two_ports();
    assert!(ports.insert_val(GlobalPortIdx(0), assigned(5, 0)).is_ok());
    let status = ports.insert_val(GlobalPortIdx(0), assigned(5, 0));
    assert!(matches!(status, Ok(UpdateStatus::Unchanged)));
    assert_eq!(text(&ports, 0), "0101");
}

#[test]
fn a_winner_may_change_its_value() {
    let mut ports = two_ports();
    assert!(ports.insert_val(GlobalPortIdx(0), assigned(5, 0)).is_ok());
    let status = ports.insert_val(GlobalPortIdx(0), assigned(6, 0));
    assert!(matches!(status, Ok(UpdateStatus::Changed)));
    assert_eq!(text(&ports, 0), "0110");
}

#[test]
fn two_winners_conflict() {
    let mut ports = two_ports();
    assert!(ports.insert_val(GlobalPortIdx(0), assigned(5, 0)).is_ok());
    match ports.insert_val(GlobalPortIdx(0), assigned(6, 1)) {
        Err(InterpreterError::FlatConflictingAssignments { a1, a2 }) => {
            assert!(a1.same(&assigned(5, 0)));
            assert!(a2.same(&assigned(6, 1)));
        }
        _ => panic!(),
    }
    assert_eq!(text(&ports, 0), "0101");
}

#[test]
fn equal_values_of_two_winners_conflict_too() {
    let mut ports = two_ports();
    assert!(ports.insert_val(GlobalPortIdx(0), assigned(5, 0)).is_ok());
    assert!(ports.insert_val(GlobalPortIdx(0), assigned(5, 1)).is_err());
}

#[test]
fn undefined_ports_may_be_left_undefined() {
    let mut ports = two_ports();
    assert!(ports.write_undef(GlobalPortIdx(0)).is_ok());
    assert!(ports.insert_val(GlobalPortIdx(0), assigned(5, 0)).is_ok());
    match ports.write_undef(GlobalPortIdx(0)) {
        Err(InterpreterError::UndefiningDefinedPort(port)) => assert_eq!(port, GlobalPortIdx(0)),
        _ => panic!(),
    }
    assert_eq!(text(&ports, 0), "0101");
    ports.write_undef_unchecked(GlobalPortIdx(0));
    assert_eq!(text(&ports, 0), "undef");
}

#[test]
fn ports_can_be_emptied() {
    let mut port = PortValue::new(assigned(5, 0));
    assert!(port.is_def());
    assert_eq!(port.as_bool(), Some(true));
    assert!(port.set_undef().unwrap().same(&assigned(5, 0)));
    assert!(port.set_undef().is_none());
    assert!(!port.is_def());
    assert_eq!(port.as_bool(), None);
    assert!(port.val().is_none());
}

#[test]
fn implicit_values_have_a_winner_of_their_own() {
    let port = PortValue::new_implicit(Value::bit_high());
    assert_eq!(port.as_option().unwrap().winner(), AssignmentWinner::Implicit);
    assert_eq!(port.clone().to_text(), "1");
}

#[test]
fn statuses_are_merged() {
    let (no, yes) = (UpdateStatus::Unchanged, UpdateStatus::Changed);
    assert_eq!(no.merge(no), no);
    assert_eq!(no.merge(yes), yes);
    assert_eq!(yes.merge(no), yes);
    assert!(yes.as_bool() && !no.as_bool());
}
