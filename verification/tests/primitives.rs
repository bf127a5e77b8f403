use calyx_interp::context::{CellDefinitionInfo, CellPrototype};
use calyx_interp::index::{
    BaseIndices, GlobalCellIdx, GlobalPortIdx, GlobalPortRef, GlobalRefCellIdx, GlobalRefPortIdx,
    Identifier, LocalCellOffset, LocalPortOffset, LocalRefCellOffset, LocalRefPortOffset, PortRef,
};
use calyx_interp::indexed_map::{IndexRange, IndexedMap, OffsetMap};
use calyx_interp::ports::{PortMap, PortValue, UpdateStatus};
use calyx_interp::primitive::{Primitive, StdPrimitive};
use calyx_interp::serialization::Serializable;
use calyx_interp::values::{PrintCode, Value};

fn value(number: u64, width: usize) -> Value {
    Value::from_bits((0..width).map(|i| number >> i & 1 == 1).collect())
}

fn build(prototype: CellPrototype, ports: usize, port_base: usize) -> StdPrimitive {
    let info = CellDefinitionInfo {
        name: Identifier(0),
        ports: IndexRange::new(LocalPortOffset(0), LocalPortOffset(ports)),
        prototype,
    };
    StdPrimitive::build(&info, GlobalPortIdx(port_base))
}

fn undefined(count: usize) -> PortMap {
    PortMap::from_vec((0..count).map(|_| PortValue::new_undef()).collect())
}

fn set(ports: &mut PortMap, port: usize, val: Value) {
    ports.write(GlobalPortIdx(port), PortValue::new_implicit(val));
}

fn text(ports: &PortMap, port: usize) -> String {
    ports.get(GlobalPortIdx(port)).to_text()
}

#[test]
fn constants_drive_their_output() {
    let constant = build(CellPrototype::Constant(value(5, 3)), 1, 1);
    let mut ports = undefined(2);
    assert!(matches!(constant.exec_comb(&mut ports), Ok(UpdateStatus::Changed)));
    assert_eq!(text(&ports, 1), "101");
    assert_eq!(text(&ports, 0), "undef");
    // once more, nothing changes
    assert!(matches!(constant.exec_comb(&mut ports), Ok(UpdateStatus::Unchanged)));
    assert!(!constant.has_serializable_state());
    assert!(matches!(constant.serialize(None), Serializable::Empty));
}

#[test]
fn registers_hold_what_was_written() {
    let mut register = build(CellPrototype::Register(4), 6, 1);
    let mut ports = undefined(7);
    assert!(matches!(register.exec_comb(&mut ports), Ok(UpdateStatus::Changed)));
    assert_eq!(text(&ports, 5), "0000");
    assert_eq!(text(&ports, 6), "0");
    assert!(matches!(register.exec_comb(&mut ports), Ok(UpdateStatus::Unchanged)));
    set(&mut ports, 1, value(9, 4));
    set(&mut ports, 2, Value::bit_high());
    assert!(register.exec_cycle(&mut ports).is_ok());
    assert_eq!(text(&ports, 5), "1001");
    assert_eq!(text(&ports, 6), "1");
    // without a write, the value stays
    set(&mut ports, 2, Value::bit_low());
    assert!(register.exec_cycle(&mut ports).is_ok());
    assert_eq!(text(&ports, 5), "1001");
    assert_eq!(text(&ports, 6), "0");
    // a reset comes before a write
    set(&mut ports, 2, Value::bit_high());
    set(&mut ports, 4, Value::bit_high());
    assert!(register.exec_cycle(&mut ports).is_ok());
    assert_eq!(text(&ports, 5), "0000");
    assert_eq!(text(&ports, 6), "0");
}

#[test]
fn registers_show_their_value() {
    let mut register = build(CellPrototype::Register(4), 6, 0);
    let mut ports = undefined(6);
    set(&mut ports, 0, value(13, 4));
    set(&mut ports, 1, Value::bit_high());
    assert!(register.exec_cycle(&mut ports).is_ok());
    assert!(register.has_serializable_state());
    let shown = |code| match register.serialize(code) {
        Serializable::Val(entry) => entry.to_text(),
        _ => panic!(),
    };
    assert_eq!(shown(None), "1101");
    assert_eq!(shown(Some(PrintCode::Unsigned)), "13");
    assert_eq!(shown(Some(PrintCode::Signed)), "-3");
    assert_eq!(shown(Some(PrintCode::UFixed(1))), "13/2");
    assert_eq!(shown(Some(PrintCode::Binary)), "1101");
}

#[test]
fn other_cells_do_nothing() {
    let mut inert = build(CellPrototype::Unknown(String::from("x"), vec![]), 2, 0);
    let mut ports = undefined(2);
    assert!(matches!(inert.exec_comb(&mut ports), Ok(UpdateStatus::Unchanged)));
    assert!(matches!(inert.exec_cycle(&mut ports), Ok(UpdateStatus::Unchanged)));
    assert_eq!(text(&ports, 0), "undef");
}

#[test]
fn places_are_turned_into_global_ones_and_back() {
    let bases = BaseIndices::new(
        GlobalPortIdx(10),
        GlobalCellIdx(20),
        GlobalRefCellIdx(30),
        GlobalRefPortIdx(40),
    );
    assert_eq!(bases.port(LocalPortOffset(1)), GlobalPortIdx(11));
    assert_eq!(bases.cell(LocalCellOffset(2)), GlobalCellIdx(22));
    assert_eq!(bases.ref_cell(LocalRefCellOffset(3)), GlobalRefCellIdx(33));
    assert_eq!(bases.ref_port(LocalRefPortOffset(4)), GlobalRefPortIdx(44));
    assert_eq!(bases.local_cell(bases.cell(LocalCellOffset(2))), LocalCellOffset(2));
    assert_eq!(
        GlobalPortRef::from_local(PortRef::Local(LocalPortOffset(5)), &bases),
        GlobalPortRef::Port(GlobalPortIdx(15))
    );
    assert_eq!(
        GlobalPortRef::from_local(PortRef::Ref(LocalRefPortOffset(5)), &bases),
        GlobalPortRef::Ref(GlobalRefPortIdx(45))
    );
}

#[test]
fn maps_and_ranges() {
    let mut map: IndexedMap<GlobalCellIdx, char> = IndexedMap::new();
    assert_eq!(map.peek_next_idx(), GlobalCellIdx(0));
    assert_eq!(map.push('a'), GlobalCellIdx(0));
    assert_eq!(map.push('b'), GlobalCellIdx(1));
    assert_eq!(map.len(), 2);
    map.set(GlobalCellIdx(0), 'c');
    *map.get_mut(GlobalCellIdx(1)) = 'd';
    assert_eq!((*map.get(GlobalCellIdx(0)), *map.get(GlobalCellIdx(1))), ('c', 'd'));
    let range = IndexRange::new(LocalPortOffset(3), LocalPortOffset(5));
    assert_eq!(range.size(), 2);
    assert!(range.contains(LocalPortOffset(3)) && range.contains(LocalPortOffset(4)));
    assert!(!range.contains(LocalPortOffset(2)) && !range.contains(LocalPortOffset(5)));
    assert_eq!(IndexRange::new(LocalPortOffset(5), LocalPortOffset(3)).size(), 0);
    let sparse = OffsetMap {
        entries: vec![(LocalCellOffset(0), 'x'), (LocalCellOffset(3), 'y')],
        count: 5,
    };
    assert_eq!((sparse.len(), sparse.count()), (2, 5));
    assert_eq!(*sparse.get(LocalCellOffset(3)), 'y');
    assert_eq!(sparse.find(LocalCellOffset(0)), Some(&'x'));
    assert_eq!(sparse.find(LocalCellOffset(1)), None);
}
