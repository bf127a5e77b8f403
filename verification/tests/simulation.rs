use calyx_interp::context::{
    Assignment, AuxiliaryComponentInfo, CellDefinitionInfo, CellPrototype, ComponentCore, Context,
    ControlNode, DefinitionRanges, Group, Guard, If, InterpretationContext, PortComp,
    PortDefinitionInfo, RefCellDefinitionInfo, SecondaryContext, While,
};
use calyx_interp::control::{ControlPoint, ProgramCounter};
use calyx_interp::environment::report::ReportLine;
use calyx_interp::environment::simulator::Simulator;
use calyx_interp::environment::Environment;
use calyx_interp::fabric::Trial;
use calyx_interp::index::{
    AssignmentIdx, CellDefinitionIdx, ComponentIdx, ControlIdx, GlobalCellIdx, GlobalPortIdx,
    GlobalPortRef, GlobalRefCellIdx, GlobalRefPortIdx, GroupIdx, GuardIdx, Identifier, LocalCellOffset,
    LocalPortOffset, LocalRefCellOffset, LocalRefPortOffset, PortDefinitionIdx, PortRef,
    RefCellDefinitionIdx,
};
use calyx_interp::indexed_map::{IndexRange, IndexedMap, OffsetMap};
use calyx_interp::ports::{AssignmentWinner, InterpreterError};
use calyx_interp::primitive::{Primitive, StdPrimitive};
use calyx_interp::serialization::Serializable;
use calyx_interp::values::Value;

// ----- building programs -----

/// What a cell of a component is to be.
enum Kind {
    Const(u64, usize),
    Reg(usize),
    Other(&'static str, usize),
    Comp(ComponentIdx),
}

/// The tables of a program under construction.
#[derive(Default)]
struct Tables {
    names: Vec<String>,
    port_defs: Vec<PortDefinitionInfo>,
    cell_defs: Vec<CellDefinitionInfo>,
    ref_cell_defs: Vec<RefCellDefinitionInfo>,
    cores: Vec<ComponentCore>,
    infos: Vec<AuxiliaryComponentInfo>,
    groups: Vec<Group>,
    assignments: Vec<Assignment>,
    guards: Vec<Guard>,
    control: Vec<ControlNode>,
}

fn bits(number: u64, width: usize) -> Vec<bool> {
    (0..width).map(|i| number >> i & 1 == 1).collect()
}

fn local(offset: usize) -> PortRef {
    PortRef::Local(LocalPortOffset(offset))
}

fn reference(offset: usize) -> PortRef {
    PortRef::Ref(LocalRefPortOffset(offset))
}

impl Tables {
    fn name(&mut self, name: &str) -> Identifier {
        self.names.push(String::from(name));
        Identifier(self.names.len() - 1)
    }

    fn guard(&mut self, guard: Guard) -> GuardIdx {
        self.guards.push(guard);
        GuardIdx(self.guards.len() - 1)
    }

    fn port(&mut self, name: &str) -> PortDefinitionIdx {
        let name = self.name(name);
        self.port_defs.push(PortDefinitionInfo { name });
        PortDefinitionIdx(self.port_defs.len() - 1)
    }

    /// Adds a component whose parts are numbered in the order of their layout.
    /// Control nodes refer to one another by their place in `control`, of which
    /// the first is the root.
    fn component(
        &mut self,
        name: &str,
        signature: &[&str],
        groups: Vec<Vec<Assignment>>,
        cells: Vec<(&str, Kind)>,
        ref_cells: Vec<(&str, usize)>,
        control: Vec<ControlNode>,
    ) -> ComponentIdx {
        let mut ports = vec![];
        let mut next = 0;
        for port in signature {
            let def = self.port(port);
            ports.push((LocalPortOffset(next), def));
            next += 1;
        }
        let first_group = self.groups.len();
        for assignments in groups {
            let (go, done) = (self.port("go"), self.port("done"));
            ports.push((LocalPortOffset(next), go));
            ports.push((LocalPortOffset(next + 1), done));
            let start = self.assignments.len();
            self.assignments.extend(assignments);
            self.groups.push(Group {
                go: LocalPortOffset(next),
                done: LocalPortOffset(next + 1),
                assignments: IndexRange::new(
                    AssignmentIdx(start),
                    AssignmentIdx(self.assignments.len()),
                ),
            });
            next += 2;
        }
        let mut cell_map = vec![];
        let (mut cell_count, mut ref_cell_count, mut ref_port_count) = (0, 0, 0);
        let first_cell = self.cell_defs.len();
        for (cell, kind) in cells {
            let name = self.name(cell);
            let (prototype, size) = match kind {
                Kind::Const(number, width) => {
                    (CellPrototype::Constant(Value::from_bits(bits(number, width))), 1)
                }
                Kind::Reg(width) => (CellPrototype::Register(width), 6),
                Kind::Other(primitive, size) => {
                    (CellPrototype::Unknown(String::from(primitive), vec![]), size)
                }
                Kind::Comp(c) => (CellPrototype::Component(c), self.infos[c.0].signature.size()),
            };
            let range = IndexRange::new(LocalPortOffset(0), LocalPortOffset(size));
            cell_map.push((LocalCellOffset(0), CellDefinitionIdx(self.cell_defs.len())));
            self.cell_defs.push(CellDefinitionInfo { name, ports: range, prototype });
        }
        // primitives take their places before sub-components do
        for components in [false, true] {
            for i in 0..cell_map.len() {
                let def = first_cell + i;
                let size = self.cell_defs[def].ports.end.0;
                let (names, child): (Vec<String>, _) = match &self.cell_defs[def].prototype {
                    CellPrototype::Component(c) => {
                        ((0..size).map(|i| format!("s{}", i)).collect(), Some(*c))
                    }
                    CellPrototype::Constant(_) => (vec![String::from("out")], None),
                    CellPrototype::Register(_) => (
                        ["in", "write_en", "clk", "reset", "out", "done"]
                            .map(String::from)
                            .to_vec(),
                        None,
                    ),
                    CellPrototype::Unknown(_, _) => {
                        ((0..size).map(|i| format!("p{}", i)).collect(), None)
                    }
                };
                if child.is_some() != components {
                    continue;
                }
                for (i, port) in names.iter().enumerate() {
                    let def = self.port(port);
                    ports.push((LocalPortOffset(next + i), def));
                }
                self.cell_defs[def].ports =
                    IndexRange::new(LocalPortOffset(next), LocalPortOffset(next + size));
                cell_map[i].0 = LocalCellOffset(cell_count);
                cell_count += 1;
                match child {
                    Some(c) => {
                        let child = &self.infos[c.0];
                        next += child.port_offset_map.count;
                        cell_count += child.cell_offset_map.count;
                        ref_cell_count += child.ref_cell_offset_map.count;
                        ref_port_count += child.ref_port_offset_map.count;
                    }
                    None => next += size,
                }
            }
        }
        let mut ref_cell_map = vec![];
        let mut ref_ports = vec![];
        for (cell, count) in ref_cells {
            let cell_name = self.name(cell);
            let range = IndexRange::new(
                LocalRefPortOffset(ref_port_count),
                LocalRefPortOffset(ref_port_count + count),
            );
            for i in 0..count {
                let def = self.port("ref");
                ref_ports.push((LocalRefPortOffset(ref_port_count + i), def));
            }
            ref_cell_map.push((
                LocalRefCellOffset(ref_cell_count),
                RefCellDefinitionIdx(self.ref_cell_defs.len()),
            ));
            self.ref_cell_defs.push(RefCellDefinitionInfo { name: cell_name, ports: range });
            ref_cell_count += 1;
            ref_port_count += count;
        }
        let first_node = self.control.len();
        let shift = |n: ControlIdx| ControlIdx(n.0 + first_node);
        let root = if control.is_empty() { None } else { Some(ControlIdx(first_node)) };
        for node in control {
            self.control.push(match node {
                ControlNode::Sequence(stms) => {
                    ControlNode::Sequence(stms.into_iter().map(shift).collect())
                }
                ControlNode::Parallel(stms) => {
                    ControlNode::Parallel(stms.into_iter().map(shift).collect())
                }
                ControlNode::If(i) => ControlNode::If(If {
                    tbranch: shift(i.tbranch),
                    fbranch: shift(i.fbranch),
                    ..i
                }),
                ControlNode::While(w) => ControlNode::While(While { body: shift(w.body), ..w }),
                ControlNode::Enable(g) => ControlNode::Enable(GroupIdx(g.0 + first_group)),
                other => other,
            });
        }
        let comp_name = self.name(name);
        self.cores.push(ComponentCore { control: root });
        self.infos.push(AuxiliaryComponentInfo {
            name: comp_name,
            signature: IndexRange::new(LocalPortOffset(0), LocalPortOffset(signature.len())),
            definitions: DefinitionRanges {
                groups: IndexRange::new(GroupIdx(first_group), GroupIdx(self.groups.len())),
                control: IndexRange::new(ControlIdx(first_node), ControlIdx(self.control.len())),
            },
            port_offset_map: OffsetMap { entries: ports, count: next },
            ref_port_offset_map: OffsetMap { entries: ref_ports, count: ref_port_count },
            cell_offset_map: OffsetMap { entries: cell_map, count: cell_count },
            ref_cell_offset_map: OffsetMap { entries: ref_cell_map, count: ref_cell_count },
        });
        ComponentIdx(self.infos.len() - 1)
    }

    /// The program that runs a component.
    fn program(self, entry_point: ComponentIdx) -> Context {
        Context {
            entry_point,
            primary: InterpretationContext {
                components: IndexedMap::from_vec(self.cores),
                groups: IndexedMap::from_vec(self.groups),
                assignments: IndexedMap::from_vec(self.assignments),
                guards: IndexedMap::from_vec(self.guards),
                control: IndexedMap::from_vec(self.control),
            },
            secondary: SecondaryContext {
                components: IndexedMap::from_vec(self.infos),
                cells: IndexedMap::from_vec(self.cell_defs),
                ref_cells: IndexedMap::from_vec(self.ref_cell_defs),
                ports: IndexedMap::from_vec(self.port_defs),
                names: IndexedMap::from_vec(self.names),
            },
        }
    }
}

fn enable(group: usize) -> ControlNode {
    ControlNode::Enable(GroupIdx(group))
}

fn sequence(stms: &[usize]) -> ControlNode {
    ControlNode::Sequence(stms.iter().map(|n| ControlIdx(*n)).collect())
}

/// A component `main` that writes 5 into a register. Its ports are the holes 0
/// and 1, the constants' outputs 2 and 3, and the register's ports 4 to 9.
fn write_five(control: Vec<ControlNode>) -> Context {
    let mut tables = Tables::default();
    let always = tables.guard(Guard::True);
    let started = tables.guard(Guard::Port(local(0)));
    let group = vec![
        Assignment { dst: local(4), src: local(2), guard: always },
        Assignment { dst: local(5), src: local(3), guard: started },
        Assignment { dst: local(1), src: local(9), guard: always },
    ];
    let cells = vec![
        ("five", Kind::Const(5, 4)),
        ("one", Kind::Const(1, 1)),
        ("r", Kind::Reg(4)),
    ];
    let main = tables.component("main", &[], vec![group], cells, vec![], control);
    tables.program(main)
}

/// A component `main` that runs one group of the given assignments. Its ports
/// are the holes 0 and 1, the constants 0 and 1 of one bit at 2 and 3, and four
/// ports of a cell that does nothing from 4 on.
fn one_group(assignments: Vec<(usize, usize)>) -> Context {
    let mut tables = Tables::default();
    let always = tables.guard(Guard::True);
    let group = assignments
        .into_iter()
        .map(|(dst, src)| Assignment { dst: local(dst), src: local(src), guard: always })
        .collect();
    let cells = vec![
        ("zero", Kind::Const(0, 1)),
        ("one", Kind::Const(1, 1)),
        ("x", Kind::Other("inert", 4)),
    ];
    let main = tables.component("main", &[], vec![group], cells, vec![], vec![enable(0)]);
    tables.program(main)
}

fn start(ctx: &Context) -> Simulator<'_, StdPrimitive> {
    assert!(ctx.is_valid());
    Simulator::new(Environment::new(ctx))
}

fn nodes<P: Primitive>(simulator: &Simulator<'_, P>) -> Vec<usize> {
    let pc = simulator.environment().pc();
    (0..pc.len()).map(|k| pc.get(k).control_node_idx.0).collect()
}

fn port<P: Primitive>(simulator: &Simulator<'_, P>, index: usize) -> String {
    simulator.environment().port_map().get(GlobalPortIdx(index)).to_text()
}

fn step<P: Primitive>(simulator: &mut Simulator<'_, P>) {
    assert!(simulator.is_ready());
    assert!(simulator.step().is_ok());
}

fn lines(report: Vec<ReportLine>) -> Vec<String> {
    report
        .into_iter()
        .map(|line| match line {
            ReportLine::Text(text) => text,
            ReportLine::InternalData(Serializable::Val(entry)) => {
                format!("data {}", entry.to_text())
            }
            ReportLine::InternalData(_) => String::from("data"),
        })
        .collect()
}

// ----- laying out -----

#[test]
fn a_new_environment_is_undefined() {
    let ctx = write_five(vec![sequence(&[1]), enable(0)]);
    let simulator = start(&ctx);
    for i in 0..10 {
        assert_eq!(port(&simulator, i), "undef");
    }
    assert_eq!(nodes(&simulator), vec![0]);
    assert_eq!(
        simulator.environment().print_env_stats(),
        vec!["Environment Stats:", "  Ports: 10", "  Cells: 4", "  Ref Cells: 0", "  Ref Ports: 0"]
    );
    assert_eq!(simulator.ctx().entry_point, ComponentIdx(0));
}

#[test]
fn instances_are_laid_out_inside_one_another() {
    let ctx = nested();
    let simulator = start(&ctx);
    assert_eq!(
        simulator.environment().print_env_stats(),
        vec!["Environment Stats:", "  Ports: 12", "  Cells: 6", "  Ref Cells: 3", "  Ref Ports: 5"]
    );
}

/// A component `main` with the cells `a`, `m` and `b`, of which `a` and `b` are
/// instances of `child`.
///
/// In `main`, port 0 is the signature, 1 and 2 are holes, `m` has 3, `a` has 4
/// to 7 and `b` has 8 to 11. In `child`, port 0 is the signature, 1 and 2 are
/// holes and `k` has 3. The ref ports of `a` are 0 and 1, those of `b` 2 and 3,
/// and `main` has 4 for a ref cell of its own.
fn nested() -> Context {
    let mut tables = Tables::default();
    let child = tables.component(
        "child",
        &["s"],
        vec![vec![]],
        vec![("k", Kind::Const(2, 2))],
        vec![("mem", 2)],
        vec![],
    );
    let main = tables.component(
        "main",
        &["go"],
        vec![vec![]],
        vec![("a", Kind::Comp(child)), ("m", Kind::Const(1, 1)), ("b", Kind::Comp(child))],
        vec![("out", 1)],
        vec![enable(0)],
    );
    tables.program(main)
}

#[test]
fn primitives_are_laid_out_before_sub_components() {
    let ctx = nested();
    let cells = &ctx.secondary.components.get(ComponentIdx(1)).cell_offset_map.entries;
    // `m` is listed between `a` and `b`
    let offsets: Vec<usize> = cells.iter().map(|(offset, _)| offset.0).collect();
    assert_eq!(offsets, vec![1, 0, 3]);
    let simulator = start(&ctx);
    let main = GlobalCellIdx(0);
    // the port of `m` comes before those of `a` and `b`
    assert_eq!(simulator.get_parent_cell(local(3), main), Some(GlobalCellIdx(1)));
    assert_eq!(simulator.get_parent_cell(local(4), main), Some(GlobalCellIdx(2)));
    assert_eq!(simulator.get_parent_cell(local(8), main), Some(GlobalCellIdx(4)));
    // a sub-component that takes its place before a primitive is out of place
    let mut tables = Tables::default();
    let child = tables.component("child", &[], vec![], vec![], vec![], vec![]);
    let cells = vec![("a", Kind::Comp(child)), ("x", Kind::Other("inert", 0))];
    let main = tables.component("main", &[], vec![], cells, vec![], vec![]);
    tables.infos[1].cell_offset_map.entries[0].0 = LocalCellOffset(0);
    tables.infos[1].cell_offset_map.entries[1].0 = LocalCellOffset(1);
    assert!(!tables.program(main).is_valid());
}

#[test]
fn invalid_programs_are_recognised() {
    // the entry point is missing
    let mut ctx = nested();
    ctx.entry_point = ComponentIdx(2);
    assert!(!ctx.is_valid());
    // a node is below two nodes
    assert!(!write_five(vec![sequence(&[1, 2]), sequence(&[2]), enable(0)]).is_valid());
    // a node is below itself
    assert!(!write_five(vec![sequence(&[0])]).is_valid());
    // a node is missing
    assert!(!write_five(vec![sequence(&[1])]).is_valid());
    // a group is missing
    assert!(!write_five(vec![enable(1)]).is_valid());
    // a port is missing
    assert!(!one_group(vec![(8, 2)]).is_valid());
    assert!(one_group(vec![(7, 2)]).is_valid());
    // a cell is out of place
    let mut tables = Tables::default();
    let main =
        tables.component("main", &[], vec![], vec![("x", Kind::Other("inert", 1))], vec![], vec![]);
    tables.infos[0].cell_offset_map.entries[0].0 = LocalCellOffset(1);
    assert!(!tables.program(main).is_valid());
    // a component contains itself
    let mut tables = Tables::default();
    let main =
        tables.component("main", &[], vec![], vec![("x", Kind::Other("inert", 0))], vec![], vec![]);
    tables.cell_defs[0].prototype = CellPrototype::Component(main);
    assert!(!tables.program(main).is_valid());
    // a sub-component is known by a port that is not its own
    let mut tables = Tables::default();
    let child = tables.component("child", &["s"], vec![], vec![], vec![], vec![]);
    let cells = vec![("a", Kind::Comp(child))];
    let main = tables.component("main", &["t"], vec![], cells, vec![], vec![]);
    tables.cell_defs[0].ports = IndexRange::new(LocalPortOffset(0), LocalPortOffset(1));
    assert!(!tables.program(main).is_valid());
    // a guard reads itself
    let mut tables = Tables::default();
    tables.guard(Guard::Not(GuardIdx(0)));
    let main = tables.component("main", &[], vec![], vec![], vec![], vec![]);
    assert!(!tables.program(main).is_valid());
}

#[test]
fn components_without_an_instance_do_not_matter() {
    let mut tables = Tables::default();
    // a cell of `spare` is out of place, and its port has no name
    let cells = vec![("x", Kind::Other("inert", 1))];
    let spare = tables.component("spare", &[], vec![], cells, vec![], vec![]);
    tables.infos[spare.0].cell_offset_map.entries[0].0 = LocalCellOffset(1);
    tables.infos[spare.0].port_offset_map.entries.clear();
    // `selfish` contains itself
    let cells = vec![("y", Kind::Other("inert", 0))];
    let selfish = tables.component("selfish", &[], vec![], cells, vec![], vec![]);
    tables.cell_defs[1].prototype = CellPrototype::Component(selfish);
    // a statement of `stray` enables a group that is missing
    let stray = tables.component("stray", &[], vec![], vec![], vec![], vec![enable(7)]);
    let cells = vec![("one", Kind::Const(1, 1))];
    let main = tables.component("main", &[], vec![], cells, vec![], vec![]);
    let mut ctx = tables.program(main);
    assert!(ctx.is_layable() && ctx.is_valid() && ctx.is_named());
    assert_eq!(
        lines(start(&ctx).print_env()),
        vec!["main.one", "    out: undef (GlobalPortIdx(0))"]
    );
    // each of them is in the way once it is there
    ctx.entry_point = spare;
    assert!(!ctx.is_layable());
    ctx.entry_point = selfish;
    assert!(!ctx.is_layable());
    ctx.entry_point = stray;
    assert!(ctx.is_layable());
    assert!(!ctx.is_valid());
}

// ----- reporting -----

#[test]
fn cells_are_shown_while_debugging() {
    let ctx = nested();
    let simulator = start(&ctx);
    let cells = simulator.environment().cell_map();
    assert_eq!(cells.len(), 6);
    assert_eq!(cells.get(GlobalCellIdx(1)).to_text(), "Primitive");
    assert_eq!(
        cells.get(GlobalCellIdx(4)).to_text(),
        "Component { index_bases: BaseIndices { port_base: GlobalPortIdx(8), \
         cell_base: GlobalCellIdx(5), ref_cell_base: GlobalRefCellIdx(1), \
         ref_port_base: GlobalRefPortIdx(2) }, comp_id: ComponentIdx(0) }"
    );
    // the same text as that of the fields
    let main = cells.get(GlobalCellIdx(0)).unwrap_comp();
    assert_eq!(
        cells.get(GlobalCellIdx(0)).to_text(),
        format!(
            "Component {{ index_bases: {:?}, comp_id: {:?} }}",
            main.index_bases, main.comp_id
        )
    );
    // nothing is bound yet
    assert_eq!(simulator.environment().ref_cell_map().len(), 3);
    assert!(simulator.environment().ref_cell_map().get(GlobalRefCellIdx(0)).is_none());
    assert_eq!(simulator.environment().ref_port_map().len(), 5);
    assert!(simulator.environment().ref_port_map().get(GlobalRefPortIdx(4)).is_none());
    assert_eq!(simulator.environment().context().entry_point, ComponentIdx(1));
}

#[test]
fn cells_are_reported_with_their_paths() {
    let ctx = nested();
    assert!(ctx.is_valid() && ctx.is_named());
    let simulator = start(&ctx);
    assert_eq!(
        lines(simulator.print_env()),
        vec![
            "main.a",
            "    s0: undef (GlobalPortIdx(4))",
            "main.a.k",
            "    out: undef (GlobalPortIdx(7))",
            "main.m",
            "    out: undef (GlobalPortIdx(3))",
            "main.b",
            "    s0: undef (GlobalPortIdx(8))",
            "main.b.k",
            "    out: undef (GlobalPortIdx(11))",
        ]
    );
}

#[test]
fn state_is_reported() {
    let ctx = write_five(vec![enable(0)]);
    let mut simulator = start(&ctx);
    step(&mut simulator);
    assert_eq!(
        lines(simulator.environment().print_env()),
        vec![
            "main.five",
            "    out: 0101 (GlobalPortIdx(2))",
            "main.one",
            "    out: 1 (GlobalPortIdx(3))",
            "main.r",
            "    in: 0101 (GlobalPortIdx(4))",
            "    write_en: 1 (GlobalPortIdx(5))",
            "    clk: undef (GlobalPortIdx(6))",
            "    reset: undef (GlobalPortIdx(7))",
            "    out: 0101 (GlobalPortIdx(8))",
            "    done: 1 (GlobalPortIdx(9))",
            "data 0101",
        ]
    );
}

#[test]
fn missing_names_are_recognised() {
    let mut tables = Tables::default();
    let cells = vec![("x", Kind::Other("inert", 1))];
    let main = tables.component("main", &[], vec![], cells, vec![], vec![]);
    tables.infos[0].port_offset_map.entries.clear();
    let ctx = tables.program(main);
    assert!(ctx.is_valid());
    assert!(!ctx.is_named());
}

// ----- looking things up -----

#[test]
fn references_lead_to_ports() {
    let ctx = nested();
    let simulator = start(&ctx);
    let (main, a, b) = (GlobalCellIdx(0), GlobalCellIdx(2), GlobalCellIdx(4));
    assert_eq!(simulator.get_global_idx(&local(7), main), GlobalPortIdx(7));
    assert_eq!(simulator.get_global_idx(&local(3), a), GlobalPortIdx(7));
    assert_eq!(simulator.get_global_idx(&local(3), b), GlobalPortIdx(11));
    assert_eq!(simulator.get_value(&local(3), b).to_text(), "undef");
    assert_eq!(
        simulator.lookup_global_port_id(GlobalPortRef::Port(GlobalPortIdx(4))),
        GlobalPortIdx(4)
    );
}

#[test]
fn ports_belong_to_cells() {
    let ctx = nested();
    let simulator = start(&ctx);
    let (main, b) = (GlobalCellIdx(0), GlobalCellIdx(4));
    assert_eq!(simulator.get_parent_cell(local(3), main), Some(GlobalCellIdx(1)));
    assert_eq!(simulator.get_parent_cell(local(4), main), Some(GlobalCellIdx(2)));
    assert_eq!(simulator.get_parent_cell(local(7), main), None);
    assert_eq!(simulator.get_parent_cell(local(8), main), Some(GlobalCellIdx(4)));
    assert_eq!(simulator.get_parent_cell(local(3), b), Some(GlobalCellIdx(5)));
}

#[test]
fn holes_belong_to_no_cell() {
    let ctx = nested();
    let simulator = start(&ctx);
    let main = GlobalCellIdx(0);
    assert_eq!(simulator.get_parent_cell(local(0), main), None);
    assert_eq!(simulator.get_parent_cell(local(1), main), None);
    assert_eq!(simulator.get_parent_cell(local(2), main), None);
    assert_eq!(simulator.get_parent_cell(reference(0), main), None);
}

#[test]
fn statements_below_a_node() {
    let control = vec![
        sequence(&[1, 2, 3]),
        ControlNode::If(If {
            cond_port: local(3),
            cond_group: None,
            tbranch: ControlIdx(4),
            fbranch: ControlIdx(5),
        }),
        ControlNode::While(While {
            cond_port: local(3),
            cond_group: None,
            body: ControlIdx(6),
        }),
        ControlNode::Parallel(vec![ControlIdx(7)]),
        enable(0),
        ControlNode::Empty,
        ControlNode::Invoke,
        ControlNode::Empty,
    ];
    let ctx = write_five(control);
    let simulator = start(&ctx);
    let below = |n: usize| -> Vec<usize> {
        simulator.extract_next_search(ControlIdx(n)).into_iter().map(|c| c.0).collect()
    };
    assert_eq!(below(0), vec![1, 2, 3]);
    assert_eq!(below(1), vec![4, 5]);
    assert_eq!(below(2), vec![6]);
    assert_eq!(below(3), vec![7]);
    assert_eq!(below(4), Vec::<usize>::new());
}

// ----- control -----

#[test]
fn control_moves_on() {
    let control = vec![
        sequence(&[1, 4]),
        ControlNode::If(If {
            cond_port: local(3),
            cond_group: None,
            tbranch: ControlIdx(2),
            fbranch: ControlIdx(3),
        }),
        enable(0),
        ControlNode::Empty,
        ControlNode::While(While {
            cond_port: local(3),
            cond_group: None,
            body: ControlIdx(5),
        }),
        sequence(&[6, 7]),
        ControlNode::Empty,
        ControlNode::Empty,
    ];
    let ctx = write_five(control);
    assert!(ctx.is_valid());
    let next = |n: usize| {
        let point = ControlPoint { comp: GlobalCellIdx(0), control_node_idx: ControlIdx(n) };
        ControlPoint::get_next(&point, &ctx).map(|p| p.control_node_idx.0)
    };
    // a statement of a sequence is followed by the next one
    assert_eq!(next(1), Some(4));
    assert_eq!(next(6), Some(7));
    // a branch is followed by what follows the conditional
    assert_eq!(next(2), Some(4));
    assert_eq!(next(3), Some(4));
    // a loop's body is followed by the loop
    assert_eq!(next(5), Some(4));
    assert_eq!(next(7), Some(4));
    // the last statement ends the program
    assert_eq!(next(4), None);
    assert_eq!(next(0), None);

    let mut point = ControlPoint { comp: GlobalCellIdx(0), control_node_idx: ControlIdx(2) };
    assert!(point.mutate_into_next(&ctx));
    assert_eq!(point.control_node_idx, ControlIdx(4));
    assert!(!point.mutate_into_next(&ctx));
    assert_eq!(point.control_node_idx, ControlIdx(4));
}

#[test]
fn program_counters() {
    let ctx = write_five(vec![enable(0)]);
    let mut pc = ProgramCounter::new(&ctx);
    assert!(!pc.is_done());
    pc.insert_node(pc.get(0).new_retain_comp(ControlIdx(0)));
    assert_eq!(pc.len(), 2);
    assert!(ProgramCounter::from_points(vec![]).is_done());
}

#[test]
fn a_group_runs_until_it_is_done() {
    let ctx = write_five(vec![sequence(&[1]), enable(0)]);
    let mut simulator = start(&ctx);
    // the sequence is entered
    step(&mut simulator);
    assert_eq!(nodes(&simulator), vec![1]);
    assert_eq!(port(&simulator, 4), "undef");
    assert_eq!(port(&simulator, 8), "0000");
    // the register is written
    step(&mut simulator);
    assert_eq!(nodes(&simulator), vec![1]);
    assert_eq!(port(&simulator, 0), "1");
    assert_eq!(port(&simulator, 1), "0");
    assert_eq!(port(&simulator, 8), "0101");
    assert_eq!(port(&simulator, 9), "1");
    // the group reports it
    step(&mut simulator);
    assert_eq!(nodes(&simulator), vec![1]);
    assert_eq!(port(&simulator, 1), "1");
    assert!(!simulator.is_done());
    // the group is left, its holes still high
    step(&mut simulator);
    assert_eq!(nodes(&simulator), Vec::<usize>::new());
    assert_eq!(port(&simulator, 0), "1");
    assert_eq!(port(&simulator, 1), "1");
    assert_eq!(port(&simulator, 4), "undef");
    assert_eq!(port(&simulator, 8), "0101");
    assert!(simulator.is_done());
    // nothing follows
    step(&mut simulator);
    assert!(simulator.is_done());
    assert_eq!(port(&simulator, 0), "undef");
}

#[test]
fn done_groups_are_followed_in_order() {
    let ctx = write_five(vec![sequence(&[1, 2]), enable(0), ControlNode::Empty]);
    let mut simulator = start(&ctx);
    let mut seen = vec![];
    while !simulator.is_done() {
        seen.push(nodes(&simulator)[0]);
        step(&mut simulator);
    }
    assert_eq!(seen, vec![0, 1, 1, 1, 2]);
}

#[test]
fn programs_run_to_their_end() {
    let ctx = write_five(vec![sequence(&[1, 2]), enable(0), ControlNode::Empty]);
    let mut simulator = start(&ctx);
    assert!(simulator.run_program().is_ok());
    assert!(simulator.is_done());
    // as many steps lead to the same state
    let mut stepped = start(&ctx);
    for _ in 0..5 {
        assert!(!stepped.is_done());
        step(&mut stepped);
    }
    assert!(stepped.is_done());
    for i in 0..10 {
        assert_eq!(port(&simulator, i), port(&stepped, i));
    }
    assert_eq!(lines(simulator.print_env()), lines(stepped.print_env()));
}

#[test]
fn programs_that_have_ended_are_left_alone() {
    let ctx = write_five(vec![enable(0)]);
    let mut simulator = start(&ctx);
    assert!(simulator.run_program().is_ok());
    assert_eq!(port(&simulator, 0), "1");
    // another step would leave the hole undefined
    assert!(simulator.run_program().is_ok());
    assert_eq!(port(&simulator, 0), "1");
    assert_eq!(port(&simulator, 8), "0101");
}

#[test]
fn the_first_error_ends_a_program() {
    let ctx = one_group(vec![(5, 2), (5, 3)]);
    let mut simulator = start(&ctx);
    match simulator.run_program() {
        Err(InterpreterError::FlatConflictingAssignments { a1, a2 }) => {
            assert_eq!(a1.winner(), AssignmentWinner::Assign(AssignmentIdx(0)));
            assert_eq!(a2.winner(), AssignmentWinner::Assign(AssignmentIdx(1)));
        }
        _ => panic!(),
    }
    // the group was not left
    assert_eq!(nodes(&simulator), vec![0]);
    assert!(!simulator.is_done());
}

#[test]
fn conditionals_and_loops_decide() {
    // the register is zero, so that the first conditional takes its second
    // branch; the loop's body makes it five, and the loop goes on
    let control = vec![
        sequence(&[1, 4]),
        ControlNode::If(If {
            cond_port: local(8),
            cond_group: None,
            tbranch: ControlIdx(2),
            fbranch: ControlIdx(3),
        }),
        ControlNode::Empty,
        enable(0),
        ControlNode::While(While {
            cond_port: local(8),
            cond_group: None,
            body: ControlIdx(5),
        }),
        ControlNode::Empty,
    ];
    let ctx = write_five(control);
    let mut simulator = start(&ctx);
    let mut seen = vec![];
    for _ in 0..9 {
        seen.push(nodes(&simulator)[0]);
        step(&mut simulator);
    }
    assert_eq!(seen, vec![0, 1, 3, 3, 3, 4, 5, 4, 5]);
}

#[test]
fn a_loop_ends_when_its_condition_is_low() {
    let control = vec![
        sequence(&[1]),
        ControlNode::While(While {
            cond_port: local(8),
            cond_group: None,
            body: ControlIdx(2),
        }),
        ControlNode::Empty,
    ];
    let ctx = write_five(control);
    let mut simulator = start(&ctx);
    step(&mut simulator);
    assert_eq!(nodes(&simulator), vec![1]);
    step(&mut simulator);
    assert!(simulator.is_done());
}

#[test]
fn empty_sequences_are_passed() {
    let ctx = write_five(vec![sequence(&[1, 2]), sequence(&[]), ControlNode::Empty]);
    let mut simulator = start(&ctx);
    step(&mut simulator);
    step(&mut simulator);
    assert_eq!(nodes(&simulator), vec![2]);
    step(&mut simulator);
    assert!(simulator.is_done());
}

#[test]
fn steps_that_cannot_be_taken() {
    let condition = |cond_group| {
        vec![
            ControlNode::While(While { cond_port: local(8), cond_group, body: ControlIdx(1) }),
            ControlNode::Empty,
        ]
    };
    // an undefined condition
    assert!(!start(&write_five(condition(None))).is_ready());
    // a condition with a group of its own
    let mut control = vec![sequence(&[1])];
    control.push(ControlNode::While(While {
        cond_port: local(8),
        cond_group: Some(GroupIdx(0)),
        body: ControlIdx(2),
    }));
    control.push(ControlNode::Empty);
    let ctx = write_five(control);
    let mut simulator = start(&ctx);
    step(&mut simulator);
    assert!(!simulator.is_ready());
    // parallel blocks and calls
    assert!(!start(&write_five(vec![ControlNode::Parallel(vec![])])).is_ready());
    assert!(!start(&write_five(vec![ControlNode::Invoke])).is_ready());
}

/// A component `main` that runs one assignment from a ref port under a guard
/// that is made of the given ones. Its ports are the holes 0 and 1, the
/// constants 0 and 1 of one bit at 2 and 3, and an undefined one at 4.
fn from_ref_port(build: fn(&mut Tables) -> GuardIdx) -> Context {
    let mut tables = Tables::default();
    let guard = build(&mut tables);
    let group = vec![Assignment { dst: local(4), src: reference(0), guard }];
    let cells = vec![
        ("zero", Kind::Const(0, 1)),
        ("one", Kind::Const(1, 1)),
        ("x", Kind::Other("inert", 1)),
    ];
    let main = tables.component("main", &[], vec![group], cells, vec![("m", 1)], vec![enable(0)]);
    tables.program(main)
}

#[test]
fn ref_ports_that_stand_for_nothing_cannot_be_read() {
    let ctx = from_ref_port(|tables| tables.guard(Guard::True));
    let mut simulator = start(&ctx);
    assert!(simulator.is_ready());
    assert_eq!(simulator.foresee(1), Trial::Unbound);
    assert_eq!(simulator.foresee(100), Trial::Unbound);
    assert!(!simulator.can_step_within(100));
    // once the guard has a value, which is in the second round
    let ctx = from_ref_port(|tables| tables.guard(Guard::Port(local(3))));
    let mut simulator = start(&ctx);
    assert_eq!(simulator.foresee(1), Trial::Unsettled);
    assert_eq!(simulator.foresee(2), Trial::Unbound);
}

#[test]
fn ref_ports_that_are_not_read_do_not_matter() {
    // the guard does not hold
    let ctx = from_ref_port(|tables| tables.guard(Guard::Port(local(2))));
    let mut simulator = start(&ctx);
    assert_eq!(simulator.foresee(2), Trial::Settles);
    assert!(simulator.can_step_within(2));
    step(&mut simulator);
    assert_eq!(port(&simulator, 4), "undef");
    // the guard has no value
    let ctx = from_ref_port(|tables| tables.guard(Guard::Port(local(4))));
    assert!(start(&ctx).can_step_within(2));
    // the first part of the guard has no value, so that the second is not read
    let ctx = from_ref_port(|tables| {
        let undefined = tables.guard(Guard::Port(local(4)));
        let unbound = tables.guard(Guard::Port(reference(0)));
        tables.guard(Guard::Or(undefined, unbound))
    });
    let mut simulator = start(&ctx);
    assert!(simulator.can_step_within(2));
    step(&mut simulator);
    assert_eq!(simulator.evaluate_guard(GuardIdx(2), GlobalCellIdx(0)), None);
    // the first part has a value, and the second is read
    let ctx = from_ref_port(|tables| {
        let high = tables.guard(Guard::Port(local(3)));
        let unbound = tables.guard(Guard::Port(reference(0)));
        tables.guard(Guard::Or(high, unbound))
    });
    assert_eq!(start(&ctx).foresee(2), Trial::Unbound);
}

// ----- evaluation -----

#[test]
fn guards() {
    let mut tables = Tables::default();
    let yes = tables.guard(Guard::True);
    let high = tables.guard(Guard::Port(local(3)));
    let low = tables.guard(Guard::Port(local(2)));
    let undefined = tables.guard(Guard::Port(local(4)));
    let checks = vec![
        (Guard::Not(high), Some(false)),
        (Guard::Not(undefined), None),
        (Guard::And(high, low), Some(false)),
        (Guard::And(high, yes), Some(true)),
        (Guard::And(low, undefined), None),
        (Guard::Or(high, low), Some(true)),
        (Guard::Or(high, undefined), None),
        (Guard::Or(low, low), Some(false)),
        (Guard::Comp(PortComp::Eq, local(2), local(2)), Some(true)),
        (Guard::Comp(PortComp::Eq, local(2), local(3)), Some(false)),
        (Guard::Comp(PortComp::Neq, local(2), local(3)), Some(true)),
        (Guard::Comp(PortComp::Gt, local(3), local(2)), Some(true)),
        (Guard::Comp(PortComp::Lt, local(3), local(2)), Some(false)),
        (Guard::Comp(PortComp::Geq, local(3), local(3)), Some(true)),
        (Guard::Comp(PortComp::Leq, local(3), local(2)), Some(false)),
        (Guard::Comp(PortComp::Eq, local(2), local(4)), None),
        // values of different widths
        (Guard::Comp(PortComp::Neq, local(3), local(5)), Some(true)),
        (Guard::Comp(PortComp::Leq, local(3), local(5)), Some(false)),
        (Guard::Comp(PortComp::Geq, local(3), local(5)), Some(false)),
    ];
    let checks: Vec<(GuardIdx, Option<bool>)> =
        checks.into_iter().map(|(guard, value)| (tables.guard(guard), value)).collect();
    let cells = vec![
        ("zero", Kind::Const(0, 1)),
        ("one", Kind::Const(1, 1)),
        ("x", Kind::Other("inert", 1)),
        ("wide", Kind::Const(1, 2)),
    ];
    let main =
        tables.component("main", &["s", "t"], vec![], cells, vec![], vec![ControlNode::Empty]);
    let ctx = tables.program(main);
    let mut simulator = start(&ctx);
    step(&mut simulator);
    let main = GlobalCellIdx(0);
    assert_eq!(simulator.evaluate_guard(yes, main), Some(true));
    assert_eq!(simulator.evaluate_guard(high, main), Some(true));
    assert_eq!(simulator.evaluate_guard(low, main), Some(false));
    assert_eq!(simulator.evaluate_guard(undefined, main), None);
    for (guard, value) in checks {
        assert_eq!(simulator.evaluate_guard(guard, main), value);
    }
}

#[test]
fn groups_have_their_assignments() {
    let ctx = write_five(vec![enable(0)]);
    let simulator = start(&ctx);
    let point = ControlPoint { comp: GlobalCellIdx(0), control_node_idx: ControlIdx(0) };
    let bundle = simulator.get_assignments(&vec![point]);
    assert_eq!(bundle.len(), 1);
    assert_eq!(bundle[0].0, GlobalCellIdx(0));
    assert_eq!(bundle[0].1.start, AssignmentIdx(0));
    assert_eq!(bundle[0].1.end, AssignmentIdx(3));
    assert!(simulator.get_assignments(&vec![]).is_empty());
}

#[test]
fn evaluation_settles() {
    let ctx = write_five(vec![enable(0)]);
    let mut simulator = start(&ctx);
    let points =
        vec![ControlPoint { comp: GlobalCellIdx(0), control_node_idx: ControlIdx(0) }];
    assert!(simulator.simulate_combinational(&points).is_ok());
    assert_eq!(port(&simulator, 4), "0101");
    // the guard on the go hole has no value
    assert_eq!(port(&simulator, 5), "undef");
    assert_eq!(port(&simulator, 1), "0");
    // once more, nothing changes
    assert!(simulator.simulate_combinational(&points).is_ok());
    assert_eq!(port(&simulator, 4), "0101");
    assert_eq!(port(&simulator, 5), "undef");
    simulator.undef_all_ports();
    assert_eq!(port(&simulator, 4), "undef");
}

#[test]
fn what_assignments_change_last_goes_unnoticed() {
    // 6 follows 5 and 5 follows the constant; in the second round 6 is assigned
    // before 5 is, and there is no third round
    let ctx = one_group(vec![(6, 5), (5, 3)]);
    let mut simulator = start(&ctx);
    step(&mut simulator);
    assert_eq!(port(&simulator, 5), "1");
    assert_eq!(port(&simulator, 6), "undef");
    let ctx = one_group(vec![(5, 3), (6, 5)]);
    let mut simulator = start(&ctx);
    step(&mut simulator);
    assert_eq!(port(&simulator, 5), "1");
    assert_eq!(port(&simulator, 6), "1");
}

#[test]
fn conflicting_assignments_fail() {
    let ctx = one_group(vec![(5, 2), (5, 3)]);
    let mut simulator = start(&ctx);
    assert!(simulator.is_ready());
    match simulator.step() {
        Err(InterpreterError::FlatConflictingAssignments { a1, a2 }) => {
            assert_eq!(a1.winner(), AssignmentWinner::Assign(AssignmentIdx(0)));
            assert_eq!(a1.val().to_text(), "0");
            assert_eq!(a2.winner(), AssignmentWinner::Assign(AssignmentIdx(1)));
            assert_eq!(a2.val().to_text(), "1");
        }
        _ => panic!(),
    }
    // the group is still active
    assert_eq!(nodes(&simulator), vec![0]);
    assert_eq!(port(&simulator, 5), "0");
}

#[test]
fn undefining_assignments_fail() {
    let ctx = one_group(vec![(5, 3), (5, 7)]);
    let mut simulator = start(&ctx);
    match simulator.step() {
        Err(InterpreterError::UndefiningDefinedPort(target)) => {
            assert_eq!(target, GlobalPortIdx(5))
        }
        _ => panic!(),
    }
}

#[test]
fn registers_cannot_be_written_from_undefined_ports() {
    let mut tables = Tables::default();
    let always = tables.guard(Guard::True);
    // write_en is high, in is undefined
    let group = vec![Assignment { dst: local(4), src: local(2), guard: always }];
    let cells = vec![("one", Kind::Const(1, 1)), ("r", Kind::Reg(4))];
    let main = tables.component("main", &[], vec![group], cells, vec![], vec![enable(0)]);
    let ctx = tables.program(main);
    let mut simulator = start(&ctx);
    match simulator.step() {
        Err(InterpreterError::OtherError(message)) => {
            assert_eq!(message, "a register was written from an undefined port")
        }
        _ => panic!(),
    }
}

#[test]
fn steps_can_be_tried() {
    let ctx = write_five(vec![sequence(&[1]), enable(0)]);
    let mut simulator = start(&ctx);
    // constants and registers settle in the second round
    assert!(!simulator.can_step_within(0));
    assert!(!simulator.can_step_within(1));
    assert!(simulator.can_step_within(2));
    // trying changes nothing
    assert_eq!(port(&simulator, 2), "undef");
    assert_eq!(nodes(&simulator), vec![0]);
    step(&mut simulator);
    assert_eq!(port(&simulator, 2), "0101");
    assert!(simulator.can_step_within(2));
    assert_eq!(port(&simulator, 2), "0101");
    assert_eq!(port(&simulator, 0), "undef");
    // a step that fails settles too
    let ctx = one_group(vec![(5, 2), (5, 3)]);
    assert!(start(&ctx).can_step_within(2));
    // a step that cannot be taken at all
    let ctx = write_five(vec![ControlNode::Invoke]);
    assert!(!start(&ctx).can_step_within(100));
}
