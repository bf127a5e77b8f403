//! The program under interpretation: components, cells, groups, assignments,
//! guards and control, all held in tables and referring to one another by
//! index.

use crate::graph::{acyclic, rank_drops, rank_of};
use crate::index::{
    AssignmentIdx, CellDefinitionIdx, ComponentIdx, ControlIdx, GroupIdx, GuardIdx, Identifier,
    LocalCellOffset, LocalPortOffset, LocalRefCellOffset, LocalRefPortOffset, PortDefinitionIdx,
    PortRef, RefCellDefinitionIdx,
};
use crate::indexed_map::{IndexRange, IndexedMap, OffsetMap};
use crate::values::Value;
use vstd::prelude::*;

verus! {

/// How a guard compares two ports.
#[derive(Clone, Copy, Debug, PartialEq, Eq, Structural)]
pub enum PortComp {
    Eq,
    Neq,
    Gt,
    Lt,
    Geq,
    Leq,
}

/// A condition on ports.
#[derive(Clone, Copy, Debug, PartialEq, Eq, Structural)]
pub enum Guard {
    True,
    Or(GuardIdx, GuardIdx),
    And(GuardIdx, GuardIdx),
    Not(GuardIdx),
    Comp(PortComp, PortRef, PortRef),
    Port(PortRef),
}

/// A guarded connection from one port to another.
#[derive(Clone, Copy, Debug, PartialEq, Eq, Structural)]
pub struct Assignment {
    pub dst: PortRef,
    pub src: PortRef,
    pub guard: GuardIdx,
}

/// A set of assignments that are active together, with the holes by which the
/// group is started and by which it reports that it is done.
#[derive(Debug)]
pub struct Group {
    pub go: LocalPortOffset,
    pub done: LocalPortOffset,
    pub assignments: IndexRange<AssignmentIdx>,
}

/// A conditional statement.
#[derive(Clone, Copy, Debug, PartialEq, Eq)]
pub struct If {
    pub cond_port: PortRef,
    pub cond_group: Option<GroupIdx>,
    pub tbranch: ControlIdx,
    pub fbranch: ControlIdx,
}

/// A loop.
#[derive(Clone, Copy, Debug, PartialEq, Eq)]
pub struct While {
    pub cond_port: PortRef,
    pub cond_group: Option<GroupIdx>,
    pub body: ControlIdx,
}

/// A node of a control program.
#[derive(Debug)]
pub enum ControlNode {
    /// Nothing to do.
    Empty,
    /// Run a group until it is done.
    Enable(GroupIdx),
    /// Statements one after the other.
    Sequence(Vec<ControlIdx>),
    /// Statements side by side.
    Parallel(Vec<ControlIdx>),
    If(If),
    While(While),
    /// A call of another component.
    Invoke,
}

impl ControlNode {
    /// The statements directly below a node.
    pub open spec fn children(self) -> Seq<ControlIdx> {
        match self {
            ControlNode::Sequence(stms) => stms@,
            ControlNode::Parallel(stms) => stms@,
            ControlNode::If(i) => seq![i.tbranch, i.fbranch],
            ControlNode::While(w) => seq![w.body],
            ControlNode::Empty => Seq::empty(),
            ControlNode::Enable(_) => Seq::empty(),
            ControlNode::Invoke => Seq::empty(),
        }
    }
}

/// The part of a component that the interpreter runs.
#[derive(Debug)]
pub struct ComponentCore {
    /// Where the component's control program starts, if it has one.
    pub control: Option<ControlIdx>,
}

/// What a cell is an instance of.
#[derive(Debug)]
pub enum CellPrototype {
    /// Another component of the program.
    Component(ComponentIdx),
    /// A fixed value.
    Constant(Value),
    /// A register of the given width.
    Register(usize),
    /// A primitive known by its name and parameters only.
    Unknown(String, Vec<u64>),
}

impl CellPrototype {
    /// Whether the cell is an instance of a component.
    pub fn is_component(&self) -> (answer: bool)
        ensures
            answer == (*self is Component),
    {
        matches!(self, CellPrototype::Component(_))
    }

    /// The component that the cell is an instance of.
    pub fn as_component(&self) -> (component: Option<ComponentIdx>)
        ensures
            match component {
                Some(c) => *self == CellPrototype::Component(c),
                None => !(*self is Component),
            },
    {
        match self {
            CellPrototype::Component(c) => Some(*c),
            _ => None,
        }
    }
}

/// A cell of a component.
#[derive(Debug)]
pub struct CellDefinitionInfo {
    pub name: Identifier,
    pub ports: IndexRange<LocalPortOffset>,
    pub prototype: CellPrototype,
}

/// A cell that a component is handed from outside.
#[derive(Debug)]
pub struct RefCellDefinitionInfo {
    pub name: Identifier,
    pub ports: IndexRange<LocalRefPortOffset>,
}

/// A port of a component or of one of its cells.
#[derive(Debug)]
pub struct PortDefinitionInfo {
    pub name: Identifier,
}

/// The parts of the shared tables that belong to one component.
#[derive(Debug)]
pub struct DefinitionRanges {
    pub groups: IndexRange<GroupIdx>,
    pub control: IndexRange<ControlIdx>,
}

/// The layout and the names of a component.
#[derive(Debug)]
pub struct AuxiliaryComponentInfo {
    pub name: Identifier,
    /// The component's own inputs and outputs.
    pub signature: IndexRange<LocalPortOffset>,
    pub definitions: DefinitionRanges,
    pub port_offset_map: OffsetMap<LocalPortOffset, PortDefinitionIdx>,
    pub ref_port_offset_map: OffsetMap<LocalRefPortOffset, PortDefinitionIdx>,
    pub cell_offset_map: OffsetMap<LocalCellOffset, CellDefinitionIdx>,
    pub ref_cell_offset_map: OffsetMap<LocalRefCellOffset, RefCellDefinitionIdx>,
}

/// What the interpreter reads while it runs.
#[derive(Debug)]
pub struct InterpretationContext {
    pub components: IndexedMap<ComponentIdx, ComponentCore>,
    pub groups: IndexedMap<GroupIdx, Group>,
    pub assignments: IndexedMap<AssignmentIdx, Assignment>,
    pub guards: IndexedMap<GuardIdx, Guard>,
    pub control: IndexedMap<ControlIdx, ControlNode>,
}

/// What the interpreter reads while it sets up and reports.
#[derive(Debug)]
pub struct SecondaryContext {
    pub components: IndexedMap<ComponentIdx, AuxiliaryComponentInfo>,
    pub cells: IndexedMap<CellDefinitionIdx, CellDefinitionInfo>,
    pub ref_cells: IndexedMap<RefCellDefinitionIdx, RefCellDefinitionInfo>,
    pub ports: IndexedMap<PortDefinitionIdx, PortDefinitionInfo>,
    pub names: IndexedMap<Identifier, String>,
}

/// A whole program.
#[derive(Debug)]
pub struct Context {
    /// The component that is run.
    pub entry_point: ComponentIdx,
    pub primary: InterpretationContext,
    pub secondary: SecondaryContext,
}

/// How many ports, cells, ref cells and ref ports lie before a point.
#[verifier::ext_equal]
pub struct Offsets {
    pub port: nat,
    pub cell: nat,
    pub ref_cell: nat,
    pub ref_port: nat,
}

// What the program holds.
impl Context {
    /// A component's layout and names.
    pub open spec fn comp(&self, c: int) -> AuxiliaryComponentInfo {
        self.secondary.components@[c]
    }

    /// A cell definition.
    pub open spec fn cell_def(&self, d: int) -> CellDefinitionInfo {
        self.secondary.cells@[d]
    }

    /// A ref cell definition.
    pub open spec fn ref_cell_def(&self, d: int) -> RefCellDefinitionInfo {
        self.secondary.ref_cells@[d]
    }

    /// The cells of a component, in the order in which they are listed.
    pub open spec fn listed(&self, c: int) -> Seq<(LocalCellOffset, CellDefinitionIdx)> {
        self.comp(c).cell_offset_map@
    }

    /// The definition behind the `i`-th listed cell of a component.
    pub open spec fn listed_def(&self, c: int, i: int) -> CellDefinitionInfo {
        self.cell_def(self.listed(c)[i].1.0 as int)
    }

    /// Whether the `i`-th listed cell of a component is an instance of another.
    pub open spec fn is_sub_component(&self, c: int, i: int) -> bool {
        self.listed_def(c, i).prototype is Component
    }

    /// The primitives among the first `n` listed cells of a component.
    pub open spec fn primitives(&self, c: int, n: int) -> Seq<(LocalCellOffset, CellDefinitionIdx)>
        decreases n,
    {
        if n <= 0 {
            Seq::empty()
        } else if self.is_sub_component(c, n - 1) {
            self.primitives(c, n - 1)
        } else {
            self.primitives(c, n - 1).push(self.listed(c)[n - 1])
        }
    }

    /// The instances of other components among the first `n` listed cells of a
    /// component.
    pub open spec fn sub_components(&self, c: int, n: int) -> Seq<
        (LocalCellOffset, CellDefinitionIdx),
    >
        decreases n,
    {
        if n <= 0 {
            Seq::empty()
        } else if self.is_sub_component(c, n - 1) {
            self.sub_components(c, n - 1).push(self.listed(c)[n - 1])
        } else {
            self.sub_components(c, n - 1)
        }
    }

    /// The cells of a component in the order in which they are laid out:
    /// primitives first, instances of other components after them.
    pub open spec fn entries(&self, c: int) -> Seq<(LocalCellOffset, CellDefinitionIdx)> {
        self.primitives(c, self.listed(c).len() as int) + self.sub_components(
            c,
            self.listed(c).len() as int,
        )
    }

    /// In which turn the `i`-th listed cell of a component is laid out.
    pub open spec fn turn(&self, c: int, i: int) -> int {
        if self.is_sub_component(c, i) {
            self.primitives(c, self.listed(c).len() as int).len() as int + self.sub_components(
                c,
                i,
            ).len()
        } else {
            self.primitives(c, i).len() as int
        }
    }

    /// The ref cells of a component, in order of their places.
    pub open spec fn ref_entries(&self, c: int) -> Seq<(LocalRefCellOffset, RefCellDefinitionIdx)> {
        self.comp(c).ref_cell_offset_map@
    }

    /// The definition behind the `i`-th cell of a component.
    pub open spec fn entry_def(&self, c: int, i: int) -> CellDefinitionInfo {
        self.cell_def(self.entries(c)[i].1.0 as int)
    }

    /// The definition behind the `i`-th ref cell of a component.
    pub open spec fn ref_entry_def(&self, c: int, i: int) -> RefCellDefinitionInfo {
        self.ref_cell_def(self.ref_entries(c)[i].1.0 as int)
    }

    /// A group.
    pub open spec fn group(&self, g: int) -> Group {
        self.primary.groups@[g]
    }

    /// An assignment.
    pub open spec fn assignment(&self, a: int) -> Assignment {
        self.primary.assignments@[a]
    }

    /// A guard.
    pub open spec fn guard(&self, g: int) -> Guard {
        self.primary.guards@[g]
    }

    /// A control node.
    pub open spec fn control(&self, n: int) -> ControlNode {
        self.primary.control@[n]
    }

    /// How many places a component instance takes, those of the instances
    /// inside it included.
    pub open spec fn size(&self, c: int) -> Offsets {
        Offsets {
            port: self.comp(c).port_offset_map.count as nat,
            cell: self.comp(c).cell_offset_map.count as nat,
            ref_cell: self.comp(c).ref_cell_offset_map.count as nat,
            ref_port: self.comp(c).ref_port_offset_map.count as nat,
        }
    }
}

/// The guards directly below a guard.
pub open spec fn guard_children(guard: Guard) -> Seq<usize> {
    match guard {
        Guard::Or(a, b) => seq![a.0, b.0],
        Guard::And(a, b) => seq![a.0, b.0],
        Guard::Not(a) => seq![a.0],
        Guard::True => Seq::empty(),
        Guard::Comp(_, _, _) => Seq::empty(),
        Guard::Port(_) => Seq::empty(),
    }
}

/// Two sets of offsets, added up.
pub open spec fn add_offsets(a: Offsets, b: Offsets) -> Offsets {
    Offsets {
        port: a.port + b.port,
        cell: a.cell + b.cell,
        ref_cell: a.ref_cell + b.ref_cell,
        ref_port: a.ref_port + b.ref_port,
    }
}

// What makes a program valid.
impl Context {
    /// Which guard refers to which.
    pub open spec fn guard_graph(&self) -> Seq<Seq<usize>> {
        Seq::new(self.primary.guards@.len(), |g: int| guard_children(self.guard(g)))
    }

    /// Which control node is directly above which.
    pub open spec fn control_graph(&self) -> Seq<Seq<usize>> {
        Seq::new(
            self.primary.control@.len(),
            |n: int|
                Seq::new(self.control(n).children().len(), |i: int| self.control(n).children()[i].0),
        )
    }

    /// The components instantiated by the first `i` listed cells of a
    /// component.
    pub open spec fn instantiated(&self, c: int, i: int) -> Seq<usize>
        decreases i,
    {
        if i <= 0 {
            Seq::empty()
        } else {
            match self.listed_def(c, i - 1).prototype {
                CellPrototype::Component(k) => self.instantiated(c, i - 1).push(k.0),
                _ => self.instantiated(c, i - 1),
            }
        }
    }

    /// The `i`-th listed cell of a component is an instance of component `d`.
    pub open spec fn instantiates(&self, c: int, i: int, d: int) -> bool {
        &&& 0 <= i < self.listed(c).len()
        &&& self.listed_def(c, i).prototype matches CellPrototype::Component(k) && k.0 == d
    }

    /// The `j`-th component of a path is there and contains the one after it.
    pub open spec fn link(&self, path: Seq<int>, j: int) -> bool {
        &&& 0 <= path[j] < self.secondary.components@.len()
        &&& exists|i: int| #[trigger] self.instantiates(path[j], i, path[j + 1])
    }

    /// A path from the entry component into a component inside it.
    pub open spec fn leads(&self, path: Seq<int>) -> bool {
        &&& path.len() > 0
        &&& path[0] == self.entry_point.0
        &&& forall|j: int| 0 <= j < path.len() - 1 ==> #[trigger] self.link(path, j)
    }

    /// A component is part of the design: it is the entry component, or an
    /// instance of it lies inside one of that.
    pub open spec fn present(&self, c: int) -> bool {
        &&& 0 <= c < self.secondary.components@.len()
        &&& exists|path: Seq<int>| #[trigger] self.leads(path) && path.last() == c
    }

    /// The entry component is part of the design.
    pub proof fn entry_is_present(&self)
        requires
            self.entry_point.0 < self.secondary.components@.len(),
        ensures
            self.present(self.entry_point.0 as int),
    {
        let path = seq![self.entry_point.0 as int];
        assert(self.leads(path) && path.last() == self.entry_point.0);
    }

    /// What a component of the design contains is part of the design.
    pub proof fn inside_is_present(&self, c: int, i: int, d: int)
        requires
            self.present(c),
            self.instantiates(c, i, d),
            d < self.secondary.components@.len(),
        ensures
            self.present(d),
    {
        let path = choose|path: Seq<int>| #[trigger] self.leads(path) && path.last() == c;
        let longer = path.push(d);
        assert forall|j: int| 0 <= j < longer.len() - 1 implies #[trigger] self.link(
            longer,
            j,
        ) by {
            if j < path.len() - 1 {
                assert(self.link(path, j));
                let k = choose|k: int| #[trigger] self.instantiates(path[j], k, path[j + 1]);
                assert(self.instantiates(longer[j], k, longer[j + 1]));
            } else {
                assert(self.instantiates(longer[j], i, longer[j + 1]));
            }
        }
        assert(self.leads(longer) && longer.last() == d);
    }

    /// Which component of the design instantiates which.
    pub open spec fn component_graph(&self) -> Seq<Seq<usize>> {
        Seq::new(
            self.secondary.components@.len(),
            |c: int|
                if self.present(c) {
                    self.instantiated(c, self.listed(c).len() as int)
                } else {
                    Seq::empty()
                },
        )
    }

    /// How many places the `i`-th cell of a component takes. A component
    /// instance takes one cell for itself besides those inside it.
    pub open spec fn entry_size(&self, c: int, i: int) -> Offsets {
        match self.entry_def(c, i).prototype {
            CellPrototype::Component(k) => add_offsets(
                self.size(k.0 as int),
                Offsets { port: 0, cell: 1, ref_cell: 0, ref_port: 0 },
            ),
            _ => Offsets {
                port: self.entry_def(c, i).ports.len(),
                cell: 1,
                ref_cell: 0,
                ref_port: 0,
            },
        }
    }

    /// How many ports a component's signature and group holes take.
    pub open spec fn header_ports(&self, c: int) -> nat {
        self.comp(c).signature.len() + 2 * self.comp(c).definitions.groups.len()
    }

    /// How many places come before the `i`-th cell of a component.
    pub open spec fn walk(&self, c: int, i: int) -> Offsets
        decreases i,
    {
        if i <= 0 {
            Offsets { port: self.header_ports(c), cell: 0, ref_cell: 0, ref_port: 0 }
        } else {
            add_offsets(self.walk(c, i - 1), self.entry_size(c, i - 1))
        }
    }

    /// How many places come before everything that follows the cells.
    pub open spec fn walk_end(&self, c: int) -> Offsets {
        self.walk(c, self.entries(c).len() as int)
    }

    /// How many ref ports come before those of the `i`-th ref cell.
    pub open spec fn ref_walk(&self, c: int, i: int) -> nat
        decreases i,
    {
        if i <= 0 {
            self.walk_end(c).ref_port
        } else {
            self.ref_walk(c, i - 1) + self.ref_entry_def(c, i - 1).ports.len()
        }
    }

    /// The `j`-th group's two holes take the two places that are theirs.
    pub open spec fn holes_placed(&self, c: int, j: int) -> bool {
        let group = self.group(self.comp(c).definitions.groups.start.0 + j);
        let place = self.comp(c).signature.len() + 2 * j;
        ||| group.go.0 == place && group.done.0 == place + 1
        ||| group.done.0 == place && group.go.0 == place + 1
    }

    /// The `i`-th cell is defined and at its place. The ports by which an
    /// instance is known are among its own.
    pub open spec fn entry_placed(&self, c: int, i: int) -> bool {
        let (offset, def) = self.entries(c)[i];
        let info = self.cell_def(def.0 as int);
        let before = self.walk(c, i);
        &&& def.0 < self.secondary.cells@.len()
        &&& offset.0 == before.cell
        &&& match info.prototype {
            CellPrototype::Component(k) => k.0 < self.secondary.components@.len() && (
            info.ports.len() > 0 ==> before.port <= info.ports.start.0 && info.ports.end.0
                <= before.port + self.size(k.0 as int).port),
            _ => info.ports.len() > 0 ==> info.ports.start.0 == before.port,
        }
    }

    /// The `i`-th ref cell is defined and at its place.
    pub open spec fn ref_entry_placed(&self, c: int, i: int) -> bool {
        let (offset, def) = self.ref_entries(c)[i];
        let info = self.ref_cell_def(def.0 as int);
        &&& def.0 < self.secondary.ref_cells@.len()
        &&& offset.0 == self.walk_end(c).ref_cell + i
        &&& info.ports.len() > 0 ==> info.ports.start.0 == self.ref_walk(c, i)
    }

    /// Everything in a component is numbered in the order in which an instance
    /// of it is laid out: signature, group holes, primitives with their ports,
    /// instances of other components with everything inside them, ref cells with
    /// their ports.
    pub open spec fn placed(&self, c: int) -> bool {
        let comp = self.comp(c);
        let groups = comp.definitions.groups;
        &&& comp.signature.len() > 0 ==> comp.signature.start.0 == 0
        &&& groups.len() > 0 ==> groups.end.0 <= self.primary.groups@.len()
        &&& forall|j: int| 0 <= j < groups.len() ==> #[trigger] self.holes_placed(c, j)
        &&& forall|i: int| 0 <= i < self.entries(c).len() ==> #[trigger] self.entry_placed(c, i)
        &&& forall|i: int|
            0 <= i < self.ref_entries(c).len() ==> #[trigger] self.ref_entry_placed(c, i)
        &&& self.size(c).port == self.walk_end(c).port
        &&& self.size(c).cell == self.walk_end(c).cell
        &&& self.size(c).ref_cell == self.walk_end(c).ref_cell + self.ref_entries(c).len()
        &&& self.size(c).ref_port == self.ref_walk(c, self.ref_entries(c).len() as int)
    }

    /// A port reference lies within a component.
    pub open spec fn ref_fits(&self, c: int, port: PortRef) -> bool {
        match port {
            PortRef::Local(l) => l.0 < self.size(c).port,
            PortRef::Ref(r) => r.0 < self.size(c).ref_port,
        }
    }

    /// The ports that a guard reads.
    pub open spec fn guard_ports(&self, g: int) -> Set<PortRef>
        decreases rank_of(self.guard_graph(), g),
        when acyclic(self.guard_graph()) && 0 <= g < self.primary.guards@.len()
        via Self::guard_ports_decreases
    {
        match self.guard(g) {
            Guard::True => Set::empty(),
            Guard::Or(a, b) => self.guard_ports(a.0 as int).union(self.guard_ports(b.0 as int)),
            Guard::And(a, b) => self.guard_ports(a.0 as int).union(self.guard_ports(b.0 as int)),
            Guard::Not(a) => self.guard_ports(a.0 as int),
            Guard::Comp(_, a, b) => set![a, b],
            Guard::Port(p) => set![p],
        }
    }

    #[via_fn]
    proof fn guard_ports_decreases(&self, g: int) {
        self.guard_rank_drops(g);
    }

    /// The guards below a guard are guards of smaller rank.
    pub proof fn guard_rank_drops(&self, g: int)
        requires
            acyclic(self.guard_graph()),
            0 <= g < self.primary.guards@.len(),
        ensures
            match self.guard(g) {
                Guard::Or(a, b) => a.0 < self.primary.guards@.len() && b.0
                    < self.primary.guards@.len() && rank_of(self.guard_graph(), a.0 as int)
                    < rank_of(self.guard_graph(), g) && rank_of(self.guard_graph(), b.0 as int)
                    < rank_of(self.guard_graph(), g),
                Guard::And(a, b) => a.0 < self.primary.guards@.len() && b.0
                    < self.primary.guards@.len() && rank_of(self.guard_graph(), a.0 as int)
                    < rank_of(self.guard_graph(), g) && rank_of(self.guard_graph(), b.0 as int)
                    < rank_of(self.guard_graph(), g),
                Guard::Not(a) => a.0 < self.primary.guards@.len() && rank_of(
                    self.guard_graph(),
                    a.0 as int,
                ) < rank_of(self.guard_graph(), g),
                _ => true,
            },
    {
        let graph = self.guard_graph();
        let below = guard_children(self.guard(g));
        assert(graph[g] == below);
        if below.len() > 0 {
            rank_drops(graph, g, 0);
        }
        if below.len() > 1 {
            rank_drops(graph, g, 1);
        }
    }

    /// The ports that an assignment reads or drives.
    pub open spec fn assignment_ports(&self, a: int) -> Set<PortRef> {
        self.guard_ports(self.assignment(a).guard.0 as int).insert(
            self.assignment(a).src,
        ).insert(self.assignment(a).dst)
    }

    /// An assignment stays within a component.
    pub open spec fn assignment_fits(&self, c: int, a: int) -> bool {
        &&& self.assignment(a).guard.0 < self.primary.guards@.len()
        &&& forall|p: PortRef|
            self.assignment_ports(a).contains(p) ==> #[trigger] self.ref_fits(c, p)
    }

    /// A group's assignments stay within a component.
    pub open spec fn group_fits(&self, c: int, g: int) -> bool {
        let range = self.group(g).assignments;
        &&& range.len() > 0 ==> range.end.0 <= self.primary.assignments@.len()
        &&& forall|a: int| range.has(a) ==> #[trigger] self.assignment_fits(c, a)
    }

    /// A control node stays within a component.
    pub open spec fn node_fits(&self, c: int, n: int) -> bool {
        &&& forall|i: int|
            0 <= i < self.control_graph()[n].len() ==> self.comp(c).definitions.control.has(
                (#[trigger] self.control_graph()[n][i]) as int,
            )
        &&& match self.control(n) {
            ControlNode::Enable(g) => self.comp(c).definitions.groups.has(g.0 as int),
            ControlNode::If(i) => self.ref_fits(c, i.cond_port),
            ControlNode::While(w) => self.ref_fits(c, w.cond_port),
            _ => true,
        }
    }

    /// A component's control program, groups and assignments stay within it.
    pub open spec fn runnable(&self, c: int) -> bool {
        let control = self.comp(c).definitions.control;
        let groups = self.comp(c).definitions.groups;
        &&& self.primary.components@[c].control matches Some(root) ==> control.has(root.0 as int)
        &&& control.len() > 0 ==> control.end.0 <= self.primary.control@.len()
        &&& forall|n: int| control.has(n) ==> #[trigger] self.node_fits(c, n)
        &&& forall|p: int, i: int|
            0 <= p < self.primary.control@.len() && 0 <= i < self.control_graph()[p].len()
                && control.has((#[trigger] self.control_graph()[p][i]) as int) ==> control.has(p)
        &&& forall|g: int| groups.has(g) ==> #[trigger] self.group_fits(c, g)
    }

    /// No control node is directly below two nodes, or twice below one.
    pub open spec fn control_is_forest(&self) -> bool {
        forall|p: int, i: int, q: int, j: int|
            #![trigger self.control_graph()[p][i], self.control_graph()[q][j]]
            0 <= p < self.primary.control@.len() && 0 <= i < self.control_graph()[p].len() && 0 <= q
                < self.primary.control@.len() && 0 <= j < self.control_graph()[q].len()
                && self.control_graph()[p][i] == self.control_graph()[q][j] ==> p == q && i == j
    }

    /// The program can be laid out: the parts of every component of the design
    /// are at their places, and none contains itself.
    pub open spec fn layable(&self) -> bool {
        &&& self.primary.components@.len() == self.secondary.components@.len()
        &&& self.entry_point.0 < self.secondary.components@.len()
        &&& self.size(self.entry_point.0 as int).cell < usize::MAX
        &&& acyclic(self.component_graph())
        &&& forall|c: int|
            #![trigger self.placed(c)]
            self.present(c) ==> self.placed(c)
    }

    /// The program can be laid out and run.
    pub open spec fn wf(&self) -> bool {
        &&& self.layable()
        &&& acyclic(self.guard_graph())
        &&& acyclic(self.control_graph())
        &&& self.control_is_forest()
        &&& forall|c: int|
            #![trigger self.runnable(c)]
            self.present(c) ==> self.runnable(c)
    }

    /// A component instantiated by a cell has a smaller rank.
    pub proof fn component_rank_drops(&self, c: int, i: int)
        requires
            acyclic(self.component_graph()),
            self.present(c),
            0 <= i < self.entries(c).len(),
        ensures
            self.entry_def(c, i).prototype matches CellPrototype::Component(k) ==> self.present(
                k.0 as int,
            ) && rank_of(self.component_graph(), k.0 as int) < rank_of(self.component_graph(), c),
    {
        let l = self.listed_entry(c, i);
        self.listed_rank_drops(c, l);
    }

    /// A component instantiated by a listed cell has a smaller rank.
    pub proof fn listed_rank_drops(&self, c: int, i: int)
        requires
            acyclic(self.component_graph()),
            self.present(c),
            0 <= i < self.listed(c).len(),
        ensures
            self.listed_def(c, i).prototype matches CellPrototype::Component(k) ==> self.present(
                k.0 as int,
            ) && rank_of(self.component_graph(), k.0 as int) < rank_of(self.component_graph(), c),
    {
        if let CellPrototype::Component(k) = self.listed_def(c, i).prototype {
            let graph = self.component_graph();
            let j = self.instantiated(c, i).len() as int;
            self.instantiated_prefix(c, i + 1, self.listed(c).len() as int);
            assert(self.instantiated(c, i + 1)[j] == k.0);
            assert(graph[c][j] == k.0);
            rank_drops(graph, c, j);
            assert(self.instantiates(c, i, k.0 as int));
            self.inside_is_present(c, i, k.0 as int);
        }
    }

    /// The cells before a listed one come before it among their kind.
    proof fn kinds_grow(&self, c: int, i: int, n: int)
        requires
            0 <= i <= n,
        ensures
            self.primitives(c, i).len() <= self.primitives(c, n).len(),
            self.sub_components(c, i).len() <= self.sub_components(c, n).len(),
            forall|k: int|
                0 <= k < self.primitives(c, i).len() ==> self.primitives(c, i)[k]
                    == #[trigger] self.primitives(c, n)[k],
            forall|k: int|
                0 <= k < self.sub_components(c, i).len() ==> self.sub_components(c, i)[k]
                    == #[trigger] self.sub_components(c, n)[k],
        decreases n - i,
    {
        if i < n {
            self.kinds_grow(c, i, n - 1);
        }
    }

    /// A cell is either a primitive or an instance of another component.
    pub proof fn kinds_add_up(&self, c: int, n: int)
        requires
            0 <= n,
        ensures
            self.primitives(c, n).len() + self.sub_components(c, n).len() == n,
        decreases n,
    {
        if n > 0 {
            self.kinds_add_up(c, n - 1);
        }
    }

    /// Every listed cell is laid out, in its turn.
    pub proof fn cell_has_its_turn(&self, c: int, i: int)
        requires
            0 <= i < self.listed(c).len(),
        ensures
            self.entries(c).len() == self.listed(c).len(),
            0 <= self.turn(c, i) < self.entries(c).len(),
            self.entries(c)[self.turn(c, i)] == self.listed(c)[i],
            self.entry_def(c, self.turn(c, i)) == self.listed_def(c, i),
            self.is_sub_component(c, i) <==> self.turn(c, i) >= self.primitives(
                c,
                self.listed(c).len() as int,
            ).len(),
    {
        let n = self.listed(c).len() as int;
        self.kinds_add_up(c, n);
        self.kinds_grow(c, i + 1, n);
    }

    /// Different cells have different turns.
    pub proof fn turns_differ(&self, c: int, i: int, j: int)
        requires
            0 <= i < j < self.listed(c).len(),
        ensures
            self.turn(c, i) != self.turn(c, j),
    {
        self.cell_has_its_turn(c, i);
        self.cell_has_its_turn(c, j);
        self.kinds_grow(c, i + 1, j);
    }

    /// The listed cell that is laid out at a place.
    pub proof fn listed_entry(&self, c: int, k: int) -> (i: int)
        requires
            0 <= k < self.entries(c).len(),
        ensures
            0 <= i < self.listed(c).len(),
            self.turn(c, i) == k,
            self.entries(c)[k] == self.listed(c)[i],
            self.entry_def(c, k) == self.listed_def(c, i),
    {
        let n = self.listed(c).len() as int;
        let primitives = self.primitives(c, n).len() as int;
        let i = if k < primitives {
            self.listed_primitive(c, k, n)
        } else {
            self.listed_sub_component(c, k - primitives, n)
        };
        self.cell_has_its_turn(c, i);
        i
    }

    proof fn listed_primitive(&self, c: int, k: int, n: int) -> (i: int)
        requires
            0 <= n,
            0 <= k < self.primitives(c, n).len(),
        ensures
            0 <= i < n,
            !self.is_sub_component(c, i),
            self.primitives(c, i).len() == k,
        decreases n,
    {
        if k < self.primitives(c, n - 1).len() {
            self.listed_primitive(c, k, n - 1)
        } else {
            n - 1
        }
    }

    proof fn listed_sub_component(&self, c: int, k: int, n: int) -> (i: int)
        requires
            0 <= n,
            0 <= k < self.sub_components(c, n).len(),
        ensures
            0 <= i < n,
            self.is_sub_component(c, i),
            self.sub_components(c, i).len() == k,
        decreases n,
    {
        if k < self.sub_components(c, n - 1).len() {
            self.listed_sub_component(c, k, n - 1)
        } else {
            n - 1
        }
    }

    proof fn instantiated_prefix(&self, c: int, i: int, j: int)
        requires
            0 <= i <= j,
        ensures
            self.instantiated(c, i).len() <= self.instantiated(c, j).len(),
            forall|k: int|
                0 <= k < self.instantiated(c, i).len() ==> self.instantiated(c, i)[k]
                    == #[trigger] self.instantiated(c, j)[k],
        decreases j - i,
    {
        if i < j {
            self.instantiated_prefix(c, i, j - 1);
        }
    }

    /// Places only grow along a component.
    pub proof fn walk_grows(&self, c: int, i: int, j: int)
        requires
            0 <= i <= j,
        ensures
            self.walk(c, i).port <= self.walk(c, j).port,
            self.walk(c, i).cell <= self.walk(c, j).cell,
            self.walk(c, i).ref_cell <= self.walk(c, j).ref_cell,
            self.walk(c, i).ref_port <= self.walk(c, j).ref_port,
        decreases j - i,
    {
        if i < j {
            self.walk_grows(c, i, j - 1);
        }
    }

    /// Places only grow along the ref cells of a component.
    pub proof fn ref_walk_grows(&self, c: int, i: int, j: int)
        requires
            0 <= i <= j,
        ensures
            self.ref_walk(c, i) <= self.ref_walk(c, j),
        decreases j - i,
    {
        if i < j {
            self.ref_walk_grows(c, i, j - 1);
        }
    }

    /// The first of a component's first `n` listed cells to which a port
    /// belongs.
    pub open spec fn owner(&self, c: int, port: int, n: int) -> Option<int>
        decreases n,
    {
        if n <= 0 {
            None
        } else {
            match self.owner(c, port, n - 1) {
                Some(i) => Some(i),
                None => if self.listed_def(c, n - 1).ports.has(port) {
                    Some(n - 1)
                } else {
                    None
                },
            }
        }
    }

    /// The first of a component's first `n` ref cells to which a ref port
    /// belongs.
    pub open spec fn ref_owner(&self, c: int, port: int, n: int) -> Option<int>
        decreases n,
    {
        if n <= 0 {
            None
        } else {
            match self.ref_owner(c, port, n - 1) {
                Some(i) => Some(i),
                None => if self.ref_entry_def(c, n - 1).ports.has(port) {
                    Some(n - 1)
                } else {
                    None
                },
            }
        }
    }

    /// What a name is written as.
    pub open spec fn name(&self, id: Identifier) -> Seq<char> {
        self.secondary.names@[id.0 as int]@
    }

    /// A port of a component is defined and named.
    pub open spec fn port_named(&self, c: int, port: int) -> bool {
        let map = self.comp(c).port_offset_map;
        let def = map.lookup(port);
        &&& port < self.size(c).port
        &&& map.has_key(port)
        &&& def.0 < self.secondary.ports@.len()
        &&& self.secondary.ports@[def.0 as int].name.0 < self.secondary.names@.len()
    }

    /// The `i`-th listed cell of a component is named, and its ports are.
    pub open spec fn entry_named(&self, c: int, i: int) -> bool {
        let info = self.listed_def(c, i);
        &&& info.name.0 < self.secondary.names@.len()
        &&& forall|port: int| info.ports.has(port) ==> #[trigger] self.port_named(c, port)
    }

    /// The cells of a component are named.
    pub open spec fn component_named(&self, c: int) -> bool {
        forall|i: int| 0 <= i < self.listed(c).len() ==> #[trigger] self.entry_named(c, i)
    }

    /// Everything has a name that is reported by name: the entry component, and
    /// the cells of every component of the design with their ports.
    pub open spec fn named(&self) -> bool {
        &&& self.comp(self.entry_point.0 as int).name.0 < self.secondary.names@.len()
        &&& forall|c: int|
            #![trigger self.component_named(c)]
            self.present(c) ==> self.component_named(c)
    }
}

impl Context {
    /// Looking up the place of a component's cell finds that cell.
    pub proof fn place_finds_cell(&self, c: int, i: int)
        requires
            self.placed(c),
            0 <= i < self.listed(c).len(),
        ensures
            self.comp(c).cell_offset_map.has_key(self.listed(c)[i].0.0 as int),
            self.comp(c).cell_offset_map.lookup(self.listed(c)[i].0.0 as int) == self.listed(
                c,
            )[i].1,
    {
        let map = self.comp(c).cell_offset_map;
        let place = self.listed(c)[i].0.0 as int;
        assert(map@[i].0.0 == place);
        assert forall|j: int| 0 <= j < map@.len() && j != i implies (
        #[trigger] map@[j]).0.0 != place by {
            if j < i {
                self.places_differ(c, j, i);
            } else {
                self.places_differ(c, i, j);
            }
        }
    }

    /// No two cells of a component have the same place.
    proof fn places_differ(&self, c: int, i: int, j: int)
        requires
            self.placed(c),
            0 <= i < j < self.listed(c).len(),
        ensures
            self.listed(c)[i].0.0 != self.listed(c)[j].0.0,
    {
        let a = self.turn(c, i);
        let b = self.turn(c, j);
        self.turns_differ(c, i, j);
        self.cell_has_its_turn(c, i);
        self.cell_has_its_turn(c, j);
        assert(self.entry_placed(c, a));
        assert(self.entry_placed(c, b));
        if a < b {
            self.walk_grows(c, a + 1, b);
        } else {
            self.walk_grows(c, b + 1, a);
        }
    }

    /// A cell that is found by its place is one of the component's cells.
    pub(crate) proof fn cell_found(&self, c: int, place: int)
        requires
            self.placed(c),
            self.component_named(c),
            self.comp(c).cell_offset_map.has_key(place),
        ensures
            self.comp(c).cell_offset_map.lookup(place).0 < self.secondary.cells@.len(),
            self.cell_def(self.comp(c).cell_offset_map.lookup(place).0 as int).name.0
                < self.secondary.names@.len(),
    {
        let map = self.comp(c).cell_offset_map;
        let i = choose|i: int| 0 <= i < map@.len() && (#[trigger] map@[i]).0.0 == place;
        self.place_finds_cell(c, i);
        self.cell_has_its_turn(c, i);
        assert(self.entry_placed(c, self.turn(c, i)));
        assert(self.entry_named(c, i));
    }

    /// The ports of a component's cell lie where an instance has them.
    pub proof fn cell_ports_in_place(&self, c: int, i: int, port: int)
        requires
            self.placed(c),
            0 <= i < self.listed(c).len(),
            self.listed_def(c, i).ports.has(port),
        ensures
            self.walk(c, self.turn(c, i)).port <= port < self.walk(c, self.turn(c, i) + 1).port,
    {
        self.cell_has_its_turn(c, i);
        assert(self.entry_placed(c, self.turn(c, i)));
    }
}

/// What an owner is: the first cell that has the port.
pub proof fn owner_is_first(ctx: Context, c: int, port: int, n: int)
    requires
        0 <= n,
    ensures
        match ctx.owner(c, port, n) {
            Some(i) => 0 <= i < n && ctx.listed_def(c, i).ports.has(port) && forall|j: int|
                0 <= j < i ==> !(#[trigger] ctx.listed_def(c, j)).ports.has(port),
            None => forall|j: int| 0 <= j < n ==> !(#[trigger] ctx.listed_def(c, j)).ports.has(port),
        },
    decreases n,
{
    if n > 0 {
        owner_is_first(ctx, c, port, n - 1);
    }
}

/// What the owner of a ref port is: the first ref cell that has it.
pub proof fn ref_owner_is_first(ctx: Context, c: int, port: int, n: int)
    requires
        0 <= n,
    ensures
        match ctx.ref_owner(c, port, n) {
            Some(i) => 0 <= i < n && ctx.ref_entry_def(c, i).ports.has(port) && forall|j: int|
                0 <= j < i ==> !(#[trigger] ctx.ref_entry_def(c, j)).ports.has(port),
            None => forall|j: int|
                0 <= j < n ==> !(#[trigger] ctx.ref_entry_def(c, j)).ports.has(port),
        },
    decreases n,
{
    if n > 0 {
        ref_owner_is_first(ctx, c, port, n - 1);
    }
}

/// Ports of the signature and group holes belong to no cell.
pub proof fn holes_have_no_owner(ctx: Context, c: int, port: int)
    requires
        ctx.placed(c),
        0 <= port < ctx.header_ports(c),
    ensures
        ctx.owner(c, port, ctx.listed(c).len() as int) is None,
{
    let n = ctx.listed(c).len() as int;
    owner_is_first(ctx, c, port, n);
    if let Some(i) = ctx.owner(c, port, n) {
        ctx.cell_has_its_turn(c, i);
        ctx.cell_ports_in_place(c, i, port);
        ctx.walk_grows(c, 0, ctx.turn(c, i));
    }
}

/// No port belongs to two cells.
pub proof fn owners_are_unique(ctx: Context, c: int, i: int, j: int, port: int)
    requires
        ctx.placed(c),
        0 <= i < ctx.listed(c).len(),
        0 <= j < ctx.listed(c).len(),
        ctx.listed_def(c, i).ports.has(port),
        ctx.listed_def(c, j).ports.has(port),
    ensures
        i == j,
{
    let a = ctx.turn(c, i);
    let b = ctx.turn(c, j);
    ctx.cell_has_its_turn(c, i);
    ctx.cell_has_its_turn(c, j);
    ctx.cell_ports_in_place(c, i, port);
    ctx.cell_ports_in_place(c, j, port);
    if a < b {
        ctx.walk_grows(c, a + 1, b);
    } else if b < a {
        ctx.walk_grows(c, b + 1, a);
    }
    if i < j {
        ctx.turns_differ(c, i, j);
    } else if j < i {
        ctx.turns_differ(c, j, i);
    }
}

/// Every primitive of a component comes before every instance of another
/// component in it, and so do their ports.
pub proof fn primitives_come_first(ctx: Context, c: int, i: int, j: int)
    requires
        ctx.placed(c),
        0 <= i < ctx.listed(c).len(),
        0 <= j < ctx.listed(c).len(),
        !ctx.is_sub_component(c, i),
        ctx.is_sub_component(c, j),
    ensures
        ctx.listed(c)[i].0.0 < ctx.listed(c)[j].0.0,
        ctx.walk(c, ctx.turn(c, i) + 1).port <= ctx.walk(c, ctx.turn(c, j)).port,
{
    let a = ctx.turn(c, i);
    let b = ctx.turn(c, j);
    ctx.cell_has_its_turn(c, i);
    ctx.cell_has_its_turn(c, j);
    assert(ctx.entry_placed(c, a));
    assert(ctx.entry_placed(c, b));
    ctx.walk_grows(c, a + 1, b);
}

/// Cells of one kind are laid out in the order in which they are listed.
pub proof fn listed_order_is_kept(ctx: Context, c: int, i: int, j: int)
    requires
        0 <= i < j < ctx.secondary.components@[c].cell_offset_map@.len(),
        ctx.listed_def(c, i).prototype is Component <==> ctx.listed_def(c, j).prototype
            is Component,
    ensures
        ctx.turn(c, i) < ctx.turn(c, j),
        ctx.entries(c)[ctx.turn(c, i)] == ctx.secondary.components@[c].cell_offset_map@[i],
        ctx.entries(c)[ctx.turn(c, j)] == ctx.secondary.components@[c].cell_offset_map@[j],
        ctx.entries(c).len() == ctx.secondary.components@[c].cell_offset_map@.len(),
{
    ctx.cell_has_its_turn(c, i);
    ctx.cell_has_its_turn(c, j);
    ctx.kinds_grow(c, i + 1, j);
}

/// Two ref cells of a component have no ref port in common.
pub proof fn ref_owners_are_unique(ctx: Context, c: int, i: int, j: int, port: int)
    requires
        ctx.placed(c),
        0 <= i < ctx.ref_entries(c).len(),
        0 <= j < ctx.ref_entries(c).len(),
        ctx.ref_entry_def(c, i).ports.has(port),
        ctx.ref_entry_def(c, j).ports.has(port),
    ensures
        i == j,
{
    assert(ctx.ref_entry_placed(c, i));
    assert(ctx.ref_entry_placed(c, j));
    if i < j {
        ctx.ref_walk_grows(c, i + 1, j);
    } else if j < i {
        ctx.ref_walk_grows(c, j + 1, i);
    }
}

/// What is part of the design is exactly what the entry component leads to: the
/// entry component is, whatever a part contains is, and a set of components that
/// has the entry component and everything inside its members has all of it.
pub proof fn designs_hold_what_the_entry_leads_to(ctx: Context, all: Set<int>, c: int)
    requires
        all.contains(ctx.entry_point.0 as int),
        forall|b: int, i: int, d: int|
            all.contains(b) && #[trigger] ctx.instantiates(b, i, d) ==> all.contains(d),
        ctx.present(c),
    ensures
        all.contains(c),
{
    let path = choose|path: Seq<int>| #[trigger] ctx.leads(path) && path.last() == c;
    path_stays_inside(ctx, all, path, path.len() - 1);
}

proof fn path_stays_inside(ctx: Context, all: Set<int>, path: Seq<int>, j: int)
    requires
        all.contains(ctx.entry_point.0 as int),
        forall|b: int, i: int, d: int|
            all.contains(b) && #[trigger] ctx.instantiates(b, i, d) ==> all.contains(d),
        ctx.leads(path),
        0 <= j < path.len(),
    ensures
        all.contains(path[j]),
    decreases j,
{
    if j > 0 {
        path_stays_inside(ctx, all, path, j - 1);
        assert(ctx.link(path, j - 1));
        let i = choose|i: int| #[trigger] ctx.instantiates(path[j - 1], i, path[j]);
        assert(ctx.instantiates(path[j - 1], i, path[j]));
    }
}

} // verus!
