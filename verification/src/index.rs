//! Typed indices, one type for each kind of thing that is looked up by number.

use vstd::prelude::*;

verus! {

/// A number with a type of its own.
pub trait IndexRef: Copy + Sized {
    /// The number.
    spec fn at(&self) -> int;

    /// The number.
    fn index(&self) -> (number: usize)
        ensures
            number == self.at(),
    ;

    /// The index of the given number.
    fn new(input: usize) -> (index: Self)
        ensures
            index.at() == input,
    ;
}

/// The place of a port in the whole design.
#[derive(Clone, Copy, Debug, PartialEq, Eq, PartialOrd, Ord, Hash, Structural)]
pub struct GlobalPortIdx(pub usize);

impl IndexRef for GlobalPortIdx {
    open spec fn at(&self) -> int {
        self.0 as int
    }

    fn index(&self) -> (number: usize) {
        self.0
    }

    fn new(input: usize) -> (index: Self) {
        GlobalPortIdx(input)
    }
}

/// The place of a cell in the whole design.
#[derive(Clone, Copy, Debug, PartialEq, Eq, PartialOrd, Ord, Hash, Structural)]
pub struct GlobalCellIdx(pub usize);

impl IndexRef for GlobalCellIdx {
    open spec fn at(&self) -> int {
        self.0 as int
    }

    fn index(&self) -> (number: usize) {
        self.0
    }

    fn new(input: usize) -> (index: Self) {
        GlobalCellIdx(input)
    }
}

/// The place of a ref cell in the whole design.
#[derive(Clone, Copy, Debug, PartialEq, Eq, PartialOrd, Ord, Hash, Structural)]
pub struct GlobalRefCellIdx(pub usize);

impl IndexRef for GlobalRefCellIdx {
    open spec fn at(&self) -> int {
        self.0 as int
    }

    fn index(&self) -> (number: usize) {
        self.0
    }

    fn new(input: usize) -> (index: Self) {
        GlobalRefCellIdx(input)
    }
}

/// The place of a ref port in the whole design.
#[derive(Clone, Copy, Debug, PartialEq, Eq, PartialOrd, Ord, Hash, Structural)]
pub struct GlobalRefPortIdx(pub usize);

impl IndexRef for GlobalRefPortIdx {
    open spec fn at(&self) -> int {
        self.0 as int
    }

    fn index(&self) -> (number: usize) {
        self.0
    }

    fn new(input: usize) -> (index: Self) {
        GlobalRefPortIdx(input)
    }
}

/// The place of a port within its component.
#[derive(Clone, Copy, Debug, PartialEq, Eq, PartialOrd, Ord, Hash, Structural)]
pub struct LocalPortOffset(pub usize);

impl IndexRef for LocalPortOffset {
    open spec fn at(&self) -> int {
        self.0 as int
    }

    fn index(&self) -> (number: usize) {
        self.0
    }

    fn new(input: usize) -> (index: Self) {
        LocalPortOffset(input)
    }
}

/// The place of a cell within its component.
#[derive(Clone, Copy, Debug, PartialEq, Eq, PartialOrd, Ord, Hash, Structural)]
pub struct LocalCellOffset(pub usize);

impl IndexRef for LocalCellOffset {
    open spec fn at(&self) -> int {
        self.0 as int
    }

    fn index(&self) -> (number: usize) {
        self.0
    }

    fn new(input: usize) -> (index: Self) {
        LocalCellOffset(input)
    }
}

/// The place of a ref cell within its component.
#[derive(Clone, Copy, Debug, PartialEq, Eq, PartialOrd, Ord, Hash, Structural)]
pub struct LocalRefCellOffset(pub usize);

impl IndexRef for LocalRefCellOffset {
    open spec fn at(&self) -> int {
        self.0 as int
    }

    fn index(&self) -> (number: usize) {
        self.0
    }

    fn new(input: usize) -> (index: Self) {
        LocalRefCellOffset(input)
    }
}

/// The place of a ref port within its component.
#[derive(Clone, Copy, Debug, PartialEq, Eq, PartialOrd, Ord, Hash, Structural)]
pub struct LocalRefPortOffset(pub usize);

impl IndexRef for LocalRefPortOffset {
    open spec fn at(&self) -> int {
        self.0 as int
    }

    fn index(&self) -> (number: usize) {
        self.0
    }

    fn new(input: usize) -> (index: Self) {
        LocalRefPortOffset(input)
    }
}

/// A component definition.
#[derive(Clone, Copy, Debug, PartialEq, Eq, PartialOrd, Ord, Hash, Structural)]
pub struct ComponentIdx(pub usize);

impl IndexRef for ComponentIdx {
    open spec fn at(&self) -> int {
        self.0 as int
    }

    fn index(&self) -> (number: usize) {
        self.0
    }

    fn new(input: usize) -> (index: Self) {
        ComponentIdx(input)
    }
}

/// A cell definition.
#[derive(Clone, Copy, Debug, PartialEq, Eq, PartialOrd, Ord, Hash, Structural)]
pub struct CellDefinitionIdx(pub usize);

impl IndexRef for CellDefinitionIdx {
    open spec fn at(&self) -> int {
        self.0 as int
    }

    fn index(&self) -> (number: usize) {
        self.0
    }

    fn new(input: usize) -> (index: Self) {
        CellDefinitionIdx(input)
    }
}

/// A ref cell definition.
#[derive(Clone, Copy, Debug, PartialEq, Eq, PartialOrd, Ord, Hash, Structural)]
pub struct RefCellDefinitionIdx(pub usize);

impl IndexRef for RefCellDefinitionIdx {
    open spec fn at(&self) -> int {
        self.0 as int
    }

    fn index(&self) -> (number: usize) {
        self.0
    }

    fn new(input: usize) -> (index: Self) {
        RefCellDefinitionIdx(input)
    }
}

/// A port definition.
#[derive(Clone, Copy, Debug, PartialEq, Eq, PartialOrd, Ord, Hash, Structural)]
pub struct PortDefinitionIdx(pub usize);

impl IndexRef for PortDefinitionIdx {
    open spec fn at(&self) -> int {
        self.0 as int
    }

    fn index(&self) -> (number: usize) {
        self.0
    }

    fn new(input: usize) -> (index: Self) {
        PortDefinitionIdx(input)
    }
}

/// A group of assignments.
#[derive(Clone, Copy, Debug, PartialEq, Eq, PartialOrd, Ord, Hash, Structural)]
pub struct GroupIdx(pub usize);

impl IndexRef for GroupIdx {
    open spec fn at(&self) -> int {
        self.0 as int
    }

    fn index(&self) -> (number: usize) {
        self.0
    }

    fn new(input: usize) -> (index: Self) {
        GroupIdx(input)
    }
}

/// An assignment.
#[derive(Clone, Copy, Debug, PartialEq, Eq, PartialOrd, Ord, Hash, Structural)]
pub struct AssignmentIdx(pub usize);

impl IndexRef for AssignmentIdx {
    open spec fn at(&self) -> int {
        self.0 as int
    }

    fn index(&self) -> (number: usize) {
        self.0
    }

    fn new(input: usize) -> (index: Self) {
        AssignmentIdx(input)
    }
}

/// A node of a guard expression.
#[derive(Clone, Copy, Debug, PartialEq, Eq, PartialOrd, Ord, Hash, Structural)]
pub struct GuardIdx(pub usize);

impl IndexRef for GuardIdx {
    open spec fn at(&self) -> int {
        self.0 as int
    }

    fn index(&self) -> (number: usize) {
        self.0
    }

    fn new(input: usize) -> (index: Self) {
        GuardIdx(input)
    }
}

/// A node of a control program.
#[derive(Clone, Copy, Debug, PartialEq, Eq, PartialOrd, Ord, Hash, Structural)]
pub struct ControlIdx(pub usize);

impl IndexRef for ControlIdx {
    open spec fn at(&self) -> int {
        self.0 as int
    }

    fn index(&self) -> (number: usize) {
        self.0
    }

    fn new(input: usize) -> (index: Self) {
        ControlIdx(input)
    }
}

/// A name.
#[derive(Clone, Copy, Debug, PartialEq, Eq, PartialOrd, Ord, Hash, Structural)]
pub struct Identifier(pub usize);

impl IndexRef for Identifier {
    open spec fn at(&self) -> int {
        self.0 as int
    }

    fn index(&self) -> (number: usize) {
        self.0
    }

    fn new(input: usize) -> (index: Self) {
        Identifier(input)
    }
}

/// A port as a component's own code refers to it.
#[derive(Clone, Copy, Debug, PartialEq, Eq, Structural)]
pub enum PortRef {
    /// A port of the component.
    Local(LocalPortOffset),
    /// A port of a cell that the component is handed from outside.
    Ref(LocalRefPortOffset),
}

/// A port of the whole design, or a ref port that stands for one.
#[derive(Clone, Copy, Debug, PartialEq, Eq, Structural)]
pub enum GlobalPortRef {
    Port(GlobalPortIdx),
    Ref(GlobalRefPortIdx),
}

/// Where the ports, cells, ref cells and ref ports of a component instance
/// start.
#[derive(Clone, Copy, Debug, PartialEq, Eq, Structural)]
pub struct BaseIndices {
    pub port_base: GlobalPortIdx,
    pub cell_base: GlobalCellIdx,
    pub ref_cell_base: GlobalRefCellIdx,
    pub ref_port_base: GlobalRefPortIdx,
}

impl BaseIndices {
    /// Whether a local port reference can be turned into a global one.
    pub open spec fn reaches(self, port: PortRef) -> bool {
        match port {
            PortRef::Local(l) => self.port_base.0 + l.0 <= usize::MAX,
            PortRef::Ref(r) => self.ref_port_base.0 + r.0 <= usize::MAX,
        }
    }

    /// The global port behind a local reference.
    pub open spec fn global(self, port: PortRef) -> GlobalPortRef {
        match port {
            PortRef::Local(l) => GlobalPortRef::Port(
                GlobalPortIdx((self.port_base.0 + l.0) as usize),
            ),
            PortRef::Ref(r) => GlobalPortRef::Ref(
                GlobalRefPortIdx((self.ref_port_base.0 + r.0) as usize),
            ),
        }
    }

    /// Bundles the four starting points.
    pub fn new(
        port_base: GlobalPortIdx,
        cell_base: GlobalCellIdx,
        ref_cell_base: GlobalRefCellIdx,
        ref_port_base: GlobalRefPortIdx,
    ) -> (bases: Self)
        ensures
            bases == (BaseIndices { port_base, cell_base, ref_cell_base, ref_port_base }),
    {
        BaseIndices { port_base, cell_base, ref_cell_base, ref_port_base }
    }

    /// The global place of a port.
    pub fn port(&self, offset: LocalPortOffset) -> (index: GlobalPortIdx)
        requires
            self.port_base.0 + offset.0 <= usize::MAX,
        ensures
            index.0 == self.port_base.0 + offset.0,
    {
        GlobalPortIdx(self.port_base.0 + offset.0)
    }

    /// The global place of a cell.
    pub open spec fn cell_at(self, offset: LocalCellOffset) -> GlobalCellIdx {
        GlobalCellIdx((self.cell_base.0 + offset.0) as usize)
    }

    /// The place within the component of a cell of the instance.
    pub open spec fn offset_of(self, cell: GlobalCellIdx) -> LocalCellOffset {
        LocalCellOffset((cell.0 - self.cell_base.0) as usize)
    }

    /// The global place of a cell.
    pub fn cell(&self, offset: LocalCellOffset) -> (index: GlobalCellIdx)
        requires
            self.cell_base.0 + offset.0 <= usize::MAX,
        ensures
            index == self.cell_at(offset),
    {
        GlobalCellIdx(self.cell_base.0 + offset.0)
    }

    /// The global place of a ref cell.
    pub fn ref_cell(&self, offset: LocalRefCellOffset) -> (index: GlobalRefCellIdx)
        requires
            self.ref_cell_base.0 + offset.0 <= usize::MAX,
        ensures
            index.0 == self.ref_cell_base.0 + offset.0,
    {
        GlobalRefCellIdx(self.ref_cell_base.0 + offset.0)
    }

    /// The global place of a ref port.
    pub fn ref_port(&self, offset: LocalRefPortOffset) -> (index: GlobalRefPortIdx)
        requires
            self.ref_port_base.0 + offset.0 <= usize::MAX,
        ensures
            index.0 == self.ref_port_base.0 + offset.0,
    {
        GlobalRefPortIdx(self.ref_port_base.0 + offset.0)
    }

    /// The place within the component of a cell of the instance.
    pub fn local_cell(&self, cell: GlobalCellIdx) -> (offset: LocalCellOffset)
        requires
            self.cell_base.0 <= cell.0,
        ensures
            offset == self.offset_of(cell),
    {
        LocalCellOffset(cell.0 - self.cell_base.0)
    }
}

impl GlobalPortRef {
    /// The global port behind a local reference of a component instance.
    pub fn from_local(port: PortRef, bases: &BaseIndices) -> (global: Self)
        requires
            bases.reaches(port),
        ensures
            global == bases.global(port),
    {
        match port {
            PortRef::Local(l) => GlobalPortRef::Port(bases.port(l)),
            PortRef::Ref(r) => GlobalPortRef::Ref(bases.ref_port(r)),
        }
    }
}

/// Turning a place within a component into a global one and back changes
/// nothing.
pub proof fn local_place_comes_back(bases: BaseIndices, offset: LocalCellOffset)
    requires
        bases.cell_base.0 + offset.0 <= usize::MAX,
    ensures
        bases.offset_of(bases.cell_at(offset)) == offset,
{
}

/// In one instance, different references lead to different ports.
pub proof fn global_ports_are_distinct(bases: BaseIndices, a: PortRef, b: PortRef)
    requires
        bases.reaches(a),
        bases.reaches(b),
        bases.global(a) == bases.global(b),
    ensures
        a == b,
{
}

/// A reference of an instance to a port of its own is as far behind the place
/// where the instance's ports start as it says, and one to a port of a ref cell
/// as far behind the place where its ref ports start.
pub proof fn references_count_from_the_instance(bases: BaseIndices, port: PortRef)
    requires
        bases.reaches(port),
    ensures
        match (port, bases.global(port)) {
            (PortRef::Local(l), GlobalPortRef::Port(p)) => p.0 == bases.port_base.0 + l.0,
            (PortRef::Ref(r), GlobalPortRef::Ref(p)) => p.0 == bases.ref_port_base.0 + r.0,
            _ => false,
        },
{
}

/// A cell of an instance is as far behind the place where the instance's cells
/// start as its place within the component says.
pub proof fn cells_count_from_the_instance(
    bases: BaseIndices,
    offset: LocalCellOffset,
    cell: GlobalCellIdx,
)
    requires
        bases.cell_base.0 + offset.0 <= usize::MAX,
        bases.cell_base.0 <= cell.0,
    ensures
        bases.cell_at(offset).0 == bases.cell_base.0 + offset.0,
        bases.offset_of(cell).0 == cell.0 - bases.cell_base.0,
{
}

} // verus!
