//! The state of a design: what its ports carry, what its cells hold and where
//! its program is.

use crate::context::Context;
use crate::control::{ControlPoint, ProgramCounter};
use crate::fabric::Fabric;
use crate::graph::rank_of;
use crate::index::{
    AssignmentIdx, BaseIndices, ComponentIdx, GlobalCellIdx, GlobalPortIdx, GlobalRefCellIdx,
    GlobalRefPortIdx, IndexRef,
};
use crate::indexed_map::{IndexRange, IndexedMap};
use crate::layout::{
    CellModel, ComponentLedger, child_bases, child_lies_inside, headers_apart,
    in_place_means_primitives_first, instance, instance_fits, instance_in_place, layout,
    layout_in_place, layout_keeps_headers_apart, layout_len, lies_inside, primitives_first,
};
use crate::placement::{faithful, layouts_are_faithful};
use crate::ports::{AssignedView, PortMap, PortValue, PortView};
use crate::primitive::Primitive;
use crate::text::{decimal, decimal_text};
use vstd::prelude::*;

pub mod inventory;
pub mod meaning;
pub mod report;
pub mod simulator;

verus! {

/// An enum encapsulating cell functionality. It is either a primitive or
/// information about a component instance
pub enum CellLedger<P: Primitive> {
    Primitive { cell_dyn: P },
    Component(ComponentLedger),
}

pub type CellMap<P> = IndexedMap<GlobalCellIdx, CellLedger<P>>;

pub type RefCellMap = IndexedMap<GlobalRefCellIdx, Option<GlobalCellIdx>>;

pub type RefPortMap = IndexedMap<GlobalRefPortIdx, Option<GlobalPortIdx>>;

pub type AssignmentRange = IndexRange<AssignmentIdx>;

/// What a cell is.
pub open spec fn cell_model<P: Primitive>(cell: CellLedger<P>) -> CellModel<P> {
    match cell {
        CellLedger::Primitive { cell_dyn } => CellModel::Primitive(cell_dyn.state()),
        CellLedger::Component(l) => CellModel::Component(l),
    }
}

/// What the cells are.
pub open spec fn cell_models<P: Primitive>(cells: Seq<CellLedger<P>>) -> Seq<CellModel<P>> {
    Seq::new(cells.len(), |g: int| cell_model(cells[g]))
}

/// Nothing, so many times.
pub open spec fn nones<T>(n: nat) -> Seq<Option<T>> {
    Seq::new(n, |i: int| None)
}

impl<P: Primitive> CellLedger<P> {
    /// An instance of a component, with everything inside it laid out behind
    /// what there is. The instance's own cell comes first.
    fn new_comp(idx: ComponentIdx, env: &Environment<'_, P>) -> (cell: Self)
        requires
            env.cells@.len() < usize::MAX,
        ensures
            cell == CellLedger::<P>::Component(
                ComponentLedger {
                    index_bases: BaseIndices {
                        port_base: GlobalPortIdx(env.ports@.len() as usize),
                        cell_base: GlobalCellIdx((env.cells@.len() + 1) as usize),
                        ref_cell_base: GlobalRefCellIdx(env.ref_cells@.len() as usize),
                        ref_port_base: GlobalRefPortIdx(env.ref_ports@.len() as usize),
                    },
                    comp_id: idx,
                },
            ),
    {
        CellLedger::Component(
            ComponentLedger {
                index_bases: BaseIndices::new(
                    env.ports.peek_next_idx(),
                    GlobalCellIdx::new(env.cells.peek_next_idx().index() + 1),
                    env.ref_cells.peek_next_idx(),
                    env.ref_ports.peek_next_idx(),
                ),
                comp_id: idx,
            },
        )
    }

    /// The component instance, if the cell is one.
    pub fn as_comp(&self) -> (ledger: Option<&ComponentLedger>)
        ensures
            match ledger {
                Some(l) => *self == CellLedger::<P>::Component(*l),
                None => self is Primitive,
            },
    {
        match self {
            Self::Component(comp) => Some(comp),
            _ => None,
        }
    }

    /// The component instance that the cell is.
    pub fn unwrap_comp(&self) -> (ledger: &ComponentLedger)
        requires
            self is Component,
        ensures
            *self == CellLedger::<P>::Component(*ledger),
    {
        self.as_comp().unwrap()
    }

    /// The primitive, if the cell is one.
    pub fn as_primitive(&self) -> (primitive: Option<&P>)
        ensures
            match primitive {
                Some(p) => *self == (CellLedger::<P>::Primitive { cell_dyn: *p }),
                None => self is Component,
            },
    {
        match self {
            Self::Primitive { cell_dyn } => Some(cell_dyn),
            _ => None,
        }
    }
}

/// An index as it is shown while debugging: the name of its kind and its number.
pub open spec fn index_text(kind: Seq<char>, number: usize) -> Seq<char> {
    kind + "("@ + decimal(number as nat) + ")"@
}

/// Starting points as they are shown while debugging.
pub open spec fn bases_text(bases: BaseIndices) -> Seq<char> {
    "BaseIndices { port_base: "@ + index_text("GlobalPortIdx"@, bases.port_base.0)
        + ", cell_base: "@ + index_text("GlobalCellIdx"@, bases.cell_base.0)
        + ", ref_cell_base: "@ + index_text("GlobalRefCellIdx"@, bases.ref_cell_base.0)
        + ", ref_port_base: "@ + index_text("GlobalRefPortIdx"@, bases.ref_port_base.0) + " }"@
}

/// A cell as it is shown while debugging. What a primitive is made of is left
/// out.
pub open spec fn cell_text<P: Primitive>(cell: CellLedger<P>) -> Seq<char> {
    match cell {
        CellLedger::Primitive { .. } => "Primitive"@,
        CellLedger::Component(l) => "Component { index_bases: "@ + bases_text(l.index_bases)
            + ", comp_id: "@ + index_text("ComponentIdx"@, l.comp_id.0) + " }"@,
    }
}

/// Writes an index.
fn write_index(text: &mut String, kind: &str, number: usize)
    ensures
        final(text)@ == old(text)@ + index_text(kind@, number),
{
    text.append(kind);
    text.append("(");
    text.append(decimal_text(number as u64).as_str());
    text.append(")");
    assert(text@ =~= old(text)@ + index_text(kind@, number));
}

impl<P: Primitive> CellLedger<P> {
    /// Writes the cell as it is shown while debugging.
    pub fn to_text(&self) -> (text: String)
        ensures
            text@ == cell_text(*self),
    {
        match self {
            CellLedger::Primitive { .. } => String::from_str("Primitive"),
            CellLedger::Component(ledger) => {
                let bases = ledger.index_bases;
                let mut text = String::from_str("Component { index_bases: ");
                text.append("BaseIndices { port_base: ");
                write_index(&mut text, "GlobalPortIdx", bases.port_base.0);
                text.append(", cell_base: ");
                write_index(&mut text, "GlobalCellIdx", bases.cell_base.0);
                text.append(", ref_cell_base: ");
                write_index(&mut text, "GlobalRefCellIdx", bases.ref_cell_base.0);
                text.append(", ref_port_base: ");
                write_index(&mut text, "GlobalRefPortIdx", bases.ref_port_base.0);
                text.append(" }");
                text.append(", comp_id: ");
                write_index(&mut text, "ComponentIdx", ledger.comp_id.0);
                text.append(" }");
                assert(text@ =~= cell_text(*self));
                text
            },
        }
    }
}

/// The state of a design.
pub struct Environment<'a, P: Primitive> {
    /// A map from global port IDs to their current values.
    pub(crate) ports: PortMap,
    /// A map from global cell IDs to their current state and execution info.
    pub(crate) cells: CellMap<P>,
    /// A map from global ref cell IDs to the cell they reference, if any.
    pub(crate) ref_cells: RefCellMap,
    /// A map from global ref port IDs to the port they reference, if any.
    pub(crate) ref_ports: RefPortMap,
    /// The program counter for the whole program execution.
    pub(crate) pc: ProgramCounter,
    /// The immutable context. This is retained for ease of use.
    pub(crate) ctx: &'a Context,
}

impl<'a, P: Primitive> Environment<'a, P> {
    /// What the ports carry.
    pub closed spec fn ports(&self) -> Seq<PortView> {
        self.ports.model()
    }

    /// What the cells are.
    pub closed spec fn cells(&self) -> Seq<CellModel<P>> {
        cell_models(self.cells@)
    }

    /// The cells that the ref cells stand for.
    pub closed spec fn ref_cells(&self) -> Seq<Option<GlobalCellIdx>> {
        self.ref_cells@
    }

    /// The ports that the ref ports stand for.
    pub closed spec fn ref_ports(&self) -> Seq<Option<GlobalPortIdx>> {
        self.ref_ports@
    }

    /// The active control points.
    pub closed spec fn points(&self) -> Seq<ControlPoint> {
        self.pc@
    }

    /// The program.
    pub closed spec fn program(&self) -> Context {
        *self.ctx
    }
}

/// Where the outermost instance starts: its own cell is the first, everything
/// else starts from nothing.
pub open spec fn root_bases() -> BaseIndices {
    BaseIndices {
        port_base: GlobalPortIdx(0),
        cell_base: GlobalCellIdx(1),
        ref_cell_base: GlobalRefCellIdx(0),
        ref_port_base: GlobalRefPortIdx(0),
    }
}

/// Where the program starts.
pub open spec fn start_points(ctx: Context) -> Seq<ControlPoint> {
    match ctx.primary.components@[ctx.entry_point.0 as int].control {
        Some(root) => seq![ControlPoint { comp: GlobalCellIdx(0), control_node_idx: root }],
        None => Seq::empty(),
    }
}

impl<'a, P: Primitive> Environment<'a, P> {
    /// A component instance lies within the design.
    pub open spec fn instance_ok(&self, ledger: ComponentLedger) -> bool {
        let size = self.program().size(ledger.comp_id.0 as int);
        &&& instance_in_place(self.program(), self.cells(), ledger)
        &&& ledger.index_bases.port_base.0 + size.port <= self.ports().len()
        &&& ledger.index_bases.cell_base.0 + size.cell <= self.cells().len()
        &&& ledger.index_bases.ref_cell_base.0 + size.ref_cell <= self.ref_cells().len()
        &&& ledger.index_bases.ref_port_base.0 + size.ref_port <= self.ref_ports().len()
    }

    /// A cell touches only what there is. The cells of an instance come right
    /// behind its own.
    pub open spec fn cell_ok(&self, g: int) -> bool {
        match self.cells()[g] {
            CellModel::Primitive(s) => P::extent(s) <= self.ports().len(),
            CellModel::Component(l) => l.index_bases.cell_base.0 == g + 1 && self.instance_ok(l),
        }
    }

    /// A control point is a node of the component whose instance it names.
    pub open spec fn point_ok(&self, point: ControlPoint) -> bool {
        &&& point.comp.0 < self.cells().len()
        &&& self.cells()[point.comp.0 as int] matches CellModel::Component(l)
            && self.program().comp(l.comp_id.0 as int).definitions.control.has(
            point.control_node_idx.0 as int,
        )
    }

    /// Everything in the design refers to what there is, and no two instances
    /// share a port of their signatures and group holes.
    pub open spec fn design_ok(&self) -> bool {
        &&& self.program().layable()
        &&& self.cells().len() > 0 && self.cells()[0] == CellModel::<P>::Component(
            ComponentLedger {
                index_bases: root_bases(),
                comp_id: self.program().entry_point,
            },
        )
        &&& forall|g: int| 0 <= g < self.cells().len() ==> #[trigger] self.cell_ok(g)
        &&& forall|g: int, h: int|
            0 <= g < h < self.cells().len() && (#[trigger] self.cells()[g]) is Component && (
            #[trigger] self.cells()[h]) is Component ==> headers_apart(
                self.program(),
                self.cells()[g]->Component_0,
                self.cells()[h]->Component_0,
            )
        &&& forall|r: int|
            0 <= r < self.ref_ports().len() ==> (#[trigger] self.ref_ports()[r] matches Some(p)
                ==> p.0 < self.ports().len())
        &&& forall|r: int|
            0 <= r < self.ref_cells().len() ==> (#[trigger] self.ref_cells()[r] matches Some(g)
                ==> g.0 < self.cells().len())
    }

    /// The design is in order, its program can be run, and every control point
    /// is one of the program's.
    pub open spec fn wf(&self) -> bool {
        &&& self.design_ok()
        &&& self.program().wf()
        &&& forall|k: int|
            0 <= k < self.points().len() ==> self.point_ok(#[trigger] self.points()[k])
    }

    /// Everything that decides a step besides what the ports carry and where
    /// the program is.
    pub open spec fn fabric(&self) -> Fabric<P> {
        Fabric { ctx: self.program(), cells: self.cells(), ref_ports: self.ref_ports() }
    }

    /// In every instance of the design, primitives lie before the instances
    /// inside it.
    pub proof fn primitives_lie_first(&self, g: int)
        requires
            self.design_ok(),
            0 <= g < self.cells().len(),
            self.cells()[g] is Component,
        ensures
            primitives_first(self.program(), self.cells(), self.cells()[g]->Component_0),
    {
        self.ports.len_fits();
        self.cells.len_fits();
        self.ref_cells.len_fits();
        self.ref_ports.len_fits();
        assert(self.cell_ok(g));
        in_place_means_primitives_first::<P>(
            self.program(),
            self.cells(),
            self.cells()[g]->Component_0,
        );
    }

    /// Lays out a program: the entry component with everything inside it, its
    /// ports undefined, its ref cells and ref ports standing for nothing, and
    /// the program at its start.
    pub fn new(ctx: &'a Context) -> (env: Self)
        requires
            ctx.layable(),
        ensures
            env.program() == *ctx,
            env.ports() == nones::<AssignedView>(ctx.size(ctx.entry_point.0 as int).port),
            env.cells() == instance::<P>(
                ComponentLedger { index_bases: root_bases(), comp_id: ctx.entry_point },
            ) + layout::<P>(
                *ctx,
                ctx.entry_point.0 as int,
                root_bases(),
                ctx.entries(ctx.entry_point.0 as int).len() as int,
            ),
            env.ref_cells() == nones::<GlobalCellIdx>(
                ctx.size(ctx.entry_point.0 as int).ref_cell,
            ),
            env.ref_ports() == nones::<GlobalPortIdx>(
                ctx.size(ctx.entry_point.0 as int).ref_port,
            ),
            env.points() == start_points(*ctx),
            env.design_ok(),
            ctx.wf() ==> env.wf(),
            env.cells().len() == 1 + ctx.size(ctx.entry_point.0 as int).cell,
            forall|g: int|
                0 <= g < env.cells().len() ==> (#[trigger] env.cells()[g] matches CellModel::Component(
                    l,
                ) ==> faithful(*ctx, env.cells(), l)),
    {
        proof {
            ctx.entry_is_present();
        }
        let root = ctx.entry_point;
        let aux = ctx.secondary.components.get(root);
        let ghost c = root.0 as int;
        let ghost top = ComponentLedger { index_bases: root_bases(), comp_id: root };
        let mut env: Self = Environment {
            ports: PortMap::with_capacity(aux.port_offset_map.count()),
            cells: CellMap::with_capacity(aux.cell_offset_map.count()),
            ref_cells: RefCellMap::with_capacity(aux.ref_cell_offset_map.count()),
            ref_ports: RefPortMap::with_capacity(aux.ref_port_offset_map.count()),
            pc: ProgramCounter::new(ctx),
            ctx,
        };
        let root_node = CellLedger::new_comp(root, &env);
        let root = env.cells.push(root_node);
        assert(env.cells() =~= instance::<P>(top));
        env.layout_component(root);
        proof {
            let whole = layout::<P>(*ctx, c, root_bases(), ctx.entries(c).len() as int);
            assert(env.ports() =~= nones::<AssignedView>(ctx.size(c).port));
            assert(env.ref_cells() =~= nones::<GlobalCellIdx>(ctx.size(c).ref_cell));
            assert(env.ref_ports() =~= nones::<GlobalPortIdx>(ctx.size(c).ref_port));
            assert(env.cells() == instance::<P>(top) + whole);
            assert(env.points() == start_points(*ctx));
            assert(ctx.placed(c));
            layout_len::<P>(*ctx, c, root_bases(), ctx.entries(c).len() as int);
            assert(env.cells().subrange(1, 1 + ctx.size(c).cell as int) =~= whole);
            layout_in_place::<P>(*ctx, env.cells(), c, root_bases());
            layout_keeps_headers_apart::<P>(*ctx, env.cells(), c, root_bases());
            layouts_are_faithful::<P>(*ctx, env.cells(), c, root_bases());
            assert forall|g: int| 0 <= g < env.cells().len() implies (
            #[trigger] env.cells()[g] matches CellModel::Component(l) ==> faithful(
                *ctx,
                env.cells(),
                l,
            )) by {
                if g == 0 {
                    assert(env.cells()[0] == CellModel::<P>::Component(top));
                }
            }
            assert forall|g: int| 0 <= g < env.cells().len() implies #[trigger] env.cell_ok(g) by {
                if g == 0 {
                    assert(env.cells()[0] == CellModel::<P>::Component(top));
                } else {
                    assert(1 <= g < 1 + ctx.size(c).cell);
                    let cell = env.cells()[g];
                    if let CellModel::Component(l) = cell {
                        assert(lies_inside(
                            *ctx,
                            l.comp_id.0 as int,
                            l.index_bases,
                            c,
                            root_bases(),
                        ));
                    }
                }
            }
            if ctx.wf() {
                assert(ctx.runnable(c));
            }
        }
        env
    }
}

/// A ledger of an instance whose parts come behind everything that there is.
pub open spec fn starts_behind<P: Primitive>(
    env: Environment<'_, P>,
    bases: BaseIndices,
) -> bool {
    &&& bases.port_base.0 == env.ports().len()
    &&& bases.cell_base.0 == env.cells().len()
    &&& bases.ref_cell_base.0 == env.ref_cells().len()
    &&& bases.ref_port_base.0 == env.ref_ports().len()
}

/// What laying out an instance adds: undefined ports, the cells of the layout,
/// and ref cells and ref ports that stand for nothing.
pub open spec fn laid_out<P: Primitive>(
    before: Environment<'_, P>,
    after: Environment<'_, P>,
    c: int,
    bases: BaseIndices,
) -> bool {
    let ctx = before.program();
    &&& after.program() == ctx
    &&& after.points() == before.points()
    &&& after.ports() == before.ports() + nones(ctx.size(c).port)
    &&& after.cells() == before.cells() + layout::<P>(ctx, c, bases, ctx.entries(c).len() as int)
    &&& after.ref_cells() == before.ref_cells() + nones(ctx.size(c).ref_cell)
    &&& after.ref_ports() == before.ref_ports() + nones(ctx.size(c).ref_port)
}

/// Every primitive from a place on stays within the ports.
pub open spec fn primitives_fit<P: Primitive>(
    cells: Seq<CellModel<P>>,
    from: int,
    ports: nat,
) -> bool {
    forall|g: int|
        from <= g < cells.len() ==> (#[trigger] cells[g] matches CellModel::Primitive(s)
            ==> P::extent(s) <= ports)
}

impl<'a, P: Primitive> Environment<'a, P> {
    /// Internal function used to layout a given component from a cell id
    ///
    /// Layout is handled in the following order:
    /// 1. component signature (input/output)
    /// 2. group hole ports
    /// 3. cells + ports, primitive
    /// 4. sub-components
    /// 5. ref-cells & ports
    fn layout_component(&mut self, comp: GlobalCellIdx)
        requires
            old(self).program().layable(),
            comp.0 < old(self).cells().len(),
            old(self).cells()[comp.0 as int] matches CellModel::Component(l) && old(
                self,
            ).program().present(l.comp_id.0 as int) && starts_behind(
                *old(self),
                l.index_bases,
            ) && instance_fits(old(self).program(), l.comp_id.0 as int, l.index_bases),
        ensures
            old(self).cells()[comp.0 as int] matches CellModel::Component(l) && laid_out(
                *old(self),
                *final(self),
                l.comp_id.0 as int,
                l.index_bases,
            ),
            primitives_fit(
                final(self).cells(),
                old(self).cells().len() as int,
                final(self).ports().len(),
            ),
            old(self).cells()[comp.0 as int] matches CellModel::Component(l) && primitives_first(
                final(self).program(),
                final(self).cells(),
                l,
            ),
        decreases
                rank_of(
                    old(self).program().component_graph(),
                    old(self).cells()[comp.0 as int]->Component_0.comp_id.0 as int,
                ),
    {
        let ctx = self.ctx;
        let ledger: ComponentLedger = *self.cells.get(comp).unwrap_comp();
        let index_bases = ledger.index_bases;
        let comp_aux = ctx.secondary.components.get(ledger.comp_id);
        let ghost c = ledger.comp_id.0 as int;
        let ghost ports0 = self.ports();
        let ghost cells0 = self.cells();
        let ghost ref_cells0 = self.ref_cells();
        let ghost ref_ports0 = self.ref_ports();
        let ghost points0 = self.points();
        proof {
            assert(ctx.placed(c));
            ctx.walk_grows(c, 0, ctx.entries(c).len() as int);
        }

        // first layout the signature
        let signature: usize = comp_aux.signature.size();
        for k in 0..signature
            invariant
                signature == comp_aux.signature.len(),
                self.ports() == ports0 + nones(k as nat),
                self.cells() == cells0,
                self.ref_cells() == ref_cells0,
                self.ref_ports() == ref_ports0,
                self.points() == points0,
                self.ctx == ctx,
                comp_aux.signature.len() > 0 ==> comp_aux.signature.start.0 == 0,
                index_bases.port_base.0 == ports0.len(),
        {
            let ghost before = self.ports();
            let idx = self.ports.push(PortValue::new_undef());
            assert(self.ports() =~= before.push(None));
            assert(self.ports() =~= ports0 + nones((k + 1) as nat));
            assert(index_bases.port_base.0 + comp_aux.signature.start.0 + k == idx.0);
        }

        // second group ports
        let groups: usize = comp_aux.definitions.groups.size();
        for j in 0..groups
            invariant
                groups == comp_aux.definitions.groups.len(),
                signature == comp_aux.signature.len(),
                *comp_aux == ctx.comp(c),
                ctx.placed(c),
                self.ports() == ports0 + nones((signature + 2 * j) as nat),
                self.cells() == cells0,
                self.ref_cells() == ref_cells0,
                self.ref_ports() == ref_ports0,
                self.points() == points0,
                self.ctx == ctx,
                index_bases.port_base.0 == ports0.len(),
        {
            let ghost before = self.ports();
            //go
            let go = self.ports.push(PortValue::new_undef());
            assert(self.ports() =~= before.push(None));
            //done
            let done = self.ports.push(PortValue::new_undef());
            assert(self.ports() =~= before.push(None).push(None));
            assert(self.ports() =~= ports0 + nones((signature + 2 * (j + 1)) as nat));
            proof {
                // one of the two orders is the group's own
                let group = ctx.group(comp_aux.definitions.groups.start.0 + j);
                let go_actual = index_bases.port_base.0 + group.go.0;
                let done_actual = index_bases.port_base.0 + group.done.0;
                assert(ctx.holes_placed(c, j as int));
                assert(group.go.0 < group.done.0 ==> done.0 == done_actual && go.0 == go_actual);
                assert(group.go.0 >= group.done.0 ==> go.0 == done_actual && done.0 == go_actual);
            }
        }
        assert(self.ports() =~= ports0 + nones(ctx.walk(c, 0).port));
        assert(self.cells() =~= cells0 + layout::<P>(*ctx, c, index_bases, 0));
        assert(self.ref_cells() =~= ref_cells0 + nones(0));
        assert(self.ref_ports() =~= ref_ports0 + nones(0));

        let cells: usize = comp_aux.cell_offset_map.len();
        // the number of cells that are laid out
        let ghost mut k: int = 0;
        // third primitives
        for i in 0..cells
            invariant
                k == ctx.primitives(c, i as int).len(),
                0 <= k <= ctx.entries(c).len(),
                cells == ctx.listed(c).len(),
                ctx.layable(),
                ctx.present(c),
                c == ledger.comp_id.0,
                *comp_aux == ctx.comp(c),
                self.ctx == ctx,
                index_bases == ledger.index_bases,
                index_bases.port_base.0 == ports0.len(),
                index_bases.cell_base.0 == cells0.len(),
                index_bases.ref_cell_base.0 == ref_cells0.len(),
                index_bases.ref_port_base.0 == ref_ports0.len(),
                instance_fits(*ctx, c, index_bases),
                comp.0 < cells0.len(),
                self.ports() == ports0 + nones(ctx.walk(c, k).port),
                self.cells() == cells0 + layout::<P>(*ctx, c, index_bases, k),
                self.ref_cells() == ref_cells0 + nones(ctx.walk(c, k).ref_cell),
                self.ref_ports() == ref_ports0 + nones(ctx.walk(c, k).ref_port),
                self.points() == points0,
                primitives_fit(self.cells(), cells0.len() as int, self.ports().len()),
                old(self).program() == *ctx,
                old(self).cells()[comp.0 as int] == CellModel::<P>::Component(ledger),
        {
            let (cell_off, def_idx) = comp_aux.cell_offset_map.entries[i];
            assert(ctx.listed(c)[i as int] == (cell_off, def_idx));
            proof {
                assert(ctx.placed(c));
                ctx.cell_has_its_turn(c, i as int);
                assert(ctx.entry_placed(c, ctx.turn(c, i as int)));
                child_lies_inside(*ctx, c, index_bases, ctx.turn(c, i as int));
                layout_len::<P>(*ctx, c, index_bases, k);
                ctx.listed_rank_drops(c, i as int);
            }
            let info = ctx.secondary.cells.get(def_idx);
            let ghost before = ctx.walk(c, k);
            let ghost ports1 = self.ports();
            let ghost cells1 = self.cells();
            assert(self.cells@.len() == cells1.len() == index_bases.cell_base.0 + before.cell);
            if !info.prototype.is_component() {
                let port_base: GlobalPortIdx = self.ports.peek_next_idx();
                let size: usize = info.ports.size();
                for m in 0..size
                    invariant
                        size == info.ports.len(),
                        self.ports() == ports1 + nones(m as nat),
                        self.cells() == cells1,
                        self.ref_cells() == ref_cells0 + nones(before.ref_cell),
                        self.ref_ports() == ref_ports0 + nones(before.ref_port),
                        self.points() == points0,
                        self.ctx == ctx,
                        ports1.len() == index_bases.port_base.0 + before.port,
                        info.ports.len() > 0 ==> info.ports.start.0 == before.port,
                {
                    let ghost ports2 = self.ports();
                    let idx = self.ports.push(PortValue::new_undef());
                    assert(self.ports() =~= ports2.push(None));
                    assert(self.ports() =~= ports1 + nones((m + 1) as nat));
                    assert(index_bases.port_base.0 + (info.ports.start.0 + m) == idx.0);
                }
                let cell_dyn = P::build(info, port_base);
                let ghost state = cell_dyn.state();
                let cell = self.cells.push(CellLedger::Primitive { cell_dyn });
                assert(index_bases.cell_base.0 + cell_off.0 == cell.0);
                proof {
                    assert(self.cells() =~= cells1.push(CellModel::<P>::Primitive(state)));
                    assert(self.cells() =~= cells0 + layout::<P>(
                        *ctx,
                        c,
                        index_bases,
                        k + 1,
                    ));
                    assert(self.ports() =~= ports0 + nones(ctx.walk(c, k + 1).port));
                    assert(self.ref_cells() =~= ref_cells0 + nones(
                        ctx.walk(c, k + 1).ref_cell,
                    ));
                    assert(self.ref_ports() =~= ref_ports0 + nones(
                        ctx.walk(c, k + 1).ref_port,
                    ));
                    assert forall|g: int|
                        cells0.len() <= g < self.cells().len() implies (
                    #[trigger] self.cells()[g] matches CellModel::Primitive(s)
                        ==> P::extent(s) <= self.ports().len()) by {
                        if g < cells1.len() {
                            assert(self.cells()[g] == cells1[g]);
                        }
                    }
                    k = k + 1;
                }
            }
        }
        proof {
            ctx.kinds_add_up(c, cells as int);
        }

        // fourth sub-components
        for i in 0..cells
            invariant
                k == ctx.primitives(c, cells as int).len() + ctx.sub_components(c, i as int).len(),
                0 <= k <= ctx.entries(c).len(),
                cells == ctx.listed(c).len(),
                ctx.layable(),
                ctx.present(c),
                c == ledger.comp_id.0,
                *comp_aux == ctx.comp(c),
                self.ctx == ctx,
                index_bases == ledger.index_bases,
                index_bases.port_base.0 == ports0.len(),
                index_bases.cell_base.0 == cells0.len(),
                index_bases.ref_cell_base.0 == ref_cells0.len(),
                index_bases.ref_port_base.0 == ref_ports0.len(),
                instance_fits(*ctx, c, index_bases),
                comp.0 < cells0.len(),
                self.ports() == ports0 + nones(ctx.walk(c, k).port),
                self.cells() == cells0 + layout::<P>(*ctx, c, index_bases, k),
                self.ref_cells() == ref_cells0 + nones(ctx.walk(c, k).ref_cell),
                self.ref_ports() == ref_ports0 + nones(ctx.walk(c, k).ref_port),
                self.points() == points0,
                primitives_fit(self.cells(), cells0.len() as int, self.ports().len()),
                old(self).program() == *ctx,
                old(self).cells()[comp.0 as int] == CellModel::<P>::Component(ledger),
        {
            let (cell_off, def_idx) = comp_aux.cell_offset_map.entries[i];
            assert(ctx.listed(c)[i as int] == (cell_off, def_idx));
            proof {
                assert(ctx.placed(c));
                ctx.cell_has_its_turn(c, i as int);
                assert(ctx.entry_placed(c, ctx.turn(c, i as int)));
                child_lies_inside(*ctx, c, index_bases, ctx.turn(c, i as int));
                layout_len::<P>(*ctx, c, index_bases, k);
                ctx.listed_rank_drops(c, i as int);
            }
            let info = ctx.secondary.cells.get(def_idx);
            let ghost before = ctx.walk(c, k);
            let ghost ports1 = self.ports();
            let ghost cells1 = self.cells();
            assert(self.cells@.len() == cells1.len() == index_bases.cell_base.0 + before.cell);
            match info.prototype.as_component() {
                None => {},
                Some(child_comp) => {
                    let child_comp = CellLedger::new_comp(child_comp, self);
                    let ghost child = child_comp->Component_0;
                    let cell = self.cells.push(child_comp);
                    assert(index_bases.cell_base.0 + cell_off.0 == cell.0);
                    assert(self.cells() =~= cells1.push(CellModel::<P>::Component(child)));
                    assert(child.index_bases == child_bases(index_bases, before));
                    self.layout_component(cell);
                    proof {
                        let d = child.comp_id.0 as int;
                        let inner = layout::<P>(
                            *ctx,
                            d,
                            child.index_bases,
                            ctx.entries(d).len() as int,
                        );
                        assert(self.cells() =~= cells1 + (instance::<P>(child) + inner));
                        assert(self.cells() =~= cells0 + layout::<P>(
                            *ctx,
                            c,
                            index_bases,
                            k + 1,
                        ));
                        assert(self.ports() =~= ports0 + nones(ctx.walk(c, k + 1).port));
                        assert(self.ref_cells() =~= ref_cells0 + nones(
                            ctx.walk(c, k + 1).ref_cell,
                        ));
                        assert(self.ref_ports() =~= ref_ports0 + nones(
                            ctx.walk(c, k + 1).ref_port,
                        ));
                        assert forall|g: int|
                            cells0.len() <= g < self.cells().len() implies (
                        #[trigger] self.cells()[g] matches CellModel::Primitive(s)
                            ==> P::extent(s) <= self.ports().len()) by {
                            if g < cells1.len() {
                                assert(self.cells()[g] == cells1[g]);
                            }
                        }
                        k = k + 1;
                    }
                },
            }
        }

        // fifth ref cells and ports, which stand for nothing
        let ref_cells: usize = comp_aux.ref_cell_offset_map.len();
        let ghost ended = ctx.walk_end(c);
        let ghost ports3 = self.ports();
        let ghost cells3 = self.cells();
        assert(self.ref_ports() =~= ref_ports0 + nones(ctx.ref_walk(c, 0)));
        for i in 0..ref_cells
            invariant
                ref_cells == ctx.ref_entries(c).len(),
                ctx.placed(c),
                *comp_aux == ctx.comp(c),
                self.ctx == ctx,
                ended == ctx.walk_end(c),
                index_bases.ref_cell_base.0 == ref_cells0.len(),
                index_bases.ref_port_base.0 == ref_ports0.len(),
                self.ports() == ports3,
                self.cells() == cells3,
                self.ref_cells() == ref_cells0 + nones(ended.ref_cell + i as nat),
                self.ref_ports() == ref_ports0 + nones(ctx.ref_walk(c, i as int)),
                self.points() == points0,
        {
            let (ref_cell, def_idx) = comp_aux.ref_cell_offset_map.entries[i];
            proof {
                assert(ctx.ref_entry_placed(c, i as int));
            }
            let info = ctx.secondary.ref_cells.get(def_idx);
            let size: usize = info.ports.size();
            let ghost ref_ports1 = self.ref_ports();
            for k in 0..size
                invariant
                    size == info.ports.len(),
                    self.ports() == ports3,
                    self.cells() == cells3,
                    self.ref_cells() == ref_cells0 + nones(ended.ref_cell + i as nat),
                    self.ref_ports() == ref_ports1 + nones(k as nat),
                    self.points() == points0,
                    self.ctx == ctx,
                    ref_ports1.len() == index_bases.ref_port_base.0 + ctx.ref_walk(c, i as int),
                    info.ports.len() > 0 ==> info.ports.start.0 == ctx.ref_walk(c, i as int),
            {
                let ghost ref_ports2 = self.ref_ports();
                let port_actual = self.ref_ports.push(None);
                assert(self.ref_ports() =~= ref_ports2.push(None));
                assert(self.ref_ports() =~= ref_ports1 + nones((k + 1) as nat));
                assert(index_bases.ref_port_base.0 + (info.ports.start.0 + k) == port_actual.0);
            }
            let ghost ref_cells2 = self.ref_cells();
            let cell_actual = self.ref_cells.push(None);
            assert(index_bases.ref_cell_base.0 + ref_cell.0 == cell_actual.0);
            assert(self.ref_cells() =~= ref_cells2.push(None));
            assert(self.ref_cells() =~= ref_cells0 + nones(ended.ref_cell + (i + 1) as nat));
            assert(self.ref_ports() =~= ref_ports0 + nones(ctx.ref_walk(c, i + 1)));
        }
        proof {
            let whole = layout::<P>(*ctx, c, index_bases, ctx.entries(c).len() as int);
            layout_len::<P>(*ctx, c, index_bases, ctx.entries(c).len() as int);
            assert(self.cells().subrange(
                index_bases.cell_base.0 as int,
                (index_bases.cell_base.0 + ctx.size(c).cell) as int,
            ) =~= whole);
            layout_in_place::<P>(*ctx, self.cells(), c, index_bases);
            in_place_means_primitives_first::<P>(*ctx, self.cells(), ledger);
        }
    }
}

} // verus!
