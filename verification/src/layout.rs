//! Where the parts of a design end up when component instances are laid out
//! one inside the other.

use crate::context::{CellPrototype, Context, Offsets, primitives_come_first};
use crate::graph::{acyclic, rank_of};
use crate::index::{
    BaseIndices, ComponentIdx, GlobalCellIdx, GlobalPortIdx, GlobalPortRef, GlobalRefCellIdx,
    GlobalRefPortIdx, PortRef,
};
use crate::primitive::Primitive;
use vstd::prelude::*;

verus! {

/// Where an instance of a component lies.
#[derive(Clone, Copy, Debug, PartialEq, Eq, Structural)]
pub struct ComponentLedger {
    pub index_bases: BaseIndices,
    pub comp_id: ComponentIdx,
}

impl ComponentLedger {
    /// Convert a relative offset to a global one.
    pub fn convert_to_global(&self, port: &PortRef) -> (global: GlobalPortRef)
        requires
            self.index_bases.reaches(*port),
        ensures
            global == self.index_bases.global(*port),
    {
        GlobalPortRef::from_local(*port, &self.index_bases)
    }
}

/// What a cell is: a primitive in some state, or an instance of a component.
pub enum CellModel<P: Primitive> {
    Primitive(P::State),
    Component(ComponentLedger),
}

/// Where an instance starts whose cell comes after `before` in an instance that
/// starts at `bases`. The instance's own cell comes before the cells inside it.
pub open spec fn child_bases(bases: BaseIndices, before: Offsets) -> BaseIndices {
    BaseIndices {
        port_base: GlobalPortIdx((bases.port_base.0 + before.port) as usize),
        cell_base: GlobalCellIdx((bases.cell_base.0 + before.cell + 1) as usize),
        ref_cell_base: GlobalRefCellIdx((bases.ref_cell_base.0 + before.ref_cell) as usize),
        ref_port_base: GlobalRefPortIdx((bases.ref_port_base.0 + before.ref_port) as usize),
    }
}

/// The cells that the first `i` cells of a component, as they are laid out,
/// give rise to in an instance that starts at `bases`: primitives first, and
/// then the cells that are instances themselves, each followed by the cells
/// inside it.
pub open spec fn layout<P: Primitive>(ctx: Context, c: int, bases: BaseIndices, i: int) -> Seq<
    CellModel<P>,
>
    decreases rank_of(ctx.component_graph(), c), i,
    when acyclic(ctx.component_graph()) && ctx.present(c) && i <= ctx.entries(c).len()
    via layout_decreases::<P>
{
    if i <= 0 {
        Seq::empty()
    } else {
        let info = ctx.entry_def(c, i - 1);
        let before = ctx.walk(c, i - 1);
        layout::<P>(ctx, c, bases, i - 1) + match info.prototype {
            CellPrototype::Component(k) => instance::<P>(
                ComponentLedger { index_bases: child_bases(bases, before), comp_id: k },
            ) + layout::<P>(
                ctx,
                k.0 as int,
                child_bases(bases, before),
                ctx.entries(k.0 as int).len() as int,
            ),
            _ => seq![CellModel::<P>::Primitive(P::built(info, bases.port_base.0 + before.port))],
        }
    }
}

/// The cell of an instance.
pub open spec fn instance<P: Primitive>(ledger: ComponentLedger) -> Seq<CellModel<P>> {
    seq![CellModel::<P>::Component(ledger)]
}

#[via_fn]
proof fn layout_decreases<P: Primitive>(ctx: Context, c: int, bases: BaseIndices, i: int) {
    if i > 0 {
        ctx.component_rank_drops(c, i - 1);
    }
}

/// An instance at `bases` with everything inside it stays within words.
pub open spec fn instance_fits(ctx: Context, c: int, bases: BaseIndices) -> bool {
    &&& bases.port_base.0 + ctx.size(c).port <= usize::MAX
    &&& bases.cell_base.0 + ctx.size(c).cell <= usize::MAX
    &&& bases.ref_cell_base.0 + ctx.size(c).ref_cell <= usize::MAX
    &&& bases.ref_port_base.0 + ctx.size(c).ref_port <= usize::MAX
}

/// The instance of component `c` at `inner` lies inside the instance of
/// component `d` at `outer`.
pub open spec fn lies_inside(
    ctx: Context,
    c: int,
    inner: BaseIndices,
    d: int,
    outer: BaseIndices,
) -> bool {
    &&& outer.port_base.0 <= inner.port_base.0
    &&& inner.port_base.0 + ctx.size(c).port <= outer.port_base.0 + ctx.size(d).port
    &&& outer.cell_base.0 <= inner.cell_base.0
    &&& inner.cell_base.0 + ctx.size(c).cell <= outer.cell_base.0 + ctx.size(d).cell
    &&& outer.ref_cell_base.0 <= inner.ref_cell_base.0
    &&& inner.ref_cell_base.0 + ctx.size(c).ref_cell <= outer.ref_cell_base.0 + ctx.size(
        d,
    ).ref_cell
    &&& outer.ref_port_base.0 <= inner.ref_port_base.0
    &&& inner.ref_port_base.0 + ctx.size(c).ref_port <= outer.ref_port_base.0 + ctx.size(
        d,
    ).ref_port
}

/// A cell that is an instance lies inside the instance that it is a cell of.
pub proof fn child_lies_inside(ctx: Context, c: int, bases: BaseIndices, i: int)
    requires
        ctx.layable(),
        ctx.present(c),
        0 <= i < ctx.entries(c).len(),
        instance_fits(ctx, c, bases),
    ensures
        bases.cell_base.0 + ctx.walk(c, i).cell < bases.cell_base.0 + ctx.size(c).cell,
        ctx.entry_def(c, i).prototype matches CellPrototype::Component(k) ==> {
            let child = child_bases(bases, ctx.walk(c, i));
            &&& ctx.present(k.0 as int)
            &&& child.port_base.0 == bases.port_base.0 + ctx.walk(c, i).port
            &&& child.cell_base.0 == bases.cell_base.0 + ctx.walk(c, i).cell + 1
            &&& child.ref_cell_base.0 == bases.ref_cell_base.0 + ctx.walk(c, i).ref_cell
            &&& child.ref_port_base.0 == bases.ref_port_base.0 + ctx.walk(c, i).ref_port
            &&& lies_inside(ctx, k.0 as int, child, c, bases)
            &&& instance_fits(ctx, k.0 as int, child)
        },
        !(ctx.entry_def(c, i).prototype is Component) ==> bases.port_base.0 + ctx.walk(c, i).port
            + ctx.entry_def(c, i).ports.len() <= bases.port_base.0 + ctx.size(c).port,
{
    assert(ctx.placed(c));
    ctx.component_rank_drops(c, i);
    assert(ctx.entry_placed(c, i));
    let n = ctx.entries(c).len() as int;
    ctx.walk_grows(c, i + 1, n);
    ctx.ref_walk_grows(c, 0, ctx.ref_entries(c).len() as int);
}

/// What belongs to a cell of an instance comes before everything that belongs
/// to a later one.
pub proof fn siblings_do_not_overlap(ctx: Context, c: int, i: int, j: int)
    requires
        0 <= i < j,
    ensures
        ctx.walk(c, i).port + ctx.entry_size(c, i).port <= ctx.walk(c, j).port,
        ctx.walk(c, i).cell + ctx.entry_size(c, i).cell <= ctx.walk(c, j).cell,
        ctx.walk(c, i).ref_cell + ctx.entry_size(c, i).ref_cell <= ctx.walk(c, j).ref_cell,
        ctx.walk(c, i).ref_port + ctx.entry_size(c, i).ref_port <= ctx.walk(c, j).ref_port,
{
    ctx.walk_grows(c, i + 1, j);
}

/// A layout takes as many cells as there are places.
pub proof fn layout_len<P: Primitive>(ctx: Context, c: int, bases: BaseIndices, i: int)
    requires
        ctx.layable(),
        ctx.present(c),
        0 <= i <= ctx.entries(c).len(),
    ensures
        layout::<P>(ctx, c, bases, i).len() == ctx.walk(c, i).cell,
    decreases rank_of(ctx.component_graph(), c), i,
{
    if i > 0 {
        layout_len::<P>(ctx, c, bases, i - 1);
        ctx.component_rank_drops(c, i - 1);
        if let CellPrototype::Component(k) = ctx.entry_def(c, i - 1).prototype {
            assert(ctx.placed(k.0 as int));
            layout_len::<P>(
                ctx,
                k.0 as int,
                child_bases(bases, ctx.walk(c, i - 1)),
                ctx.entries(k.0 as int).len() as int,
            );
        }
    }
}

/// What was laid out first stays in front.
pub proof fn layout_prefix<P: Primitive>(ctx: Context, c: int, bases: BaseIndices, i: int, j: int)
    requires
        ctx.layable(),
        ctx.present(c),
        0 <= i <= j <= ctx.entries(c).len(),
    ensures
        layout::<P>(ctx, c, bases, i).len() <= layout::<P>(ctx, c, bases, j).len(),
        forall|m: int|
            0 <= m < layout::<P>(ctx, c, bases, i).len() ==> layout::<P>(ctx, c, bases, i)[m]
                == #[trigger] layout::<P>(ctx, c, bases, j)[m],
    decreases j - i,
{
    if i < j {
        layout_prefix::<P>(ctx, c, bases, i, j - 1);
    }
}

/// The `i`-th cell of an instance is where its place says and is what its
/// definition says.
pub open spec fn child_in_place<P: Primitive>(
    ctx: Context,
    cells: Seq<CellModel<P>>,
    ledger: ComponentLedger,
    i: int,
) -> bool {
    let c = ledger.comp_id.0 as int;
    let at = ledger.index_bases.cell_base.0 + ctx.entries(c)[i].0.0;
    &&& 0 <= at < cells.len()
    &&& match ctx.entry_def(c, i).prototype {
        CellPrototype::Component(k) => cells[at] == CellModel::<P>::Component(
            ComponentLedger {
                index_bases: child_bases(ledger.index_bases, ctx.walk(c, i)),
                comp_id: k,
            },
        ),
        _ => cells[at] is Primitive,
    }
}

/// An instance lies within a design, and its cells are in place.
pub open spec fn instance_in_place<P: Primitive>(
    ctx: Context,
    cells: Seq<CellModel<P>>,
    ledger: ComponentLedger,
) -> bool {
    &&& ctx.present(ledger.comp_id.0 as int)
    &&& forall|i: int|
        0 <= i < ctx.entries(ledger.comp_id.0 as int).len() ==> #[trigger] child_in_place(
            ctx,
            cells,
            ledger,
            i,
        )
}

/// The `i`-th listed cell of an instance, a primitive, lies before the `j`-th,
/// an instance itself, and so do its ports.
pub open spec fn lies_before<P: Primitive>(
    ctx: Context,
    cells: Seq<CellModel<P>>,
    ledger: ComponentLedger,
    i: int,
    j: int,
) -> bool {
    let c = ledger.comp_id.0 as int;
    let first = ledger.index_bases.cell_base.0 + ctx.listed(c)[i].0.0;
    let second = ledger.index_bases.cell_base.0 + ctx.listed(c)[j].0.0;
    &&& first < second < cells.len()
    &&& cells[first] is Primitive
    &&& cells[second] matches CellModel::Component(inner) && forall|port: int|
        #[trigger] ctx.listed_def(c, i).ports.has(port) ==> ledger.index_bases.port_base.0 + port
            < inner.index_bases.port_base.0
}

/// Every primitive that an instance directly contains lies before every
/// instance that it directly contains.
pub open spec fn primitives_first<P: Primitive>(
    ctx: Context,
    cells: Seq<CellModel<P>>,
    ledger: ComponentLedger,
) -> bool {
    let c = ledger.comp_id.0 as int;
    forall|i: int, j: int|
        0 <= i < ctx.listed(c).len() && 0 <= j < ctx.listed(c).len() && !ctx.is_sub_component(c, i)
            && ctx.is_sub_component(c, j) ==> #[trigger] lies_before(ctx, cells, ledger, i, j)
}

/// An instance whose cells are in place has its primitives first.
pub proof fn in_place_means_primitives_first<P: Primitive>(
    ctx: Context,
    cells: Seq<CellModel<P>>,
    ledger: ComponentLedger,
)
    requires
        ctx.layable(),
        instance_in_place(ctx, cells, ledger),
        instance_fits(ctx, ledger.comp_id.0 as int, ledger.index_bases),
    ensures
        primitives_first(ctx, cells, ledger),
{
    let c = ledger.comp_id.0 as int;
    let bases = ledger.index_bases;
    assert(ctx.placed(c));
    assert forall|i: int, j: int|
        0 <= i < ctx.listed(c).len() && 0 <= j < ctx.listed(c).len() && !ctx.is_sub_component(c, i)
            && ctx.is_sub_component(c, j) implies #[trigger] lies_before(
        ctx,
        cells,
        ledger,
        i,
        j,
    ) by {
        ctx.cell_has_its_turn(c, i);
        ctx.cell_has_its_turn(c, j);
        primitives_come_first(ctx, c, i, j);
        assert(child_in_place(ctx, cells, ledger, ctx.turn(c, i)));
        assert(child_in_place(ctx, cells, ledger, ctx.turn(c, j)));
        child_lies_inside(ctx, c, bases, ctx.turn(c, j));
        let inner = cells[bases.cell_base.0 + ctx.listed(c)[j].0.0]->Component_0;
        assert forall|port: int| #[trigger] ctx.listed_def(c, i).ports.has(port) implies bases.port_base.0
            + port < inner.index_bases.port_base.0 by {
            ctx.cell_ports_in_place(c, i, port);
        }
    }
}

/// Where a sequence of cells holds a layout, every instance in it, however deep
/// inside, is in place and inside the outermost one.
pub proof fn layout_in_place<P: Primitive>(
    ctx: Context,
    cells: Seq<CellModel<P>>,
    c: int,
    bases: BaseIndices,
)
    requires
        ctx.layable(),
        ctx.present(c),
        instance_fits(ctx, c, bases),
        bases.cell_base.0 + ctx.size(c).cell <= cells.len(),
        cells.subrange(
            bases.cell_base.0 as int,
            (bases.cell_base.0 + ctx.size(c).cell) as int,
        ) == layout::<P>(ctx, c, bases, ctx.entries(c).len() as int),
    ensures
        instance_in_place(
            ctx,
            cells,
            ComponentLedger { index_bases: bases, comp_id: ComponentIdx(c as usize) },
        ),
        forall|g: int|
            bases.cell_base.0 <= g < bases.cell_base.0 + ctx.size(c).cell ==> (
            #[trigger] cells[g] matches CellModel::Component(l) ==> l.index_bases.cell_base.0 == g
                + 1 && instance_in_place(ctx, cells, l) && lies_inside(
                ctx,
                l.comp_id.0 as int,
                l.index_bases,
                c,
                bases,
            )),
    decreases rank_of(ctx.component_graph(), c),
{
    let n = ctx.entries(c).len() as int;
    let base = bases.cell_base.0 as int;
    let whole = layout::<P>(ctx, c, bases, n);
    let ledger = ComponentLedger { index_bases: bases, comp_id: ComponentIdx(c as usize) };
    ctx.secondary.components.len_fits();
    assert(ctx.placed(c));
    layout_len::<P>(ctx, c, bases, n);
    assert forall|i: int| 0 <= i < n implies #[trigger] child_in_place(ctx, cells, ledger, i) by {
        layout_entry::<P>(ctx, cells, c, bases, i);
    }
    assert forall|g: int|
        base <= g < base + ctx.size(c).cell && (#[trigger] cells[g]) is Component implies (
    cells[g] matches CellModel::Component(l) && l.index_bases.cell_base.0 == g + 1
        && instance_in_place(ctx, cells, l) && lies_inside(
        ctx,
        l.comp_id.0 as int,
        l.index_bases,
        c,
        bases,
    )) by {
        let i = covering_entry(ctx, c, n, g - base);
        layout_entry::<P>(ctx, cells, c, bases, i);
        ctx.component_rank_drops(c, i);
        if let CellPrototype::Component(k) = ctx.entry_def(c, i).prototype {
            let child = child_bases(bases, ctx.walk(c, i));
            child_lies_inside(ctx, c, bases, i);
            layout_in_place::<P>(ctx, cells, k.0 as int, child);
            assert(ctx.placed(k.0 as int));
        }
    }
}

/// The signatures and group holes of two instances do not overlap.
pub open spec fn headers_apart(ctx: Context, a: ComponentLedger, b: ComponentLedger) -> bool {
    let a_base = a.index_bases.port_base.0;
    let b_base = b.index_bases.port_base.0;
    ||| a_base + ctx.header_ports(a.comp_id.0 as int) <= b_base
    ||| b_base + ctx.header_ports(b.comp_id.0 as int) <= a_base
}

/// Where a sequence of cells holds a layout, no two instances in it share a
/// port of their signatures and group holes, and none shares one with the
/// outermost instance.
pub proof fn layout_keeps_headers_apart<P: Primitive>(
    ctx: Context,
    cells: Seq<CellModel<P>>,
    c: int,
    bases: BaseIndices,
)
    requires
        ctx.layable(),
        ctx.present(c),
        instance_fits(ctx, c, bases),
        bases.cell_base.0 + ctx.size(c).cell <= cells.len(),
        cells.subrange(
            bases.cell_base.0 as int,
            (bases.cell_base.0 + ctx.size(c).cell) as int,
        ) == layout::<P>(ctx, c, bases, ctx.entries(c).len() as int),
    ensures
        forall|g: int|
            bases.cell_base.0 <= g < bases.cell_base.0 + ctx.size(c).cell ==> (
            #[trigger] cells[g] matches CellModel::Component(l) ==> bases.port_base.0
                + ctx.header_ports(c) <= l.index_bases.port_base.0),
        forall|g: int, h: int|
            bases.cell_base.0 <= g < h < bases.cell_base.0 + ctx.size(c).cell && (
            #[trigger] cells[g]) is Component && (#[trigger] cells[h]) is Component
                ==> headers_apart(ctx, cells[g]->Component_0, cells[h]->Component_0),
    decreases rank_of(ctx.component_graph(), c),
{
    let n = ctx.entries(c).len() as int;
    let base = bases.cell_base.0 as int;
    assert(ctx.placed(c));
    layout_len::<P>(ctx, c, bases, n);
    assert forall|g: int|
        base <= g < base + ctx.size(c).cell && (#[trigger] cells[g]) is Component implies bases.port_base.0
        + ctx.header_ports(c) <= cells[g]->Component_0.index_bases.port_base.0 by {
        let i = covering_entry(ctx, c, n, g - base);
        instance_in_entry::<P>(ctx, cells, c, bases, i, g);
        ctx.walk_grows(c, 0, i);
    }
    assert forall|g: int, h: int|
        base <= g < h < base + ctx.size(c).cell && (#[trigger] cells[g]) is Component && (
        #[trigger] cells[h]) is Component implies headers_apart(
        ctx,
        cells[g]->Component_0,
        cells[h]->Component_0,
    ) by {
        let i = covering_entry(ctx, c, n, g - base);
        let j = covering_entry(ctx, c, n, h - base);
        instance_in_entry::<P>(ctx, cells, c, bases, i, g);
        instance_in_entry::<P>(ctx, cells, c, bases, j, h);
        if i < j {
            ctx.walk_grows(c, i + 1, j);
        } else if j < i {
            ctx.walk_grows(c, j + 1, i);
        } else {
            layout_entry::<P>(ctx, cells, c, bases, i);
            ctx.component_rank_drops(c, i);
            child_lies_inside(ctx, c, bases, i);
            if let CellPrototype::Component(k) = ctx.entry_def(c, i).prototype {
                layout_keeps_headers_apart::<P>(
                    ctx,
                    cells,
                    k.0 as int,
                    child_bases(bases, ctx.walk(c, i)),
                );
            }
        }
    }
}

/// An instance that belongs to an entry of a component's cells has its header
/// among the ports of that entry.
proof fn instance_in_entry<P: Primitive>(
    ctx: Context,
    cells: Seq<CellModel<P>>,
    c: int,
    bases: BaseIndices,
    i: int,
    g: int,
)
    requires
        ctx.layable(),
        ctx.present(c),
        0 <= i < ctx.entries(c).len(),
        instance_fits(ctx, c, bases),
        bases.cell_base.0 + ctx.size(c).cell <= cells.len(),
        cells.subrange(
            bases.cell_base.0 as int,
            (bases.cell_base.0 + ctx.size(c).cell) as int,
        ) == layout::<P>(ctx, c, bases, ctx.entries(c).len() as int),
        ctx.walk(c, i).cell <= g - bases.cell_base.0 < ctx.walk(c, i + 1).cell,
        cells[g] is Component,
    ensures
        ({
            let l = cells[g]->Component_0;
            &&& bases.port_base.0 + ctx.walk(c, i).port <= l.index_bases.port_base.0
            &&& l.index_bases.port_base.0 + ctx.header_ports(l.comp_id.0 as int)
                <= bases.port_base.0 + ctx.walk(c, i + 1).port
        }),
{
    layout_entry::<P>(ctx, cells, c, bases, i);
    ctx.component_rank_drops(c, i);
    child_lies_inside(ctx, c, bases, i);
    if let CellPrototype::Component(k) = ctx.entry_def(c, i).prototype {
        let child = child_bases(bases, ctx.walk(c, i));
        layout_in_place::<P>(ctx, cells, k.0 as int, child);
        let l = cells[g]->Component_0;
        let d = l.comp_id.0 as int;
        assert(ctx.placed(k.0 as int));
        if g > bases.cell_base.0 + ctx.walk(c, i).cell {
            assert(lies_inside(ctx, d, l.index_bases, k.0 as int, child));
        }
        assert(ctx.placed(d));
        ctx.walk_grows(d, 0, ctx.entries(d).len() as int);
    }
}

/// The entry of a component's cells to which a place belongs.
pub(crate) proof fn covering_entry(ctx: Context, c: int, n: int, place: int) -> (i: int)
    requires
        0 <= n,
        0 <= place < ctx.walk(c, n).cell,
    ensures
        0 <= i < n,
        ctx.walk(c, i).cell <= place < ctx.walk(c, i + 1).cell,
    decreases n,
{
    if n == 0 {
        0
    } else if ctx.walk(c, n - 1).cell <= place {
        n - 1
    } else {
        covering_entry(ctx, c, n - 1, place)
    }
}

/// What a sequence of cells that holds a layout holds for one entry.
pub(crate) proof fn layout_entry<P: Primitive>(
    ctx: Context,
    cells: Seq<CellModel<P>>,
    c: int,
    bases: BaseIndices,
    i: int,
)
    requires
        ctx.layable(),
        ctx.present(c),
        0 <= i < ctx.entries(c).len(),
        instance_fits(ctx, c, bases),
        bases.cell_base.0 + ctx.size(c).cell <= cells.len(),
        cells.subrange(
            bases.cell_base.0 as int,
            (bases.cell_base.0 + ctx.size(c).cell) as int,
        ) == layout::<P>(ctx, c, bases, ctx.entries(c).len() as int),
    ensures
        child_in_place(
            ctx,
            cells,
            ComponentLedger { index_bases: bases, comp_id: ComponentIdx(c as usize) },
            i,
        ),
        match ctx.entry_def(c, i).prototype {
            CellPrototype::Component(k) => {
                let child = child_bases(bases, ctx.walk(c, i));
                &&& cells[bases.cell_base.0 + ctx.walk(c, i).cell] == CellModel::<P>::Component(
                    ComponentLedger { index_bases: child, comp_id: k },
                )
                &&& cells.subrange(
                    child.cell_base.0 as int,
                    (child.cell_base.0 + ctx.size(k.0 as int).cell) as int,
                ) == layout::<P>(
                    ctx,
                    k.0 as int,
                    child,
                    ctx.entries(k.0 as int).len() as int,
                )
                &&& ctx.walk(c, i + 1).cell == ctx.walk(c, i).cell + 1 + ctx.size(
                    k.0 as int,
                ).cell
            },
            _ => cells[bases.cell_base.0 + ctx.walk(c, i).cell] == CellModel::<P>::Primitive(
                P::built(ctx.entry_def(c, i), bases.port_base.0 + ctx.walk(c, i).port),
            ) && ctx.walk(c, i + 1).cell == ctx.walk(c, i).cell + 1,
        },
{
    let n = ctx.entries(c).len() as int;
    let base = bases.cell_base.0 as int;
    let whole = layout::<P>(ctx, c, bases, n);
    let part = layout::<P>(ctx, c, bases, i + 1);
    let at = ctx.walk(c, i).cell as int;
    let at_port = ctx.walk(c, i).port as int;
    ctx.secondary.components.len_fits();
    assert(ctx.placed(c));
    assert(ctx.entry_placed(c, i));
    layout_len::<P>(ctx, c, bases, i);
    layout_len::<P>(ctx, c, bases, i + 1);
    layout_len::<P>(ctx, c, bases, n);
    layout_prefix::<P>(ctx, c, bases, i + 1, n);
    ctx.walk_grows(c, i + 1, n);
    child_lies_inside(ctx, c, bases, i);
    assert forall|m: int| 0 <= m < part.len() implies cells[base + m] == part[m] by {
        assert(whole[m] == cells[base + m]);
    }
    match ctx.entry_def(c, i).prototype {
        CellPrototype::Component(k) => {
            let child = child_bases(bases, ctx.walk(c, i));
            let inner = layout::<P>(
                ctx,
                k.0 as int,
                child,
                ctx.entries(k.0 as int).len() as int,
            );
            assert(ctx.placed(k.0 as int));
            layout_len::<P>(ctx, k.0 as int, child, ctx.entries(k.0 as int).len() as int);
            assert(part[at] == CellModel::<P>::Component(
                ComponentLedger { index_bases: child, comp_id: k },
            ));
            assert(cells[base + at] == part[at]);
            assert forall|m: int| 0 <= m < inner.len() implies cells[base + at + 1 + m]
                == inner[m] by {
                assert(part[at + 1 + m] == inner[m]);
                assert(cells[base + (at + 1 + m)] == part[at + 1 + m]);
            }
            assert(cells.subrange(
                child.cell_base.0 as int,
                (child.cell_base.0 + ctx.size(k.0 as int).cell) as int,
            ) =~= inner);
        },
        _ => {
            assert(part[at] == CellModel::<P>::Primitive(
                P::built(ctx.entry_def(c, i), bases.port_base.0 + at_port),
            ));
            assert(cells[base + at] == part[at]);
        },
    }
}

} // verus!
