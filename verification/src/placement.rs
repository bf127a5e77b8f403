//! What a laid out design is made of.

use crate::context::{CellDefinitionInfo, CellPrototype, Context};
use crate::graph::rank_of;
use crate::index::{BaseIndices, ComponentIdx};
use crate::layout::{
    CellModel, ComponentLedger, child_bases, child_lies_inside, covering_entry, instance_fits,
    layout, layout_entry, layout_len,
};
use crate::primitive::{Primitive, StdPrimitive, StdState};
use vstd::prelude::*;

verus! {

/// Everything that an instance of a component has, its cells included, comes in
/// one piece: the signature and two holes for each group, and then cell by cell
/// what each of them takes, without gaps. A primitive takes one cell and its
/// ports. An instance takes one cell and all that its component asks for.
pub proof fn parts_are_packed(ctx: Context, c: int, i: int)
    requires
        0 <= i < ctx.entries(c).len(),
    ensures
        ({
            let comp = ctx.secondary.components@[c];
            let info = ctx.secondary.cells@[ctx.entries(c)[i].1.0 as int];
            let here = ctx.walk(c, i);
            let next = ctx.walk(c, i + 1);
            &&& i == 0 ==> here.port == comp.signature.len() + 2 * comp.definitions.groups.len()
                && here.cell == 0 && here.ref_cell == 0 && here.ref_port == 0
            &&& match info.prototype {
                CellPrototype::Component(k) => {
                    let inner = ctx.secondary.components@[k.0 as int];
                    &&& next.port == here.port + inner.port_offset_map.count
                    &&& next.cell == here.cell + 1 + inner.cell_offset_map.count
                    &&& next.ref_cell == here.ref_cell + inner.ref_cell_offset_map.count
                    &&& next.ref_port == here.ref_port + inner.ref_port_offset_map.count
                },
                _ => next.port == here.port + info.ports.len() && next.cell == here.cell + 1
                    && next.ref_cell == here.ref_cell && next.ref_port == here.ref_port,
            }
        }),
{
}

/// A cell is the primitive that is built from a definition with its ports
/// starting at a place.
pub open spec fn built_at<P: Primitive>(
    cells: Seq<CellModel<P>>,
    g: int,
    info: CellDefinitionInfo,
    place: int,
) -> bool {
    &&& 0 <= g < cells.len()
    &&& cells[g] == CellModel::<P>::Primitive(P::built(info, place))
}

/// The `i`-th listed cell of an instance is a primitive that was built from its
/// definition, on the ports of the instance that the definition names.
pub open spec fn primitive_in_place<P: Primitive>(
    ctx: Context,
    cells: Seq<CellModel<P>>,
    ledger: ComponentLedger,
    i: int,
) -> bool {
    let (offset, def) = ctx.secondary.components@[ledger.comp_id.0 as int].cell_offset_map@[i];
    let info = ctx.secondary.cells@[def.0 as int];
    exists|place: int|
        #[trigger] built_at(cells, ledger.index_bases.cell_base.0 + offset.0, info, place) && (
        info.ports.len() > 0 ==> place == ledger.index_bases.port_base.0 + info.ports.start.0)
}

/// The `i`-th listed cell of an instance is an instance of the component that
/// its definition names. Its own cells come right behind its cell, and the
/// ports by which the outer instance knows it are among its own.
pub open spec fn sub_component_in_place<P: Primitive>(
    ctx: Context,
    cells: Seq<CellModel<P>>,
    ledger: ComponentLedger,
    i: int,
) -> bool {
    let (offset, def) = ctx.secondary.components@[ledger.comp_id.0 as int].cell_offset_map@[i];
    let info = ctx.secondary.cells@[def.0 as int];
    let at = ledger.index_bases.cell_base.0 + offset.0;
    &&& 0 <= at < cells.len()
    &&& cells[at] matches CellModel::Component(inner) && {
        let base = inner.index_bases.port_base.0;
        &&& info.prototype == CellPrototype::Component(inner.comp_id)
        &&& inner.index_bases.cell_base.0 == at + 1
        &&& info.ports.len() > 0 ==> base <= ledger.index_bases.port_base.0 + info.ports.start.0
            && ledger.index_bases.port_base.0 + info.ports.end.0 <= base
            + ctx.secondary.components@[inner.comp_id.0 as int].port_offset_map.count
    }
}

/// Every cell that the component of an instance lists is in the design, is what
/// its definition says and is where its definition says.
pub open spec fn faithful<P: Primitive>(
    ctx: Context,
    cells: Seq<CellModel<P>>,
    ledger: ComponentLedger,
) -> bool {
    let listed = ctx.secondary.components@[ledger.comp_id.0 as int].cell_offset_map@;
    &&& forall|i: int|
        0 <= i < listed.len() && !(ctx.secondary.cells@[listed[i].1.0 as int].prototype
            is Component) ==> #[trigger] primitive_in_place(ctx, cells, ledger, i)
    &&& forall|i: int|
        0 <= i < listed.len() && ctx.secondary.cells@[listed[i].1.0 as int].prototype is Component
            ==> #[trigger] sub_component_in_place(ctx, cells, ledger, i)
}

/// Where a sequence of cells holds a layout, it is faithful to the program: for
/// every instance in it, however deep inside, and every cell that the
/// instance's component lists, the cell is there as its definition says. A
/// primitive is built on the ports that are its own in the whole design.
pub proof fn layouts_are_faithful<P: Primitive>(
    ctx: Context,
    cells: Seq<CellModel<P>>,
    c: int,
    bases: BaseIndices,
)
    requires
        ctx.layable(),
        ctx.present(c),
        instance_fits(ctx, c, bases),
        bases.cell_base.0 + ctx.size(c).cell <= cells.len(),
        cells.subrange(
            bases.cell_base.0 as int,
            (bases.cell_base.0 + ctx.size(c).cell) as int,
        ) == layout::<P>(ctx, c, bases, ctx.entries(c).len() as int),
    ensures
        faithful(
            ctx,
            cells,
            ComponentLedger { index_bases: bases, comp_id: ComponentIdx(c as usize) },
        ),
        forall|g: int|
            bases.cell_base.0 <= g < bases.cell_base.0 + ctx.size(c).cell ==> (
            #[trigger] cells[g] matches CellModel::Component(l) ==> faithful(ctx, cells, l)),
    decreases rank_of(ctx.component_graph(), c),
{
    let n = ctx.entries(c).len() as int;
    let base = bases.cell_base.0 as int;
    let ledger = ComponentLedger { index_bases: bases, comp_id: ComponentIdx(c as usize) };
    ctx.secondary.components.len_fits();
    assert(ctx.placed(c));
    layout_len::<P>(ctx, c, bases, n);
    assert forall|i: int| 0 <= i < ctx.listed(c).len() && !ctx.is_sub_component(c, i) implies
        #[trigger] primitive_in_place(ctx, cells, ledger, i) by {
        let t = ctx.turn(c, i);
        ctx.cell_has_its_turn(c, i);
        assert(ctx.entry_placed(c, t));
        layout_entry::<P>(ctx, cells, c, bases, t);
        ctx.walk_grows(c, t + 1, n);
        assert(built_at(
            cells,
            base + ctx.listed(c)[i].0.0,
            ctx.listed_def(c, i),
            bases.port_base.0 + ctx.walk(c, t).port,
        ));
    }
    assert forall|i: int| 0 <= i < ctx.listed(c).len() && ctx.is_sub_component(c, i) implies
        #[trigger] sub_component_in_place(ctx, cells, ledger, i) by {
        let t = ctx.turn(c, i);
        ctx.cell_has_its_turn(c, i);
        assert(ctx.entry_placed(c, t));
        layout_entry::<P>(ctx, cells, c, bases, t);
        child_lies_inside(ctx, c, bases, t);
    }
    assert forall|g: int|
        base <= g < base + ctx.size(c).cell && (#[trigger] cells[g]) is Component implies faithful(
        ctx,
        cells,
        cells[g]->Component_0,
    ) by {
        let i = covering_entry(ctx, c, n, g - base);
        layout_entry::<P>(ctx, cells, c, bases, i);
        ctx.component_rank_drops(c, i);
        if let CellPrototype::Component(k) = ctx.entry_def(c, i).prototype {
            let child = child_bases(bases, ctx.walk(c, i));
            child_lies_inside(ctx, c, bases, i);
            layouts_are_faithful::<P>(ctx, cells, k.0 as int, child);
        }
    }
}

/// A cell is a primitive that was built on the ports from one on up to, but not
/// including, another.
pub open spec fn owns<P: Primitive>(
    cells: Seq<CellModel<P>>,
    g: int,
    from: int,
    to: int,
) -> bool {
    exists|info: CellDefinitionInfo|
        #[trigger] built_at(cells, g, info, from) && to == from + info.ports.len()
}

/// Two primitives were built on ports of which none is the other's.
pub open spec fn built_apart<P: Primitive>(cells: Seq<CellModel<P>>, g: int, h: int) -> bool {
    exists|a: int, b: int, c: int, d: int|
        #[trigger] owns(cells, g, a, b) && #[trigger] owns(cells, h, c, d) && (b <= c || d <= a)
}

proof fn primitive_range<P: Primitive>(
    ctx: Context,
    cells: Seq<CellModel<P>>,
    c: int,
    bases: BaseIndices,
    g: int,
) -> (range: (int, int))
    requires
        ctx.layable(),
        ctx.present(c),
        instance_fits(ctx, c, bases),
        bases.cell_base.0 + ctx.size(c).cell <= cells.len(),
        cells.subrange(
            bases.cell_base.0 as int,
            (bases.cell_base.0 + ctx.size(c).cell) as int,
        ) == layout::<P>(ctx, c, bases, ctx.entries(c).len() as int),
        bases.cell_base.0 <= g < bases.cell_base.0 + ctx.size(c).cell,
        cells[g] is Primitive,
    ensures
        owns(cells, g, range.0, range.1),
        bases.port_base.0 + ctx.header_ports(c) <= range.0 <= range.1,
        range.1 <= bases.port_base.0 + ctx.size(c).port,
        forall|i: int|
            0 <= i < ctx.entries(c).len() && (#[trigger] ctx.walk(c, i)).cell <= g
                - bases.cell_base.0 < ctx.walk(c, i + 1).cell ==> bases.port_base.0 + ctx.walk(
                c,
                i,
            ).port <= range.0 && range.1 <= bases.port_base.0 + ctx.walk(c, i + 1).port,
    decreases rank_of(ctx.component_graph(), c),
{
    let n = ctx.entries(c).len() as int;
    assert(ctx.placed(c));
    layout_len::<P>(ctx, c, bases, n);
    let i = covering_entry(ctx, c, n, g - bases.cell_base.0);
    assert(ctx.entry_placed(c, i));
    layout_entry::<P>(ctx, cells, c, bases, i);
    ctx.component_rank_drops(c, i);
    child_lies_inside(ctx, c, bases, i);
    ctx.walk_grows(c, 0, i);
    ctx.walk_grows(c, i + 1, n);
    let range = match ctx.entry_def(c, i).prototype {
        CellPrototype::Component(k) => {
            let child = child_bases(bases, ctx.walk(c, i));
            assert(ctx.placed(k.0 as int));
            primitive_range::<P>(ctx, cells, k.0 as int, child, g)
        },
        _ => {
            let from = bases.port_base.0 + ctx.walk(c, i).port as int;
            assert(built_at(cells, g, ctx.entry_def(c, i), from));
            (from, from + ctx.entry_def(c, i).ports.len() as int)
        },
    };
    assert forall|j: int|
        0 <= j < n && (#[trigger] ctx.walk(c, j)).cell <= g - bases.cell_base.0 < ctx.walk(
            c,
            j + 1,
        ).cell implies bases.port_base.0 + ctx.walk(c, j).port <= range.0 && range.1
        <= bases.port_base.0 + ctx.walk(c, j + 1).port by {
        if i < j {
            ctx.walk_grows(c, i + 1, j);
        } else if j < i {
            ctx.walk_grows(c, j + 1, i);
        }
    }
    range
}

/// Where a sequence of cells holds a layout, no two primitives in it share a
/// port, however deep inside they are.
pub proof fn layouts_keep_primitives_apart<P: Primitive>(
    ctx: Context,
    cells: Seq<CellModel<P>>,
    c: int,
    bases: BaseIndices,
    g: int,
    h: int,
)
    requires
        ctx.layable(),
        ctx.present(c),
        instance_fits(ctx, c, bases),
        bases.cell_base.0 + ctx.size(c).cell <= cells.len(),
        cells.subrange(
            bases.cell_base.0 as int,
            (bases.cell_base.0 + ctx.size(c).cell) as int,
        ) == layout::<P>(ctx, c, bases, ctx.entries(c).len() as int),
        bases.cell_base.0 <= g < h < bases.cell_base.0 + ctx.size(c).cell,
        cells[g] is Primitive,
        cells[h] is Primitive,
    ensures
        built_apart(cells, g, h),
    decreases rank_of(ctx.component_graph(), c),
{
    let n = ctx.entries(c).len() as int;
    let base = bases.cell_base.0 as int;
    assert(ctx.placed(c));
    layout_len::<P>(ctx, c, bases, n);
    let i = covering_entry(ctx, c, n, g - base);
    let j = covering_entry(ctx, c, n, h - base);
    let a = primitive_range::<P>(ctx, cells, c, bases, g);
    let b = primitive_range::<P>(ctx, cells, c, bases, h);
    assert(ctx.walk(c, i).cell <= g - base < ctx.walk(c, i + 1).cell);
    assert(ctx.walk(c, j).cell <= h - base < ctx.walk(c, j + 1).cell);
    if i < j {
        ctx.walk_grows(c, i + 1, j);
        assert(owns(cells, g, a.0, a.1) && owns(cells, h, b.0, b.1) && a.1 <= b.0);
    } else if j < i {
        ctx.walk_grows(c, j + 1, i);
    } else {
        layout_entry::<P>(ctx, cells, c, bases, i);
        ctx.component_rank_drops(c, i);
        child_lies_inside(ctx, c, bases, i);
        if let CellPrototype::Component(k) = ctx.entry_def(c, i).prototype {
            let child = child_bases(bases, ctx.walk(c, i));
            assert(ctx.placed(k.0 as int));
            layouts_keep_primitives_apart::<P>(ctx, cells, k.0 as int, child, g, h);
        }
    }
}

/// A port is one of a primitive's own.
pub open spec fn touches(state: StdState, port: int) -> bool {
    match state {
        StdState::Const { value, out } => port == out,
        StdState::Reg { base, value, done } => base <= port < base + 6,
        StdState::Inert => false,
    }
}

/// A port is one of a cell's own.
pub open spec fn occupies(cells: Seq<CellModel<StdPrimitive>>, g: int, port: int) -> bool {
    &&& 0 <= g < cells.len()
    &&& cells[g] matches CellModel::Primitive(s) && touches(s, port)
}

/// The primitives of a design are on ports that there are, and no two of them
/// have one in common.
pub open spec fn apart(cells: Seq<CellModel<StdPrimitive>>, ports: nat) -> bool {
    &&& forall|g: int, p: int| #[trigger] occupies(cells, g, p) ==> 0 <= p < ports
    &&& forall|g: int, h: int, p: int|
        #[trigger] occupies(cells, g, p) && #[trigger] occupies(cells, h, p) ==> g == h
}

/// A primitive is built on the ports that it is given and touches no others.
pub proof fn primitives_touch_what_they_own(
    cells: Seq<CellModel<StdPrimitive>>,
    g: int,
    from: int,
    to: int,
    port: int,
)
    requires
        owns(cells, g, from, to),
        occupies(cells, g, port),
    ensures
        from <= port < to,
{
}

/// Where a sequence of cells holds a layout, the primitives in it are on ports
/// of their own.
pub proof fn layouts_give_primitives_their_own_ports(
    ctx: Context,
    cells: Seq<CellModel<StdPrimitive>>,
    c: int,
    bases: BaseIndices,
    ports: nat,
)
    requires
        ctx.layable(),
        ctx.present(c),
        instance_fits(ctx, c, bases),
        bases.cell_base.0 + ctx.size(c).cell == cells.len(),
        cells.subrange(bases.cell_base.0 as int, cells.len() as int) == layout::<StdPrimitive>(
            ctx,
            c,
            bases,
            ctx.entries(c).len() as int,
        ),
        forall|g: int| 0 <= g < bases.cell_base.0 ==> (#[trigger] cells[g]) is Component,
        bases.port_base.0 + ctx.size(c).port <= ports,
    ensures
        apart(cells, ports),
{
    let base = bases.cell_base.0 as int;
    assert forall|g: int, p: int| #[trigger] occupies(cells, g, p) implies 0 <= p < ports by {
        assert(base <= g) by {
            if g < base {
                assert(cells[g] is Component);
            }
        }
        let range = primitive_range::<StdPrimitive>(ctx, cells, c, bases, g);
        primitives_touch_what_they_own(cells, g, range.0, range.1, p);
    }
    assert forall|g: int, h: int, p: int|
        #[trigger] occupies(cells, g, p) && #[trigger] occupies(cells, h, p) implies g == h by {
        assert(base <= g && base <= h) by {
            if g < base {
                assert(cells[g] is Component);
            }
            if h < base {
                assert(cells[h] is Component);
            }
        }
        if g < h {
            no_common_port(ctx, cells, c, bases, g, h, p);
        } else if h < g {
            no_common_port(ctx, cells, c, bases, h, g, p);
        }
    }
}

proof fn no_common_port(
    ctx: Context,
    cells: Seq<CellModel<StdPrimitive>>,
    c: int,
    bases: BaseIndices,
    g: int,
    h: int,
    port: int,
)
    requires
        ctx.layable(),
        ctx.present(c),
        instance_fits(ctx, c, bases),
        bases.cell_base.0 + ctx.size(c).cell <= cells.len(),
        cells.subrange(
            bases.cell_base.0 as int,
            (bases.cell_base.0 + ctx.size(c).cell) as int,
        ) == layout::<StdPrimitive>(ctx, c, bases, ctx.entries(c).len() as int),
        bases.cell_base.0 <= g < h < bases.cell_base.0 + ctx.size(c).cell,
        occupies(cells, g, port),
        cells[h] is Primitive,
    ensures
        !occupies(cells, h, port),
{
    layouts_keep_primitives_apart::<StdPrimitive>(ctx, cells, c, bases, g, h);
    let (x, y, z, w) = choose|x: int, y: int, z: int, w: int|
        #[trigger] owns(cells, g, x, y) && #[trigger] owns(cells, h, z, w) && (y <= z || w <= x);
    primitives_touch_what_they_own(cells, g, x, y, port);
    if occupies(cells, h, port) {
        primitives_touch_what_they_own(cells, h, z, w, port);
    }
}

} // verus!
