//! What a report holds of a design.

use super::Environment;
use super::report::{LineView, heading};
use crate::context::CellPrototype;
use crate::layout::{CellModel, ComponentLedger, child_in_place, covering_entry};
use crate::primitive::Primitive;
use crate::text::{decimal, joined};
use crate::values::bits_text;
use vstd::prelude::*;

verus! {

/// Some lines stand one behind the other among others, from a place on.
pub open spec fn stand_at(all: Seq<LineView>, at: int, lines: Seq<LineView>) -> bool {
    &&& 0 <= at
    &&& at + lines.len() <= all.len()
    &&& forall|i: int| 0 <= i < lines.len() ==> all[at + i] == #[trigger] lines[i]
}

/// How many of the lines show what a cell holds.
pub open spec fn data_count(lines: Seq<LineView>) -> nat
    decreases lines.len(),
{
    if lines.len() == 0 {
        0
    } else {
        data_count(lines.drop_last()) + if lines.last() is InternalData {
            1nat
        } else {
            0nat
        }
    }
}

/// A cell is a primitive that has something to show.
pub open spec fn has_data<P: Primitive>(cell: CellModel<P>) -> bool {
    cell matches CellModel::Primitive(s) && !(P::serialized(s) is Empty)
}

/// How many cells, from one place up to another, have something to show.
pub open spec fn holders<P: Primitive>(cells: Seq<CellModel<P>>, from: int, to: int) -> nat
    decreases to - from,
{
    if from >= to {
        0
    } else {
        holders(cells, from, to - 1) + if has_data(cells[to - 1]) {
            1nat
        } else {
            0nat
        }
    }
}

proof fn data_count_add(a: Seq<LineView>, b: Seq<LineView>)
    ensures
        data_count(a + b) == data_count(a) + data_count(b),
    decreases b.len(),
{
    if b.len() == 0 {
        assert(a + b =~= a);
    } else {
        data_count_add(a, b.drop_last());
        assert((a + b).drop_last() =~= a + b.drop_last());
    }
}

proof fn holders_add<P: Primitive>(cells: Seq<CellModel<P>>, from: int, mid: int, to: int)
    requires
        from <= mid <= to,
    ensures
        holders(cells, from, to) == holders(cells, from, mid) + holders(cells, mid, to),
    decreases to - mid,
{
    if mid < to {
        holders_add(cells, from, mid, to - 1);
    }
}

/// What stands among lines that stand among others stands among those.
proof fn stand_deeper(
    all: Seq<LineView>,
    at: int,
    lines: Seq<LineView>,
    inner: int,
    part: Seq<LineView>,
)
    requires
        stand_at(all, at, lines),
        stand_at(lines, inner, part),
    ensures
        stand_at(all, at + inner, part),
{
    assert forall|i: int| 0 <= i < part.len() implies all[at + inner + i] == #[trigger] part[i] by {
        assert(lines[inner + i] == part[i]);
        assert(all[at + (inner + i)] == lines[inner + i]);
    }
}

impl<'a, P: Primitive> Environment<'a, P> {
    /// The instance that a cell is.
    pub open spec fn instance_at(&self, g: int) -> ComponentLedger {
        self.cells()[g]->Component_0
    }

    /// A way from the outermost instance inwards: the instances at which it
    /// stops, and for each but the last which of the cells that its component
    /// lists leads on.
    pub open spec fn leads(&self, stops: Seq<int>, route: Seq<int>) -> bool {
        &&& stops.len() == route.len() + 1
        &&& stops[0] == 0
        &&& forall|k: int|
            0 <= k < stops.len() ==> 0 <= #[trigger] stops[k] < self.cells().len()
                && self.cells()[stops[k]] is Component
        &&& forall|k: int|
            0 <= k < route.len() ==> self.goes_on(stops[k], #[trigger] route[k], stops[k + 1])
    }

    /// A cell that the component of an instance lists is the cell at a place.
    pub open spec fn goes_on(&self, g: int, i: int, at: int) -> bool {
        let ledger = self.instance_at(g);
        let listed = self.program().secondary.components@[
            ledger.comp_id.0 as int
        ].cell_offset_map@;
        0 <= i < listed.len() && at == ledger.index_bases.cell_base.0 + listed[i].0.0
    }

    /// The name of a cell that the component of an instance lists.
    pub open spec fn listed_name(&self, g: int, i: int) -> Seq<char> {
        let ctx = self.program();
        let def = ctx.secondary.components@[
            self.instance_at(g).comp_id.0 as int
        ].cell_offset_map@[i].1;
        ctx.secondary.names@[ctx.secondary.cells@[def.0 as int].name.0 as int]@
    }

    /// The names along a way: that of the entry component, and then those of the
    /// cells that lead on.
    pub open spec fn way_names(&self, stops: Seq<int>, route: Seq<int>) -> Seq<Seq<char>> {
        let ctx = self.program();
        Seq::new(
            stops.len(),
            |k: int|
                if k == 0 {
                    ctx.secondary.names@[
                        ctx.secondary.components@[ctx.entry_point.0 as int].name.0 as int
                    ]@
                } else {
                    self.listed_name(stops[k - 1], route[k - 1])
                },
        )
    }

    /// What is to be reported of a listed cell itself: a line with the names
    /// that lead to it and its own, separated by dots, and then a line for each
    /// of its ports, with the port's name, what it carries and its place in the
    /// whole design.
    pub open spec fn cell_block(&self, names: Seq<Seq<char>>, g: int, i: int) -> Seq<LineView> {
        let ctx = self.program();
        let ledger = self.instance_at(g);
        let comp = ctx.secondary.components@[ledger.comp_id.0 as int];
        let info = ctx.secondary.cells@[comp.cell_offset_map@[i].1.0 as int];
        seq![LineView::Text(joined(names, "."@) + "."@ + self.listed_name(g, i))] + Seq::new(
            info.ports.len(),
            |k: int|
                {
                    let port = info.ports.start.0 + k;
                    let at = ledger.index_bases.port_base.0 + port;
                    let def = comp.port_offset_map.lookup(port);
                    LineView::Text(
                        "    "@ + ctx.secondary.names@[
                            ctx.secondary.ports@[def.0 as int].name.0 as int
                        ]@ + ": "@ + (match self.ports()[at] {
                            Some(v) => bits_text(v.val),
                            None => "undef"@,
                        }) + " (GlobalPortIdx("@ + decimal(at as nat) + "))"@,
                    )
                },
        )
    }

    /// The lines of a cell's ports.
    proof fn port_lines_are(&self, g: int, i: int, names: Seq<Seq<char>>, k: int)
        requires
            self.cells()[g] is Component,
            0 <= k <= self.program().listed_def(
                self.instance_at(g).comp_id.0 as int,
                i,
            ).ports.len(),
        ensures
            self.port_lines(
                self.instance_at(g),
                self.program().listed_def(self.instance_at(g).comp_id.0 as int, i),
                k,
            ) == self.cell_block(names, g, i).subrange(1, k + 1),
        decreases k,
    {
        let block = self.cell_block(names, g, i);
        let info = self.program().listed_def(self.instance_at(g).comp_id.0 as int, i);
        if k == 0 {
            assert(self.port_lines(self.instance_at(g), info, 0) =~= block.subrange(1, 1));
        } else {
            self.port_lines_are(g, i, names, k - 1);
            assert(self.port_lines(self.instance_at(g), info, k) =~= block.subrange(1, k + 1));
        }
    }

    /// A report goes through the cells of an instance in the order in which they
    /// are listed. Behind the lines of those before come those of the cell
    /// itself, and behind these either the lines of the cells inside it, or what
    /// it holds, or nothing.
    pub proof fn reports_go_cell_by_cell(&self, names: Seq<Seq<char>>, g: int, i: int)
        requires
            self.design_ok(),
            0 <= g < self.cells().len(),
            self.cells()[g] is Component,
            0 <= i < self.program().listed(self.instance_at(g).comp_id.0 as int).len(),
        ensures
            ({
                let ctx = self.program();
                let ledger = self.instance_at(g);
                let c = ledger.comp_id.0 as int;
                let at = ledger.index_bases.cell_base.0 + ctx.listed(c)[i].0.0;
                self.cell_lines(names, g, i + 1) == self.cell_lines(names, g, i)
                    + self.cell_block(names, g, i) + match ctx.listed_def(c, i).prototype {
                    CellPrototype::Component(k) => self.cell_lines(
                        names.push(self.listed_name(g, i)),
                        at,
                        ctx.listed(k.0 as int).len() as int,
                    ),
                    _ => match self.cells()[at] {
                        CellModel::Primitive(s) => if P::serialized(s) is Empty {
                            Seq::empty()
                        } else {
                            seq![LineView::InternalData(P::serialized(s))]
                        },
                        CellModel::Component(_) => Seq::empty(),
                    },
                }
            }),
            self.cell_lines(names, g, 0) == Seq::<LineView>::empty(),
    {
        let ctx = self.program();
        let ledger = self.instance_at(g);
        let c = ledger.comp_id.0 as int;
        let info = ctx.listed_def(c, i);
        let block = self.cell_block(names, g, i);
        let before = self.cell_lines(names, g, i);
        self.port_lines_are(g, i, names, info.ports.len() as int);
        assert(block =~= seq![block[0]] + block.subrange(1, info.ports.len() as int + 1));
        assert(before.push(block[0]) + block.subrange(1, info.ports.len() as int + 1) =~= before
            + block);
        assert(block[0] == LineView::Text(heading(names, ctx.name(info.name))));
        assert(self.port_lines(ledger, info, info.ports.len() as int) == block.subrange(
            1,
            info.ports.len() as int + 1,
        ));
        self.one_more_cell(names, g, i);
    }

    /// A report is that of the cells of the outermost instance, under the name of
    /// the entry component.
    pub proof fn reports_start_outermost(&self)
        requires
            self.design_ok(),
        ensures
            self.report() == self.cell_lines(
                self.way_names(seq![0int], Seq::empty()),
                0,
                self.program().secondary.components@[
                    self.program().entry_point.0 as int
                ].cell_offset_map@.len() as int,
            ),
            self.instance_at(0).comp_id == self.program().entry_point,
    {
        let ctx = self.program();
        let c = ctx.entry_point.0 as int;
        assert(self.way_names(seq![0int], Seq::empty()) =~= seq![ctx.name(ctx.comp(c).name)]);
    }

    /// The lines of the first cells of an instance come first.
    proof fn first_cells_first(&self, names: Seq<Seq<char>>, g: int, i: int, n: int)
        requires
            self.design_ok(),
            0 <= g < self.cells().len(),
            self.cells()[g] is Component,
            0 <= i <= n <= self.program().listed(self.instance_at(g).comp_id.0 as int).len(),
        ensures
            stand_at(self.cell_lines(names, g, n), 0, self.cell_lines(names, g, i)),
        decreases n - i,
    {
        if i < n {
            self.first_cells_first(names, g, i, n - 1);
            self.reports_go_cell_by_cell(names, g, n - 1);
            let shorter = self.cell_lines(names, g, n - 1);
            let longer = self.cell_lines(names, g, n);
            assert(stand_at(longer, 0, shorter));
            stand_deeper(longer, 0, shorter, 0, self.cell_lines(names, g, i));
        }
    }

    /// Among the lines of an instance stand those of each of its cells, followed
    /// by what the cell holds or what is inside it.
    proof fn cell_stands(&self, names: Seq<Seq<char>>, g: int, i: int) -> (at: int)
        requires
            self.design_ok(),
            0 <= g < self.cells().len(),
            self.cells()[g] is Component,
            0 <= i < self.program().listed(self.instance_at(g).comp_id.0 as int).len(),
        ensures
            ({
                let ctx = self.program();
                let ledger = self.instance_at(g);
                let c = ledger.comp_id.0 as int;
                let place = ledger.index_bases.cell_base.0 + ctx.listed(c)[i].0.0;
                let lines = self.cell_lines(names, g, ctx.listed(c).len() as int);
                &&& stand_at(lines, at, self.cell_block(names, g, i))
                &&& stand_at(
                    lines,
                    at + self.cell_block(names, g, i).len(),
                    match ctx.listed_def(c, i).prototype {
                        CellPrototype::Component(k) => self.cell_lines(
                            names.push(self.listed_name(g, i)),
                            place,
                            ctx.listed(k.0 as int).len() as int,
                        ),
                        _ => self.data_lines(place),
                    },
                )
            }),
    {
        let ctx = self.program();
        let ledger = self.instance_at(g);
        let c = ledger.comp_id.0 as int;
        let place = ledger.index_bases.cell_base.0 + ctx.listed(c)[i].0.0;
        let n = ctx.listed(c).len() as int;
        let lines = self.cell_lines(names, g, n);
        let shorter = self.cell_lines(names, g, i + 1);
        let before = self.cell_lines(names, g, i);
        let block = self.cell_block(names, g, i);
        let rest = match ctx.listed_def(c, i).prototype {
            CellPrototype::Component(k) => self.cell_lines(
                names.push(self.listed_name(g, i)),
                place,
                ctx.listed(k.0 as int).len() as int,
            ),
            _ => self.data_lines(place),
        };
        self.reports_go_cell_by_cell(names, g, i);
        self.first_cells_first(names, g, i + 1, n);
        let at = before.len() as int;
        assert(shorter == before + block + rest);
        assert(stand_at(shorter, at, block));
        assert(stand_at(shorter, at + block.len(), rest));
        stand_deeper(lines, 0, shorter, at, block);
        stand_deeper(lines, 0, shorter, at + block.len(), rest);
        at
    }

    /// The lines of an instance to which a way leads stand in the report.
    proof fn stop_stands(&self, stops: Seq<int>, route: Seq<int>) -> (at: int)
        requires
            self.design_ok(),
            self.leads(stops, route),
        ensures
            stand_at(
                self.report(),
                at,
                self.cell_lines(
                    self.way_names(stops, route),
                    stops.last(),
                    self.program().listed(
                        self.instance_at(stops.last()).comp_id.0 as int,
                    ).len() as int,
                ),
            ),
        decreases stops.len(),
    {
        let ctx = self.program();
        let names = self.way_names(stops, route);
        let last = stops.len() - 1;
        assert(stops[last] == stops.last());
        if last == 0 {
            let c = ctx.entry_point.0 as int;
            assert(names =~= seq![ctx.name(ctx.comp(c).name)]);
            assert(self.instance_at(0).comp_id == ctx.entry_point);
            0
        } else {
            let shorter = stops.drop_last();
            let way = route.drop_last();
            let i = route.last();
            let g = shorter.last();
            assert(route[last - 1] == i && stops[last - 1] == g);
            assert(self.goes_on(g, i, stops[last]));
            assert forall|k: int| 0 <= k < shorter.len() implies 0 <= #[trigger] shorter[k]
                < self.cells().len() && self.cells()[shorter[k]] is Component by {
                assert(stops[k] == shorter[k]);
            }
            assert forall|k: int| 0 <= k < way.len() implies self.goes_on(
                shorter[k],
                #[trigger] way[k],
                shorter[k + 1],
            ) by {
                assert(route[k] == way[k]);
            }
            let outer = self.stop_stands(shorter, way);
            let outer_names = self.way_names(shorter, way);
            assert(names =~= outer_names.push(self.listed_name(g, i)));
            let inner = self.cell_stands(outer_names, g, i);
            self.listed_child(g, i);
            stand_deeper(
                self.report(),
                outer,
                self.cell_lines(
                    outer_names,
                    g,
                    ctx.listed(self.instance_at(g).comp_id.0 as int).len() as int,
                ),
                inner + self.cell_block(outer_names, g, i).len(),
                self.cell_lines(
                    names,
                    stops.last(),
                    ctx.listed(self.instance_at(stops.last()).comp_id.0 as int).len() as int,
                ),
            );
            outer + inner + self.cell_block(outer_names, g, i).len()
        }
    }

    /// Wherever a way leads, every cell that the instance there lists is in the
    /// report: a line with the names along the way and its own, a line for each
    /// of its ports, and right behind them, if it is a primitive that has
    /// something to show, a line with what it holds.
    pub proof fn reports_show_every_cell_of_an_instance(
        &self,
        stops: Seq<int>,
        route: Seq<int>,
        i: int,
    ) -> (at: int)
        requires
            self.design_ok(),
            self.leads(stops, route),
            0 <= i < self.program().secondary.components@[
                self.instance_at(stops.last()).comp_id.0 as int
            ].cell_offset_map@.len(),
        ensures
            ({
                let ctx = self.program();
                let g = stops.last();
                let listed = ctx.secondary.components@[
                    self.instance_at(g).comp_id.0 as int
                ].cell_offset_map@;
                let place = self.instance_at(g).index_bases.cell_base.0 + listed[i].0.0;
                let block = self.cell_block(self.way_names(stops, route), g, i);
                &&& stand_at(self.report(), at, block)
                &&& 0 <= place < self.cells().len()
                &&& self.cells()[place] matches CellModel::Primitive(s) ==> !(P::serialized(s)
                    is Empty) ==> stand_at(
                    self.report(),
                    at + block.len(),
                    seq![LineView::InternalData(P::serialized(s))],
                )
            }),
    {
        let ctx = self.program();
        let g = stops.last();
        let names = self.way_names(stops, route);
        let block = self.cell_block(names, g, i);
        assert(stops[stops.len() - 1] == g);
        assert(self.cell_ok(g));
        self.listed_child(g, i);
        let outer = self.stop_stands(stops, route);
        let inner = self.cell_stands(names, g, i);
        let lines = self.cell_lines(
            names,
            g,
            ctx.listed(self.instance_at(g).comp_id.0 as int).len() as int,
        );
        let place = self.instance_at(g).index_bases.cell_base.0 + ctx.listed(
            self.instance_at(g).comp_id.0 as int,
        )[i].0.0;
        stand_deeper(self.report(), outer, lines, inner, block);
        if let CellModel::Primitive(s) = self.cells()[place] {
            stand_deeper(
                self.report(),
                outer,
                lines,
                inner + block.len(),
                self.data_lines(place),
            );
        }
        outer + inner
    }

    /// Every cell of a design but the outermost is listed by the component of an
    /// instance, to which a way leads.
    pub proof fn every_cell_is_found(&self, p: int) -> (found: (Seq<int>, Seq<int>, int))
        requires
            self.design_ok(),
            self.cells().len() == 1 + self.program().size(
                self.program().entry_point.0 as int,
            ).cell,
            0 < p < self.cells().len(),
        ensures
            self.leads(found.0, found.1),
            self.goes_on(found.0.last(), found.2, p),
    {
        let stops = seq![0int];
        let route = Seq::<int>::empty();
        assert(self.leads(stops, route));
        self.descend(stops, route, p)
    }

    proof fn descend(&self, stops: Seq<int>, route: Seq<int>, p: int) -> (found: (
        Seq<int>,
        Seq<int>,
        int,
    ))
        requires
            self.design_ok(),
            self.leads(stops, route),
            ({
                let ledger = self.instance_at(stops.last());
                let base = ledger.index_bases.cell_base.0;
                base <= p < base + self.program().size(ledger.comp_id.0 as int).cell
            }),
        ensures
            self.leads(found.0, found.1),
            self.goes_on(found.0.last(), found.2, p),
        decreases self.cells().len() - stops.last(),
    {
        let ctx = self.program();
        let g = stops.last();
        let ledger = self.instance_at(g);
        let c = ledger.comp_id.0 as int;
        let base = ledger.index_bases.cell_base.0 as int;
        assert(stops[stops.len() - 1] == g);
        assert(self.cell_ok(g));
        assert(ctx.placed(c));
        let t = covering_entry(ctx, c, ctx.entries(c).len() as int, p - base);
        let i = ctx.listed_entry(c, t);
        assert(ctx.entry_placed(c, t));
        assert(child_in_place(ctx, self.cells(), ledger, t));
        self.listed_child(g, i);
        let at = base + ctx.listed(c)[i].0.0;
        if at == p {
            (stops, route, i)
        } else {
            let further = stops.push(at);
            let way = route.push(i);
            assert(ctx.entry_def(c, t).prototype is Component);
            assert forall|k: int| 0 <= k < further.len() implies 0 <= #[trigger] further[k]
                < self.cells().len() && self.cells()[further[k]] is Component by {
                if k < stops.len() {
                    assert(stops[k] == further[k]);
                }
            }
            assert forall|k: int| 0 <= k < way.len() implies self.goes_on(
                further[k],
                #[trigger] way[k],
                further[k + 1],
            ) by {
                if k < route.len() {
                    assert(route[k] == way[k]);
                }
            }
            assert(self.cell_ok(at));
            self.descend(further, way, p)
        }
    }

    /// Every cell of a design but the outermost is in the report, with its name
    /// behind the names of the instances that it lies in, its ports, and what it
    /// holds if it has anything to show.
    pub proof fn reports_show_every_cell(&self, p: int) -> (found: (Seq<int>, Seq<int>, int, int))
        requires
            self.design_ok(),
            self.cells().len() == 1 + self.program().size(
                self.program().entry_point.0 as int,
            ).cell,
            0 < p < self.cells().len(),
        ensures
            ({
                let (stops, route, i, at) = found;
                let block = self.cell_block(self.way_names(stops, route), stops.last(), i);
                &&& self.leads(stops, route)
                &&& self.goes_on(stops.last(), i, p)
                &&& stand_at(self.report(), at, block)
                &&& self.cells()[p] matches CellModel::Primitive(s) ==> !(P::serialized(s)
                    is Empty) ==> stand_at(
                    self.report(),
                    at + block.len(),
                    seq![LineView::InternalData(P::serialized(s))],
                )
            }),
    {
        let (stops, route, i) = self.every_cell_is_found(p);
        let at = self.reports_show_every_cell_of_an_instance(stops, route, i);
        (stops, route, i, at)
    }

    /// A listed cell adds to the lines that show data as many as belong to it.
    proof fn count_entry(&self, names: Seq<Seq<char>>, g: int, i: int)
        requires
            self.design_ok(),
            0 <= g < self.cells().len(),
            self.cells()[g] is Component,
            0 <= i < self.program().listed(self.instance_at(g).comp_id.0 as int).len(),
        ensures
            ({
                let ctx = self.program();
                let ledger = self.instance_at(g);
                let c = ledger.comp_id.0 as int;
                let base = ledger.index_bases.cell_base.0;
                let t = ctx.turn(c, i);
                data_count(self.cell_lines(names, g, i + 1)) == data_count(
                    self.cell_lines(names, g, i),
                ) + holders(self.cells(), base + ctx.walk(c, t).cell, base + ctx.walk(c, t + 1).cell)
            }),
        decreases self.cells().len() - g, 0int,
    {
        let ctx = self.program();
        let ledger = self.instance_at(g);
        let c = ledger.comp_id.0 as int;
        let base = ledger.index_bases.cell_base.0 as int;
        let t = ctx.turn(c, i);
        let at = base + ctx.listed(c)[i].0.0;
        let block = self.cell_block(names, g, i);
        let before = self.cell_lines(names, g, i);
        let info = ctx.listed_def(c, i);
        assert(self.cell_ok(g));
        assert(ctx.placed(c));
        ctx.cell_has_its_turn(c, i);
        assert(ctx.entry_placed(c, t));
        assert(child_in_place(ctx, self.cells(), ledger, t));
        self.listed_child(g, i);
        self.reports_go_cell_by_cell(names, g, i);
        only_text(block);
        data_count_add(before, block);
        match info.prototype {
            CellPrototype::Component(k) => {
                let d = k.0 as int;
                let path = names.push(self.listed_name(g, i));
                let inner = self.cell_lines(path, at, ctx.listed(d).len() as int);
                data_count_add(before + block, inner);
                assert(self.cell_ok(at));
                assert(ctx.placed(d));
                self.count_instance(path, at);
                holders_add(self.cells(), at, at + 1, at + 1 + ctx.size(d).cell as int);
                assert(holders(self.cells(), at, at + 1) == 0) by {
                    reveal_with_fuel(holders, 2);
                }
            },
            _ => {
                data_count_add(before + block, self.data_lines(at));
                reveal_with_fuel(holders, 2);
                reveal_with_fuel(data_count, 2);
                assert(self.data_lines(at).len() == 1 ==> self.data_lines(at).drop_last()
                    =~= Seq::empty());
            },
        }
    }

    proof fn count_cells(&self, names: Seq<Seq<char>>, g: int, i: int)
        requires
            self.design_ok(),
            0 <= g < self.cells().len(),
            self.cells()[g] is Component,
            0 <= i <= self.program().listed(self.instance_at(g).comp_id.0 as int).len(),
        ensures
            ({
                let ctx = self.program();
                let ledger = self.instance_at(g);
                let c = ledger.comp_id.0 as int;
                let base = ledger.index_bases.cell_base.0 as int;
                let primitives = ctx.primitives(c, ctx.listed(c).len() as int).len() as int;
                data_count(self.cell_lines(names, g, i)) == holders(
                    self.cells(),
                    base,
                    base + ctx.walk(c, ctx.primitives(c, i).len() as int).cell,
                ) + holders(
                    self.cells(),
                    base + ctx.walk(c, primitives).cell,
                    base + ctx.walk(c, primitives + ctx.sub_components(c, i).len()).cell,
                )
            }),
        decreases self.cells().len() - g, 1 + i,
    {
        let ctx = self.program();
        let ledger = self.instance_at(g);
        let c = ledger.comp_id.0 as int;
        let base = ledger.index_bases.cell_base.0 as int;
        let n = ctx.listed(c).len() as int;
        let primitives = ctx.primitives(c, n).len() as int;
        if i > 0 {
            self.count_cells(names, g, i - 1);
            self.count_entry(names, g, i - 1);
            let t = ctx.turn(c, i - 1);
            let from = if ctx.is_sub_component(c, i - 1) {
                base + ctx.walk(c, primitives).cell
            } else {
                base + 0
            };
            if ctx.is_sub_component(c, i - 1) {
                ctx.walk_grows(c, primitives, t);
            } else {
                ctx.walk_grows(c, 0, t);
            }
            ctx.walk_grows(c, t, t + 1);
            holders_add(
                self.cells(),
                from,
                base + ctx.walk(c, t).cell as int,
                base + ctx.walk(c, t + 1).cell as int,
            );
        }
    }

    proof fn count_instance(&self, names: Seq<Seq<char>>, g: int)
        requires
            self.design_ok(),
            0 <= g < self.cells().len(),
            self.cells()[g] is Component,
        ensures
            ({
                let ctx = self.program();
                let ledger = self.instance_at(g);
                let c = ledger.comp_id.0 as int;
                let base = ledger.index_bases.cell_base.0 as int;
                data_count(self.cell_lines(names, g, ctx.listed(c).len() as int)) == holders(
                    self.cells(),
                    base,
                    base + ctx.size(c).cell,
                )
            }),
        decreases
                self.cells().len() - g,
                2 + self.program().listed(self.instance_at(g).comp_id.0 as int).len(),
    {
        let ctx = self.program();
        let ledger = self.instance_at(g);
        let c = ledger.comp_id.0 as int;
        let base = ledger.index_bases.cell_base.0 as int;
        let n = ctx.listed(c).len() as int;
        let primitives = ctx.primitives(c, n).len() as int;
        assert(self.cell_ok(g));
        assert(ctx.placed(c));
        self.count_cells(names, g, n);
        ctx.kinds_add_up(c, n);
        ctx.walk_grows(c, 0, primitives);
        ctx.walk_grows(c, primitives, n);
        holders_add(
            self.cells(),
            base,
            base + ctx.walk(c, primitives).cell as int,
            base + ctx.walk(c, n).cell as int,
        );
    }

    /// A report shows what cells hold as many times as the design has cells that
    /// have something to show: none is left out and none is shown twice.
    pub proof fn reports_show_all_that_is_held(&self)
        requires
            self.design_ok(),
            self.cells().len() == 1 + self.program().size(
                self.program().entry_point.0 as int,
            ).cell,
        ensures
            data_count(self.report()) == holders(self.cells(), 0, self.cells().len() as int),
    {
        let ctx = self.program();
        let c = ctx.entry_point.0 as int;
        let names = seq![ctx.name(ctx.comp(c).name)];
        self.count_instance(names, 0);
        holders_add(self.cells(), 0, 1, self.cells().len() as int);
        assert(holders(self.cells(), 0, 1) == 0) by {
            reveal_with_fuel(holders, 2);
        }
    }
}

proof fn only_text(lines: Seq<LineView>)
    requires
        forall|i: int| 0 <= i < lines.len() ==> (#[trigger] lines[i]) is Text,
    ensures
        data_count(lines) == 0,
    decreases lines.len(),
{
    if lines.len() > 0 {
        assert(lines[lines.len() - 1] is Text);
        assert forall|i: int| 0 <= i < lines.drop_last().len() implies (
        #[trigger] lines.drop_last()[i]) is Text by {
            assert(lines[i] is Text);
        }
        only_text(lines.drop_last());
    }
}

} // verus!
