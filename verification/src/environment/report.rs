//! Reporting what a design looks like.

use super::{CellMap, Environment, RefCellMap, RefPortMap, cell_models};
use crate::context::{CellDefinitionInfo, CellPrototype, Context};
use crate::control::ProgramCounter;
use crate::index::{GlobalCellIdx, GlobalPortIdx, LocalPortOffset};
use crate::layout::{CellModel, ComponentLedger, child_in_place};
use crate::ports::{PortMap, PortValue, PortView, port_text};
use crate::primitive::Primitive;
use crate::serialization::{Serializable, SerializableView};
use crate::text::{contents, decimal, decimal_text, join, joined};
use vstd::prelude::*;

verus! {

/// A line of a report, or what a cell holds, which is written as JSON.
pub enum ReportLine {
    Text(String),
    InternalData(Serializable),
}

/// What a line of a report stands for.
pub enum LineView {
    Text(Seq<char>),
    InternalData(SerializableView),
}

impl View for ReportLine {
    type V = LineView;

    open spec fn view(&self) -> LineView {
        match self {
            ReportLine::Text(text) => LineView::Text(text@),
            ReportLine::InternalData(data) => LineView::InternalData(data@),
        }
    }
}

/// What the lines of a report stand for.
pub open spec fn line_views(lines: Seq<ReportLine>) -> Seq<LineView> {
    Seq::new(lines.len(), |i: int| lines[i]@)
}

/// The heading of a cell: the path to it and its name, separated by dots.
pub open spec fn heading(path: Seq<Seq<char>>, name: Seq<char>) -> Seq<char> {
    joined(path, "."@) + "."@ + name
}

/// The line of a port: its name, what it carries and where it is.
pub open spec fn port_line(name: Seq<char>, port: PortView, at: int) -> Seq<char> {
    "    "@ + name + ": "@ + port_text(port) + " (GlobalPortIdx("@ + decimal(at as nat) + "))"@
}

impl<'a, P: Primitive> Environment<'a, P> {
    /// The lines of the first `k` ports of a cell.
    pub open spec fn port_lines(
        &self,
        ledger: ComponentLedger,
        info: CellDefinitionInfo,
        k: int,
    ) -> Seq<LineView>
        decreases k,
    {
        if k <= 0 {
            Seq::empty()
        } else {
            let ctx = self.program();
            let port = info.ports.start.0 + k - 1;
            let def = ctx.comp(ledger.comp_id.0 as int).port_offset_map.lookup(port);
            let at = ledger.index_bases.port_base.0 + port;
            self.port_lines(ledger, info, k - 1).push(
                LineView::Text(
                    port_line(
                        ctx.name(ctx.secondary.ports@[def.0 as int].name),
                        self.ports()[at],
                        at,
                    ),
                ),
            )
        }
    }

    /// The line of what a primitive holds, if it has anything to show.
    pub open spec fn data_lines(&self, at: int) -> Seq<LineView> {
        match self.cells()[at] {
            CellModel::Primitive(s) => if P::serialized(s) is Empty {
                Seq::empty()
            } else {
                seq![LineView::InternalData(P::serialized(s))]
            },
            CellModel::Component(_) => Seq::empty(),
        }
    }

    /// The lines of the first `i` cells of an instance: for each cell a
    /// heading, its ports, and then either the cells inside it or what it
    /// holds.
    pub open spec fn cell_lines(&self, path: Seq<Seq<char>>, g: int, i: int) -> Seq<LineView>
        decreases self.cells().len() - g, i,
        when self.design_ok() && 0 <= g < self.cells().len() && self.cells()[g] is Component && i
            <= self.program().listed(
            self.cells()[g]->Component_0.comp_id.0 as int,
        ).len()
        via Self::cell_lines_decreases
    {
        if i <= 0 {
            Seq::empty()
        } else {
            let ctx = self.program();
            let ledger = self.cells()[g]->Component_0;
            let c = ledger.comp_id.0 as int;
            let info = ctx.listed_def(c, i - 1);
            let at = ledger.index_bases.cell_base.0 + ctx.listed(c)[i - 1].0.0;
            self.cell_lines(path, g, i - 1).push(
                LineView::Text(heading(path, ctx.name(info.name))),
            ) + self.port_lines(ledger, info, info.ports.len() as int) + match info.prototype {
                CellPrototype::Component(k) => self.cell_lines(
                    path.push(ctx.name(info.name)),
                    at,
                    ctx.listed(k.0 as int).len() as int,
                ),
                _ => self.data_lines(at),
            }
        }
    }

    /// A listed cell of an instance is where its place says and is what its
    /// definition says.
    pub(crate) proof fn listed_child(&self, g: int, i: int)
        requires
            self.design_ok(),
            0 <= g < self.cells().len(),
            self.cells()[g] is Component,
            0 <= i < self.program().listed(self.cells()[g]->Component_0.comp_id.0 as int).len(),
        ensures
            ({
                let ctx = self.program();
                let ledger = self.cells()[g]->Component_0;
                let c = ledger.comp_id.0 as int;
                let at = ledger.index_bases.cell_base.0 + ctx.listed(c)[i].0.0;
                &&& c < ctx.secondary.components@.len()
                &&& ledger.index_bases.cell_base.0 == g + 1
                &&& ctx.listed(c)[i].1.0 < ctx.secondary.cells@.len()
                &&& g < at < self.cells().len()
                &&& match ctx.listed_def(c, i).prototype {
                    CellPrototype::Component(k) => self.cells()[at] matches CellModel::Component(l)
                        && l.comp_id == k,
                    _ => self.cells()[at] is Primitive,
                }
            }),
    {
        let ctx = self.program();
        let ledger = self.cells()[g]->Component_0;
        let c = ledger.comp_id.0 as int;
        assert(self.cell_ok(g));
        assert(ctx.placed(c));
        ctx.cell_has_its_turn(c, i);
        assert(ctx.entry_placed(c, ctx.turn(c, i)));
        assert(child_in_place(ctx, self.cells(), ledger, ctx.turn(c, i)));
    }

    #[via_fn]
    proof fn cell_lines_decreases(&self, path: Seq<Seq<char>>, g: int, i: int) {
        if i > 0 {
            let ledger = self.cells()[g]->Component_0;
            assert(self.cell_ok(g));
            self.listed_child(g, i - 1);
        }
    }

    /// The lines of one cell more.
    pub(crate) proof fn one_more_cell(&self, path: Seq<Seq<char>>, g: int, i: int)
        requires
            self.design_ok(),
            0 <= g < self.cells().len(),
            self.cells()[g] is Component,
            0 <= i < self.program().listed(self.cells()[g]->Component_0.comp_id.0 as int).len(),
        ensures
            ({
                let ctx = self.program();
                let ledger = self.cells()[g]->Component_0;
                let c = ledger.comp_id.0 as int;
                let info = ctx.listed_def(c, i);
                let at = ledger.index_bases.cell_base.0 + ctx.listed(c)[i].0.0;
                self.cell_lines(path, g, i + 1) == self.cell_lines(path, g, i).push(
                    LineView::Text(heading(path, ctx.name(info.name))),
                ) + self.port_lines(ledger, info, info.ports.len() as int) + match info.prototype {
                    CellPrototype::Component(k) => self.cell_lines(
                        path.push(ctx.name(info.name)),
                        at,
                        ctx.listed(k.0 as int).len() as int,
                    ),
                    _ => self.data_lines(at),
                }
            }),
    {
        self.listed_child(g, i);
    }

    /// The report of the whole design.
    pub open spec fn report(&self) -> Seq<LineView> {
        let ctx = self.program();
        let c = ctx.entry_point.0 as int;
        self.cell_lines(seq![ctx.name(ctx.comp(c).name)], 0, ctx.listed(c).len() as int)
    }
}

// Paths.
impl<'a, P: Primitive> Environment<'a, P> {
    /// The name of the `k`-th instance along a path: the outermost one is named
    /// after its component, the others after the cells that they are.
    pub open spec fn path_name(&self, hierarchy: Seq<GlobalCellIdx>, k: int) -> Seq<char> {
        let ctx = self.program();
        if k == 0 {
            ctx.name(ctx.comp(self.fabric().ledger(hierarchy[0]).comp_id.0 as int).name)
        } else {
            let outer = self.fabric().ledger(hierarchy[k - 1]);
            let local = hierarchy[k].0 - outer.index_bases.cell_base.0;
            let def = ctx.comp(outer.comp_id.0 as int).cell_offset_map.lookup(local);
            ctx.name(ctx.cell_def(def.0 as int).name)
        }
    }

    /// The names along a path.
    pub open spec fn path_names(&self, hierarchy: Seq<GlobalCellIdx>) -> Seq<Seq<char>> {
        Seq::new(hierarchy.len(), |k: int| self.path_name(hierarchy, k))
    }

    /// The `k`-th instance along a path is there, and is a cell of the one
    /// before.
    pub open spec fn path_step_ok(&self, hierarchy: Seq<GlobalCellIdx>, k: int) -> bool {
        &&& self.fabric().is_instance(hierarchy[k])
        &&& k > 0 ==> {
            let outer = self.fabric().ledger(hierarchy[k - 1]);
            &&& outer.index_bases.cell_base.0 <= hierarchy[k].0
            &&& self.program().comp(outer.comp_id.0 as int).cell_offset_map.has_key(
                hierarchy[k].0 - outer.index_bases.cell_base.0,
            )
        }
    }

    /// A path of instances from the outermost one on, each a cell of the one
    /// before.
    pub open spec fn path_ok(&self, hierarchy: Seq<GlobalCellIdx>) -> bool {
        &&& hierarchy.len() > 0
        &&& hierarchy[0].0 == 0
        &&& forall|k: int| 0 <= k < hierarchy.len() ==> #[trigger] self.path_step_ok(hierarchy, k)
    }

    /// The fully qualified name of the last instance of a path.
    fn name_prefix(&self, hierarchy: &Vec<GlobalCellIdx>) -> (prefix: String)
        requires
            self.design_ok(),
            self.program().named(),
            self.path_ok(hierarchy@),
        ensures
            prefix@ == joined(self.path_names(hierarchy@), "."@),
    {
        let ctx = self.ctx;
        let mut names: Vec<String> = Vec::new();
        let len: usize = hierarchy.len();
        for k in 0..len
            invariant
                len == hierarchy@.len(),
                ctx == self.ctx,
                self.design_ok(),
                self.program().named(),
                self.path_ok(hierarchy@),
                names@.len() == k,
                forall|j: int|
                    0 <= j < k ==> (#[trigger] names@[j])@ == self.path_name(hierarchy@, j),
        {
            proof {
                assert(self.path_step_ok(hierarchy@, k as int));
                assert(self.cell_ok(hierarchy@[k as int].0 as int));
            }
            let name = if k == 0 {
                let info = self.cells.get(hierarchy[0]).unwrap_comp();
                ctx.secondary.components.get(info.comp_id).name
            } else {
                proof {
                    assert(self.path_step_ok(hierarchy@, k - 1));
                    assert(self.cell_ok(hierarchy@[k - 1].0 as int));
                }
                let info = self.cells.get(hierarchy[k - 1]).unwrap_comp();
                let prior_comp = ctx.secondary.components.get(info.comp_id);
                let local_target = info.index_bases.local_cell(hierarchy[k]);
                proof {
                    ctx.cell_found(info.comp_id.0 as int, local_target.0 as int);
                }
                let def_idx = *prior_comp.cell_offset_map.get(local_target);
                ctx.secondary.cells.get(def_idx).name
            };
            names.push(ctx.secondary.names.get(name).clone());
        }
        assert(contents(names@) =~= self.path_names(hierarchy@));
        join(&names, ".")
    }
}

/// Writes the heading of a cell.
fn heading_text(prefix: &String, name: &String) -> (text: String)
    ensures
        text@ == prefix@ + "."@ + name@,
{
    let mut text = prefix.clone();
    text.append(".");
    text.append(name.as_str());
    text
}

/// Writes the line of a port.
fn port_line_text(name: &String, port: &PortValue, at: GlobalPortIdx) -> (text: String)
    ensures
        text@ == port_line(name@, port@, at.0 as int),
{
    let mut text = String::from_str("    ");
    text.append(name.as_str());
    text.append(": ");
    text.append(port.to_text().as_str());
    text.append(" (GlobalPortIdx(");
    text.append(decimal_text(at.0 as u64).as_str());
    text.append("))");
    text
}

// Reports.
impl<'a, P: Primitive> Environment<'a, P> {
    /// Reports the ports of a cell of an instance.
    #[verifier::spinoff_prover]
    fn print_ports(
        &self,
        info: &ComponentLedger,
        definition: &CellDefinitionInfo,
        lines: &mut Vec<ReportLine>,
    )
        requires
            self.design_ok(),
            self.program().named(),
            self.instance_ok(*info),
            forall|port: int|
                definition.ports.has(port) ==> #[trigger] self.program().port_named(
                    info.comp_id.0 as int,
                    port,
                ),
        ensures
            line_views(final(lines)@) == line_views(old(lines)@) + self.port_lines(
                *info,
                *definition,
                definition.ports.len() as int,
            ),
    {
        let ctx = self.ctx;
        let ghost before = line_views(lines@);
        let ghost c = info.comp_id.0 as int;
        proof {
            self.ports.len_fits();
        }
        let comp = ctx.secondary.components.get(info.comp_id);
        let len: usize = definition.ports.size();
        assert(line_views(lines@) =~= before + self.port_lines(*info, *definition, 0));
        for k in 0..len
            invariant
                len == definition.ports.len(),
                ctx == self.ctx,
                c == info.comp_id.0,
                *comp == ctx.comp(c),
                self.ports().len() <= usize::MAX,
                self.instance_ok(*info),
                forall|port: int|
                    definition.ports.has(port) ==> #[trigger] self.program().port_named(c, port),
                line_views(lines@) == before + self.port_lines(*info, *definition, k as int),
        {
            let port = LocalPortOffset(definition.ports.start.0 + k);
            assert(ctx.port_named(c, port.0 as int));
            let ghost lines0 = lines@;
            let port_def = ctx.secondary.ports.get(*comp.port_offset_map.get(port));
            let at = info.index_bases.port(port);
            let text = port_line_text(
                ctx.secondary.names.get(port_def.name),
                self.ports.get(at),
                at,
            );
            lines.push(ReportLine::Text(text));
            assert(line_views(lines@) =~= line_views(lines0).push(LineView::Text(text@)));
            assert(line_views(lines@) =~= before + self.port_lines(*info, *definition, k + 1));
        }
    }

    /// Reports what a primitive holds, if it has anything to show.
    fn print_data(&self, cell_idx: GlobalCellIdx, lines: &mut Vec<ReportLine>)
        requires
            cell_idx.0 < self.cells().len(),
        ensures
            line_views(final(lines)@) == line_views(old(lines)@) + self.data_lines(
                cell_idx.0 as int,
            ),
    {
        let ghost before = lines@;
        match self.cells.get(cell_idx).as_primitive() {
            Some(primitive) => {
                if primitive.has_serializable_state() {
                    lines.push(ReportLine::InternalData(primitive.serialize(None)));
                }
            },
            None => {},
        }
        assert(line_views(lines@) =~= line_views(before) + self.data_lines(cell_idx.0 as int));
    }

    /// Reports the cells of an instance and everything inside them.
    fn print_component(
        &self,
        target: GlobalCellIdx,
        hierarchy: &mut Vec<GlobalCellIdx>,
        lines: &mut Vec<ReportLine>,
    )
        requires
            self.design_ok(),
            self.program().named(),
            self.path_ok(old(hierarchy)@.push(target)),
        ensures
            final(hierarchy)@ == old(hierarchy)@,
            line_views(final(lines)@) == line_views(old(lines)@) + self.cell_lines(
                self.path_names(old(hierarchy)@.push(target)),
                target.0 as int,
                self.program().listed(
                    self.fabric().ledger(target).comp_id.0 as int,
                ).len() as int,
            ),
        decreases self.cells().len() - target.0,
    {
        let ctx = self.ctx;
        let ghost g = target.0 as int;
        let ghost outer = hierarchy@;
        let ghost inner = hierarchy@.push(target);
        let ghost path = self.path_names(inner);
        let ghost before = line_views(lines@);
        proof {
            assert(self.path_step_ok(inner, outer.len() as int));
            assert(self.cell_ok(g));
            self.cells.len_fits();
        }
        let info = self.cells.get(target).unwrap_comp();
        let ghost c = info.comp_id.0 as int;
        let comp = ctx.secondary.components.get(info.comp_id);
        hierarchy.push(target);
        let name_prefix = self.name_prefix(hierarchy);
        let len: usize = comp.cell_offset_map.len();
        assert(line_views(lines@) =~= before + self.cell_lines(path, g, 0));
        for i in 0..len
            invariant
                len == ctx.listed(c).len(),
                ctx == self.ctx,
                *ctx == self.program(),
                self.design_ok(),
                ctx.named(),
                g == target.0,
                self.fabric().is_instance(target),
                *info == self.fabric().ledger(target),
                self.instance_ok(*info),
                info.index_bases.cell_base.0 == g + 1,
                self.cells().len() <= usize::MAX,
                c == info.comp_id.0,
                *comp == ctx.comp(c),
                inner == outer.push(target),
                self.path_ok(inner),
                path == self.path_names(inner),
                hierarchy@ == inner,
                name_prefix@ == joined(path, "."@),
                line_views(lines@) == before + self.cell_lines(path, g, i as int),
        {
            let (cell_off, def_idx) = comp.cell_offset_map.entries[i];
            proof {
                assert(ctx.placed(c));
                self.listed_child(g, i as int);
                assert(ctx.component_named(c));
                assert(ctx.entry_named(c, i as int));
            }
            let definition = ctx.secondary.cells.get(def_idx);
            let name = ctx.secondary.names.get(definition.name);
            let ghost lines0 = lines@;
            let text = heading_text(&name_prefix, name);
            lines.push(ReportLine::Text(text));
            assert(line_views(lines@) =~= line_views(lines0).push(LineView::Text(text@)));
            let ghost lines1 = line_views(lines@);
            self.print_ports(info, definition, lines);
            let ghost lines2 = line_views(lines@);
            let cell_idx = info.index_bases.cell(cell_off);
            if definition.prototype.is_component() {
                proof {
                    self.path_grows(inner, i as int);
                }
                self.print_component(cell_idx, hierarchy, lines);
            } else {
                self.print_data(cell_idx, lines);
            }
            assert(line_views(lines@) =~= before + self.cell_lines(path, g, i + 1));
        }
        hierarchy.pop();
        assert(hierarchy@ =~= outer);
    }

    /// A cell that is an instance continues the path to the instance that it is
    /// a cell of.
    #[verifier::spinoff_prover]
    proof fn path_grows(&self, hierarchy: Seq<GlobalCellIdx>, i: int)
        requires
            self.design_ok(),
            self.path_ok(hierarchy),
            0 <= i < self.program().listed(
                self.fabric().ledger(hierarchy.last()).comp_id.0 as int,
            ).len(),
            self.program().listed_def(
                self.fabric().ledger(hierarchy.last()).comp_id.0 as int,
                i,
            ).prototype is Component,
        ensures
            ({
                let ctx = self.program();
                let outer = self.fabric().ledger(hierarchy.last());
                let c = outer.comp_id.0 as int;
                let at = outer.index_bases.cell_base.0 + ctx.listed(c)[i].0.0;
                let longer = hierarchy.push(GlobalCellIdx(at as usize));
                &&& at < self.cells().len()
                &&& self.path_ok(longer)
                &&& self.path_names(longer) == self.path_names(hierarchy).push(
                    ctx.name(ctx.listed_def(c, i).name),
                )
                &&& ctx.listed_def(c, i).prototype matches CellPrototype::Component(k)
                    && self.fabric().ledger(GlobalCellIdx(at as usize)).comp_id == k
            }),
    {
        let ctx = self.program();
        let last = hierarchy.len() - 1;
        let outer = self.fabric().ledger(hierarchy.last());
        let c = outer.comp_id.0 as int;
        let at = outer.index_bases.cell_base.0 + ctx.listed(c)[i].0.0;
        let longer = hierarchy.push(GlobalCellIdx(at as usize));
        self.cells.len_fits();
        assert(self.path_step_ok(hierarchy, last));
        assert(self.cell_ok(hierarchy.last().0 as int));
        self.listed_child(hierarchy.last().0 as int, i);
        assert(ctx.placed(c));
        ctx.place_finds_cell(c, i);
        assert forall|k: int| 0 <= k < longer.len() implies #[trigger] self.path_step_ok(
            longer,
            k,
        ) by {
            if k <= last {
                assert(self.path_step_ok(hierarchy, k));
            }
        }
        assert(self.path_names(longer) =~= self.path_names(hierarchy).push(
            ctx.name(ctx.listed_def(c, i).name),
        ));
    }

    /// Reports all cells of the design, with their ports and what they hold.
    pub fn print_env(&self) -> (lines: Vec<ReportLine>)
        requires
            self.design_ok(),
            self.program().named(),
        ensures
            line_views(lines@) == self.report(),
    {
        let root_idx = GlobalCellIdx(0);
        let mut hierarchy: Vec<GlobalCellIdx> = Vec::new();
        let mut lines: Vec<ReportLine> = Vec::new();
        proof {
            let path = hierarchy@.push(root_idx);
            assert(self.path_step_ok(path, 0));
            assert(self.path_ok(path));
            assert(self.path_names(path) =~= seq![
                self.program().name(self.program().comp(self.program().entry_point.0 as int).name),
            ]);
        }
        self.print_component(root_idx, &mut hierarchy, &mut lines);
        assert(line_views(lines@) =~= self.report());
        lines
    }

    /// Reports how many ports, cells, ref cells and ref ports there are.
    pub fn print_env_stats(&self) -> (lines: Vec<String>)
        ensures
            contents(lines@) == seq![
                "Environment Stats:"@,
                "  Ports: "@ + decimal(self.ports().len()),
                "  Cells: "@ + decimal(self.cells().len()),
                "  Ref Cells: "@ + decimal(self.ref_cells().len()),
                "  Ref Ports: "@ + decimal(self.ref_ports().len()),
            ],
    {
        let mut lines: Vec<String> = Vec::new();
        lines.push(String::from_str("Environment Stats:"));
        lines.push(count_text("  Ports: ", self.ports.len()));
        lines.push(count_text("  Cells: ", self.cells.len()));
        lines.push(count_text("  Ref Cells: ", self.ref_cells.len()));
        lines.push(count_text("  Ref Ports: ", self.ref_ports.len()));
        assert(contents(lines@) =~= seq![
            "Environment Stats:"@,
            "  Ports: "@ + decimal(self.ports().len()),
            "  Cells: "@ + decimal(self.cells().len()),
            "  Ref Cells: "@ + decimal(self.ref_cells().len()),
            "  Ref Ports: "@ + decimal(self.ref_ports().len()),
        ]);
        lines
    }

    /// Where the program is.
    pub fn pc(&self) -> (pc: &ProgramCounter)
        ensures
            pc@ == self.points(),
    {
        &self.pc
    }

    /// The cells.
    pub fn cell_map(&self) -> (cells: &CellMap<P>)
        ensures
            cell_models(cells@) == self.cells(),
    {
        &self.cells
    }

    /// The cells that the ref cells stand for.
    pub fn ref_cell_map(&self) -> (ref_cells: &RefCellMap)
        ensures
            ref_cells@ == self.ref_cells(),
    {
        &self.ref_cells
    }

    /// The ports that the ref ports stand for.
    pub fn ref_port_map(&self) -> (ref_ports: &RefPortMap)
        ensures
            ref_ports@ == self.ref_ports(),
    {
        &self.ref_ports
    }

    /// The program.
    pub fn context(&self) -> (ctx: &'a Context)
        ensures
            *ctx == self.program(),
    {
        self.ctx
    }

    /// What the ports carry.
    pub fn port_map(&self) -> (ports: &PortMap)
        ensures
            ports.model() == self.ports(),
    {
        &self.ports
    }
}

/// Writes a label and a number.
fn count_text(label: &str, count: usize) -> (text: String)
    ensures
        text@ == label@ + decimal(count as nat),
{
    let mut text = String::from_str(label);
    text.append(decimal_text(count as u64).as_str());
    text
}

} // verus!
