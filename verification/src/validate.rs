//! Checking that a program can be laid out, run and reported.

use crate::context::{Context, ControlNode, Guard, guard_children};
use crate::graph::{
    acyclic, adjacency, is_acyclic, rank_drops, rank_of, unseen, unseen_update,
};
use crate::index::{
    AssignmentIdx, ComponentIdx, ControlIdx, GroupIdx, GuardIdx, LocalPortOffset, PortRef,
};
use vstd::prelude::*;

verus! {

// Which part refers to which.
impl Context {
    /// Which guard refers to which.
    fn guard_lists(&self) -> (lists: Vec<Vec<usize>>)
        ensures
            adjacency(lists@) == self.guard_graph(),
    {
        let mut lists: Vec<Vec<usize>> = Vec::new();
        let len: usize = self.primary.guards.len();
        for g in 0..len
            invariant
                len == self.primary.guards@.len(),
                lists@.len() == g,
                forall|h: int|
                    0 <= h < g ==> (#[trigger] lists@[h])@ == guard_children(self.guard(h)),
        {
            let list: Vec<usize> = match self.primary.guards.get(GuardIdx(g)) {
                Guard::Or(a, b) => vec![a.0, b.0],
                Guard::And(a, b) => vec![a.0, b.0],
                Guard::Not(a) => vec![a.0],
                Guard::True => Vec::new(),
                Guard::Comp(_, _, _) => Vec::new(),
                Guard::Port(_) => Vec::new(),
            };
            assert(list@ =~= guard_children(self.guard(g as int)));
            lists.push(list);
        }
        assert(adjacency(lists@) =~= self.guard_graph());
        lists
    }

    /// Which control node is directly above which.
    fn control_lists(&self) -> (lists: Vec<Vec<usize>>)
        ensures
            adjacency(lists@) == self.control_graph(),
    {
        let mut lists: Vec<Vec<usize>> = Vec::new();
        let len: usize = self.primary.control.len();
        for n in 0..len
            invariant
                len == self.primary.control@.len(),
                lists@.len() == n,
                forall|m: int|
                    0 <= m < n ==> (#[trigger] lists@[m])@ == self.control_graph()[m],
        {
            let node = self.primary.control.get(ControlIdx(n));
            let mut list: Vec<usize> = Vec::new();
            let count: usize = node.child_count();
            for i in 0..count
                invariant
                    n < self.primary.control@.len(),
                    *node == self.control(n as int),
                    count == node.children().len(),
                    list@ == self.control_graph()[n as int].take(i as int),
            {
                list.push(node.child(i).0);
                assert(list@ =~= self.control_graph()[n as int].take(i + 1));
            }
            assert(list@ =~= self.control_graph()[n as int]);
            lists.push(list);
        }
        assert(adjacency(lists@) =~= self.control_graph());
        lists
    }

    /// Every cell of a component is defined.
    spec fn cells_defined(&self, c: int) -> bool {
        &&& forall|i: int|
            0 <= i < self.listed(c).len() ==> (#[trigger] self.listed(c)[i]).1.0
                < self.secondary.cells@.len()
        &&& forall|i: int|
            0 <= i < self.ref_entries(c).len() ==> (#[trigger] self.ref_entries(c)[i]).1.0
                < self.secondary.ref_cells@.len()
    }

    /// Checks that every cell of a component is defined.
    fn are_cells_defined(&self, c: ComponentIdx) -> (answer: bool)
        requires
            c.0 < self.secondary.components@.len(),
        ensures
            answer == self.cells_defined(c.0 as int),
    {
        let comp = self.secondary.components.get(c);
        let cells: usize = self.secondary.cells.len();
        let ref_cells: usize = self.secondary.ref_cells.len();
        let len: usize = comp.cell_offset_map.len();
        for i in 0..len
            invariant
                len == self.listed(c.0 as int).len(),
                *comp == self.comp(c.0 as int),
                cells == self.secondary.cells@.len(),
                forall|j: int|
                    0 <= j < i ==> (#[trigger] self.listed(c.0 as int)[j]).1.0 < cells,
        {
            let (_, def) = comp.cell_offset_map.entries[i];
            assert(self.listed(c.0 as int)[i as int].1 == def);
            if def.0 >= cells {
                return false;
            }
        }
        let ref_len: usize = comp.ref_cell_offset_map.len();
        for i in 0..ref_len
            invariant
                ref_len == self.ref_entries(c.0 as int).len(),
                *comp == self.comp(c.0 as int),
                ref_cells == self.secondary.ref_cells@.len(),
                forall|j: int|
                    0 <= j < i ==> (#[trigger] self.ref_entries(c.0 as int)[j]).1.0 < ref_cells,
        {
            let (_, def) = comp.ref_cell_offset_map.entries[i];
            assert(self.ref_entries(c.0 as int)[i as int].1 == def);
            if def.0 >= ref_cells {
                return false;
            }
        }
        true
    }

    /// A set of components that holds the entry component, and with every
    /// component what it contains.
    spec fn closed_under_inside(&self, seen: Seq<bool>) -> bool {
        &&& seen.len() == self.secondary.components@.len()
        &&& seen[self.entry_point.0 as int]
        &&& forall|c: int, i: int, d: int|
            0 <= c < seen.len() && seen[c] && #[trigger] self.instantiates(c, i, d) ==> d
                < seen.len() && seen[d]
    }

    /// Such a set holds all components of the design.
    proof fn closed_set_is_whole(&self, seen: Seq<bool>, c: int)
        requires
            self.entry_point.0 < self.secondary.components@.len(),
            self.closed_under_inside(seen),
            self.present(c),
        ensures
            seen[c],
    {
        let path = choose|path: Seq<int>| #[trigger] self.leads(path) && path.last() == c;
        self.closed_set_has_path(seen, path, path.len() - 1);
    }

    proof fn closed_set_has_path(&self, seen: Seq<bool>, path: Seq<int>, j: int)
        requires
            self.entry_point.0 < self.secondary.components@.len(),
            self.closed_under_inside(seen),
            self.leads(path),
            0 <= j < path.len(),
        ensures
            0 <= path[j] < seen.len(),
            seen[path[j]],
        decreases j,
    {
        if j > 0 {
            self.closed_set_has_path(seen, path, j - 1);
            assert(self.link(path, j - 1));
            let i = choose|i: int| #[trigger] self.instantiates(path[j - 1], i, path[j - 1 + 1]);
            assert(self.instantiates(path[j - 1], i, path[j]));
        }
    }

    /// Finds the components of the design, or nothing if one of them contains a
    /// cell that is not defined.
    fn find_present(&self) -> (found: Option<Vec<bool>>)
        requires
            self.entry_point.0 < self.secondary.components@.len(),
        ensures
            match found {
                Some(seen) => seen@.len() == self.secondary.components@.len() && forall|c: int|
                    0 <= c < seen@.len() ==> (#[trigger] seen@[c] == self.present(c)) && (seen@[c]
                        ==> self.cells_defined(c)),
                None => !self.layable(),
            },
    {
        let len: usize = self.secondary.components.len();
        let mut seen: Vec<bool> = Vec::new();
        for c in 0..len
            invariant
                seen@.len() == c,
                forall|d: int| 0 <= d < c ==> !(#[trigger] seen@[d]),
        {
            seen.push(false);
        }
        let mut pending: Vec<usize> = Vec::new();
        let ghost mut finished: Set<int> = Set::empty();
        proof {
            self.entry_is_present();
            unseen_update(seen@, self.entry_point.0 as int);
        }
        seen[self.entry_point.0] = true;
        pending.push(self.entry_point.0);
        assert(pending@[0] == self.entry_point.0);
        while pending.len() > 0
            invariant
                len == self.secondary.components@.len() == seen@.len(),
                self.entry_point.0 < len,
                seen@[self.entry_point.0 as int],
                forall|c: int| 0 <= c < len && #[trigger] seen@[c] ==> self.present(c),
                forall|k: int|
                    0 <= k < pending@.len() ==> (#[trigger] pending@[k]) < len
                        && seen@[pending@[k] as int],
                forall|c: int|
                    0 <= c < len && #[trigger] seen@[c] ==> finished.contains(c)
                        || pending@.contains(c as usize),
                forall|c: int|
                    #[trigger] finished.contains(c) ==> 0 <= c < len && self.cells_defined(c),
                forall|c: int, i: int, d: int|
                    finished.contains(c) && #[trigger] self.instantiates(c, i, d) ==> d < len
                        && seen@[d],
            decreases unseen(seen@) + pending@.len(),
        {
            let ghost before = pending@;
            let c: usize = pending.pop().unwrap();
            assert(before.last() == c);
            assert(pending@ =~= before.drop_last());
            assert forall|b: int| 0 <= b < len && #[trigger] seen@[b] implies finished.contains(b)
                || b == c || pending@.contains(b as usize) by {
                if before.contains(b as usize) {
                    let k = before.index_of(b as usize);
                    if k < before.len() - 1 {
                        assert(pending@[k] == b as usize);
                    }
                }
            }
            assert forall|k: int| 0 <= k < pending@.len() implies (#[trigger] pending@[k]) < len
                && seen@[pending@[k] as int] by {
                assert(before[k] == pending@[k]);
            }
            assert(seen@[before[before.len() - 1] as int]);
            if !self.are_cells_defined(ComponentIdx(c)) {
                proof {
                    if self.placed(c as int) {
                        self.placed_cells_are_defined(c as int);
                    }
                }
                return None;
            }
            let comp = self.secondary.components.get(ComponentIdx(c));
            let cells: usize = comp.cell_offset_map.len();
            let ghost total = unseen(seen@) + pending@.len();
            for i in 0..cells
                invariant
                    c < len == self.secondary.components@.len() == seen@.len(),
                    self.entry_point.0 < len,
                    seen@[self.entry_point.0 as int],
                    seen@[c as int],
                    self.present(c as int),
                    self.cells_defined(c as int),
                    *comp == self.comp(c as int),
                    cells == self.listed(c as int).len(),
                    unseen(seen@) + pending@.len() == total,
                    forall|b: int| 0 <= b < len && #[trigger] seen@[b] ==> self.present(b),
                    forall|k: int|
                        0 <= k < pending@.len() ==> (#[trigger] pending@[k]) < len
                            && seen@[pending@[k] as int],
                    forall|b: int|
                        0 <= b < len && #[trigger] seen@[b] ==> finished.contains(b) || b == c
                            || pending@.contains(b as usize),
                    forall|b: int|
                        #[trigger] finished.contains(b) ==> 0 <= b < len && self.cells_defined(b),
                    forall|b: int, j: int, d: int|
                        finished.contains(b) && #[trigger] self.instantiates(b, j, d) ==> d < len
                            && seen@[d],
                    forall|j: int, d: int|
                        j < i && #[trigger] self.instantiates(c as int, j, d) ==> d < len
                            && seen@[d],
            {
                let (_, def) = comp.cell_offset_map.entries[i];
                assert(self.listed(c as int)[i as int].1 == def);
                match self.secondary.cells.get(def).prototype.as_component() {
                    Some(k) => {
                        assert(self.instantiates(c as int, i as int, k.0 as int));
                        if k.0 >= len {
                            proof {
                                self.cell_has_its_turn(c as int, i as int);
                                assert(!self.entry_placed(
                                    c as int,
                                    self.turn(c as int, i as int),
                                ));
                                assert(!self.placed(c as int));
                            }
                            return None;
                        }
                        if !seen[k.0] {
                            let ghost pending_before = pending@;
                            proof {
                                self.inside_is_present(c as int, i as int, k.0 as int);
                                unseen_update(seen@, k.0 as int);
                            }
                            seen[k.0] = true;
                            pending.push(k.0);
                            assert forall|b: int|
                                0 <= b < len && #[trigger] seen@[b] implies finished.contains(b)
                                || b == c || pending@.contains(b as usize) by {
                                if b == k.0 {
                                    assert(pending@.last() == b as usize);
                                } else if pending_before.contains(b as usize) {
                                    let m = pending_before.index_of(b as usize);
                                    assert(pending@[m] == b as usize);
                                }
                            }
                        }
                    },
                    None => {},
                }
            }
            proof {
                finished = finished.insert(c as int);
            }
        }
        assert forall|c: int| 0 <= c < len implies (#[trigger] seen@[c] == self.present(c)) && (
        seen@[c] ==> self.cells_defined(c)) by {
            if self.present(c) {
                self.closed_set_is_whole(seen@, c);
            }
        }
        Some(seen)
    }

    /// Which component of the design instantiates which.
    fn component_lists(&self, present: &Vec<bool>) -> (lists: Vec<Vec<usize>>)
        requires
            present@.len() == self.secondary.components@.len(),
            forall|c: int|
                0 <= c < present@.len() ==> (#[trigger] present@[c] == self.present(c)) && (
                present@[c] ==> self.cells_defined(c)),
        ensures
            adjacency(lists@) == self.component_graph(),
    {
        let mut lists: Vec<Vec<usize>> = Vec::new();
        let len: usize = self.secondary.components.len();
        for c in 0..len
            invariant
                len == self.secondary.components@.len() == present@.len(),
                forall|d: int|
                    0 <= d < len ==> (#[trigger] present@[d] == self.present(d)) && (present@[d]
                        ==> self.cells_defined(d)),
                lists@.len() == c,
                forall|d: int|
                    0 <= d < c ==> (#[trigger] lists@[d])@ == self.component_graph()[d],
        {
            let comp = self.secondary.components.get(ComponentIdx(c));
            let mut list: Vec<usize> = Vec::new();
            if present[c] {
                let cells: usize = comp.cell_offset_map.len();
                for i in 0..cells
                    invariant
                        c < self.secondary.components@.len(),
                        self.cells_defined(c as int),
                        *comp == self.comp(c as int),
                        cells == self.listed(c as int).len(),
                        list@ == self.instantiated(c as int, i as int),
                {
                    let (_, def) = comp.cell_offset_map.entries[i];
                    assert(self.listed(c as int)[i as int].1 == def);
                    match self.secondary.cells.get(def).prototype.as_component() {
                        Some(k) => {
                            list.push(k.0);
                        },
                        None => {},
                    }
                }
            }
            assert(list@ =~= self.component_graph()[c as int]);
            lists.push(list);
        }
        assert(adjacency(lists@) =~= self.component_graph());
        lists
    }

    /// Checks that no control node is directly below two nodes, or twice below
    /// one.
    fn is_forest(&self) -> (answer: bool)
        requires
            acyclic(self.control_graph()),
        ensures
            answer == self.control_is_forest(),
    {
        let len: usize = self.primary.control.len();
        let mut seen: Vec<bool> = Vec::new();
        for n in 0..len
            invariant
                seen@.len() == n,
                forall|m: int| 0 <= m < n ==> !(#[trigger] seen@[m]),
        {
            seen.push(false);
        }
        // the edge by which each node was reached
        let ghost mut edges: Seq<(int, int)> = Seq::new(len as nat, |n: int| (0, 0));
        for p in 0..len
            invariant
                len == self.primary.control@.len(),
                acyclic(self.control_graph()),
                seen@.len() == len,
                edges.len() == len,
                forall|n: int|
                    0 <= n < len && #[trigger] seen@[n] ==> 0 <= edges[n].0 < p && self.is_child(
                        edges[n].0,
                        edges[n].1,
                        n,
                    ),
                forall|q: int, j: int|
                    0 <= q < p && 0 <= j < self.control_graph()[q].len() ==> {
                        let n = (#[trigger] self.control_graph()[q][j]) as int;
                        n < len && seen@[n] && edges[n] == (q, j)
                    },
        {
            let node = self.primary.control.get(ControlIdx(p));
            let count: usize = node.child_count();
            for i in 0..count
                invariant
                    p < len == self.primary.control@.len(),
                    acyclic(self.control_graph()),
                    *node == self.control(p as int),
                    count == node.children().len(),
                    seen@.len() == len,
                    edges.len() == len,
                    forall|n: int|
                        0 <= n < len && #[trigger] seen@[n] ==> 0 <= edges[n].0 <= p && (edges[n].0
                            == p ==> edges[n].1 < i) && self.is_child(edges[n].0, edges[n].1, n),
                    forall|q: int, j: int|
                        0 <= q <= p && 0 <= j < self.control_graph()[q].len() && (q == p ==> j < i)
                            ==> {
                            let n = (#[trigger] self.control_graph()[q][j]) as int;
                            n < len && seen@[n] && edges[n] == (q, j)
                        },
            {
                let child: usize = node.child(i).0;
                proof {
                    rank_drops(self.control_graph(), p as int, i as int);
                    assert(self.control_graph()[p as int][i as int] == child);
                }
                if seen[child] {
                    proof {
                        let (q, j) = edges[child as int];
                        assert(self.is_child(q, j, child as int));
                        assert(self.control_graph()[q][j] == self.control_graph()[p as int][i as int]);
                    }
                    return false;
                }
                seen.set(child, true);
                proof {
                    edges = edges.update(child as int, (p as int, i as int));
                    assert(self.is_child(p as int, i as int, child as int));
                }
            }
        }
        proof {
            assert forall|p: int, i: int, q: int, j: int|
                #![trigger self.control_graph()[p][i], self.control_graph()[q][j]]
                0 <= p < self.primary.control@.len() && 0 <= i < self.control_graph()[p].len() && 0
                    <= q < self.primary.control@.len() && 0 <= j < self.control_graph()[q].len()
                    && self.control_graph()[p][i] == self.control_graph()[q][j] implies p == q && i
                == j by {
                let n = self.control_graph()[p][i] as int;
                assert(edges[n] == (p, i));
                assert(edges[n] == (q, j));
            }
        }
        true
    }
}

// Where the parts of a component lie.
impl Context {
    /// Checks that the holes of a component's groups take the places that are
    /// theirs.
    fn are_holes_placed(&self, c: ComponentIdx) -> (answer: bool)
        requires
            c.0 < self.secondary.components@.len(),
            self.comp(c.0 as int).definitions.groups.len() > 0 ==> self.comp(
                c.0 as int,
            ).definitions.groups.end.0 <= self.primary.groups@.len(),
        ensures
            answer == forall|j: int|
                0 <= j < self.comp(c.0 as int).definitions.groups.len()
                    ==> #[trigger] self.holes_placed(c.0 as int, j),
    {
        let comp = self.secondary.components.get(c);
        let signature: usize = comp.signature.size();
        let groups = comp.definitions.groups;
        let len: usize = groups.size();
        for j in 0..len
            invariant
                len == groups.len(),
                groups == self.comp(c.0 as int).definitions.groups,
                signature == self.comp(c.0 as int).signature.len(),
                groups.len() > 0 ==> groups.end.0 <= self.primary.groups@.len(),
                forall|k: int| 0 <= k < j ==> #[trigger] self.holes_placed(c.0 as int, k),
        {
            let group = self.primary.groups.get(GroupIdx(groups.start.0 + j));
            let place: u128 = signature as u128 + 2 * (j as u128);
            let go: u128 = group.go.0 as u128;
            let done: u128 = group.done.0 as u128;
            if !((go == place && done == place + 1) || (done == place && go == place + 1)) {
                assert(!self.holes_placed(c.0 as int, j as int));
                return false;
            }
        }
        true
    }

    /// Checks that a component's cells are at their places. Returns how many
    /// places they take, or nothing if they are not, or if there are more of
    /// them than the component says.
    fn place_cells(&self, c: ComponentIdx) -> (end: Option<(usize, usize, usize, usize)>)
        requires
            c.0 < self.secondary.components@.len(),
            self.cells_defined(c.0 as int),
            self.present(c.0 as int),
            acyclic(self.component_graph()),
        ensures
            match end {
                Some((port, cell, ref_cell, ref_port)) => {
                    &&& forall|i: int|
                        0 <= i < self.entries(c.0 as int).len() ==> #[trigger] self.entry_placed(
                            c.0 as int,
                            i,
                        )
                    &&& port == self.walk_end(c.0 as int).port
                    &&& cell == self.walk_end(c.0 as int).cell
                    &&& ref_cell == self.walk_end(c.0 as int).ref_cell
                    &&& ref_port == self.walk_end(c.0 as int).ref_port
                },
                None => !self.placed(c.0 as int),
            },
    {
        let comp = self.secondary.components.get(c);
        let ghost d = c.0 as int;
        let max: u128 = usize::MAX as u128;
        let groups: usize = comp.definitions.groups.size();
        let mut port: u128 = comp.signature.size() as u128 + 2 * (groups as u128);
        let mut cell: u128 = 0;
        let mut ref_cell: u128 = 0;
        let mut ref_port: u128 = 0;
        if port > max {
            proof {
                self.too_many_places(d, 0);
            }
            return None;
        }
        let len: usize = comp.cell_offset_map.len();
        proof {
            self.kinds_add_up(d, len as int);
        }
        // primitives come first
        for i in 0..len
            invariant
                len == self.listed(d).len(),
                d == c.0,
                0 <= d < self.secondary.components@.len(),
                *comp == self.comp(d),
                max == usize::MAX,
                self.cells_defined(d),
                port == self.walk(d, self.primitives(d, i as int).len() as int).port,
                cell == self.walk(d, self.primitives(d, i as int).len() as int).cell,
                self.walk(d, self.primitives(d, i as int).len() as int).ref_cell == 0,
                self.walk(d, self.primitives(d, i as int).len() as int).ref_port == 0,
                port <= max,
                cell <= max,
                forall|k: int|
                    0 <= k < self.primitives(d, i as int).len() ==> #[trigger] self.entry_placed(
                        d,
                        k,
                    ),
        {
            let (offset, def) = comp.cell_offset_map.entries[i];
            assert(self.listed(d)[i as int] == (offset, def));
            let info = self.secondary.cells.get(def);
            if !info.prototype.is_component() {
                let ghost k = self.turn(d, i as int);
                proof {
                    self.cell_has_its_turn(d, i as int);
                }
                let size: usize = info.ports.size();
                if offset.0 as u128 != cell || (size > 0 && info.ports.start.0 as u128 != port) {
                    assert(!self.entry_placed(d, k));
                    return None;
                }
                assert(self.entry_placed(d, k));
                port = port + size as u128;
                cell = cell + 1;
                if port > max || cell > max {
                    proof {
                        self.too_many_places(d, k + 1);
                    }
                    return None;
                }
            }
        }
        // sub-components come after them
        let ghost primitives = self.primitives(d, len as int).len() as int;
        for i in 0..len
            invariant
                len == self.listed(d).len(),
                d == c.0,
                0 <= d < self.secondary.components@.len(),
                *comp == self.comp(d),
                max == usize::MAX,
                self.cells_defined(d),
                self.present(d),
                acyclic(self.component_graph()),
                primitives == self.primitives(d, len as int).len(),
                port == self.walk(d, primitives + self.sub_components(d, i as int).len()).port,
                cell == self.walk(d, primitives + self.sub_components(d, i as int).len()).cell,
                ref_cell == self.walk(
                    d,
                    primitives + self.sub_components(d, i as int).len(),
                ).ref_cell,
                ref_port == self.walk(
                    d,
                    primitives + self.sub_components(d, i as int).len(),
                ).ref_port,
                port <= max,
                cell <= max,
                ref_cell <= max,
                ref_port <= max,
                forall|k: int|
                    0 <= k < primitives + self.sub_components(d, i as int).len()
                        ==> #[trigger] self.entry_placed(d, k),
        {
            let (offset, def) = comp.cell_offset_map.entries[i];
            assert(self.listed(d)[i as int] == (offset, def));
            let info = self.secondary.cells.get(def);
            match info.prototype.as_component() {
                Some(component) => {
                    let ghost k = self.turn(d, i as int);
                    proof {
                        self.cell_has_its_turn(d, i as int);
                        self.listed_rank_drops(d, i as int);
                    }
                    let child = self.secondary.components.get(component);
                    let ports_end: u128 = port + child.port_offset_map.count() as u128;
                    let own_ports = info.ports.size() == 0 || (port <= info.ports.start.0 as u128
                        && info.ports.end.0 as u128 <= ports_end);
                    if offset.0 as u128 != cell || !own_ports {
                        assert(!self.entry_placed(d, k));
                        return None;
                    }
                    assert(self.entry_placed(d, k));
                    port = ports_end;
                    cell = cell + child.cell_offset_map.count() as u128 + 1;
                    ref_cell = ref_cell + child.ref_cell_offset_map.count() as u128;
                    ref_port = ref_port + child.ref_port_offset_map.count() as u128;
                    if port > max || cell > max || ref_cell > max || ref_port > max {
                        proof {
                            self.too_many_places(d, k + 1);
                        }
                        return None;
                    }
                },
                None => {},
            }
        }
        Some((port as usize, cell as usize, ref_cell as usize, ref_port as usize))
    }

    /// A component whose cells take more places than a word can count is not
    /// valid.
    proof fn too_many_places(&self, c: int, i: int)
        requires
            0 <= i <= self.entries(c).len(),
            self.walk(c, i).port > usize::MAX || self.walk(c, i).cell > usize::MAX || self.walk(
                c,
                i,
            ).ref_cell > usize::MAX || self.walk(c, i).ref_port > usize::MAX,
        ensures
            !self.placed(c),
    {
        self.walk_grows(c, i, self.entries(c).len() as int);
        self.ref_walk_grows(c, 0, self.ref_entries(c).len() as int);
    }

    /// Checks that a component's parts are numbered in the order in which an
    /// instance of it is laid out.
    fn is_placed(&self, c: ComponentIdx) -> (answer: bool)
        requires
            c.0 < self.secondary.components@.len(),
            self.cells_defined(c.0 as int),
            self.present(c.0 as int),
            acyclic(self.component_graph()),
        ensures
            answer == self.placed(c.0 as int),
    {
        let comp = self.secondary.components.get(c);
        let ghost d = c.0 as int;
        if comp.signature.size() > 0 && comp.signature.start.0 != 0 {
            return false;
        }
        let groups = comp.definitions.groups;
        if groups.size() > 0 && groups.end.0 > self.primary.groups.len() {
            return false;
        }
        if !self.are_holes_placed(c) {
            return false;
        }
        let (port, cell, ref_cell, ref_start) = match self.place_cells(c) {
            Some(end) => end,
            None => {
                return false;
            },
        };
        if comp.port_offset_map.count() != port || comp.cell_offset_map.count() != cell {
            return false;
        }
        let max: u128 = usize::MAX as u128;
        let mut ref_port: u128 = ref_start as u128;
        let len: usize = comp.ref_cell_offset_map.len();
        for i in 0..len
            invariant
                len == self.ref_entries(d).len(),
                d == c.0,
                0 <= d < self.secondary.components@.len(),
                *comp == self.comp(d),
                max == usize::MAX,
                self.cells_defined(d),
                ref_cell == self.walk_end(d).ref_cell,
                ref_port == self.ref_walk(d, i as int),
                ref_port <= max,
                forall|k: int| 0 <= k < i ==> #[trigger] self.ref_entry_placed(d, k),
        {
            let (offset, def) = comp.ref_cell_offset_map.entries[i];
            assert(self.ref_entries(d)[i as int] == (offset, def));
            let info = self.secondary.ref_cells.get(def);
            let size: usize = info.ports.size();
            if offset.0 as u128 != ref_cell as u128 + i as u128 || (size > 0
                && info.ports.start.0 as u128 != ref_port) {
                assert(!self.ref_entry_placed(d, i as int));
                return false;
            }
            assert(self.ref_entry_placed(d, i as int));
            ref_port = ref_port + size as u128;
            if ref_port > max {
                proof {
                    self.ref_walk_grows(d, i + 1, len as int);
                }
                return false;
            }
        }
        comp.ref_cell_offset_map.count() as u128 == ref_cell as u128 + len as u128
            && comp.ref_port_offset_map.count() as u128 == ref_port
    }
}

// What a component's control program, groups and assignments refer to.
impl Context {
    /// Checks that a port reference lies within a component.
    fn does_ref_fit(&self, c: ComponentIdx, port: &PortRef) -> (answer: bool)
        requires
            c.0 < self.secondary.components@.len(),
        ensures
            answer == self.ref_fits(c.0 as int, *port),
    {
        let comp = self.secondary.components.get(c);
        match port {
            PortRef::Local(l) => l.0 < comp.port_offset_map.count(),
            PortRef::Ref(r) => r.0 < comp.ref_port_offset_map.count(),
        }
    }

    /// The ports that a guard reads lie within a component.
    spec fn guard_fits(&self, c: int, g: int) -> bool {
        forall|p: PortRef| self.guard_ports(g).contains(p) ==> #[trigger] self.ref_fits(c, p)
    }

    /// Checks that the ports that a guard reads lie within a component.
    fn does_guard_fit(&self, c: ComponentIdx, g: GuardIdx) -> (answer: bool)
        requires
            c.0 < self.secondary.components@.len(),
            acyclic(self.guard_graph()),
            g.0 < self.primary.guards@.len(),
        ensures
            answer == self.guard_fits(c.0 as int, g.0 as int),
        decreases rank_of(self.guard_graph(), g.0 as int),
    {
        let ghost all = self.guard_ports(g.0 as int);
        proof {
            self.guard_rank_drops(g.0 as int);
        }
        match self.primary.guards.get(g) {
            Guard::True => true,
            Guard::Or(a, b) => self.does_guard_fit(c, *a) && self.does_guard_fit(c, *b),
            Guard::And(a, b) => self.does_guard_fit(c, *a) && self.does_guard_fit(c, *b),
            Guard::Not(a) => self.does_guard_fit(c, *a),
            Guard::Comp(_, a, b) => {
                assert(all.contains(*a) && all.contains(*b));
                self.does_ref_fit(c, a) && self.does_ref_fit(c, b)
            },
            Guard::Port(p) => {
                assert(all.contains(*p));
                self.does_ref_fit(c, p)
            },
        }
    }

    /// Checks that an assignment stays within a component.
    fn does_assignment_fit(&self, c: ComponentIdx, a: AssignmentIdx) -> (answer: bool)
        requires
            c.0 < self.secondary.components@.len(),
            acyclic(self.guard_graph()),
            a.0 < self.primary.assignments@.len(),
        ensures
            answer == self.assignment_fits(c.0 as int, a.0 as int),
    {
        let assign = self.primary.assignments.get(a);
        if assign.guard.0 >= self.primary.guards.len() {
            return false;
        }
        proof {
            let all = self.assignment_ports(a.0 as int);
            assert(all.contains(assign.src) && all.contains(assign.dst));
            assert forall|p: PortRef|
                self.guard_ports(assign.guard.0 as int).contains(p) implies all.contains(p) by {}
        }
        self.does_ref_fit(c, &assign.src) && self.does_ref_fit(c, &assign.dst)
            && self.does_guard_fit(c, assign.guard)
    }

    /// Checks that a group's assignments stay within a component.
    fn does_group_fit(&self, c: ComponentIdx, g: GroupIdx) -> (answer: bool)
        requires
            c.0 < self.secondary.components@.len(),
            acyclic(self.guard_graph()),
            g.0 < self.primary.groups@.len(),
        ensures
            answer == self.group_fits(c.0 as int, g.0 as int),
    {
        let range = self.primary.groups.get(g).assignments;
        let len: usize = range.size();
        if len > 0 && range.end.0 > self.primary.assignments.len() {
            return false;
        }
        for i in 0..len
            invariant
                len == range.len(),
                c.0 < self.secondary.components@.len(),
                acyclic(self.guard_graph()),
                range == self.group(g.0 as int).assignments,
                len > 0 ==> range.end.0 <= self.primary.assignments@.len(),
                forall|a: int|
                    range.start.0 <= a < range.start.0 + i ==> #[trigger] self.assignment_fits(
                        c.0 as int,
                        a,
                    ),
        {
            if !self.does_assignment_fit(c, AssignmentIdx(range.start.0 + i)) {
                assert(range.has(range.start.0 + i));
                return false;
            }
        }
        true
    }

    /// Checks that a control node stays within a component.
    fn does_node_fit(&self, c: ComponentIdx, n: ControlIdx) -> (answer: bool)
        requires
            c.0 < self.secondary.components@.len(),
            n.0 < self.primary.control@.len(),
        ensures
            answer == self.node_fits(c.0 as int, n.0 as int),
    {
        let definitions = &self.secondary.components.get(c).definitions;
        let node = self.primary.control.get(n);
        let count: usize = node.child_count();
        for i in 0..count
            invariant
                count == node.children().len(),
                n.0 < self.primary.control@.len(),
                *node == self.control(n.0 as int),
                *definitions == self.comp(c.0 as int).definitions,
                forall|j: int|
                    0 <= j < i ==> definitions.control.has(
                        (#[trigger] self.control_graph()[n.0 as int][j]) as int,
                    ),
        {
            let child = node.child(i);
            assert(self.control_graph()[n.0 as int][i as int] == child.0);
            if !definitions.control.contains(child) {
                return false;
            }
        }
        match node {
            ControlNode::Enable(g) => definitions.groups.contains(*g),
            ControlNode::If(i) => self.does_ref_fit(c, &i.cond_port),
            ControlNode::While(w) => self.does_ref_fit(c, &w.cond_port),
            _ => true,
        }
    }

    /// Every node above one of a component's control nodes is the component's.
    spec fn control_closed(&self, c: int) -> bool {
        let control = self.comp(c).definitions.control;
        forall|p: int, i: int|
            0 <= p < self.primary.control@.len() && 0 <= i < self.control_graph()[p].len()
                && control.has((#[trigger] self.control_graph()[p][i]) as int) ==> control.has(p)
    }

    /// Checks that every node above one of a component's control nodes is the
    /// component's.
    fn is_control_closed(&self, c: ComponentIdx) -> (answer: bool)
        requires
            c.0 < self.secondary.components@.len(),
        ensures
            answer == self.control_closed(c.0 as int),
    {
        let control = self.secondary.components.get(c).definitions.control;
        let len: usize = self.primary.control.len();
        for p in 0..len
            invariant
                len == self.primary.control@.len(),
                control == self.comp(c.0 as int).definitions.control,
                forall|q: int, i: int|
                    0 <= q < p && 0 <= i < self.control_graph()[q].len() && control.has(
                        (#[trigger] self.control_graph()[q][i]) as int,
                    ) ==> control.has(q),
        {
            let node = self.primary.control.get(ControlIdx(p));
            let inside = control.contains(ControlIdx(p));
            let count: usize = node.child_count();
            for i in 0..count
                invariant
                    p < len == self.primary.control@.len(),
                    control == self.comp(c.0 as int).definitions.control,
                    *node == self.control(p as int),
                    count == node.children().len(),
                    inside == control.has(p as int),
                    forall|j: int|
                        0 <= j < i && control.has(
                            (#[trigger] self.control_graph()[p as int][j]) as int,
                        ) ==> inside,
            {
                let child = node.child(i);
                assert(self.control_graph()[p as int][i as int] == child.0);
                if control.contains(child) && !inside {
                    return false;
                }
            }
        }
        true
    }

    /// Checks that a component's control program, groups and assignments stay
    /// within it.
    fn is_runnable(&self, c: ComponentIdx) -> (answer: bool)
        requires
            c.0 < self.secondary.components@.len(),
            self.primary.components@.len() == self.secondary.components@.len(),
            acyclic(self.guard_graph()),
            self.placed(c.0 as int),
        ensures
            answer == self.runnable(c.0 as int),
    {
        let definitions = &self.secondary.components.get(c).definitions;
        let control = definitions.control;
        let groups = definitions.groups;
        match self.primary.components.get(c).control {
            Some(root) => {
                if !control.contains(root) {
                    return false;
                }
            },
            None => {},
        }
        let nodes: usize = control.size();
        if nodes > 0 && control.end.0 > self.primary.control.len() {
            return false;
        }
        for i in 0..nodes
            invariant
                nodes == control.len(),
                c.0 < self.secondary.components@.len(),
                control == self.comp(c.0 as int).definitions.control,
                nodes > 0 ==> control.end.0 <= self.primary.control@.len(),
                forall|n: int|
                    control.start.0 <= n < control.start.0 + i ==> #[trigger] self.node_fits(
                        c.0 as int,
                        n,
                    ),
        {
            if !self.does_node_fit(c, ControlIdx(control.start.0 + i)) {
                assert(control.has(control.start.0 + i));
                return false;
            }
        }
        if !self.is_control_closed(c) {
            return false;
        }
        let len: usize = groups.size();
        for j in 0..len
            invariant
                len == groups.len(),
                c.0 < self.secondary.components@.len(),
                acyclic(self.guard_graph()),
                groups == self.comp(c.0 as int).definitions.groups,
                len > 0 ==> groups.end.0 <= self.primary.groups@.len(),
                forall|g: int|
                    groups.start.0 <= g < groups.start.0 + j ==> #[trigger] self.group_fits(
                        c.0 as int,
                        g,
                    ),
        {
            if !self.does_group_fit(c, GroupIdx(groups.start.0 + j)) {
                assert(groups.has(groups.start.0 + j));
                return false;
            }
        }
        true
    }

    /// Checks that the program can be laid out.
    pub fn is_layable(&self) -> (answer: bool)
        ensures
            answer == self.layable(),
    {
        let len: usize = self.secondary.components.len();
        if self.primary.components.len() != len || self.entry_point.0 >= len {
            return false;
        }
        if self.secondary.components.get(self.entry_point).cell_offset_map.count() == usize::MAX {
            return false;
        }
        let present = match self.find_present() {
            Some(present) => present,
            None => {
                return false;
            },
        };
        if !is_acyclic(&self.component_lists(&present)) {
            return false;
        }
        for c in 0..len
            invariant
                len == self.secondary.components@.len() == present@.len(),
                acyclic(self.component_graph()),
                forall|d: int|
                    0 <= d < len ==> (#[trigger] present@[d] == self.present(d)) && (present@[d]
                        ==> self.cells_defined(d)),
                forall|d: int|
                    #![trigger self.placed(d)]
                    d < c && self.present(d) ==> self.placed(d),
        {
            if present[c] && !self.is_placed(ComponentIdx(c)) {
                return false;
            }
        }
        true
    }

    /// Checks that the program can be laid out and run.
    pub fn is_valid(&self) -> (answer: bool)
        ensures
            answer == self.wf(),
    {
        if !self.is_layable() {
            return false;
        }
        if !is_acyclic(&self.guard_lists()) || !is_acyclic(&self.control_lists()) {
            return false;
        }
        if !self.is_forest() {
            return false;
        }
        let present = match self.find_present() {
            Some(present) => present,
            None => {
                return false;
            },
        };
        let len: usize = self.secondary.components.len();
        for c in 0..len
            invariant
                len == self.secondary.components@.len() == present@.len(),
                self.layable(),
                acyclic(self.guard_graph()),
                forall|d: int| 0 <= d < len ==> (#[trigger] present@[d] == self.present(d)),
                forall|d: int|
                    #![trigger self.runnable(d)]
                    d < c && self.present(d) ==> self.runnable(d),
        {
            if present[c] {
                assert(self.placed(c as int));
                if !self.is_runnable(ComponentIdx(c)) {
                    return false;
                }
            }
        }
        true
    }

    proof fn placed_cells_are_defined(&self, c: int)
        requires
            self.placed(c),
        ensures
            self.cells_defined(c),
    {
        assert forall|i: int| 0 <= i < self.listed(c).len() implies (
        #[trigger] self.listed(c)[i]).1.0 < self.secondary.cells@.len() by {
            self.cell_has_its_turn(c, i);
            assert(self.entry_placed(c, self.turn(c, i)));
        }
        assert forall|i: int| 0 <= i < self.ref_entries(c).len() implies (
        #[trigger] self.ref_entries(c)[i]).1.0 < self.secondary.ref_cells@.len() by {
            assert(self.ref_entry_placed(c, i));
        }
    }
}

// Names.
impl Context {
    /// Checks that a port of a component is defined and named.
    fn is_port_named(&self, c: ComponentIdx, port: LocalPortOffset) -> (answer: bool)
        requires
            c.0 < self.secondary.components@.len(),
        ensures
            answer == self.port_named(c.0 as int, port.0 as int),
    {
        let map = &self.secondary.components.get(c).port_offset_map;
        match map.find(port) {
            Some(def) => port.0 < map.count() && def.0 < self.secondary.ports.len()
                && self.secondary.ports.get(*def).name.0 < self.secondary.names.len(),
            None => false,
        }
    }

    /// Checks that a cell is named, and its ports are.
    fn is_entry_named(&self, c: ComponentIdx, i: usize) -> (answer: bool)
        requires
            c.0 < self.secondary.components@.len(),
            i < self.listed(c.0 as int).len(),
            self.cells_defined(c.0 as int),
        ensures
            answer == self.entry_named(c.0 as int, i as int),
    {
        let (_, def) = self.secondary.components.get(c).cell_offset_map.entries[i];
        assert(self.listed(c.0 as int)[i as int].1 == def);
        let info = self.secondary.cells.get(def);
        if info.name.0 >= self.secondary.names.len() {
            return false;
        }
        let ports = info.ports;
        let len: usize = ports.size();
        for k in 0..len
            invariant
                len == ports.len(),
                c.0 < self.secondary.components@.len(),
                ports == self.listed_def(c.0 as int, i as int).ports,
                forall|p: int|
                    ports.start.0 <= p < ports.start.0 + k ==> #[trigger] self.port_named(
                        c.0 as int,
                        p,
                    ),
        {
            if !self.is_port_named(c, LocalPortOffset(ports.start.0 + k)) {
                assert(ports.has(ports.start.0 + k));
                return false;
            }
        }
        true
    }

    /// Checks that the cells of a component are named.
    fn is_component_named(&self, c: ComponentIdx) -> (answer: bool)
        requires
            c.0 < self.secondary.components@.len(),
            self.cells_defined(c.0 as int),
        ensures
            answer == self.component_named(c.0 as int),
    {
        let cells: usize = self.secondary.components.get(c).cell_offset_map.len();
        for i in 0..cells
            invariant
                c.0 < self.secondary.components@.len(),
                cells == self.listed(c.0 as int).len(),
                self.cells_defined(c.0 as int),
                forall|j: int| 0 <= j < i ==> #[trigger] self.entry_named(c.0 as int, j),
        {
            if !self.is_entry_named(c, i) {
                return false;
            }
        }
        true
    }

    /// Checks that everything has a name that is reported by name.
    pub fn is_named(&self) -> (answer: bool)
        requires
            self.layable(),
        ensures
            answer == self.named(),
    {
        let entry = self.secondary.components.get(self.entry_point);
        if entry.name.0 >= self.secondary.names.len() {
            return false;
        }
        let present = match self.find_present() {
            Some(present) => present,
            None => {
                return false;
            },
        };
        let len: usize = self.secondary.components.len();
        for c in 0..len
            invariant
                len == self.secondary.components@.len() == present@.len(),
                forall|d: int|
                    0 <= d < len ==> (#[trigger] present@[d] == self.present(d)) && (present@[d]
                        ==> self.cells_defined(d)),
                forall|d: int|
                    #![trigger self.component_named(d)]
                    d < c && self.present(d) ==> self.component_named(d),
        {
            if present[c] && !self.is_component_named(ComponentIdx(c)) {
                return false;
            }
        }
        true
    }
}

} // verus!
