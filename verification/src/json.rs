//! Serializable state as JSON text.

use crate::serialization::{
    Entry, EntryView, Nested, NestedView, Serializable, SerializableView, array_text, cube_text,
    cube_view, flattened_add, grid_text, grid_view, nested_array, nesting_keeps_entries, row_text,
    row_view, tesseract_text, tesseract_view,
};
use crate::text::{
    all_without_spaces, bracketed, decimal_has_no_spaces, decimal_signed, flattened, joined,
    no_spaces_stay, without_spaces, without_spaces_add, without_spaces_joined,
};
use vstd::prelude::*;

verus! {

/// A JSON list: the texts of its items in square brackets, separated by commas
/// and nothing else.
pub open spec fn json_list(items: Seq<Seq<char>>) -> Seq<char> {
    "["@ + joined(items, ","@) + "]"@
}

/// A list of numbers as JSON.
pub open spec fn numbers_json(row: Seq<i128>) -> Seq<char> {
    json_list(Seq::new(row.len(), |i: int| decimal_signed(row[i] as int)))
}

/// A list of lists of numbers as JSON.
pub open spec fn number_grid_json(grid: Seq<Vec<i128>>) -> Seq<char> {
    json_list(Seq::new(grid.len(), |i: int| numbers_json(grid[i]@)))
}

/// Numbers nested three deep as JSON.
pub open spec fn number_cube_json(cube: Seq<Vec<Vec<i128>>>) -> Seq<char> {
    json_list(Seq::new(cube.len(), |i: int| number_grid_json(cube[i]@)))
}

/// Numbers nested four deep as JSON.
pub open spec fn number_tesseract_json(tesseract: Seq<Vec<Vec<Vec<i128>>>>) -> Seq<char> {
    json_list(Seq::new(tesseract.len(), |i: int| number_cube_json(tesseract[i]@)))
}

/// `serde_json::to_string` on the unit value, which it writes as `null`. It
/// writes into memory, so that it never fails.
#[verifier::external_body]
fn write_unit() -> (text: String)
    ensures
        text@ == "null"@,
{
    serde_json::to_string(&()).unwrap()
}

/// `serde_json::to_string` on a number, which it writes in decimal and never
/// fails on.
#[verifier::external_body]
fn write_number(number: i128) -> (text: String)
    ensures
        text@ == decimal_signed(number as int),
{
    serde_json::to_string(&number).unwrap()
}

/// `serde_json::to_string` on a list of numbers, which it writes in decimal,
/// in square brackets, with a comma between two neighbours, and never fails.
#[verifier::external_body]
fn write_numbers(row: &Vec<i128>) -> (text: String)
    ensures
        text@ == numbers_json(row@),
{
    serde_json::to_string(row).unwrap()
}

/// `serde_json::to_string` on a list of lists of numbers. It writes each list
/// in square brackets, with a comma between two neighbours, and never fails.
#[verifier::external_body]
fn write_number_grid(grid: &Vec<Vec<i128>>) -> (text: String)
    ensures
        text@ == number_grid_json(grid@),
{
    serde_json::to_string(grid).unwrap()
}

/// `serde_json::to_string` on numbers nested three deep. It writes each list in
/// square brackets, with a comma between two neighbours, and never fails.
#[verifier::external_body]
fn write_number_cube(cube: &Vec<Vec<Vec<i128>>>) -> (text: String)
    ensures
        text@ == number_cube_json(cube@),
{
    serde_json::to_string(cube).unwrap()
}

/// `serde_json::to_string` on numbers nested four deep. It writes each list in
/// square brackets, with a comma between two neighbours, and never fails.
#[verifier::external_body]
fn write_number_tesseract(tesseract: &Vec<Vec<Vec<Vec<i128>>>>) -> (text: String)
    ensures
        text@ == number_tesseract_json(tesseract@),
{
    serde_json::to_string(tesseract).unwrap()
}

/// Whether all entries are numbers.
pub open spec fn numbers(entries: Seq<EntryView>) -> bool {
    forall|i: int| 0 <= i < entries.len() ==> (#[trigger] entries[i]) is U || entries[i] is I
}

impl SerializableView {
    /// Whether the state holds numbers and nothing else.
    pub open spec fn numeric(self) -> bool {
        match self {
            SerializableView::Empty => true,
            SerializableView::Val(e) => e is U || e is I,
            SerializableView::Array(items, _) => numbers(items),
            SerializableView::Full(_) => false,
        }
    }
}

/// A list of entries that are numbers, as JSON.
pub open spec fn row_json(row: Seq<EntryView>) -> Seq<char> {
    json_list(Seq::new(row.len(), |i: int| row[i].text()))
}

/// A list of lists of entries that are numbers, as JSON.
pub open spec fn grid_json(grid: Seq<Seq<EntryView>>) -> Seq<char> {
    json_list(Seq::new(grid.len(), |i: int| row_json(grid[i])))
}

/// Entries that are numbers, nested three deep, as JSON.
pub open spec fn cube_json(cube: Seq<Seq<Seq<EntryView>>>) -> Seq<char> {
    json_list(Seq::new(cube.len(), |i: int| grid_json(cube[i])))
}

/// Entries that are numbers, nested four deep, as JSON.
pub open spec fn tesseract_json(tesseract: Seq<Seq<Seq<Seq<EntryView>>>>) -> Seq<char> {
    json_list(Seq::new(tesseract.len(), |i: int| cube_json(tesseract[i])))
}

/// The JSON text of nested lists of numbers. It is not defined for a whole
/// component's state.
pub open spec fn nested_json(nested: NestedView) -> Seq<char> {
    match nested {
        NestedView::Unit => "null"@,
        NestedView::Leaf(e) => e.text(),
        NestedView::D1(items) => row_json(items),
        NestedView::D2(items) => grid_json(items),
        NestedView::D3(items) => cube_json(items),
        NestedView::D4(items) => tesseract_json(items),
        NestedView::Full(_) => arbitrary(),
    }
}

/// One of several lists put end to end, with those before and behind it.
proof fn flattened_around<T>(lists: Seq<Seq<T>>, i: int)
    requires
        0 <= i < lists.len(),
    ensures
        flattened(lists) == flattened(lists.take(i)) + lists[i] + flattened(lists.skip(i + 1)),
        flattened(lists.take(i + 1)) == flattened(lists.take(i)) + lists[i],
{
    reveal_with_fuel(flattened, 2);
    let one = seq![lists[i]];
    assert(one.skip(1) =~= Seq::empty());
    assert(flattened(one) =~= lists[i]);
    flattened_add(lists.take(i), one);
    assert(lists.take(i + 1) =~= lists.take(i) + one);
    flattened_add(lists.take(i + 1), lists.skip(i + 1));
    assert(lists =~= lists.take(i + 1) + lists.skip(i + 1));
}

/// Two lists hold numbers only where each of them does.
proof fn numbers_add(a: Seq<EntryView>, b: Seq<EntryView>)
    ensures
        numbers(a + b) == (numbers(a) && numbers(b)),
{
    if numbers(a + b) {
        assert forall|i: int| 0 <= i < a.len() implies (#[trigger] a[i]) is U || a[i] is I by {
            assert((a + b)[i] == a[i]);
        }
        assert forall|i: int| 0 <= i < b.len() implies (#[trigger] b[i]) is U || b[i] is I by {
            assert((a + b)[a.len() + i] == b[i]);
        }
    }
}

/// Several lists hold numbers only where each of them does.
proof fn numbers_around(lists: Seq<Seq<EntryView>>, i: int)
    requires
        0 <= i < lists.len(),
    ensures
        numbers(flattened(lists)) ==> numbers(lists[i]),
        numbers(flattened(lists.take(i + 1))) == (numbers(flattened(lists.take(i))) && numbers(
            lists[i],
        )),
{
    flattened_around(lists, i);
    numbers_add(flattened(lists.take(i)) + lists[i], flattened(lists.skip(i + 1)));
    numbers_add(flattened(lists.take(i)), lists[i]);
}

/// Lists nested three deep hold numbers only where each of them does.
proof fn numbers_around_deep(lists: Seq<Seq<Seq<EntryView>>>, i: int)
    requires
        0 <= i < lists.len(),
    ensures
        numbers(flattened(flattened(lists))) ==> numbers(flattened(lists[i])),
        numbers(flattened(flattened(lists.take(i + 1)))) == (numbers(
            flattened(flattened(lists.take(i))),
        ) && numbers(flattened(lists[i]))),
{
    let before = flattened(lists.take(i));
    let behind = flattened(lists.skip(i + 1));
    flattened_around(lists, i);
    flattened_add(before, lists[i]);
    flattened_add(before + lists[i], behind);
    numbers_add(flattened(before), flattened(lists[i]));
    numbers_add(flattened(before + lists[i]), flattened(behind));
}

/// Lists nested four deep hold numbers only where each of them does.
proof fn numbers_around_deepest(lists: Seq<Seq<Seq<Seq<EntryView>>>>, i: int)
    requires
        0 <= i < lists.len(),
    ensures
        numbers(flattened(flattened(flattened(lists)))) ==> numbers(
            flattened(flattened(lists[i])),
        ),
        numbers(flattened(flattened(flattened(lists.take(i + 1))))) == (numbers(
            flattened(flattened(flattened(lists.take(i)))),
        ) && numbers(flattened(flattened(lists[i])))),
{
    let before = flattened(lists.take(i));
    let behind = flattened(lists.skip(i + 1));
    flattened_around(lists, i);
    flattened_add(before, lists[i]);
    flattened_add(before + lists[i], behind);
    flattened_add(flattened(before), flattened(lists[i]));
    flattened_add(flattened(before + lists[i]), flattened(behind));
    numbers_add(flattened(flattened(before)), flattened(flattened(lists[i])));
    numbers_add(flattened(flattened(before + lists[i])), flattened(flattened(behind)));
}

/// The number in an entry, if it is one.
fn entry_number(entry: &Entry) -> (number: Option<i128>)
    ensures
        match number {
            Some(n) => (entry@ is U || entry@ is I) && entry@.text() == decimal_signed(n as int),
            None => !(entry@ is U || entry@ is I),
        },
{
    match entry {
        Entry::U(u) => Some(*u as i128),
        Entry::I(i) => Some(*i as i128),
        _ => None,
    }
}

/// The numbers in a list, if it holds nothing else.
fn row_numbers(row: &Vec<&Entry>) -> (found: Option<Vec<i128>>)
    ensures
        match found {
            Some(v) => numbers(row_view(row@)) && numbers_json(v@) == row_json(row_view(row@)),
            None => !numbers(row_view(row@)),
        },
{
    let mut found: Vec<i128> = Vec::with_capacity(row.len());
    let ghost entries = row_view(row@);
    for i in 0..row.len()
        invariant
            entries == row_view(row@),
            found@.len() == i,
            forall|j: int|
                0 <= j < i ==> ((#[trigger] entries[j]) is U || entries[j] is I) && entries[j].text()
                    == decimal_signed(found@[j] as int),
    {
        assert(entries[i as int] == row@[i as int]@);
        match entry_number(row[i]) {
            Some(number) => found.push(number),
            None => {
                return None;
            },
        }
    }
    assert(Seq::new(found@.len(), |j: int| decimal_signed(found@[j] as int)) =~= Seq::new(
        entries.len(),
        |j: int| entries[j].text(),
    ));
    Some(found)
}

/// The numbers in a list of lists, if it holds nothing else.
fn grid_numbers(grid: &Vec<Vec<&Entry>>) -> (found: Option<Vec<Vec<i128>>>)
    ensures
        match found {
            Some(v) => numbers(flattened(grid_view(grid@))) && number_grid_json(v@) == grid_json(grid_view(grid@)),
            None => !numbers(flattened(grid_view(grid@))),
        },
{
    let mut found: Vec<Vec<i128>> = Vec::with_capacity(grid.len());
    let ghost entries = grid_view(grid@);
    assert(entries.take(0) =~= Seq::empty());
    for i in 0..grid.len()
        invariant
            entries == grid_view(grid@),
            numbers(flattened(entries.take(i as int))),
            found@.len() == i,
            forall|j: int|
                0 <= j < i ==> row_json(#[trigger] entries[j]) == numbers_json(found@[j]@),
    {
        assert(entries[i as int] == row_view(grid@[i as int]@));
        proof {
            numbers_around(entries, i as int);
        }
        match row_numbers(&grid[i]) {
            Some(list) => found.push(list),
            None => {
                return None;
            },
        }
    }
    assert(entries.take(entries.len() as int) =~= entries);
    assert(Seq::new(found@.len(), |j: int| numbers_json(found@[j]@)) =~= Seq::new(
        entries.len(),
        |j: int| row_json(entries[j]),
    ));
    Some(found)
}

/// The numbers in a list nested three deep, if it holds nothing else.
fn cube_numbers(cube: &Vec<Vec<Vec<&Entry>>>) -> (found: Option<Vec<Vec<Vec<i128>>>>)
    ensures
        match found {
            Some(v) => numbers(flattened(flattened(cube_view(cube@)))) && number_cube_json(v@) == cube_json(cube_view(cube@)),
            None => !numbers(flattened(flattened(cube_view(cube@)))),
        },
{
    let mut found: Vec<Vec<Vec<i128>>> = Vec::with_capacity(cube.len());
    let ghost entries = cube_view(cube@);
    assert(entries.take(0) =~= Seq::empty());
    for i in 0..cube.len()
        invariant
            entries == cube_view(cube@),
            numbers(flattened(flattened(entries.take(i as int)))),
            found@.len() == i,
            forall|j: int|
                0 <= j < i ==> grid_json(#[trigger] entries[j]) == number_grid_json(found@[j]@),
    {
        assert(entries[i as int] == grid_view(cube@[i as int]@));
        proof {
            numbers_around_deep(entries, i as int);
        }
        match grid_numbers(&cube[i]) {
            Some(list) => found.push(list),
            None => {
                return None;
            },
        }
    }
    assert(entries.take(entries.len() as int) =~= entries);
    assert(Seq::new(found@.len(), |j: int| number_grid_json(found@[j]@)) =~= Seq::new(
        entries.len(),
        |j: int| grid_json(entries[j]),
    ));
    Some(found)
}

/// The numbers in a list nested four deep, if it holds nothing else.
fn tesseract_numbers(tesseract: &Vec<Vec<Vec<Vec<&Entry>>>>) -> (found: Option<Vec<Vec<Vec<Vec<i128>>>>>)
    ensures
        match found {
            Some(v) => numbers(flattened(flattened(flattened(tesseract_view(tesseract@))))) && number_tesseract_json(v@) == tesseract_json(tesseract_view(tesseract@)),
            None => !numbers(flattened(flattened(flattened(tesseract_view(tesseract@))))),
        },
{
    let mut found: Vec<Vec<Vec<Vec<i128>>>> = Vec::with_capacity(tesseract.len());
    let ghost entries = tesseract_view(tesseract@);
    assert(entries.take(0) =~= Seq::empty());
    for i in 0..tesseract.len()
        invariant
            entries == tesseract_view(tesseract@),
            numbers(flattened(flattened(flattened(entries.take(i as int))))),
            found@.len() == i,
            forall|j: int|
                0 <= j < i ==> cube_json(#[trigger] entries[j]) == number_cube_json(found@[j]@),
    {
        assert(entries[i as int] == cube_view(tesseract@[i as int]@));
        proof {
            numbers_around_deepest(entries, i as int);
        }
        match cube_numbers(&tesseract[i]) {
            Some(list) => found.push(list),
            None => {
                return None;
            },
        }
    }
    assert(entries.take(entries.len() as int) =~= entries);
    assert(Seq::new(found@.len(), |j: int| number_cube_json(found@[j]@)) =~= Seq::new(
        entries.len(),
        |j: int| cube_json(entries[j]),
    ));
    Some(found)
}

impl Serializable {
    /// The state as JSON text: `null` for an empty state, a number, or nested
    /// lists of numbers. There is none where the state holds anything else.
    pub fn to_json(&self) -> (text: Option<String>)
        requires
            self matches Serializable::Array(_, shape) ==> shape.nestable(),
        ensures
            match text {
                Some(t) => self@.numeric() && t@ == nested_json(self@.nested()),
                None => !self@.numeric(),
            },
    {
        proof {
            if let SerializableView::Array(items, shape) = self@ {
                nesting_keeps_entries(items, shape);
            }
        }
        match self.serialize() {
            Nested::Unit => Some(write_unit()),
            Nested::Leaf(entry) => match entry_number(entry) {
                Some(number) => Some(write_number(number)),
                None => None,
            },
            Nested::D1(row) => match row_numbers(&row) {
                Some(found) => Some(write_numbers(&found)),
                None => None,
            },
            Nested::D2(grid) => match grid_numbers(&grid) {
                Some(found) => Some(write_number_grid(&found)),
                None => None,
            },
            Nested::D3(cube) => match cube_numbers(&cube) {
                Some(found) => Some(write_number_cube(&found)),
                None => None,
            },
            Nested::D4(tesseract) => match tesseract_numbers(&tesseract) {
                Some(found) => Some(write_number_tesseract(&found)),
                None => None,
            },
            Nested::Full(_) => None,
        }
    }
}

/// Without its spaces, a bracketed list of texts is a JSON list of those texts
/// without theirs.
proof fn bracketed_without_spaces(parts: Seq<Seq<char>>)
    ensures
        without_spaces(bracketed(parts)) == json_list(all_without_spaces(parts)),
{
    reveal_strlit("[");
    reveal_strlit("]");
    reveal_strlit(",");
    reveal_strlit(", ");
    without_spaces_add("["@ + joined(parts, ", "@), "]"@);
    without_spaces_add("["@, joined(parts, ", "@));
    without_spaces_joined(parts, ", "@);
    no_spaces_stay("["@);
    no_spaces_stay("]"@);
    no_spaces_stay(","@);
    assert(", "@ =~= ","@.push(' '));
    assert(", "@.drop_last() =~= ","@);
}

/// A number is written without spaces.
proof fn number_has_no_spaces(entry: EntryView)
    requires
        entry is U || entry is I,
    ensures
        without_spaces(entry.text()) == entry.text(),
{
    reveal_strlit("-");
    match entry {
        EntryView::U(u) => {
            decimal_has_no_spaces(u as nat);
        },
        EntryView::I(i) => {
            decimal_has_no_spaces((if i < 0 { -i } else { i as int }) as nat);
        },
        _ => {},
    }
    no_spaces_stay(entry.text());
}

/// Without its spaces, the text of a list of numbers is its JSON text.
proof fn row_text_is_json(row: Seq<EntryView>)
    requires
        numbers(row),
    ensures
        without_spaces(row_text(row)) == row_json(row),
{
    let texts = Seq::new(row.len(), |i: int| row[i].text());
    bracketed_without_spaces(texts);
    assert forall|i: int| 0 <= i < row.len() implies without_spaces(#[trigger] texts[i])
        == texts[i] by {
        number_has_no_spaces(row[i]);
    }
    assert(all_without_spaces(texts) =~= texts);
}

/// Without its spaces, the text of a list of lists of numbers is its JSON text.
proof fn grid_text_is_json(grid: Seq<Seq<EntryView>>)
    requires
        numbers(flattened(grid)),
    ensures
        without_spaces(grid_text(grid)) == grid_json(grid),
{
    let texts = Seq::new(grid.len(), |i: int| row_text(grid[i]));
    bracketed_without_spaces(texts);
    assert forall|i: int| 0 <= i < grid.len() implies without_spaces(#[trigger] texts[i])
        == row_json(grid[i]) by {
        numbers_around(grid, i);
        row_text_is_json(grid[i]);
    }
    assert(all_without_spaces(texts) =~= Seq::new(grid.len(), |i: int| row_json(grid[i])));
}

/// Without its spaces, the text of numbers nested three deep is its JSON text.
proof fn cube_text_is_json(cube: Seq<Seq<Seq<EntryView>>>)
    requires
        numbers(flattened(flattened(cube))),
    ensures
        without_spaces(cube_text(cube)) == cube_json(cube),
{
    let texts = Seq::new(cube.len(), |i: int| grid_text(cube[i]));
    bracketed_without_spaces(texts);
    assert forall|i: int| 0 <= i < cube.len() implies without_spaces(#[trigger] texts[i])
        == grid_json(cube[i]) by {
        numbers_around_deep(cube, i);
        grid_text_is_json(cube[i]);
    }
    assert(all_without_spaces(texts) =~= Seq::new(cube.len(), |i: int| grid_json(cube[i])));
}

/// Without its spaces, the text of numbers nested four deep is its JSON text.
proof fn tesseract_text_is_json(tesseract: Seq<Seq<Seq<Seq<EntryView>>>>)
    requires
        numbers(flattened(flattened(flattened(tesseract)))),
    ensures
        without_spaces(tesseract_text(tesseract)) == tesseract_json(tesseract),
{
    let texts = Seq::new(tesseract.len(), |i: int| cube_text(tesseract[i]));
    bracketed_without_spaces(texts);
    assert forall|i: int| 0 <= i < tesseract.len() implies without_spaces(#[trigger] texts[i])
        == cube_json(tesseract[i]) by {
        numbers_around_deepest(tesseract, i);
        cube_text_is_json(tesseract[i]);
    }
    assert(all_without_spaces(texts) =~= Seq::new(tesseract.len(), |i: int| cube_json(tesseract[i])));
}

/// What is shown for state that holds numbers is, once its spaces are left out,
/// the state's JSON text. For a single number the two are the same text. An
/// empty state is the exception: it is shown as nothing and its JSON text is
/// `null`. A whole component's state is shown as the document that a serializer
/// is given for it.
pub proof fn shown_text_is_json(state: SerializableView)
    requires
        state matches SerializableView::Val(_) ==> state.numeric(),
        state matches SerializableView::Array(_, shape) ==> state.numeric() && shape.nestable(),
    ensures
        match state {
            SerializableView::Empty => nested_json(state.nested()) == "null"@,
            SerializableView::Val(e) => e.text() == nested_json(state.nested()) && without_spaces(
                e.text(),
            ) == e.text(),
            SerializableView::Array(items, shape) => without_spaces(array_text(items, shape))
                == nested_json(state.nested()),
            SerializableView::Full(f) => state.nested() == NestedView::Full(f),
        },
{
    match state {
        SerializableView::Val(e) => {
            number_has_no_spaces(e);
        },
        SerializableView::Array(items, shape) => {
            nesting_keeps_entries(items, shape);
            match nested_array(items, shape) {
                NestedView::D1(row) => {
                    row_text_is_json(row);
                },
                NestedView::D2(grid) => {
                    grid_text_is_json(grid);
                },
                NestedView::D3(cube) => {
                    cube_text_is_json(cube);
                },
                NestedView::D4(tesseract) => {
                    tesseract_text_is_json(tesseract);
                },
                _ => {},
            }
        },
        _ => {},
    }
}

} // verus!
