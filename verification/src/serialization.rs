//! The state of memories and registers, arranged for output.

use crate::rational::{Rational, ratio_text, same_ratio};
use crate::text::{
    bracketed, bracketed_text, chunked, chunked_exact, chunked_flattens_back, chunks, contents,
    decimal, decimal_signed, decimal_signed_text, decimal_text, flattened,
    groups_are_full_but_the_last, joined, rows,
};
use crate::values::{PrintCode, Value, bits_text, signed, unsigned};
use vstd::arithmetic::power2::pow2;
use vstd::prelude::*;

verus! {

/// An enum wrapping over a tuple representing the shape of a multi-dimensional
/// array
#[derive(Clone, Copy, Debug, PartialEq, Eq)]
pub enum Shape {
    D1((usize,)),
    D2((usize, usize)),
    D3((usize, usize, usize)),
    D4((usize, usize, usize, usize)),
}

impl Shape {
    /// The name of the number of dimensions.
    pub open spec fn dim_name(self) -> Seq<char> {
        match self {
            Shape::D1(_) => "1D"@,
            Shape::D2(_) => "2D"@,
            Shape::D3(_) => "3D"@,
            Shape::D4(_) => "4D"@,
        }
    }

    /// Whether an array of this shape can be cut into nested lists: the lists
    /// of every level but the outermost hold something, and their sizes fit in
    /// a word.
    pub open spec fn nestable(self) -> bool {
        match self {
            Shape::D1(_) => true,
            Shape::D2(s) => s.1 > 0,
            Shape::D3(s) => 0 < s.1 * s.2 <= usize::MAX,
            Shape::D4(s) => 0 < s.2 * s.1 * s.3 <= usize::MAX,
        }
    }

    /// Checks that an array of this shape can be cut into nested lists.
    pub fn is_nestable(&self) -> (answer: bool)
        ensures
            answer == self.nestable(),
    {
        match self {
            Shape::D1(_) => true,
            Shape::D2(s) => s.1 > 0,
            Shape::D3(s) => match s.1.checked_mul(s.2) {
                Some(area) => area > 0,
                None => false,
            },
            Shape::D4(s) => is_volume(s.2, s.1, s.3),
        }
    }

    /// Whether there is only one dimension.
    pub fn is_1d(&self) -> (answer: bool)
        ensures
            answer == (self is D1),
    {
        matches!(self, Shape::D1(_))
    }

    /// The name of the number of dimensions.
    pub fn dim_str(&self) -> (name: String)
        ensures
            name@ == self.dim_name(),
    {
        match self {
            Shape::D1(_) => String::from_str("1D"),
            Shape::D2(_) => String::from_str("2D"),
            Shape::D3(_) => String::from_str("3D"),
            Shape::D4(_) => String::from_str("4D"),
        }
    }
}

/// Checks that a product of three sizes is positive and fits in a word.
fn is_volume(a: usize, b: usize, c: usize) -> (answer: bool)
    ensures
        answer == (0 < a * b * c <= usize::MAX),
{
    match a.checked_mul(b) {
        Some(area) => match area.checked_mul(c) {
            Some(volume) => volume > 0,
            None => false,
        },
        None => {
            assert(c > 0 ==> a * b * c > usize::MAX) by (nonlinear_arith)
                requires
                    a * b > usize::MAX,
                    0 <= c,
            ;
            assert(c == 0 ==> a * b * c == 0) by (nonlinear_arith);
            false
        },
    }
}

impl From<usize> for Shape {
    fn from(u: usize) -> (shape: Self) {
        Shape::D1((u,))
    }
}

impl vstd::std_specs::convert::FromSpecImpl<usize> for Shape {
    open spec fn obeys_from_spec() -> bool {
        true
    }

    open spec fn from_spec(u: usize) -> Self {
        Shape::D1((u,))
    }
}

impl From<(usize,)> for Shape {
    fn from(u: (usize,)) -> (shape: Self) {
        Shape::D1(u)
    }
}

impl vstd::std_specs::convert::FromSpecImpl<(usize,)> for Shape {
    open spec fn obeys_from_spec() -> bool {
        true
    }

    open spec fn from_spec(u: (usize,)) -> Self {
        Shape::D1(u)
    }
}

impl From<(usize, usize)> for Shape {
    fn from(u: (usize, usize)) -> (shape: Self) {
        Shape::D2(u)
    }
}

impl vstd::std_specs::convert::FromSpecImpl<(usize, usize)> for Shape {
    open spec fn obeys_from_spec() -> bool {
        true
    }

    open spec fn from_spec(u: (usize, usize)) -> Self {
        Shape::D2(u)
    }
}

impl From<(usize, usize, usize)> for Shape {
    fn from(u: (usize, usize, usize)) -> (shape: Self) {
        Shape::D3(u)
    }
}

impl vstd::std_specs::convert::FromSpecImpl<(usize, usize, usize)> for Shape {
    open spec fn obeys_from_spec() -> bool {
        true
    }

    open spec fn from_spec(u: (usize, usize, usize)) -> Self {
        Shape::D3(u)
    }
}

impl From<(usize, usize, usize, usize)> for Shape {
    fn from(u: (usize, usize, usize, usize)) -> (shape: Self) {
        Shape::D4(u)
    }
}

impl vstd::std_specs::convert::FromSpecImpl<(usize, usize, usize, usize)> for Shape {
    open spec fn obeys_from_spec() -> bool {
        true
    }

    open spec fn from_spec(u: (usize, usize, usize, usize)) -> Self {
        Shape::D4(u)
    }
}

/// A wrapper enum used during serialization. It represents either an unsigned
/// integer, a signed integer, a ratio or a bit vector, and is serialized as
/// what it wraps. This also allows mixed serialization of signed and unsigned
/// values
pub enum Entry {
    U(u64),
    I(i64),
    Frac(Rational),
    Value(Value),
}

/// What an entry stands for.
pub enum EntryView {
    U(u64),
    I(i64),
    Frac(Rational),
    Value(Seq<bool>),
}

impl View for Entry {
    type V = EntryView;

    open spec fn view(&self) -> EntryView {
        match self {
            Entry::U(u) => EntryView::U(*u),
            Entry::I(i) => EntryView::I(*i),
            Entry::Frac(f) => EntryView::Frac(*f),
            Entry::Value(v) => EntryView::Value(v@),
        }
    }
}

impl EntryView {
    /// How the entry is written.
    pub open spec fn text(self) -> Seq<char> {
        match self {
            EntryView::U(u) => decimal(u as nat),
            EntryView::I(i) => decimal_signed(i as int),
            EntryView::Frac(f) => ratio_text(f.negative, f.numer, f.denom),
            EntryView::Value(v) => bits_text(v),
        }
    }
}

impl From<u64> for Entry {
    fn from(u: u64) -> (entry: Self) {
        Self::U(u)
    }
}

impl vstd::std_specs::convert::FromSpecImpl<u64> for Entry {
    open spec fn obeys_from_spec() -> bool {
        true
    }

    open spec fn from_spec(u: u64) -> Self {
        Entry::U(u)
    }
}

impl From<i64> for Entry {
    fn from(i: i64) -> (entry: Self) {
        Self::I(i)
    }
}

impl vstd::std_specs::convert::FromSpecImpl<i64> for Entry {
    open spec fn obeys_from_spec() -> bool {
        true
    }

    open spec fn from_spec(i: i64) -> Self {
        Entry::I(i)
    }
}

impl From<Rational> for Entry {
    fn from(f: Rational) -> (entry: Self) {
        Self::Frac(f)
    }
}

impl vstd::std_specs::convert::FromSpecImpl<Rational> for Entry {
    open spec fn obeys_from_spec() -> bool {
        true
    }

    open spec fn from_spec(f: Rational) -> Self {
        Entry::Frac(f)
    }
}

impl Clone for Entry {
    fn clone(&self) -> (copy: Self)
        ensures
            copy@ == self@,
    {
        match self {
            Entry::U(u) => Entry::U(*u),
            Entry::I(i) => Entry::I(*i),
            Entry::Frac(f) => Entry::Frac(*f),
            Entry::Value(v) => Entry::Value(v.clone()),
        }
    }
}

/// Whether the number that a value stands for under a code can be held by an
/// entry.
pub open spec fn representable(bits: Seq<bool>, code: PrintCode) -> bool {
    match code {
        PrintCode::Unsigned => unsigned(bits) <= u64::MAX,
        PrintCode::Signed => i64::MIN <= signed(bits) <= i64::MAX,
        PrintCode::UFixed(f) => unsigned(bits) <= u64::MAX && f < 64,
        PrintCode::SFixed(f) => -u64::MAX <= signed(bits) <= u64::MAX && f < 64,
        PrintCode::Binary => true,
    }
}

/// Whether an entry shows these bits the way the code asks for.
pub open spec fn shows(entry: EntryView, bits: Seq<bool>, code: PrintCode) -> bool {
    match code {
        PrintCode::Unsigned => entry matches EntryView::U(u) && u == unsigned(bits),
        PrintCode::Signed => entry matches EntryView::I(i) && i == signed(bits),
        PrintCode::UFixed(f) => entry matches EntryView::Frac(r) && r.reduced() && !r.negative
            && same_ratio(
            r.numer as int,
            r.denom as int,
            unsigned(bits) as int,
            pow2(f as nat) as int,
        ),
        PrintCode::SFixed(f) => entry matches EntryView::Frac(r) && r.reduced() && r.negative == (
        signed(bits) < 0) && same_ratio(
            r.signed_numer(),
            r.denom as int,
            signed(bits),
            pow2(f as nat) as int,
        ),
        PrintCode::Binary => entry == EntryView::Value(bits),
    }
}

impl Entry {
    /// The entry that shows a value as the code asks for.
    pub fn from_val_code(val: &Value, code: &PrintCode) -> (entry: Self)
        requires
            representable(val@, *code),
        ensures
            shows(entry@, val@, *code),
    {
        match code {
            PrintCode::Unsigned => val.as_u64().into(),
            PrintCode::Signed => val.as_i64().into(),
            PrintCode::UFixed(f) => val.as_ufp(*f).into(),
            PrintCode::SFixed(f) => val.as_sfp(*f).into(),
            PrintCode::Binary => Entry::Value(val.clone()),
        }
    }

    /// Writes the entry, as it is both displayed and shown while debugging.
    pub fn to_text(&self) -> (text: String)
        ensures
            text@ == self@.text(),
    {
        match self {
            Entry::U(v) => decimal_text(*v),
            Entry::I(v) => decimal_signed_text(*v),
            Entry::Frac(v) => v.to_text(),
            Entry::Value(v) => v.to_text(),
        }
    }
}

/// A whole component's state: every entry under its name.
pub struct FullySerialize {
    pub entries: Vec<(String, Entry)>,
}

impl View for FullySerialize {
    type V = Seq<(Seq<char>, EntryView)>;

    open spec fn view(&self) -> Seq<(Seq<char>, EntryView)> {
        Seq::new(self.entries@.len(), |i: int| (self.entries@[i].0@, self.entries@[i].1@))
    }
}

/// The serializable part of a cell's state.
pub enum Serializable {
    Empty,
    Val(Entry),
    Array(Vec<Entry>, Shape),
    Full(FullySerialize),
}

/// What a piece of serializable state stands for.
pub enum SerializableView {
    Empty,
    Val(EntryView),
    Array(Seq<EntryView>, Shape),
    Full(Seq<(Seq<char>, EntryView)>),
}

/// What the entries of a list stand for.
pub open spec fn entry_views(entries: Seq<Entry>) -> Seq<EntryView> {
    Seq::new(entries.len(), |i: int| entries[i]@)
}

impl Clone for FullySerialize {
    fn clone(&self) -> (copy: Self)
        ensures
            copy@ == self@,
    {
        let mut entries: Vec<(String, Entry)> = Vec::new();
        let len: usize = self.entries.len();
        for i in 0..len
            invariant
                len == self.entries@.len(),
                entries@.len() == i,
                forall|j: int|
                    0 <= j < i ==> (#[trigger] entries@[j]).0@ == self.entries@[j].0@
                        && entries@[j].1@ == self.entries@[j].1@,
        {
            entries.push((self.entries[i].0.clone(), self.entries[i].1.clone()));
        }
        let copy = FullySerialize { entries };
        assert(copy@ =~= self@);
        copy
    }
}

impl Clone for Serializable {
    fn clone(&self) -> (copy: Self)
        ensures
            copy@ == self@,
    {
        match self {
            Serializable::Empty => Serializable::Empty,
            Serializable::Val(v) => Serializable::Val(v.clone()),
            Serializable::Array(arr, shape) => {
                let mut entries: Vec<Entry> = Vec::new();
                let len: usize = arr.len();
                for i in 0..len
                    invariant
                        len == arr@.len(),
                        entry_views(entries@) == entry_views(arr@).take(i as int),
                {
                    let ghost before = entry_views(entries@);
                    let entry = arr[i].clone();
                    entries.push(entry);
                    assert(entry_views(entries@) =~= before.push(entry@));
                    assert(entry_views(entries@) =~= entry_views(arr@).take(i + 1));
                }
                assert(entry_views(entries@) =~= entry_views(arr@));
                Serializable::Array(entries, *shape)
            },
            Serializable::Full(full) => Serializable::Full(full.clone()),
        }
    }
}

impl View for Serializable {
    type V = SerializableView;

    open spec fn view(&self) -> SerializableView {
        match self {
            Serializable::Empty => SerializableView::Empty,
            Serializable::Val(e) => SerializableView::Val(e@),
            Serializable::Array(a, s) => SerializableView::Array(entry_views(a@), *s),
            Serializable::Full(f) => SerializableView::Full(f@),
        }
    }
}

/// Cuts every group of a list once more.
pub open spec fn chunked_again<T>(groups: Seq<Seq<T>>, size: nat) -> Seq<Seq<Seq<T>>> {
    Seq::new(groups.len(), |i: int| chunked(groups[i], size))
}

/// Cuts every group of every group of a list once more.
pub open spec fn chunked_deep<T>(groups: Seq<Seq<Seq<T>>>, size: nat) -> Seq<Seq<Seq<Seq<T>>>> {
    Seq::new(groups.len(), |i: int| chunked_again(groups[i], size))
}

/// An array arranged as nested lists, ready for a serializer.
pub enum Nested<'a> {
    Unit,
    Leaf(&'a Entry),
    D1(Vec<&'a Entry>),
    D2(Vec<Vec<&'a Entry>>),
    D3(Vec<Vec<Vec<&'a Entry>>>),
    D4(Vec<Vec<Vec<Vec<&'a Entry>>>>),
    Full(&'a FullySerialize),
}

/// What nested lists of entries stand for.
pub enum NestedView {
    Unit,
    Leaf(EntryView),
    D1(Seq<EntryView>),
    D2(Seq<Seq<EntryView>>),
    D3(Seq<Seq<Seq<EntryView>>>),
    D4(Seq<Seq<Seq<Seq<EntryView>>>>),
    Full(Seq<(Seq<char>, EntryView)>),
}

/// What a list of entries stands for.
pub open spec fn row_view(row: Seq<&Entry>) -> Seq<EntryView> {
    Seq::new(row.len(), |i: int| row[i]@)
}

/// What a list of lists of entries stands for.
pub open spec fn grid_view(grid: Seq<Vec<&Entry>>) -> Seq<Seq<EntryView>> {
    Seq::new(grid.len(), |i: int| row_view(grid[i]@))
}

/// What a list of entries nested three deep stands for.
pub open spec fn cube_view(cube: Seq<Vec<Vec<&Entry>>>) -> Seq<Seq<Seq<EntryView>>> {
    Seq::new(cube.len(), |i: int| grid_view(cube[i]@))
}

/// What a list of entries nested four deep stands for.
pub open spec fn tesseract_view(tesseract: Seq<Vec<Vec<Vec<&Entry>>>>) -> Seq<
    Seq<Seq<Seq<EntryView>>>,
> {
    Seq::new(tesseract.len(), |i: int| cube_view(tesseract[i]@))
}

impl<'a> View for Nested<'a> {
    type V = NestedView;

    open spec fn view(&self) -> NestedView {
        match self {
            Nested::Unit => NestedView::Unit,
            Nested::Leaf(e) => NestedView::Leaf(e@),
            Nested::D1(v) => NestedView::D1(row_view(v@)),
            Nested::D2(v) => NestedView::D2(grid_view(v@)),
            Nested::D3(v) => NestedView::D3(cube_view(v@)),
            Nested::D4(v) => NestedView::D4(tesseract_view(v@)),
            Nested::Full(f) => NestedView::Full(f@),
        }
    }
}

/// An array cut into nested lists along its shape.
pub open spec fn nested_array(items: Seq<EntryView>, shape: Shape) -> NestedView {
    match shape {
        Shape::D1(_) => NestedView::D1(items),
        Shape::D2(s) => NestedView::D2(chunked(items, s.1 as nat)),
        Shape::D3(s) => NestedView::D3(
            chunked_again(chunked(items, (s.1 * s.2) as nat), s.2 as nat),
        ),
        Shape::D4(s) => NestedView::D4(
            chunked_deep(
                chunked_again(chunked(items, (s.2 * s.1 * s.3) as nat), (s.2 * s.3) as nat),
                s.3 as nat,
            ),
        ),
    }
}

impl SerializableView {
    /// The nested lists that stand for this state.
    pub open spec fn nested(self) -> NestedView {
        match self {
            SerializableView::Empty => NestedView::Unit,
            SerializableView::Val(e) => NestedView::Leaf(e),
            SerializableView::Array(items, shape) => nested_array(items, shape),
            SerializableView::Full(f) => NestedView::Full(f),
        }
    }
}

/// The text of a list of entries.
pub open spec fn row_text(row: Seq<EntryView>) -> Seq<char> {
    bracketed(Seq::new(row.len(), |i: int| row[i].text()))
}

/// The text of a list of lists of entries.
pub open spec fn grid_text(grid: Seq<Seq<EntryView>>) -> Seq<char> {
    bracketed(Seq::new(grid.len(), |i: int| row_text(grid[i])))
}

/// The text of a list of entries nested three deep.
pub open spec fn cube_text(cube: Seq<Seq<Seq<EntryView>>>) -> Seq<char> {
    bracketed(Seq::new(cube.len(), |i: int| grid_text(cube[i])))
}

/// The text of a list of entries nested four deep.
pub open spec fn tesseract_text(tesseract: Seq<Seq<Seq<Seq<EntryView>>>>) -> Seq<char> {
    bracketed(Seq::new(tesseract.len(), |i: int| cube_text(tesseract[i])))
}

/// The text of an array of the given shape.
pub open spec fn array_text(items: Seq<EntryView>, shape: Shape) -> Seq<char> {
    match shape {
        Shape::D1(_) => row_text(items),
        Shape::D2(s) => grid_text(chunked(items, s.1 as nat)),
        Shape::D3(s) => cube_text(
            chunked_again(chunked(items, (s.1 * s.2) as nat), s.2 as nat),
        ),
        Shape::D4(s) => tesseract_text(
            chunked_deep(
                chunked_again(chunked(items, (s.2 * s.1 * s.3) as nat), (s.2 * s.3) as nat),
                s.3 as nat,
            ),
        ),
    }
}

/// Taking the views of entries and cutting a list commute.
proof fn chunked_row_view(items: Seq<&Entry>, size: nat)
    ensures
        chunked(row_view(items), size).len() == chunked(items, size).len(),
        forall|i: int|
            0 <= i < chunked(items, size).len() ==> (#[trigger] chunked(row_view(items), size)[i])
                == row_view(chunked(items, size)[i]),
    decreases items.len(),
{
    if items.len() == 0 || size == 0 {
    } else if items.len() <= size {
    } else {
        let rest = items.skip(size as int);
        chunked_row_view(rest, size);
        assert(row_view(items).skip(size as int) =~= row_view(rest));
        assert(row_view(items).take(size as int) =~= row_view(items.take(size as int)));
    }
}

/// References to the entries of an array.
fn borrow_all<'a>(arr: &'a Vec<Entry>) -> (items: Vec<&'a Entry>)
    ensures
        row_view(items@) == entry_views(arr@),
{
    let mut items: Vec<&'a Entry> = Vec::with_capacity(arr.len());
    for i in 0..arr.len()
        invariant
            row_view(items@) == entry_views(arr@).take(i as int),
    {
        let ghost before = items@;
        items.push(&arr[i]);
        assert(row_view(items@) =~= row_view(before).push(arr@[i as int]@));
        assert(row_view(items@) =~= entry_views(arr@).take(i + 1));
    }
    assert(row_view(items@) =~= entry_views(arr@));
    items
}

/// Cuts a list.
fn cut<'a>(items: Vec<&'a Entry>, size: usize) -> (groups: Vec<Vec<&'a Entry>>)
    requires
        size > 0,
    ensures
        grid_view(groups@) == chunked(row_view(items@), size as nat),
{
    let ghost all = items@;
    let groups = chunks(items, size);
    proof {
        chunked_row_view(all, size as nat);
        assert forall|i: int| 0 <= i < groups@.len() implies row_view(groups@[i]@) == chunked(
            row_view(all),
            size as nat,
        )[i] by {
            assert(rows(groups@)[i] == groups@[i]@);
        }
        assert(rows(groups@).len() == groups@.len());
    }
    assert(grid_view(groups@) =~= chunked(row_view(all), size as nat));
    groups
}

/// Cuts every list of a list.
fn cut_each<'a>(lists: Vec<Vec<&'a Entry>>, size: usize) -> (groups: Vec<Vec<Vec<&'a Entry>>>)
    requires
        lists@.len() > 0 ==> size > 0,
    ensures
        cube_view(groups@) == chunked_again(grid_view(lists@), size as nat),
{
    let ghost all = lists@;
    let mut groups: Vec<Vec<Vec<&'a Entry>>> = Vec::new();
    for list in it: lists
        invariant
            it.seq() == all,
            all.len() > 0 ==> size > 0,
            cube_view(groups@) == chunked_again(grid_view(all), size as nat).take(it.index() as int),
    {
        let ghost before = groups@;
        let group = cut(list, size);
        groups.push(group);
        assert(cube_view(groups@) =~= cube_view(before).push(grid_view(group@)));
        assert(cube_view(groups@) =~= chunked_again(grid_view(all), size as nat).take(
            it.index() + 1,
        ));
    }
    assert(cube_view(groups@) =~= chunked_again(grid_view(all), size as nat));
    groups
}

/// Cuts every list of every list of a list.
fn cut_deep<'a>(lists: Vec<Vec<Vec<&'a Entry>>>, size: usize) -> (groups: Vec<
    Vec<Vec<Vec<&'a Entry>>>,
>)
    requires
        lists@.len() > 0 ==> size > 0,
    ensures
        tesseract_view(groups@) == chunked_deep(cube_view(lists@), size as nat),
{
    let ghost all = lists@;
    let mut groups: Vec<Vec<Vec<Vec<&'a Entry>>>> = Vec::new();
    for list in it: lists
        invariant
            it.seq() == all,
            all.len() > 0 ==> size > 0,
            tesseract_view(groups@) == chunked_deep(cube_view(all), size as nat).take(
                it.index() as int,
            ),
    {
        let ghost before = groups@;
        let group = cut_each(list, size);
        groups.push(group);
        assert(tesseract_view(groups@) =~= tesseract_view(before).push(cube_view(group@)));
        assert(tesseract_view(groups@) =~= chunked_deep(cube_view(all), size as nat).take(
            it.index() + 1,
        ));
    }
    assert(tesseract_view(groups@) =~= chunked_deep(cube_view(all), size as nat));
    groups
}

/// Writes a list.
fn write_row(row: &Vec<&Entry>) -> (text: String)
    ensures
        text@ == row_text(row_view(row@)),
{
    let ghost wanted = Seq::new(row@.len(), |i: int| row_view(row@)[i].text());
    let mut texts: Vec<String> = Vec::new();
    for i in 0..row.len()
        invariant
            wanted == Seq::new(row@.len(), |i: int| row_view(row@)[i].text()),
            contents(texts@) == wanted.take(i as int),
    {
        let ghost before = texts@;
        let text = row[i].to_text();
        texts.push(text);
        assert(contents(texts@) =~= contents(before).push(text@));
        assert(contents(texts@) =~= wanted.take(i + 1));
    }
    assert(contents(texts@) =~= wanted);
    bracketed_text(&texts)
}

/// Writes a list of lists.
fn write_grid(grid: &Vec<Vec<&Entry>>) -> (text: String)
    ensures
        text@ == grid_text(grid_view(grid@)),
{
    let ghost wanted = Seq::new(grid@.len(), |i: int| row_text(grid_view(grid@)[i]));
    let mut texts: Vec<String> = Vec::new();
    for i in 0..grid.len()
        invariant
            wanted == Seq::new(grid@.len(), |i: int| row_text(grid_view(grid@)[i])),
            contents(texts@) == wanted.take(i as int),
    {
        let ghost before = texts@;
        let text = write_row(&grid[i]);
        texts.push(text);
        assert(contents(texts@) =~= contents(before).push(text@));
        assert(contents(texts@) =~= wanted.take(i + 1));
    }
    assert(contents(texts@) =~= wanted);
    bracketed_text(&texts)
}

/// Writes a list nested three deep.
fn write_cube(cube: &Vec<Vec<Vec<&Entry>>>) -> (text: String)
    ensures
        text@ == cube_text(cube_view(cube@)),
{
    let ghost wanted = Seq::new(cube@.len(), |i: int| grid_text(cube_view(cube@)[i]));
    let mut texts: Vec<String> = Vec::new();
    for i in 0..cube.len()
        invariant
            wanted == Seq::new(cube@.len(), |i: int| grid_text(cube_view(cube@)[i])),
            contents(texts@) == wanted.take(i as int),
    {
        let ghost before = texts@;
        let text = write_grid(&cube[i]);
        texts.push(text);
        assert(contents(texts@) =~= contents(before).push(text@));
        assert(contents(texts@) =~= wanted.take(i + 1));
    }
    assert(contents(texts@) =~= wanted);
    bracketed_text(&texts)
}

/// Writes a list nested four deep.
fn write_tesseract(tesseract: &Vec<Vec<Vec<Vec<&Entry>>>>) -> (text: String)
    ensures
        text@ == tesseract_text(tesseract_view(tesseract@)),
{
    let ghost wanted = Seq::new(
        tesseract@.len(),
        |i: int| cube_text(tesseract_view(tesseract@)[i]),
    );
    let mut texts: Vec<String> = Vec::new();
    for i in 0..tesseract.len()
        invariant
            wanted == Seq::new(
                tesseract@.len(),
                |i: int| cube_text(tesseract_view(tesseract@)[i]),
            ),
            contents(texts@) == wanted.take(i as int),
    {
        let ghost before = texts@;
        let text = write_cube(&tesseract[i]);
        texts.push(text);
        assert(contents(texts@) =~= contents(before).push(text@));
        assert(contents(texts@) =~= wanted.take(i + 1));
    }
    assert(contents(texts@) =~= wanted);
    bracketed_text(&texts)
}

/// The sizes of a four-dimensional shape's nested lists do not overflow.
proof fn four_dims_fit(a: usize, b: usize, c: usize)
    requires
        0 < a * b * c <= usize::MAX,
    ensures
        0 < a * b <= usize::MAX,
        0 < a * c <= usize::MAX,
        0 < c,
{
    assert(0 < a && 0 < b && 0 < c && a * b <= a * b * c && a * c <= a * b * c && 0 < a * b && 0 < a
        * c) by (nonlinear_arith)
        requires
            0 < a * b * c,
            0 <= a,
            0 <= b,
            0 <= c,
    ;
}

/// Writes an array of the given shape as nested lists.
pub fn format_array(arr: &Vec<Entry>, shape: &Shape) -> (text: String)
    requires
        shape.nestable(),
    ensures
        text@ == array_text(entry_views(arr@), *shape),
{
    let items = borrow_all(arr);
    match shape {
        Shape::D2(shape) => {
            let mem = cut(items, shape.1);
            write_grid(&mem)
        },
        Shape::D3(shape) => {
            assert(shape.2 > 0) by (nonlinear_arith)
                requires
                    0 < shape.1 * shape.2,
                    0 <= shape.1,
            ;
            let mem = cut_each(cut(items, shape.1 * shape.2), shape.2);
            write_cube(&mem)
        },
        Shape::D4(shape) => {
            proof {
                four_dims_fit(shape.2, shape.1, shape.3);
            }
            let mem = cut_deep(
                cut_each(cut(items, shape.2 * shape.1 * shape.3), shape.2 * shape.3),
                shape.3,
            );
            write_tesseract(&mem)
        },
        Shape::D1(_) => write_row(&items),
    }
}

/// The entries of nested lists, in the order in which a reader meets them.
pub open spec fn leaves(nested: NestedView) -> Seq<EntryView> {
    match nested {
        NestedView::Unit => Seq::empty(),
        NestedView::Leaf(e) => seq![e],
        NestedView::D1(v) => v,
        NestedView::D2(v) => flattened(v),
        NestedView::D3(v) => flattened(flattened(v)),
        NestedView::D4(v) => flattened(flattened(flattened(v))),
        NestedView::Full(f) => Seq::new(f.len(), |i: int| f[i].1),
    }
}

pub(crate) proof fn flattened_add<T>(a: Seq<Seq<T>>, b: Seq<Seq<T>>)
    ensures
        flattened(a + b) == flattened(a) + flattened(b),
    decreases a.len(),
{
    if a.len() == 0 {
        assert(a + b =~= b);
        assert(flattened(a) + flattened(b) =~= flattened(b));
    } else {
        flattened_add(a.skip(1), b);
        assert((a + b).skip(1) =~= a.skip(1) + b);
        assert(flattened(a) + flattened(b) =~= a[0] + (flattened(a.skip(1)) + flattened(b)));
    }
}

proof fn chunked_again_flattens_back<T>(groups: Seq<Seq<T>>, size: nat)
    requires
        size > 0,
    ensures
        flattened(flattened(chunked_again(groups, size))) == flattened(groups),
    decreases groups.len(),
{
    let cut = chunked_again(groups, size);
    if groups.len() == 0 {
    } else {
        chunked_again_flattens_back(groups.skip(1), size);
        assert(cut.skip(1) =~= chunked_again(groups.skip(1), size));
        flattened_add(chunked(groups[0], size), flattened(cut.skip(1)));
        chunked_flattens_back(groups[0], size);
    }
}

proof fn flattened_chunked_deep<T>(groups: Seq<Seq<Seq<T>>>, size: nat)
    ensures
        flattened(chunked_deep(groups, size)) == chunked_again(flattened(groups), size),
    decreases groups.len(),
{
    let cut = chunked_deep(groups, size);
    if groups.len() == 0 {
        assert(flattened(cut) =~= chunked_again(flattened(groups), size));
    } else {
        flattened_chunked_deep(groups.skip(1), size);
        assert(cut.skip(1) =~= chunked_deep(groups.skip(1), size));
        assert(chunked_again(groups[0] + flattened(groups.skip(1)), size) =~= chunked_again(
            groups[0],
            size,
        ) + chunked_again(flattened(groups.skip(1)), size));
    }
}

/// Arranging an array as nested lists loses, adds and moves no entry, whatever
/// its shape says.
pub proof fn nesting_keeps_entries(items: Seq<EntryView>, shape: Shape)
    requires
        shape.nestable(),
    ensures
        leaves(nested_array(items, shape)) == items,
{
    match shape {
        Shape::D1(_) => {},
        Shape::D2(s) => {
            chunked_flattens_back(items, s.1 as nat);
        },
        Shape::D3(s) => {
            assert(s.2 > 0) by (nonlinear_arith)
                requires
                    0 < s.1 * s.2,
                    0 <= s.1,
            ;
            chunked_flattens_back(items, (s.1 * s.2) as nat);
            chunked_again_flattens_back(chunked(items, (s.1 * s.2) as nat), s.2 as nat);
        },
        Shape::D4(s) => {
            four_dims_fit(s.2, s.1, s.3);
            let solids = chunked(items, (s.2 * s.1 * s.3) as nat);
            let planes = chunked_again(solids, (s.2 * s.3) as nat);
            chunked_flattens_back(items, (s.2 * s.1 * s.3) as nat);
            chunked_again_flattens_back(solids, (s.2 * s.3) as nat);
            flattened_chunked_deep(planes, s.3 as nat);
            chunked_again_flattens_back(flattened(planes), s.3 as nat);
        },
    }
}

/// A two-dimensional array that is as long as its shape says is arranged as
/// that many rows of that many entries, entry `(i, j)` being entry
/// `i * width + j` of the array.
pub proof fn nesting_follows_2d_shape(items: Seq<EntryView>, height: usize, width: usize)
    requires
        width > 0,
        items.len() == height * width,
    ensures
        nested_array(items, Shape::D2((height, width))) matches NestedView::D2(grid)
            && grid.len() == height && (forall|i: int|
            0 <= i < height ==> (#[trigger] grid[i]).len() == width) && (forall|i: int, j: int|
            0 <= i < height && 0 <= j < width ==> #[trigger] grid[i][j] == items[i * width + j]),
{
    let grid = chunked(items, width as nat);
    chunked_exact(items, width as nat, height as nat);
    assert forall|i: int| 0 <= i < height implies (#[trigger] grid[i]).len() == width && grid[i]
        == items.subrange(i * width, i * width + width) by {
        assert(0 <= i * width && i * width + width <= height * width) by (nonlinear_arith)
            requires
                0 <= i < height,
                0 <= width,
        ;
    }
    assert forall|i: int, j: int| 0 <= i < height && 0 <= j < width implies #[trigger] grid[i][j]
        == items[i * width + j] by {
        assert(0 <= i * width && i * width + width <= height * width) by (nonlinear_arith)
            requires
                0 <= i < height,
                0 <= width,
        ;
        assert(grid[i] == items.subrange(i * width, i * width + width));
    }
}

/// A three-dimensional array that is as long as its shape says is arranged as
/// that many planes of that many rows of that many entries, and the entries
/// of a row are neighbours in the array.
pub proof fn nesting_follows_3d_shape(
    items: Seq<EntryView>,
    depth: usize,
    height: usize,
    width: usize,
)
    requires
        0 < height * width <= usize::MAX,
        items.len() == depth * (height * width),
    ensures
        nested_array(items, Shape::D3((depth, height, width))) matches NestedView::D3(cube)
            && cube.len() == depth && (forall|i: int|
            0 <= i < depth ==> (#[trigger] cube[i]).len() == height) && (forall|i: int, j: int|
            0 <= i < depth && 0 <= j < height ==> (#[trigger] cube[i][j]).len() == width) && (
        forall|i: int, j: int, k: int|
            0 <= i < depth && 0 <= j < height && 0 <= k < width ==> #[trigger] cube[i][j][k]
                == items[i * (height * width) + j * width + k]),
{
    assert(0 < width) by (nonlinear_arith)
        requires
            0 < height * width,
            0 <= height,
            0 <= width,
    ;
    let area = (height * width) as nat;
    let planes = chunked(items, area);
    let cube = chunked_again(planes, width as nat);
    chunked_exact(items, area, depth as nat);
    assert forall|i: int| 0 <= i < depth implies (#[trigger] cube[i]).len() == height && (forall|
        j: int,
    |
        0 <= j < height ==> (#[trigger] cube[i][j]).len() == width && cube[i][j] == planes[i].subrange(
            j * width,
            j * width + width,
        )) && planes[i] == items.subrange(i * area, i * area + area) by {
        assert(0 <= i * area && i * area + area <= depth * area) by (nonlinear_arith)
            requires
                0 <= i < depth,
                0 <= area,
        ;
        assert(planes[i] == items.subrange(i * area, i * area + area));
        chunked_exact(planes[i], width as nat, height as nat);
        assert forall|j: int| 0 <= j < height implies (#[trigger] cube[i][j]).len() == width
            && cube[i][j] == planes[i].subrange(j * width, j * width + width) by {
            assert(0 <= j * width && j * width + width <= height * width) by (nonlinear_arith)
                requires
                    0 <= j < height,
                    0 <= width,
            ;
            assert(cube[i] == chunked(planes[i], width as nat));
        }
    }
    assert forall|i: int, j: int, k: int|
        0 <= i < depth && 0 <= j < height && 0 <= k < width implies #[trigger] cube[i][j][k]
        == items[i * (height * width) + j * width + k] by {
        assert(cube[i].len() == height);
        assert(cube[i][j] == planes[i].subrange(j * width, j * width + width));
        assert(0 <= j * width && j * width + width <= height * width) by (nonlinear_arith)
            requires
                0 <= j < height,
                0 <= width,
        ;
        assert(0 <= i * area && i * area + area <= depth * area) by (nonlinear_arith)
            requires
                0 <= i < depth,
                0 <= area,
        ;
    }
}

/// A four-dimensional array that is as long as its shape says is arranged as
/// that many blocks, each of which is arranged like a three-dimensional array
/// of the remaining dimensions.
pub proof fn nesting_follows_4d_shape(
    items: Seq<EntryView>,
    blocks: usize,
    depth: usize,
    height: usize,
    width: usize,
)
    requires
        0 < height * depth * width <= usize::MAX,
        items.len() == blocks * (depth * (height * width)),
    ensures
        nested_array(items, Shape::D4((blocks, depth, height, width))) matches NestedView::D4(
            tesseract,
        ) && tesseract.len() == blocks && forall|i: int|
            0 <= i < blocks ==> NestedView::D3(#[trigger] tesseract[i]) == nested_array(
                items.subrange(
                    i * (depth * (height * width)),
                    i * (depth * (height * width)) + depth * (height * width),
                ),
                Shape::D3((depth, height, width)),
            ),
{
    let volume = (depth * (height * width)) as nat;
    assert(height * depth * width == depth * (height * width)) by (nonlinear_arith);
    chunked_exact(items, volume, blocks as nat);
}

/// How nested lists of entries are written.
pub open spec fn nested_text(nested: NestedView) -> Seq<char> {
    match nested {
        NestedView::D1(items) => row_text(items),
        NestedView::D2(items) => grid_text(items),
        NestedView::D3(items) => cube_text(items),
        NestedView::D4(items) => tesseract_text(items),
        NestedView::Leaf(e) => e.text(),
        _ => Seq::empty(),
    }
}

/// An array is written out with the nesting with which it is serialized.
pub proof fn text_follows_nesting(items: Seq<EntryView>, shape: Shape)
    ensures
        array_text(items, shape) == nested_text(nested_array(items, shape)),
{
}

/// What is to be shown for a piece of state: finished text, or a document for
/// a JSON writer.
pub enum Rendering<'a> {
    Text(String),
    Json(&'a FullySerialize),
}

impl Serializable {
    /// Whether there is anything to serialize.
    pub fn has_state(&self) -> (answer: bool)
        ensures
            answer == !(self@ is Empty),
    {
        !matches!(self, Serializable::Empty)
    }

    /// Arranges the state for a serializer: nothing for an empty state, an
    /// entry as it is, an array cut into nested lists along its shape.
    pub fn serialize(&self) -> (nested: Nested<'_>)
        requires
            self matches Serializable::Array(_, shape) ==> shape.nestable(),
        ensures
            nested@ == self@.nested(),
    {
        match self {
            Serializable::Empty => Nested::Unit,
            Serializable::Val(u) => Nested::Leaf(u),
            Serializable::Array(arr, shape) => {
                let items = borrow_all(arr);
                if shape.is_1d() {
                    return Nested::D1(items);
                }
                match shape {
                    Shape::D2(shape) => Nested::D2(cut(items, shape.1)),
                    Shape::D3(shape) => {
                        assert(shape.2 > 0) by (nonlinear_arith)
                            requires
                                0 < shape.1 * shape.2,
                                0 <= shape.1,
                        ;
                        Nested::D3(cut_each(cut(items, shape.1 * shape.2), shape.2))
                    },
                    Shape::D4(shape) => {
                        proof {
                            four_dims_fit(shape.2, shape.1, shape.3);
                        }
                        Nested::D4(
                            cut_deep(
                                cut_each(
                                    cut(items, shape.2 * shape.1 * shape.3),
                                    shape.2 * shape.3,
                                ),
                                shape.3,
                            ),
                        )
                    },
                    Shape::D1(_) => Nested::D1(items),
                }
            },
            Serializable::Full(s) => Nested::Full(s),
        }
    }

    /// What is to be shown for the state: nothing for an empty state, the
    /// entry's text for an entry, nested lists for an array. A whole
    /// component's state is shown as a JSON document.
    pub fn render(&self) -> (shown: Rendering<'_>)
        requires
            self matches Serializable::Array(_, shape) ==> shape.nestable(),
        ensures
            match self@ {
                SerializableView::Empty => shown matches Rendering::Text(t) && t@ == ""@,
                SerializableView::Val(e) => shown matches Rendering::Text(t) && t@ == e.text(),
                SerializableView::Array(items, shape) => shown matches Rendering::Text(t) && t@
                    == array_text(items, shape),
                SerializableView::Full(f) => shown matches Rendering::Json(doc) && doc@ == f,
            },
    {
        match self {
            Serializable::Empty => Rendering::Text(String::from_str("")),
            Serializable::Val(v) => Rendering::Text(v.to_text()),
            Serializable::Array(arr, shape) => Rendering::Text(format_array(arr, shape)),
            Serializable::Full(full) => Rendering::Json(full),
        }
    }
}

/// A state is serialized with the entries that it holds, in order: none, one,
/// those of an array or those of a whole component.
pub proof fn states_are_serialized_whole(state: SerializableView)
    requires
        state matches SerializableView::Array(_, shape) ==> shape.nestable(),
    ensures
        leaves(state.nested()) == match state {
            SerializableView::Empty => Seq::empty(),
            SerializableView::Val(e) => seq![e],
            SerializableView::Array(items, _) => items,
            SerializableView::Full(f) => Seq::new(f.len(), |i: int| f[i].1),
        },
{
    if let SerializableView::Array(items, shape) = state {
        nesting_keeps_entries(items, shape);
    }
}

/// What an entry shows of a value, read back as a number or as bits, is what the
/// code asks for: the unsigned or the two's complement number, that number with
/// its point moved, or the bits themselves.
pub proof fn entries_mean_what_they_show(entry: EntryView, bits: Seq<bool>, code: PrintCode)
    requires
        shows(entry, bits, code),
    ensures
        match code {
            PrintCode::Unsigned => entry.text() == decimal(unsigned(bits)),
            PrintCode::Signed => entry.text() == decimal_signed(signed(bits)),
            PrintCode::UFixed(f) => entry matches EntryView::Frac(r) && r.denom > 0 && !r.negative
                && r.numer * pow2(f as nat) == unsigned(bits) * r.denom,
            PrintCode::SFixed(f) => entry matches EntryView::Frac(r) && r.denom > 0 && (
            if r.negative {
                -(r.numer as int)
            } else {
                r.numer as int
            }) * pow2(f as nat) == signed(bits) * r.denom && (r.negative <==> signed(bits) < 0),
            PrintCode::Binary => entry.text() == bits_text(bits),
        },
{
}

/// However many entries an array has, it is cut along its shape: lists are as
/// long as the shape says, except for the last, which takes what is left.
pub proof fn lists_are_full_but_the_last(items: Seq<EntryView>, shape: Shape, i: int)
    requires
        shape.nestable(),
    ensures
        match (shape, nested_array(items, shape)) {
            (Shape::D1(_), NestedView::D1(row)) => row == items,
            (Shape::D2(s), NestedView::D2(grid)) => 0 <= i < grid.len() ==> 0 < grid[i].len()
                <= s.1 && (i < grid.len() - 1 ==> grid[i].len() == s.1),
            (Shape::D3(s), NestedView::D3(cube)) => 0 <= i < cube.len() ==> 0 < flattened(
                cube[i],
            ).len() <= s.1 * s.2 && (i < cube.len() - 1 ==> flattened(cube[i]).len() == s.1 * s.2)
                && forall|j: int|
                0 <= j < cube[i].len() ==> 0 < (#[trigger] cube[i][j]).len() <= s.2 && (j
                    < cube[i].len() - 1 ==> cube[i][j].len() == s.2),
            (Shape::D4(s), NestedView::D4(tesseract)) => 0 <= i < tesseract.len() ==> {
                let all = flattened(flattened(tesseract[i]));
                &&& 0 < all.len() <= s.2 * s.1 * s.3
                &&& i < tesseract.len() - 1 ==> all.len() == s.2 * s.1 * s.3
                &&& forall|j: int|
                    0 <= j < tesseract[i].len() ==> 0 < flattened(
                        #[trigger] tesseract[i][j],
                    ).len() <= s.2 * s.3 && (j < tesseract[i].len() - 1 ==> flattened(
                        tesseract[i][j],
                    ).len() == s.2 * s.3)
                &&& forall|j: int, k: int|
                    0 <= j < tesseract[i].len() && 0 <= k < tesseract[i][j].len() ==> 0 < (
                    #[trigger] tesseract[i][j][k]).len() <= s.3 && (k < tesseract[i][j].len() - 1
                        ==> tesseract[i][j][k].len() == s.3)
            },
            _ => false,
        },
{
    match shape {
        Shape::D1(_) => {},
        Shape::D2(s) => {
            if 0 <= i < chunked(items, s.1 as nat).len() {
                groups_are_full_but_the_last(items, s.1 as nat, i);
            }
        },
        Shape::D3(s) => {
            assert(s.2 > 0) by (nonlinear_arith)
                requires
                    0 < s.1 * s.2,
                    0 <= s.1,
            ;
            let planes = chunked(items, (s.1 * s.2) as nat);
            if 0 <= i < planes.len() {
                groups_are_full_but_the_last(items, (s.1 * s.2) as nat, i);
                chunked_flattens_back(planes[i], s.2 as nat);
                assert forall|j: int| 0 <= j < chunked(planes[i], s.2 as nat).len() implies 0 < (
                #[trigger] chunked(planes[i], s.2 as nat)[j]).len() <= s.2 && (j < chunked(
                    planes[i],
                    s.2 as nat,
                ).len() - 1 ==> chunked(planes[i], s.2 as nat)[j].len() == s.2) by {
                    groups_are_full_but_the_last(planes[i], s.2 as nat, j);
                }
            }
        },
        Shape::D4(s) => {
            four_dims_fit(s.2, s.1, s.3);
            let area = (s.2 * s.3) as nat;
            let solids = chunked(items, (s.2 * s.1 * s.3) as nat);
            if 0 <= i < solids.len() {
                groups_are_full_but_the_last(items, (s.2 * s.1 * s.3) as nat, i);
                let planes = chunked(solids[i], area);
                let cube = chunked_again(planes, s.3 as nat);
                chunked_flattens_back(solids[i], area);
                chunked_again_flattens_back(planes, s.3 as nat);
                assert forall|j: int| 0 <= j < cube.len() implies 0 < flattened(
                    #[trigger] cube[j],
                ).len() <= s.2 * s.3 && (j < cube.len() - 1 ==> flattened(cube[j]).len() == s.2
                    * s.3) by {
                    groups_are_full_but_the_last(solids[i], area, j);
                    chunked_flattens_back(planes[j], s.3 as nat);
                }
                assert forall|j: int, k: int|
                    0 <= j < cube.len() && 0 <= k < cube[j].len() implies 0 < (
                #[trigger] cube[j][k]).len() <= s.3 && (k < cube[j].len() - 1 ==> cube[j][k].len()
                    == s.3) by {
                    groups_are_full_but_the_last(planes[j], s.3 as nat, k);
                }
            }
        },
    }
}

/// Nested lists are written as lists of the texts of what they hold, whatever
/// the entries are.
pub proof fn nested_lists_are_written_in_brackets(
    row: Seq<EntryView>,
    grid: Seq<Seq<EntryView>>,
    cube: Seq<Seq<Seq<EntryView>>>,
    tesseract: Seq<Seq<Seq<Seq<EntryView>>>>,
)
    ensures
        nested_text(NestedView::D1(row)) == "["@ + joined(
            Seq::new(row.len(), |i: int| row[i].text()),
            ", "@,
        ) + "]"@,
        nested_text(NestedView::D2(grid)) == "["@ + joined(
            Seq::new(grid.len(), |i: int| nested_text(NestedView::D1(grid[i]))),
            ", "@,
        ) + "]"@,
        nested_text(NestedView::D3(cube)) == "["@ + joined(
            Seq::new(cube.len(), |i: int| nested_text(NestedView::D2(cube[i]))),
            ", "@,
        ) + "]"@,
        nested_text(NestedView::D4(tesseract)) == "["@ + joined(
            Seq::new(tesseract.len(), |i: int| nested_text(NestedView::D3(tesseract[i]))),
            ", "@,
        ) + "]"@,
{
    assert(Seq::new(grid.len(), |i: int| nested_text(NestedView::D1(grid[i]))) =~= Seq::new(
        grid.len(),
        |i: int| row_text(grid[i]),
    ));
    assert(Seq::new(cube.len(), |i: int| nested_text(NestedView::D2(cube[i]))) =~= Seq::new(
        cube.len(),
        |i: int| grid_text(cube[i]),
    ));
    assert(Seq::new(tesseract.len(), |i: int| nested_text(NestedView::D3(tesseract[i])))
        =~= Seq::new(tesseract.len(), |i: int| cube_text(tesseract[i])));
}

/// An array can be cut into lists along a shape exactly when none of the sizes
/// inside is zero and the lists are no longer than a word can count.
pub proof fn shapes_that_can_be_cut(shape: Shape)
    ensures
        shape.nestable() <==> match shape {
            Shape::D1(_) => true,
            Shape::D2(s) => s.1 != 0,
            Shape::D3(s) => s.1 != 0 && s.2 != 0 && s.1 * s.2 <= usize::MAX,
            Shape::D4(s) => s.1 != 0 && s.2 != 0 && s.3 != 0 && s.1 * s.2 * s.3 <= usize::MAX,
        },
{
    match shape {
        Shape::D3(s) => {
            assert(0 < s.1 * s.2 <==> s.1 != 0 && s.2 != 0) by (nonlinear_arith)
                requires
                    0 <= s.1,
                    0 <= s.2,
            ;
        },
        Shape::D4(s) => {
            assert(s.2 * s.1 * s.3 == s.1 * s.2 * s.3) by (nonlinear_arith);
            assert(0 < s.1 * s.2 * s.3 <==> s.1 != 0 && s.2 != 0 && s.3 != 0) by (nonlinear_arith)
                requires
                    0 <= s.1,
                    0 <= s.2,
                    0 <= s.3,
            ;
        },
        _ => {},
    }
}

/// A value can be shown the way a code asks for exactly when the number that it
/// then stands for can be held. Bit by bit it always can.
pub proof fn values_that_can_be_shown(bits: Seq<bool>, code: PrintCode)
    ensures
        representable(bits, code) <==> match code {
            PrintCode::Unsigned => unsigned(bits) <= 0xffff_ffff_ffff_ffff,
            PrintCode::Signed => -0x8000_0000_0000_0000 <= signed(bits) <= 0x7fff_ffff_ffff_ffff,
            PrintCode::UFixed(f) => unsigned(bits) <= 0xffff_ffff_ffff_ffff && f <= 63,
            PrintCode::SFixed(f) => -0xffff_ffff_ffff_ffff <= signed(bits)
                <= 0xffff_ffff_ffff_ffff && f <= 63,
            PrintCode::Binary => true,
        },
{
}

} // verus!
