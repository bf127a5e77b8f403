//! Building blocks for the text the interpreter shows: numbers, lists and
//! separated names.

use itertools::Itertools;
use vstd::prelude::*;

verus! {

/// The character of a decimal digit.
pub open spec fn digit_char(d: nat) -> char
    recommends
        d < 10,
{
    ('0' as nat + d) as char
}

/// The decimal digits of a natural number, most significant first, without
/// leading zeros.
pub open spec fn decimal(n: nat) -> Seq<char>
    decreases n,
{
    if n < 10 {
        seq![digit_char(n)]
    } else {
        decimal(n / 10).push(digit_char(n % 10))
    }
}

/// Decimal digits with a minus sign in front of a negative number.
pub open spec fn decimal_signed(i: int) -> Seq<char> {
    if i < 0 {
        "-"@ + decimal((-i) as nat)
    } else {
        decimal(i as nat)
    }
}

/// What the strings of a list hold.
pub open spec fn contents(parts: Seq<String>) -> Seq<Seq<char>> {
    Seq::new(parts.len(), |i: int| parts[i]@)
}

/// The parts one after the other, with the separator between neighbours.
pub open spec fn joined(parts: Seq<Seq<char>>, sep: Seq<char>) -> Seq<char>
    decreases parts.len(),
{
    if parts.len() == 0 {
        Seq::empty()
    } else if parts.len() == 1 {
        parts[0]
    } else {
        parts[0] + sep + joined(parts.skip(1), sep)
    }
}

/// A list in square brackets, its items separated by a comma and a space.
pub open spec fn bracketed(items: Seq<Seq<char>>) -> Seq<char> {
    "["@ + joined(items, ", "@) + "]"@
}

/// One decimal digit.
fn digit_text(d: u64) -> (text: &'static str)
    requires
        d < 10,
    ensures
        text@ == seq![digit_char(d as nat)],
{
    proof {
        reveal_strlit("0");
        reveal_strlit("1");
        reveal_strlit("2");
        reveal_strlit("3");
        reveal_strlit("4");
        reveal_strlit("5");
        reveal_strlit("6");
        reveal_strlit("7");
        reveal_strlit("8");
        reveal_strlit("9");
    }
    if d == 0 {
        "0"
    } else if d == 1 {
        "1"
    } else if d == 2 {
        "2"
    } else if d == 3 {
        "3"
    } else if d == 4 {
        "4"
    } else if d == 5 {
        "5"
    } else if d == 6 {
        "6"
    } else if d == 7 {
        "7"
    } else if d == 8 {
        "8"
    } else {
        "9"
    }
}

/// Writes a number in decimal.
pub fn decimal_text(n: u64) -> (text: String)
    ensures
        text@ == decimal(n as nat),
    decreases n,
{
    if n < 10 {
        String::from_str(digit_text(n))
    } else {
        let mut text = decimal_text(n / 10);
        text.append(digit_text(n % 10));
        text
    }
}

/// Writes a signed number in decimal.
pub fn decimal_signed_text(i: i64) -> (text: String)
    ensures
        text@ == decimal_signed(i as int),
{
    if i < 0 {
        let magnitude: u64 = (-(i + 1)) as u64 + 1;
        let mut text = String::from_str("-");
        text.append(decimal_text(magnitude).as_str());
        text
    } else {
        decimal_text(i as u64)
    }
}

/// Puts the separator between the parts.
///
/// The work is done by `itertools::Itertools::join`, of which this claims that
/// its result holds every part, in order, with the separator between two
/// neighbours and nowhere else.
#[verifier::external_body]
pub(crate) fn join(parts: &Vec<String>, sep: &str) -> (text: String)
    ensures
        text@ == joined(contents(parts@), sep@),
{
    parts.iter().join(sep)
}

/// Writes a list in square brackets.
pub fn bracketed_text(items: &Vec<String>) -> (text: String)
    ensures
        text@ == bracketed(contents(items@)),
{
    let mut text = String::from_str("[");
    text.append(join(items, ", ").as_str());
    text.append("]");
    text
}

/// A text with its spaces left out.
pub open spec fn without_spaces(text: Seq<char>) -> Seq<char>
    decreases text.len(),
{
    if text.len() == 0 {
        Seq::empty()
    } else if text.last() == ' ' {
        without_spaces(text.drop_last())
    } else {
        without_spaces(text.drop_last()).push(text.last())
    }
}

/// Leaving out spaces goes part by part.
pub(crate) proof fn without_spaces_add(a: Seq<char>, b: Seq<char>)
    ensures
        without_spaces(a + b) == without_spaces(a) + without_spaces(b),
    decreases b.len(),
{
    if b.len() == 0 {
        assert(a + b =~= a);
        assert(without_spaces(a) + without_spaces(b) =~= without_spaces(a));
    } else {
        without_spaces_add(a, b.drop_last());
        assert((a + b).drop_last() =~= a + b.drop_last());
        assert(without_spaces(a + b) =~= without_spaces(a) + without_spaces(b));
    }
}

/// A text without spaces has none to leave out.
pub(crate) proof fn no_spaces_stay(text: Seq<char>)
    requires
        !text.contains(' '),
    ensures
        without_spaces(text) == text,
    decreases text.len(),
{
    if text.len() > 0 {
        assert(text[text.len() - 1] != ' ');
        assert forall|i: int| 0 <= i < text.len() - 1 implies text.drop_last()[i] != ' ' by {
            assert(text[i] != ' ');
        }
        no_spaces_stay(text.drop_last());
        assert(without_spaces(text) =~= text);
    }
}

/// A number in decimal holds no spaces.
pub(crate) proof fn decimal_has_no_spaces(n: nat)
    ensures
        !decimal(n).contains(' '),
    decreases n,
{
    if n >= 10 {
        decimal_has_no_spaces(n / 10);
        assert(decimal(n) == decimal(n / 10).push(digit_char(n % 10)));
    }
}

/// A list of texts with their spaces left out.
pub open spec fn all_without_spaces(parts: Seq<Seq<char>>) -> Seq<Seq<char>> {
    Seq::new(parts.len(), |i: int| without_spaces(parts[i]))
}

/// Leaving out the spaces of joined texts leaves them out of the texts and of
/// the separator.
pub(crate) proof fn without_spaces_joined(parts: Seq<Seq<char>>, sep: Seq<char>)
    ensures
        without_spaces(joined(parts, sep)) == joined(
            all_without_spaces(parts),
            without_spaces(sep),
        ),
    decreases parts.len(),
{
    if parts.len() > 1 {
        let rest = parts.skip(1);
        without_spaces_joined(rest, sep);
        without_spaces_add(parts[0] + sep, joined(rest, sep));
        without_spaces_add(parts[0], sep);
        assert(all_without_spaces(parts).skip(1) =~= all_without_spaces(rest));
    }
}

/// Cuts the items into groups of `size`, of which the last may be shorter.
pub open spec fn chunked<T>(items: Seq<T>, size: nat) -> Seq<Seq<T>>
    decreases items.len(),
{
    if items.len() == 0 || size == 0 {
        Seq::empty()
    } else if items.len() <= size {
        seq![items]
    } else {
        seq![items.take(size as int)] + chunked(items.skip(size as int), size)
    }
}

/// What the inner lists of a list hold.
pub open spec fn rows<T>(lists: Seq<Vec<T>>) -> Seq<Seq<T>> {
    Seq::new(lists.len(), |i: int| lists[i]@)
}

/// Cuts the items into consecutive groups.
///
/// The work is done by `itertools::Itertools::chunks`, which panics on a size
/// of zero. This claims that the groups follow one another in the order of the
/// items, and that each holds `size` items but for the last, which holds what
/// is left.
#[verifier::external_body]
pub(crate) fn chunks<T>(items: Vec<T>, size: usize) -> (groups: Vec<Vec<T>>)
    requires
        size > 0,
    ensures
        rows(groups@) == chunked(items@, size as nat),
{
    items.into_iter().chunks(size).into_iter().map(|group| group.collect()).collect()
}

/// The concatenation of all groups.
pub open spec fn flattened<T>(groups: Seq<Seq<T>>) -> Seq<T>
    decreases groups.len(),
{
    if groups.len() == 0 {
        Seq::empty()
    } else {
        groups[0] + flattened(groups.skip(1))
    }
}

/// Cutting a sequence into groups loses, adds and moves nothing.
pub proof fn chunked_flattens_back<T>(items: Seq<T>, size: nat)
    requires
        size > 0,
    ensures
        flattened(chunked(items, size)) == items,
    decreases items.len(),
{
    reveal_with_fuel(flattened, 3);
    let groups = chunked(items, size);
    if items.len() == 0 {
    } else if items.len() <= size {
        assert(groups.skip(1) =~= Seq::empty());
        assert(flattened(groups) =~= items);
    } else {
        chunked_flattens_back(items.skip(size as int), size);
        assert(groups.skip(1) =~= chunked(items.skip(size as int), size));
        assert(flattened(groups) =~= items.take(size as int) + items.skip(size as int));
        assert(items.take(size as int) + items.skip(size as int) =~= items);
    }
}

/// A sequence that holds a whole number of groups is cut into exactly that
/// many, all of full length, and group `i` starts at item `i * size`.
pub proof fn chunked_exact<T>(items: Seq<T>, size: nat, count: nat)
    requires
        size > 0,
        items.len() == count * size,
    ensures
        chunked(items, size).len() == count,
        forall|i: int|
            0 <= i < count ==> (#[trigger] chunked(items, size)[i]) == items.subrange(
                i * size,
                i * size + size,
            ),
    decreases count,
{
    let groups = chunked(items, size);
    if count == 0 {
        assert(count * size == 0) by (nonlinear_arith)
            requires
                count == 0,
        ;
    } else {
        assert(items.len() == (count - 1) * size + size) by (nonlinear_arith)
            requires
                items.len() == count * size,
        ;
        if count == 1 {
            assert((count - 1) * size == 0) by (nonlinear_arith)
                requires
                    count == 1,
            ;
            assert(items.subrange(0, size as int) =~= items);
            assert forall|i: int| 0 <= i < count implies #[trigger] groups[i] == items.subrange(
                i * size,
                i * size + size,
            ) by {
                assert(i * size == 0) by (nonlinear_arith)
                    requires
                        i == 0,
                ;
            }
        } else {
            assert((count - 1) * size > 0) by (nonlinear_arith)
                requires
                    count > 1,
                    size > 0,
            ;
            let rest = items.skip(size as int);
            chunked_exact(rest, size, (count - 1) as nat);
            assert forall|i: int| 0 <= i < count implies #[trigger] groups[i] == items.subrange(
                i * size,
                i * size + size,
            ) by {
                if i == 0 {
                    assert(i * size == 0) by (nonlinear_arith)
                        requires
                            i == 0,
                    ;
                    assert(items.take(size as int) =~= items.subrange(0, size as int));
                } else {
                    let k = i - 1;
                    assert(groups[i] == chunked(rest, size)[k]);
                    assert(k * size + size == i * size) by (nonlinear_arith)
                        requires
                            k == i - 1,
                    ;
                    assert(0 <= k * size && i * size + size <= count * size) by (nonlinear_arith)
                        requires
                            k == i - 1,
                            1 <= i < count,
                            size > 0,
                    ;
                    assert(rest.subrange(k * size, k * size + size) =~= items.subrange(
                        i * size,
                        i * size + size,
                    ));
                }
            }
        }
    }
}

/// The number that a decimal text stands for.
pub open spec fn read_decimal(text: Seq<char>) -> nat
    decreases text.len(),
{
    if text.len() == 0 {
        0
    } else {
        10 * read_decimal(text.drop_last()) + (text.last() as nat - '0' as nat) as nat
    }
}

/// A number in decimal reads back as that number. It is written in digits alone,
/// and begins with a zero only if it is zero.
pub proof fn decimal_reads_back(n: nat)
    ensures
        read_decimal(decimal(n)) == n,
        decimal(n).len() > 0,
        forall|i: int| 0 <= i < decimal(n).len() ==> '0' <= #[trigger] decimal(n)[i] <= '9',
        decimal(n)[0] == '0' ==> n == 0 && decimal(n).len() == 1,
    decreases n,
{
    let text = decimal(n);
    if n < 10 {
        reveal_with_fuel(read_decimal, 2);
        assert(text.drop_last() =~= Seq::empty());
    } else {
        decimal_reads_back(n / 10);
        assert(text.drop_last() =~= decimal(n / 10));
        assert forall|i: int| 0 <= i < text.len() implies '0' <= #[trigger] text[i] <= '9' by {
            if i < text.len() - 1 {
                assert(decimal(n / 10)[i] == text[i]);
            }
        }
        assert(text[0] == decimal(n / 10)[0]);
    }
}

/// A negative number is written as its magnitude behind a minus sign, and any
/// other number as itself.
pub proof fn signs_come_first(i: int)
    ensures
        i >= 0 ==> read_decimal(decimal_signed(i)) == i,
        i < 0 ==> decimal_signed(i).len() > 1 && decimal_signed(i)[0] == '-' && read_decimal(
            decimal_signed(i).skip(1),
        ) == -i,
{
    if i < 0 {
        reveal_strlit("-");
        decimal_reads_back((-i) as nat);
        assert(decimal_signed(i).skip(1) =~= decimal((-i) as nat));
    } else {
        decimal_reads_back(i as nat);
    }
}

/// Joining one part more puts the separator and the part behind what was joined
/// before.
pub proof fn joined_parts_are_separated(parts: Seq<Seq<char>>, last: Seq<char>, sep: Seq<char>)
    ensures
        joined(Seq::empty(), sep) == Seq::<char>::empty(),
        joined(seq![last], sep) == last,
        parts.len() > 0 ==> joined(parts.push(last), sep) == joined(parts, sep) + sep + last,
    decreases parts.len(),
{
    reveal_with_fuel(joined, 2);
    if parts.len() == 1 {
        assert(parts.push(last).skip(1) =~= seq![last]);
        assert(joined(parts.push(last), sep) == parts[0] + sep + joined(seq![last], sep));
    } else if parts.len() > 1 {
        joined_parts_are_separated(parts.skip(1), last, sep);
        assert(parts.push(last).skip(1) =~= parts.skip(1).push(last));
        assert(joined(parts.push(last), sep) =~= joined(parts, sep) + sep + last);
    }
}

/// Every group but the last is as long as asked for, and the last is no longer
/// and not empty.
pub proof fn groups_are_full_but_the_last<T>(items: Seq<T>, size: nat, i: int)
    requires
        size > 0,
        0 <= i < chunked(items, size).len(),
    ensures
        i < chunked(items, size).len() - 1 ==> chunked(items, size)[i].len() == size,
        0 < chunked(items, size)[i].len() <= size,
    decreases items.len(),
{
    if items.len() > size && i > 0 {
        groups_are_full_but_the_last(items.skip(size as int), size, i - 1);
        assert(chunked(items, size)[i] == chunked(items.skip(size as int), size)[i - 1]);
    }
}

/// A list is written in square brackets, with a comma and a space between two
/// neighbours.
pub proof fn lists_are_written_in_brackets(items: Seq<Seq<char>>)
    ensures
        bracketed(items) == "["@ + joined(items, ", "@) + "]"@,
        bracketed(items).len() == joined(items, ", "@).len() + 2,
{
    reveal_strlit("[");
    reveal_strlit("]");
}

} // verus!
