use calyx_interp::rational::Rational;
use calyx_interp::serialization::{
    format_array, Entry, FullySerialize, Nested, Rendering, Serializable, Shape,
};
use calyx_interp::values::{PrintCode, Value};

fn numbers(n: u64) -> Vec<Entry> {
    (0..n).map(Entry::U).collect()
}

fn row(entries: &Vec<&Entry>) -> String {
    let texts: Vec<String> = entries.iter().map(|e| e.to_text()).collect();
    format!("[{}]", texts.join(","))
}

fn grid(rows: &Vec<Vec<&Entry>>) -> String {
    let texts: Vec<String> = rows.iter().map(row).collect();
    format!("[{}]", texts.join(","))
}

fn cube(grids: &Vec<Vec<Vec<&Entry>>>) -> String {
    let texts: Vec<String> = grids.iter().map(grid).collect();
    format!("[{}]", texts.join(","))
}

fn shown(state: &Serializable) -> String {
    match state.render() {
        Rendering::Text(text) => text,
        Rendering::Json(_) => panic!("a JSON document"),
    }
}

#[test]
fn shapes_come_from_sizes() {
    assert_eq!(Shape::from(3), Shape::D1((3,)));
    assert_eq!(Shape::from((3,)), Shape::D1((3,)));
    assert_eq!(Shape::from((3, 4)), Shape::D2((3, 4)));
    assert_eq!(Shape::from((3, 4, 5)), Shape::D3((3, 4, 5)));
    assert_eq!(Shape::from((3, 4, 5, 6)), Shape::D4((3, 4, 5, 6)));
}

#[test]
fn shapes_know_their_dimensions() {
    assert!(Shape::from(3).is_1d());
    assert!(!Shape::from((3, 4)).is_1d());
    assert_eq!(Shape::from(3).dim_str(), "1D");
    assert_eq!(Shape::from((3, 4)).dim_str(), "2D");
    assert_eq!(Shape::from((3, 4, 5)).dim_str(), "3D");
    assert_eq!(Shape::from((3, 4, 5, 6)).dim_str(), "4D");
}

#[test]
fn shapes_that_cannot_be_cut() {
    assert!(Shape::from(0).is_nestable());
    assert!(!Shape::from((4, 0)).is_nestable());
    assert!(Shape::from((0, 4)).is_nestable());
    assert!(!Shape::from((4, 0, 2)).is_nestable());
    assert!(!Shape::from((1, usize::MAX, 2)).is_nestable());
    assert!(!Shape::from((1, usize::MAX, 2, 0)).is_nestable());
    assert!(!Shape::from((1, usize::MAX, 2, 1)).is_nestable());
    assert!(Shape::from((1, 2, 3, 4)).is_nestable());
    assert!(Shape::from((0, 3, 2)).is_nestable());
    assert!(!Shape::from((2, 3, 0)).is_nestable());
}

#[test]
fn entries_show_values_as_asked() {
    let value = Value::from_bits(vec![true, false, true, true]);
    assert_eq!(Entry::from_val_code(&value, &PrintCode::Unsigned).to_text(), "13");
    assert_eq!(Entry::from_val_code(&value, &PrintCode::Signed).to_text(), "-3");
    assert_eq!(Entry::from_val_code(&value, &PrintCode::UFixed(2)).to_text(), "13/4");
    assert_eq!(Entry::from_val_code(&value, &PrintCode::SFixed(2)).to_text(), "-3/4");
    assert_eq!(Entry::from_val_code(&value, &PrintCode::Binary).to_text(), "1101");
}

#[test]
fn entries_come_from_numbers() {
    assert!(matches!(Entry::from(7u64), Entry::U(7)));
    assert!(matches!(Entry::from(-7i64), Entry::I(-7)));
    let half = Rational { negative: false, numer: 1, denom: 2 };
    assert_eq!(Entry::from(half).to_text(), "1/2");
    assert_eq!(Entry::from(-7i64).clone().to_text(), "-7");
}

#[test]
fn only_empty_state_is_no_state() {
    assert!(!Serializable::Empty.has_state());
    assert!(Serializable::Val(Entry::U(1)).has_state());
    assert!(Serializable::Array(vec![], Shape::from(0)).has_state());
    assert!(Serializable::Full(FullySerialize { entries: vec![] }).has_state());
}

#[test]
fn arrays_are_nested_along_their_shape() {
    let flat = Serializable::Array(numbers(3), Shape::from(3));
    match flat.serialize() {
        Nested::D1(items) => assert_eq!(row(&items), "[0,1,2]"),
        _ => panic!(),
    }
    let two = Serializable::Array(numbers(6), Shape::from((2, 3)));
    match two.serialize() {
        Nested::D2(items) => assert_eq!(grid(&items), "[[0,1,2],[3,4,5]]"),
        _ => panic!(),
    }
    let three = Serializable::Array(numbers(12), Shape::from((2, 3, 2)));
    match three.serialize() {
        Nested::D3(items) => {
            assert_eq!(cube(&items), "[[[0,1],[2,3],[4,5]],[[6,7],[8,9],[10,11]]]")
        }
        _ => panic!(),
    }
    let four = Serializable::Array(numbers(16), Shape::from((2, 2, 2, 2)));
    match four.serialize() {
        Nested::D4(items) => {
            let texts: Vec<String> = items.iter().map(cube).collect();
            assert_eq!(
                texts,
                vec![
                    "[[[0,1],[2,3]],[[4,5],[6,7]]]",
                    "[[[8,9],[10,11]],[[12,13],[14,15]]]"
                ]
            );
        }
        _ => panic!(),
    }
}

#[test]
fn the_last_list_may_be_shorter() {
    let two = Serializable::Array(numbers(5), Shape::from((2, 3)));
    match two.serialize() {
        Nested::D2(items) => assert_eq!(grid(&items), "[[0,1,2],[3,4]]"),
        _ => panic!(),
    }
}

#[test]
fn nesting_loses_no_entry() {
    let state = Serializable::Array(numbers(24), Shape::from((2, 3, 4)));
    match state.serialize() {
        Nested::D3(items) => {
            let texts: Vec<String> =
                items.iter().flatten().flatten().map(|e| e.to_text()).collect();
            let all: Vec<String> = (0..24).map(|n| format!("{}", n)).collect();
            assert_eq!(texts, all);
        }
        _ => panic!(),
    }
}

#[test]
fn other_state_is_not_nested() {
    assert!(matches!(Serializable::Empty.serialize(), Nested::Unit));
    let value = Serializable::Val(Entry::U(9));
    match value.serialize() {
        Nested::Leaf(entry) => assert_eq!(entry.to_text(), "9"),
        _ => panic!(),
    }
    let full = Serializable::Full(FullySerialize {
        entries: vec![(String::from("r"), Entry::U(9))],
    });
    match full.serialize() {
        Nested::Full(doc) => assert_eq!(doc.entries[0].0, "r"),
        _ => panic!(),
    }
}

#[test]
fn arrays_are_written_out() {
    assert_eq!(format_array(&numbers(3), &Shape::from(3)), "[0, 1, 2]");
    assert_eq!(
        format_array(&numbers(6), &Shape::from((2, 3))),
        "[[0, 1, 2], [3, 4, 5]]"
    );
    assert_eq!(
        format_array(&numbers(16), &Shape::from((2, 2, 2, 2))),
        "[[[[0, 1], [2, 3]], [[4, 5], [6, 7]]], [[[8, 9], [10, 11]], [[12, 13], [14, 15]]]]"
    );
    assert_eq!(format_array(&numbers(0), &Shape::from((0, 3))), "[]");
}

#[test]
fn three_dimensions_are_written_out_plane_by_plane() {
    assert_eq!(
        format_array(&numbers(12), &Shape::from((2, 3, 2))),
        "[[[0, 1], [2, 3], [4, 5]], [[6, 7], [8, 9], [10, 11]]]"
    );
    assert_eq!(
        format_array(&numbers(6), &Shape::from((2, 1, 3))),
        "[[[0, 1, 2]], [[3, 4, 5]]]"
    );
    assert_eq!(
        format_array(&numbers(8), &Shape::from((1, 2, 4))),
        "[[[0, 1, 2, 3], [4, 5, 6, 7]]]"
    );
}

#[test]
fn text_is_nested_as_state_is_serialized() {
    let shape = Shape::from((4, 1, 2));
    let written = format_array(&numbers(8), &shape);
    match Serializable::Array(numbers(8), shape).serialize() {
        Nested::D3(items) => assert_eq!(written, cube(&items).replace(",", ", ")),
        _ => panic!(),
    }
}

#[test]
fn state_can_be_copied() {
    let array = Serializable::Array(numbers(4), Shape::from((2, 2)));
    assert_eq!(shown(&array.clone()), "[[0, 1], [2, 3]]");
    assert_eq!(shown(&Serializable::Val(Entry::U(3)).clone()), "3");
    assert!(!Serializable::Empty.clone().has_state());
    let full = Serializable::Full(FullySerialize {
        entries: vec![(String::from("r"), Entry::U(9))],
    });
    match full.clone() {
        Serializable::Full(doc) => {
            assert_eq!(doc.entries[0].0, "r");
            assert_eq!(doc.entries[0].1.to_text(), "9");
        }
        _ => panic!(),
    }
}

#[test]
fn state_is_rendered() {
    assert_eq!(shown(&Serializable::Empty), "");
    assert_eq!(shown(&Serializable::Val(Entry::I(-4))), "-4");
    assert_eq!(
        shown(&Serializable::Array(numbers(4), Shape::from((2, 2)))),
        "[[0, 1], [2, 3]]"
    );
    let full = Serializable::Full(FullySerialize { entries: vec![] });
    assert!(matches!(full.render(), Rendering::Json(_)));
}

fn json(state: Serializable) -> String {
    state.to_json().unwrap()
}

#[test]
fn numbers_are_written_as_json() {
    assert_eq!(json(Serializable::Empty), "null");
    assert_eq!(json(Serializable::Val(Entry::U(u64::MAX))), "18446744073709551615");
    assert_eq!(json(Serializable::Val(Entry::I(i64::MIN))), "-9223372036854775808");
    let mixed = vec![Entry::U(7), Entry::I(-7), Entry::U(0)];
    assert_eq!(json(Serializable::Array(mixed, Shape::from(3))), "[7,-7,0]");
    assert_eq!(json(Serializable::Array(vec![], Shape::from(0))), "[]");
    assert_eq!(json(Serializable::Array(numbers(4), Shape::from((2, 2)))), "[[0,1],[2,3]]");
    assert_eq!(
        json(Serializable::Array(numbers(6), Shape::from((2, 1, 3)))),
        "[[[0,1,2]],[[3,4,5]]]"
    );
    assert_eq!(
        json(Serializable::Array(numbers(8), Shape::from((2, 1, 2, 2)))),
        "[[[[0,1],[2,3]]],[[[4,5],[6,7]]]]"
    );
}

#[test]
fn other_state_is_not_written_as_json() {
    let ratio = Entry::from_val_code(&Value::from_bits(vec![true]), &PrintCode::UFixed(1));
    assert!(Serializable::Val(ratio.clone()).to_json().is_none());
    let value = Entry::Value(Value::from_bits(vec![true]));
    assert!(Serializable::Val(value).to_json().is_none());
    let entries = || vec![Entry::U(1), Entry::U(2), Entry::U(3), ratio.clone()];
    for shape in [
        Shape::from(4),
        Shape::from((2, 2)),
        Shape::from((2, 2, 1)),
        Shape::from((1, 2, 2, 1)),
    ] {
        assert!(Serializable::Array(entries(), shape).to_json().is_none());
    }
    assert!(Serializable::Full(FullySerialize { entries: vec![] }).to_json().is_none());
}

#[test]
fn shown_text_is_json_without_its_spaces() {
    for shape in [
        Shape::from(12),
        Shape::from((3, 4)),
        Shape::from((2, 3, 2)),
        Shape::from((2, 1, 3, 2)),
        Shape::from((1, 5)),
    ] {
        let state = Serializable::Array(numbers(12), shape);
        assert_eq!(shown(&state).replace(' ', ""), json(state));
    }
    let number = Serializable::Val(Entry::I(-12));
    assert_eq!(shown(&number), json(number));
}
