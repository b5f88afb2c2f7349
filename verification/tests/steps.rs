use std::collections::VecDeque;
use tabulator::remaining::pad;
use tabulator::{Align, Cell, Graticule, Remaining};

#[test]
fn pad_is_blanks() {
    assert_eq!(pad(0), "");
    assert_eq!(pad(3), "   ");
}

#[test]
fn a_step_writes_one_line_and_leaves_the_rest() {
    let cell = Cell::Stack(vec![("ab", Align::Left).into(), ("c", Align::Right).into()]);
    let g = cell.try_graticule().unwrap();
    let all = Remaining::from_cell(&cell);
    assert!(!all.is_empty());
    let mut out = String::from(">");
    let left = all.format(&mut out, &g);
    assert_eq!(out, ">ab");
    let mut queue = VecDeque::new();
    queue.push_back(Remaining::Aligned("c", Align::Right));
    assert_eq!(left, Remaining::Stack(queue));
    let left = left.format(&mut out, &g);
    assert_eq!(out, ">ab c");
    assert!(left.is_empty());
}

#[test]
fn a_row_keeps_its_shape_until_every_column_is_done() {
    let cell = Cell::Row(
        vec![
            ("a", Align::Left).into(),
            Cell::Stack(vec![("x", Align::Left).into(), ("y", Align::Left).into()]),
        ],
        "|",
    );
    let g = cell.try_graticule().unwrap();
    let mut out = String::new();
    let left = Remaining::from_cell(&cell).format(&mut out, &g);
    assert_eq!(out, "a|x");
    let mut queue = VecDeque::new();
    queue.push_back(Remaining::Aligned("y", Align::Left));
    assert_eq!(left, Remaining::Row(vec![Remaining::Empty, Remaining::Stack(queue)]));
    let left = left.format(&mut out, &g);
    assert_eq!(out, "a|x |y");
    assert_eq!(left, Remaining::Empty);
}

#[test]
fn a_finished_cell_writes_blanks() {
    let g = Graticule { width: 3, anchor: None, children: None };
    let mut out = String::new();
    let left = Remaining::Empty.format(&mut out, &g);
    assert_eq!(out, "   ");
    assert!(left.is_empty());
}

#[test]
fn a_short_row_is_filled_with_blank_columns() {
    let g = Graticule {
        width: 5,
        anchor: None,
        children: Some((
            vec![
                Graticule { width: 2, anchor: None, children: None },
                Graticule { width: 2, anchor: None, children: None },
            ],
            "|",
        )),
    };
    let mut out = String::new();
    let left = Remaining::Row(vec![Remaining::Aligned("a", Align::Right)]).format(&mut out, &g);
    assert_eq!(out, " a|  ");
    assert!(left.is_empty());
}

#[test]
fn centre_puts_the_odd_blank_behind() {
    let g = Graticule { width: 6, anchor: None, children: None };
    let mut out = String::new();
    Remaining::Aligned("abc", Align::Centre).format(&mut out, &g);
    assert_eq!(out, " abc  ");
}
