use std::borrow::Cow;
use tabulator::psv::str_to_cell;
use tabulator::{Align, Cell, PsvfError, PsvfErrorKind};

fn aligned(s: &'static str) -> Cell<'static, 'static> {
    Cell::Aligned(Cow::Borrowed(s), Align::Left)
}

#[test]
fn fields_become_cells() {
    assert_eq!(str_to_cell("", Align::Left), Cell::Empty);
    assert_eq!(str_to_cell("  \t ", Align::Left), Cell::Empty);
    assert_eq!(str_to_cell(" 1234 ", Align::Left), Cell::anchored("1234", 4));
    assert_eq!(str_to_cell("12.5", Align::Left), Cell::anchored("12.5", 2));
    assert_eq!(str_to_cell(".5", Align::Left), Cell::anchored(".5", 0));
    assert_eq!(str_to_cell("5.", Align::Left), Cell::anchored("5.", 1));
    assert_eq!(str_to_cell(".", Align::Left), Cell::anchored(".", 0));
    assert_eq!(str_to_cell("1.2.3", Align::Left), aligned("1.2.3"));
    assert_eq!(str_to_cell("-12", Align::Left), aligned("-12"));
    assert_eq!(
        str_to_cell(" a b ", Align::Right),
        Cell::Aligned(Cow::Borrowed("a b"), Align::Right)
    );
    assert_eq!(str_to_cell("\u{3000}x\u{a0}", Align::Left), aligned("x"));
    assert_eq!(str_to_cell("١٢", Align::Left), aligned("١٢"));
}

#[test]
fn lines_become_rows() {
    let cell = Cell::from_psv("a | 12.5\n\n  b|c|7  \r\n", Align::Left, "  ");
    let expected = Cell::Stack(vec![
        Cell::Row(vec![aligned("a"), Cell::anchored("12.5", 2)], "  "),
        Cell::Row(vec![Cell::Empty], "  "),
        Cell::Row(vec![aligned("b"), aligned("c"), Cell::anchored("7", 1)], "  "),
    ]);
    assert_eq!(cell, expected);
    assert_eq!(cell.try_render().unwrap(), "a  12.5   \n          \nb  c     7");
}

#[test]
fn the_last_line_break_is_optional() {
    assert_eq!(Cell::from_psv("", Align::Left, " "), Cell::Stack(vec![]));
    let one = Cell::Stack(vec![Cell::Row(vec![aligned("a")], " ")]);
    assert_eq!(Cell::from_psv("a", Align::Left, " "), one);
    assert_eq!(Cell::from_psv("a\n", Align::Left, " "), one);
    let two = Cell::Stack(vec![
        Cell::Row(vec![aligned("a")], " "),
        Cell::Row(vec![Cell::Empty], " "),
    ]);
    assert_eq!(Cell::from_psv("a\n\n", Align::Left, " "), two);
    assert_eq!(
        Cell::from_psv("\n", Align::Left, " "),
        Cell::Stack(vec![Cell::Row(vec![Cell::Empty], " ")])
    );
}

#[test]
fn psv_agrees_with_the_standard_splitting() {
    let input = " x| y |\n|\u{2003}1.0|2\n\n \r\nlast|.";
    let cell = Cell::from_psv(input, Align::Centre, "|");
    let expected = Cell::Stack(
        input
            .lines()
            .map(|line| {
                Cell::Row(
                    line.trim().split('|').map(|s| str_to_cell(s, Align::Centre)).collect(),
                    "|",
                )
            })
            .collect(),
    );
    assert_eq!(cell, expected);
}

#[test]
fn framed_lines_lose_their_frame() {
    let cell = Cell::from_psvf(" |a|12|\n||\n| x |  ", Align::Left, " ").unwrap();
    let expected = Cell::Stack(vec![
        Cell::Row(vec![aligned("a"), Cell::anchored("12", 2)], " "),
        Cell::Row(vec![Cell::Empty], " "),
        Cell::Row(vec![aligned("x")], " "),
    ]);
    assert_eq!(cell, expected);
    assert_eq!(Cell::from_psvf("", Align::Left, " "), Ok(Cell::Stack(vec![])));
}

#[test]
fn missing_trailing_pipe_on_the_second_line() {
    let result = Cell::from_psvf("|a|b|\n|c|d", Align::Left, " ");
    let error = result.unwrap_err();
    assert_eq!(error, PsvfError { line: 2, kind: PsvfErrorKind::MissingTrailingPipe });
    assert_eq!(error.message(), "Bad PSVF at line 2: missing trailing pipe");
}

#[test]
fn unframed_text_is_refused_at_its_first_line() {
    let error = Cell::from_psvf("a|b\nc|d", Align::Left, " ").unwrap_err();
    assert_eq!(error, PsvfError { line: 1, kind: PsvfErrorKind::MissingLeadingPipe });
    assert_eq!(error.message(), "Bad PSVF at line 1: missing leading pipe");
}

#[test]
fn the_first_fault_is_the_one_reported() {
    let error = Cell::from_psvf("|a|\n|b|\n\n|c", Align::Left, " ").unwrap_err();
    assert_eq!(error, PsvfError { line: 3, kind: PsvfErrorKind::MissingLeadingPipe });
    let error = Cell::from_psvf("|a|\n|\nb", Align::Left, " ").unwrap_err();
    assert_eq!(error, PsvfError { line: 2, kind: PsvfErrorKind::MissingTrailingPipe });
    let error = Cell::from_psvf("|a|\n|b|\n|c|\n|d|\n|e|\n|f|\n|g|\n|h|\n|i|\n|j|\nk|", Align::Left, "")
        .unwrap_err();
    assert_eq!(error.message(), "Bad PSVF at line 11: missing leading pipe");
}

#[test]
fn fault_kinds_in_words() {
    assert_eq!(PsvfErrorKind::MissingLeadingPipe.message(), "missing leading pipe");
    assert_eq!(PsvfErrorKind::MissingTrailingPipe.message(), "missing trailing pipe");
}
