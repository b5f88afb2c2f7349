use tabulator::conversions::anchor_scaled;
use tabulator::{Align, Cell};

const SPACE_MEDIUM: &str = "  ";

fn text(s: &str, align: Align) -> Cell<'_, 'static> {
    (s, align).into()
}

fn table(rows: &[Vec<&'static str>], align: Align) -> Cell<'static, 'static> {
    Cell::Stack(
        rows.iter()
            .map(|row| Cell::Row(row.iter().map(|s| text(s, align)).collect(), SPACE_MEDIUM))
            .collect(),
    )
}

fn rendered(cell: &Cell) -> String {
    cell.try_render().expect("the cell can be rendered")
}

fn lines(expected: &[&str]) -> String {
    expected.join("\n")
}

#[test]
fn default_style() {
    assert_eq!(rendered(&text("Letsa go Mario!", Align::Left)), "Letsa go Mario!");
    let row = Cell::Row(
        vec![text("Letsa go Mario!", Align::Left), text("OK", Align::Left)],
        SPACE_MEDIUM,
    );
    assert_eq!(rendered(&row), "Letsa go Mario!  OK");
}

#[test]
fn left_justified_strs() {
    let cell = table(&[vec!["A123", "B", "C1"], vec!["D", "E1", "F999"]], Align::Left);
    assert_eq!(rendered(&cell), "A123  B   C1  \nD     E1  F999");
}

#[test]
fn left_justified_strings() {
    let rows = [vec!["A123", "B", "C1"], vec!["D", "E1", "F999"]];
    let cell: Cell = Cell::Stack(
        rows.iter()
            .map(|row| {
                Cell::Row(
                    row.iter().map(|s| (s.to_string(), Align::Left).into()).collect(),
                    SPACE_MEDIUM,
                )
            })
            .collect(),
    );
    assert_eq!(rendered(&cell), "A123  B   C1  \nD     E1  F999");
}

#[test]
fn right_justified_strs() {
    let cell = table(&[vec!["A123", "B", "C1"], vec!["D", "E1", "F999"]], Align::Right);
    assert_eq!(rendered(&cell), "A123   B    C1\n   D  E1  F999");
}

#[test]
fn centred_strs() {
    let cell = table(&[vec!["A123", "B", "C1"], vec!["D", "E1", "F999"]], Align::Centre);
    assert_eq!(rendered(&cell), "A123  B    C1 \n D    E1  F999");
}

#[test]
fn empty_lines_space_filled() {
    let cell = table(
        &[
            vec![],
            vec!["A123", "B", "C1"],
            vec![],
            vec!["D", "E1", "F999"],
            vec!["G", "H"],
            vec![],
        ],
        Align::Right,
    );
    let expected = lines(&[
        "              ",
        "A123   B    C1",
        "              ",
        "   D  E1  F999",
        "   G   H      ",
        "              ",
    ]);
    assert_eq!(rendered(&cell), expected);
}

#[test]
fn anchored() {
    let cell = Cell::Stack(vec![
        Cell::Row(
            vec![text("A", Align::Left), Cell::anchored("1.25", 1), text("A99", Align::Right)],
            SPACE_MEDIUM,
        ),
        Cell::Row(
            vec![text("B1", Align::Left), Cell::anchored("12.2", 2), text("B", Align::Right)],
            SPACE_MEDIUM,
        ),
    ]);
    assert_eq!(rendered(&cell), lines(&["A    1.25  A99", "B1  12.2     B"]));
}

#[test]
fn anchored_with_single_blank_gutter() {
    let cell = Cell::Stack(vec![
        Cell::Row(
            vec![text("A", Align::Left), Cell::anchored("1.25", 1), text("A99", Align::Right)],
            " ",
        ),
        Cell::Row(
            vec![text("B1", Align::Left), Cell::anchored("12.2", 2), text("B", Align::Right)],
            " ",
        ),
    ]);
    assert_eq!(rendered(&cell), "A   1.25 A99\nB1 12.2    B");
}

#[test]
fn decimal_points_share_a_column() {
    let cell = Cell::Stack(vec![
        Cell::Row(vec![Cell::anchored("1.25", 1)], SPACE_MEDIUM),
        Cell::Row(vec![Cell::anchored("12.2", 2)], SPACE_MEDIUM),
    ]);
    let out = rendered(&cell);
    let points: Vec<usize> = out.lines().map(|line| line.find('.').unwrap()).collect();
    assert_eq!(points, vec![2, 2]);
    assert_eq!(out, " 1.25\n12.2 ");
}

#[test]
fn merge_without_anchor() {
    let cell = Cell::Stack(vec![
        Cell::Row(
            vec![
                Cell::Row(vec![text("A1", Align::Left), text("B1", Align::Left)], SPACE_MEDIUM),
                text("C1", Align::Left),
            ],
            SPACE_MEDIUM,
        ),
        Cell::Row(
            vec![text("A2", Align::Left), text("B", Align::Right), text("C", Align::Left)],
            SPACE_MEDIUM,
        ),
    ]);
    assert_eq!(rendered(&cell), lines(&["A1  B1  C1   ", "A2       B  C"]));
}

#[test]
fn merge_with_anchor() {
    let cell = Cell::Stack(vec![
        Cell::Row(
            vec![
                Cell::Row(vec![text("A1", Align::Left), text("B1", Align::Left)], SPACE_MEDIUM),
                text("C1a", Align::Left),
                text("D1-abc", Align::Left),
            ],
            SPACE_MEDIUM,
        ),
        Cell::Row(
            vec![text("A2", Align::Left), Cell::anchored("12.50", 2), text("D", Align::Left)],
            SPACE_MEDIUM,
        ),
        Cell::Row(
            vec![text("A3", Align::Left), Cell::anchored("17.305", 2), text("D3", Align::Right)],
            SPACE_MEDIUM,
        ),
        Cell::Row(
            vec![text("A4", Align::Right), text("C4", Align::Right), text("D4", Align::Right)],
            SPACE_MEDIUM,
        ),
    ]);
    let expected = lines(&[
        "A1  B1  C1a     D1-abc",
        "A2      12.50   D     ",
        "A3      17.305      D3",
        "    A4      C4      D4",
    ]);
    assert_eq!(rendered(&cell), expected);
}

#[test]
fn nested_columns() {
    let cell = Cell::Stack(vec![
        Cell::Row(
            vec![
                Cell::Stack(vec![text("A1", Align::Left), text("A2", Align::Left)]),
                text("B", Align::Left),
                Cell::Stack(vec![
                    text("C1", Align::Left),
                    text("C2", Align::Left),
                    text("C3", Align::Left),
                ]),
            ],
            SPACE_MEDIUM,
        ),
        Cell::Row(
            vec![text("D", Align::Left), text("E", Align::Left), text("F", Align::Left)],
            SPACE_MEDIUM,
        ),
    ]);
    let expected = lines(&["A1  B  C1", "A2     C2", "       C3", "D   E  F "]);
    assert_eq!(rendered(&cell), expected);
}

#[test]
fn tall_stack_sets_the_height_of_a_row() {
    let cell = Cell::Row(
        vec![
            text("left", Align::Left),
            Cell::Stack(vec![
                text("one", Align::Left),
                text("two", Align::Left),
                text("three", Align::Left),
            ]),
            text("r", Align::Right),
        ],
        "|",
    );
    let out = rendered(&cell);
    let got: Vec<&str> = out.split('\n').collect();
    assert_eq!(got, vec!["left|one  |r", "    |two  | ", "    |three| "]);
}

#[test]
fn finished_row_in_a_row_goes_blank_without_gutters() {
    let cell = Cell::Row(
        vec![
            Cell::Row(vec![text("a", Align::Left), text("b", Align::Left)], "|"),
            Cell::Stack(vec![text("x", Align::Left), text("y", Align::Left)]),
        ],
        "#",
    );
    assert_eq!(rendered(&cell), "a|b#x\n   #y");
}

#[test]
fn empty_cells_in_a_stack_take_a_line_each() {
    let cell = Cell::Stack(vec![text("ab", Align::Left), Cell::Empty, Cell::Empty]);
    assert_eq!(rendered(&cell), "ab\n  \n  ");
    let cell = Cell::Stack(vec![Cell::Empty, text("ab", Align::Left)]);
    assert_eq!(rendered(&cell), "  \nab");
}

#[test]
fn nothing_renders_to_nothing() {
    assert_eq!(rendered(&Cell::Empty), "");
    assert_eq!(rendered(&Cell::Stack(vec![])), "");
    assert_eq!(rendered(&Cell::Row(vec![], "--")), "");
    assert_eq!(rendered(&Cell::Row(vec![Cell::Empty, Cell::Empty], "--")), "--");
}

#[test]
fn a_wide_title_above_rows_widens_nothing_but_itself() {
    let cell = Cell::Stack(vec![
        text("a long title", Align::Left),
        Cell::Row(vec![text("a", Align::Left), text("b", Align::Left)], " "),
        Cell::Row(vec![text("c", Align::Left), text("d", Align::Left)], " "),
    ]);
    assert_eq!(rendered(&cell), "a long title\na b\nc d");
}

#[test]
fn anchored_text_in_a_wider_column_keeps_to_the_right() {
    let cell = Cell::Stack(vec![text("Total amount", Align::Left), Cell::anchored("1.25", 1)]);
    assert_eq!(rendered(&cell), "Total amount\n        1.25");
}

#[test]
fn wide_characters_take_two_columns() {
    let cell = Cell::Stack(vec![text("日本", Align::Left), text("abc", Align::Right)]);
    assert_eq!(rendered(&cell), "日本\n abc");
    let g = cell.try_graticule().unwrap();
    assert_eq!(g.width, 4);
}

#[test]
fn anchor_beyond_its_text_cannot_be_rendered() {
    let cell = Cell::anchored("1.5", 4);
    assert!(!cell.is_renderable());
    assert_eq!(cell.try_render(), None);
    let nested = Cell::Stack(vec![Cell::Row(vec![text("a", Align::Left), cell], " ")]);
    assert_eq!(nested.try_render(), None);
    assert!(Cell::anchored("1.5", 3).is_renderable());
}

#[test]
fn render_agrees_with_try_render() {
    let cell = table(&[vec!["A123", "B"], vec!["D"]], Align::Centre);
    assert!(cell.is_renderable());
    assert_eq!(Some(cell.render()), cell.try_render());
}

fn dec(text: &'static str, mantissa: u128, scale: u32) -> Cell<'static, 'static> {
    anchor_scaled(text.to_string(), false, mantissa, scale)
}

#[test]
fn nested_decimals() {
    let cell = Cell::Stack(vec![
        Cell::Row(vec![dec("1.25", 125, 2), text("B1", Align::Left)], SPACE_MEDIUM),
        Cell::Row(vec![dec("13.5", 135, 1), text("B2", Align::Left)], SPACE_MEDIUM),
        Cell::Stack(vec![
            Cell::Row(vec![dec("100.2", 1002, 1), text("B3", Align::Left)], SPACE_MEDIUM),
            Cell::Row(vec![dec("3.125", 3125, 3), text("B4", Align::Left)], SPACE_MEDIUM),
        ]),
    ]);
    let expected = lines(&["  1.25   B1", " 13.5    B2", "100.2    B3", "  3.125  B4"]);
    assert_eq!(rendered(&cell), expected);

    let cell = Cell::Stack(vec![
        Cell::Row(
            vec![
                text("A1", Align::Left),
                Cell::Row(vec![dec("1.25", 125, 2), text("B1", Align::Left)], SPACE_MEDIUM),
            ],
            SPACE_MEDIUM,
        ),
        Cell::Row(
            vec![
                text("A2", Align::Left),
                Cell::Row(vec![dec("13.5", 135, 1), text("B2", Align::Left)], SPACE_MEDIUM),
            ],
            SPACE_MEDIUM,
        ),
        Cell::Row(
            vec![
                text("A3", Align::Left),
                Cell::Stack(vec![
                    Cell::Row(vec![dec("100.2", 1002, 1), text("B3", Align::Left)], SPACE_MEDIUM),
                    Cell::Row(vec![dec("3.125", 3125, 3), text("B4", Align::Left)], SPACE_MEDIUM),
                    Cell::Row(
                        vec![
                            dec("7.50", 750, 2),
                            text("B5", Align::Left),
                            Cell::Row(
                                vec![text("C5abc", Align::Right), text("D5", Align::Right)],
                                SPACE_MEDIUM,
                            ),
                        ],
                        SPACE_MEDIUM,
                    ),
                    Cell::Row(
                        vec![
                            dec("12.5", 125, 1),
                            text("B6", Align::Left),
                            Cell::Row(
                                vec![text("C6", Align::Right), text("D6a", Align::Right)],
                                SPACE_MEDIUM,
                            ),
                        ],
                        SPACE_MEDIUM,
                    ),
                ]),
            ],
            SPACE_MEDIUM,
        ),
    ]);
    let expected = lines(&[
        "A1    1.25   B1            ",
        "A2   13.5    B2            ",
        "A3  100.2    B3            ",
        "      3.125  B4            ",
        "      7.50   B5  C5abc   D5",
        "     12.5    B6     C6  D6a",
    ]);
    assert_eq!(rendered(&cell), expected);
}
