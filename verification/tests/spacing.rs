use tabulator::{Align, Cell, Gap, Spacing, Style};

fn left(s: &'static str) -> Cell<'static, 'static> {
    (s, Align::Left).into()
}

fn right(s: &'static str) -> Cell<'static, 'static> {
    (s, Align::Right).into()
}

fn row(cells: Vec<Cell<'static, 'static>>) -> Cell<'static, 'static> {
    Cell::Row(cells, "?")
}

#[test]
fn gaps_in_each_style() {
    assert_eq!(Style::default(), Style::Spaced);
    assert_eq!(Style::Spaced.gutter(Gap::Flush), "");
    assert_eq!(Style::Spaced.gutter(Gap::Minor), " ");
    assert_eq!(Style::Spaced.gutter(Gap::Medium), "  ");
    assert_eq!(Style::Spaced.gutter(Gap::Major), "   ");
    assert_eq!(Style::Piped.gutter(Gap::Flush), "");
    assert_eq!(Style::Piped.gutter(Gap::Minor), "|");
    assert_eq!(Style::Piped.gutter(Gap::Medium), "||");
    assert_eq!(Style::Piped.gutter(Gap::Major), "|||");
    assert!(Gap::Flush < Gap::Minor && Gap::Minor < Gap::Medium && Gap::Medium < Gap::Major);
}

#[test]
fn child_spacing_falls_back_to_the_nearest_before() {
    let minor = || Spacing::uniform(Gap::Minor);
    let flush = || Spacing::uniform(Gap::Flush);
    let spacing = Spacing {
        primary: Gap::Major,
        children: vec![None, Some(minor()), None, Some(flush())],
    };
    assert_eq!(spacing.get_child_spacing(0), &spacing);
    assert_eq!(spacing.get_child_spacing(1), &minor());
    assert_eq!(spacing.get_child_spacing(2), &minor());
    assert_eq!(spacing.get_child_spacing(3), &flush());
    assert_eq!(spacing.get_child_spacing(4), &flush());
    assert_eq!(spacing.get_child_spacing(usize::MAX), &flush());
    let plain = Spacing::uniform(Gap::Medium);
    assert_eq!(plain.get_child_spacing(0), &plain);
    assert_eq!(plain.get_child_spacing(7), &plain);
}

#[test]
fn styled() {
    let cell = row(vec![row(vec![left("A"), left("B")]), row(vec![left("C"), left("D")])]);
    let piped = cell.spaced(&Spacing::uniform(Gap::Medium), Style::Piped);
    assert_eq!(piped.try_render().unwrap(), "A||B||C||D");
}

#[test]
fn simple_nested_spacing() {
    let spacing = Spacing {
        primary: Gap::Major,
        children: vec![
            None,
            Some(Spacing::uniform(Gap::Medium)),
            Some(Spacing::uniform(Gap::Minor)),
            None,
        ],
    };
    let cell = Cell::Stack(vec![
        row(vec![
            left("A"),
            row(vec![left("B1"), left("C1")]),
            row(vec![left("D1a"), left("E1-abc")]),
            right("F"),
        ]),
        row(vec![
            left("A2"),
            row(vec![left("B1"), left("C1")]),
            row(vec![left("D1a"), left("E1-abc")]),
            right("F2"),
        ]),
    ]);
    let out = cell.spaced(&spacing, Style::default()).try_render().unwrap();
    assert_eq!(out, "A    B1  C1   D1a E1-abc    F\nA2   B1  C1   D1a E1-abc   F2");
}

#[test]
fn nested_spacing_repeat() {
    let spacing = Spacing {
        primary: Gap::Major,
        children: vec![
            None,
            Some(Spacing {
                primary: Gap::Medium,
                children: vec![None, Some(Spacing::uniform(Gap::Minor))],
            }),
        ],
    };
    let cell = row(vec![
        left("A"),
        row(vec![left("BA"), row(vec![left("BBA"), left("BBB")]), left("BC")]),
        row(vec![left("CA"), row(vec![left("CBA"), left("CBB")]), left("CC")]),
        row(vec![left("DA"), left("DB")]),
        right("X"),
    ]);
    let out = cell.spaced(&spacing, Style::Spaced).try_render().unwrap();
    assert_eq!(out, "A   BA  BBA BBB  BC   CA  CBA CBB  CC   DA  DB   X");
}

#[test]
fn one_gutter_everywhere() {
    let cell = Cell::Stack(vec![
        row(vec![left("a"), row(vec![left("b"), left("c")])]),
        row(vec![left("d")]),
    ]);
    let flat = cell.with_gutter("/");
    assert_eq!(flat.try_render().unwrap(), "a/b/c\nd/   ");
}

#[test]
fn doubly_nested_spacing() {
    let spacing = Spacing {
        primary: Gap::Major,
        children: vec![
            None,
            Some(Spacing {
                primary: Gap::Medium,
                children: vec![
                    None,
                    Some(Spacing {
                        primary: Gap::Minor,
                        children: vec![None, Some(Spacing::uniform(Gap::Flush)), None],
                    }),
                ],
            }),
            Some(Spacing::uniform(Gap::Minor)),
        ],
    };
    let cell = Cell::Stack(vec![row(vec![
        left("A1"),
        row(vec![
            left("B1"),
            row(vec![left("C1"), row(vec![left("X1"), left("Y1")]), left("D1")]),
            left("E1"),
        ]),
        row(vec![left("F1"), left("G1")]),
        right("H1"),
    ])]);
    let out = cell.spaced(&spacing, Style::default()).try_render().unwrap();
    assert_eq!(out, "A1   B1  C1 X1Y1 D1  E1   F1 G1   H1");
}
