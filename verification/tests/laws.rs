use tabulator::{Align, Cell};

#[test]
fn left_aligned_text_comes_back_when_trimmed() {
    for text in ["a", "two words", "  indented", "日本語", ""] {
        let alone: Cell = (text, Align::Left).into();
        let out = alone.try_render().unwrap();
        assert_eq!(out, text);
        assert_eq!(out.trim_end(), text);

        let stacked = Cell::Stack(vec![
            (text, Align::Left).into(),
            ("something much wider", Align::Left).into(),
        ]);
        let out = stacked.try_render().unwrap();
        let first = out.split('\n').next().unwrap();
        assert_eq!(first.trim_end(), text);
    }
}

#[test]
fn trailing_blanks_of_the_text_are_trimmed_with_the_padding() {
    let stacked = Cell::Stack(vec![("a ", Align::Left).into(), ("wider", Align::Left).into()]);
    let out = stacked.try_render().unwrap();
    assert_eq!(out, "a    \nwider");
    assert_eq!(out.split('\n').next().unwrap().trim_end(), "a");
}

#[test]
fn anchored_text_alone_is_the_text() {
    for (text, idx) in [("1.25", 1), ("1.25", 0), ("1.25", 4), ("", 0), ("１２", 4)] {
        let cell = Cell::anchored(text, idx);
        assert_eq!(cell.try_render().unwrap(), text);
        assert_eq!(cell.try_graticule().unwrap().anchor.unwrap().0, idx);
    }
}

#[test]
fn anchors_in_a_column_stand_above_each_other() {
    let texts = [("1.25", 1), ("12.2", 2), ("1234", 4), (".5", 0), ("7", 1)];
    let cell = Cell::Stack(texts.iter().map(|(text, idx)| Cell::anchored(text, *idx)).collect());
    let out = cell.try_render().unwrap();
    for (line, (text, idx)) in out.split('\n').zip(texts.iter()) {
        assert_eq!(line.len(), 7);
        assert_eq!(line.find(text).unwrap() + idx, 4);
    }
}
