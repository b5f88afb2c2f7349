use std::borrow::Cow;
use tabulator::{Align, BorrowedCell, Cell};

#[test]
fn borrowed_cells_become_cells() {
    let borrowed = BorrowedCell::Stack(vec![
        BorrowedCell::Row(
            vec![
                BorrowedCell::Aligned("a", Align::Centre),
                BorrowedCell::Empty,
                BorrowedCell::Anchored("1.5", 1),
            ],
            "::",
        ),
        BorrowedCell::Row(vec![], ""),
        BorrowedCell::Stack(vec![BorrowedCell::Aligned("b", Align::Right)]),
    ]);
    let cell: Cell = borrowed.into();
    let expected = Cell::Stack(vec![
        Cell::Row(
            vec![
                Cell::Aligned(Cow::Borrowed("a"), Align::Centre),
                Cell::Empty,
                Cell::anchored("1.5", 1),
            ],
            "::",
        ),
        Cell::Row(vec![], ""),
        Cell::Stack(vec![Cell::Aligned(Cow::Borrowed("b"), Align::Right)]),
    ]);
    assert_eq!(cell, expected);
    assert_eq!(Cell::from(BorrowedCell::Empty), Cell::Empty);
}
