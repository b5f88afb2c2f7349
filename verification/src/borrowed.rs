use crate::cell::{cell_views, lemma_cell_view, Align, Cell, CellView};
use std::borrow::Cow;
use vstd::prelude::*;
use vstd::std_specs::convert::FromSpecImpl;

verus! {

/// A cell whose text is all borrowed, as a decoder hands it over.
#[derive(Debug, PartialEq, Eq)]
pub enum BorrowedCell<'a> {
    Empty,
    Aligned(&'a str, Align),
    Anchored(&'a str, usize),
    Row(Vec<BorrowedCell<'a>>, &'a str),
    Stack(Vec<BorrowedCell<'a>>),
}

/// The view of a borrowed cell, which is that of the cell it stands for.
pub open spec fn borrowed_view(cell: BorrowedCell) -> CellView
    decreases cell,
{
    match cell {
        BorrowedCell::Empty => CellView::Empty,
        BorrowedCell::Aligned(s, align) => CellView::Aligned(s@, align),
        BorrowedCell::Anchored(s, idx) => CellView::Anchored(s@, idx as nat),
        BorrowedCell::Row(cells, gutter) => CellView::Row(
            Seq::new(
                cells@.len(),
                |i: int|
                    if 0 <= i < cells@.len() {
                        borrowed_view(cells@[i])
                    } else {
                        CellView::Empty
                    },
            ),
            gutter@,
        ),
        BorrowedCell::Stack(cells) => CellView::Stack(
            Seq::new(
                cells@.len(),
                |i: int|
                    if 0 <= i < cells@.len() {
                        borrowed_view(cells@[i])
                    } else {
                        CellView::Empty
                    },
            ),
        ),
    }
}

impl<'a> View for BorrowedCell<'a> {
    type V = CellView;

    open spec fn view(&self) -> CellView {
        borrowed_view(*self)
    }
}

/// The views of a run of borrowed cells, in order.
pub open spec fn borrowed_views(cells: Seq<BorrowedCell>) -> Seq<CellView> {
    Seq::new(cells.len(), |i: int| cells[i]@)
}

/// What the view of a borrowed cell is, variant by variant.
pub proof fn lemma_borrowed_view(cell: BorrowedCell)
    ensures
        match cell {
            BorrowedCell::Empty => cell@ == CellView::Empty,
            BorrowedCell::Aligned(s, align) => cell@ == CellView::Aligned(s@, align),
            BorrowedCell::Anchored(s, idx) => cell@ == CellView::Anchored(s@, idx as nat),
            BorrowedCell::Row(cells, gutter) => cell@ == CellView::Row(
                borrowed_views(cells@),
                gutter@,
            ),
            BorrowedCell::Stack(cells) => cell@ == CellView::Stack(borrowed_views(cells@)),
        },
{
    match cell {
        BorrowedCell::Row(cells, gutter) => {
            assert(cell@->Row_0 =~= borrowed_views(cells@));
        },
        BorrowedCell::Stack(cells) => {
            assert(cell@->Stack_0 =~= borrowed_views(cells@));
        },
        _ => {},
    }
}

/// The cells that a run of borrowed cells stands for.
fn cells_of<'a>(cells: Vec<BorrowedCell<'a>>) -> (owned: Vec<Cell<'a, 'a>>)
    ensures
        cell_views(owned@) == borrowed_views(cells@),
    decreases cells@, 0nat,
{
    let ghost want = borrowed_views(cells@);
    let mut owned: Vec<Cell<'a, 'a>> = Vec::new();
    for cell in it: cells
        invariant
            want == borrowed_views(cells@),
            it.seq() == cells@,
            owned@.len() == it.index(),
            forall|j: int| 0 <= j < owned@.len() ==> (#[trigger] owned@[j])@ == want[j],
    {
        let ghost k = owned@.len() as int;
        assert(cell == cells@[k]);
        assert(decreases_to!(cells@ => cells@[k]));
        owned.push(cell_of(cell));
    }
    assert(cell_views(owned@) =~= want);
    owned
}

/// The cell that a borrowed cell stands for.
fn cell_of<'a>(value: BorrowedCell<'a>) -> (cell: Cell<'a, 'a>)
    ensures
        cell@ == value@,
    decreases value, 1nat,
{
    proof {
        lemma_borrowed_view(value);
    }
    let cell = match value {
        BorrowedCell::Empty => Cell::Empty,
        BorrowedCell::Aligned(s, align) => Cell::Aligned(Cow::Borrowed(s), align),
        BorrowedCell::Anchored(s, idx) => Cell::Anchored(Cow::Borrowed(s), idx),
        BorrowedCell::Row(cells, gutter) => Cell::Row(cells_of(cells), gutter),
        BorrowedCell::Stack(cells) => Cell::Stack(cells_of(cells)),
    };
    proof {
        lemma_cell_view(cell);
    }
    cell
}

impl<'a> Default for BorrowedCell<'a> {
    fn default() -> (cell: Self)
        ensures
            cell@ == CellView::Empty,
    {
        BorrowedCell::Empty
    }
}

impl<'a> From<BorrowedCell<'a>> for Cell<'a, 'a> {
    fn from(value: BorrowedCell<'a>) -> (cell: Self)
        ensures
            cell@ == value@,
    {
        cell_of(value)
    }
}

impl<'a> FromSpecImpl<BorrowedCell<'a>> for Cell<'a, 'a> {
    open spec fn obeys_from_spec() -> bool {
        false
    }

    open spec fn from_spec(v: BorrowedCell<'a>) -> Self {
        choose|cell: Cell<'a, 'a>| cell@ == v@
    }
}

} // verus!
