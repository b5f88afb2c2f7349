use std::borrow::Cow;
use vstd::prelude::*;
use vstd::std_specs::convert::FromSpecImpl;

verus! {

/// How a single line of text sits inside a wider column.
#[derive(Copy, Clone, Debug, PartialEq, Eq, Structural)]
pub enum Align {
    Left,
    Right,
    Centre,
}

/// A tree of text to lay out: nothing, a line of text aligned in its column,
/// a line of text with an anchor that stacked cells line up on, cells side by
/// side with a separator between them, or cells one below the other.
///
/// The anchor of `Anchored` is counted in display columns from the start of
/// the text, and lies within the text.
#[derive(Debug, PartialEq, Eq)]
pub enum Cell<'a, 'g> {
    Empty,
    Aligned(Cow<'a, str>, Align),
    Anchored(Cow<'a, str>, usize),
    Row(Vec<Cell<'a, 'g>>, &'g str),
    Stack(Vec<Cell<'a, 'g>>),
}

/// A cell as a mathematical tree: sequences of characters for text, a
/// natural number for the anchor, sequences of cells below rows and stacks.
pub enum CellView {
    Empty,
    Aligned(Seq<char>, Align),
    Anchored(Seq<char>, nat),
    Row(Seq<CellView>, Seq<char>),
    Stack(Seq<CellView>),
}

/// The view of a cell: its text as sequences of characters, its children as
/// a sequence of views.
pub open spec fn cell_view(cell: Cell) -> CellView
    decreases cell,
{
    match cell {
        Cell::Empty => CellView::Empty,
        Cell::Aligned(s, align) => CellView::Aligned(s@, align),
        Cell::Anchored(s, idx) => CellView::Anchored(s@, idx as nat),
        Cell::Row(cells, gutter) => CellView::Row(
            Seq::new(
                cells@.len(),
                |i: int|
                    if 0 <= i < cells@.len() {
                        cell_view(cells@[i])
                    } else {
                        CellView::Empty
                    },
            ),
            gutter@,
        ),
        Cell::Stack(cells) => CellView::Stack(
            Seq::new(
                cells@.len(),
                |i: int|
                    if 0 <= i < cells@.len() {
                        cell_view(cells@[i])
                    } else {
                        CellView::Empty
                    },
            ),
        ),
    }
}

impl<'a, 'g> View for Cell<'a, 'g> {
    type V = CellView;

    open spec fn view(&self) -> CellView {
        cell_view(*self)
    }
}

/// The views of a run of cells, in order.
pub open spec fn cell_views(cells: Seq<Cell>) -> Seq<CellView> {
    Seq::new(cells.len(), |i: int| cells[i]@)
}

/// What the view of a cell is, variant by variant.
pub proof fn lemma_cell_view(cell: Cell)
    ensures
        match cell {
            Cell::Empty => cell@ == CellView::Empty,
            Cell::Aligned(s, align) => cell@ == CellView::Aligned(s@, align),
            Cell::Anchored(s, idx) => cell@ == CellView::Anchored(s@, idx as nat),
            Cell::Row(cells, gutter) => cell@ == CellView::Row(cell_views(cells@), gutter@),
            Cell::Stack(cells) => cell@ == CellView::Stack(cell_views(cells@)),
        },
{
    match cell {
        Cell::Row(cells, gutter) => {
            assert(cell@->Row_0 =~= cell_views(cells@));
        },
        Cell::Stack(cells) => {
            assert(cell@->Stack_0 =~= cell_views(cells@));
        },
        _ => {},
    }
}

/// The text that a borrowed-or-owned string holds.
pub fn text_of<'c, 'a>(s: &'c Cow<'a, str>) -> (text: &'c str)
    ensures
        text@ == s@,
{
    match s {
        Cow::Borrowed(b) => b,
        Cow::Owned(o) => o.as_str(),
    }
}

impl<'a, 'g> Cell<'a, 'g> {
    /// The text anchored at position `idx`, counted in display columns.
    pub fn anchored(s: &'a str, idx: usize) -> (cell: Self)
        ensures
            cell@ == CellView::Anchored(s@, idx as nat),
    {
        Cell::Anchored(Cow::Borrowed(s), idx)
    }

    /// The owned text anchored at position `idx`, counted in display columns.
    pub fn anchored_text(s: String, idx: usize) -> (cell: Self)
        ensures
            cell@ == CellView::Anchored(s@, idx as nat),
    {
        Cell::Anchored(Cow::Owned(s), idx)
    }
}

impl<'a, 'g> Default for Cell<'a, 'g> {
    fn default() -> (cell: Self)
        ensures
            cell@ == CellView::Empty,
    {
        Cell::Empty
    }
}

impl<'a, 'g> From<(&'a str, Align)> for Cell<'a, 'g> {
    fn from(value: (&'a str, Align)) -> (cell: Self)
        ensures
            cell@ == CellView::Aligned(value.0@, value.1),
    {
        Cell::Aligned(Cow::Borrowed(value.0), value.1)
    }
}

impl<'a, 'g> FromSpecImpl<(&'a str, Align)> for Cell<'a, 'g> {
    open spec fn obeys_from_spec() -> bool {
        true
    }

    open spec fn from_spec(v: (&'a str, Align)) -> Self {
        Cell::Aligned(Cow::Borrowed(v.0), v.1)
    }
}

impl<'a, 'g> From<(String, Align)> for Cell<'a, 'g> {
    fn from(value: (String, Align)) -> (cell: Self)
        ensures
            cell@ == CellView::Aligned(value.0@, value.1),
    {
        Cell::Aligned(Cow::Owned(value.0), value.1)
    }
}

impl<'a, 'g> FromSpecImpl<(String, Align)> for Cell<'a, 'g> {
    open spec fn obeys_from_spec() -> bool {
        true
    }

    open spec fn from_spec(v: (String, Align)) -> Self {
        Cell::Aligned(Cow::Owned(v.0), v.1)
    }
}

} // verus!
