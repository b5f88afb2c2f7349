use crate::cell::{Align, CellView};
use crate::graticule::GraticuleView;
use crate::width::display_width;
use vstd::prelude::*;

verus! {

/// What is left of a cell to put out, as a mathematical tree: the cell
/// without its separators, which the sizing holds.
pub enum RemainingView {
    Empty,
    Aligned(Seq<char>, Align),
    Anchored(Seq<char>, nat),
    Row(Seq<RemainingView>),
    Stack(Seq<RemainingView>),
}

/// A run of `n` blanks.
pub open spec fn blanks(n: nat) -> Seq<char> {
    Seq::new(n, |i: int| ' ')
}

/// The difference `a - b`, or zero where `b` is the larger.
pub open spec fn minus(a: nat, b: nat) -> nat {
    if a >= b {
        (a - b) as nat
    } else {
        0
    }
}

/// The blanks before and after a text that is `used` wide in a column that is
/// `width` wide.
pub open spec fn padding(align: Align, width: nat, used: nat) -> (nat, nat) {
    let room = minus(width, used);
    match align {
        Align::Left => (0, room),
        Align::Right => (room, 0),
        Align::Centre => (room / 2, minus(room, room / 2)),
    }
}

/// A text laid out in a column of the given width.
pub open spec fn aligned_line(text: Seq<char>, align: Align, width: nat) -> Seq<char> {
    let (before, after) = padding(align, width, display_width(text));
    blanks(before) + text + blanks(after)
}

/// The blanks before and after an anchored text in a column sized `g`: after
/// it what the column keeps behind the anchor beyond the text's own, and
/// before it all the rest of the column.
pub open spec fn anchor_padding(text: Seq<char>, idx: nat, g: GraticuleView) -> (nat, nat) {
    let trailing = match g.anchor {
        Some((_, trailing)) => trailing,
        None => 0,
    };
    let used = display_width(text);
    let after = minus(trailing, minus(used, idx));
    (minus(minus(g.width, used), after), after)
}

/// A text laid out with its anchor on the column's.
pub open spec fn anchored_line(text: Seq<char>, idx: nat, g: GraticuleView) -> Seq<char> {
    let (before, after) = anchor_padding(text, idx, g);
    blanks(before) + text + blanks(after)
}

/// The parts in order, with the separator between each two.
pub open spec fn join(parts: Seq<Seq<char>>, sep: Seq<char>) -> Seq<char>
    decreases parts.len(),
{
    if parts.len() == 0 {
        Seq::empty()
    } else if parts.len() == 1 {
        parts[0]
    } else {
        join(parts.drop_last(), sep) + sep + parts.last()
    }
}

/// The blocks of lines one after the other.
pub open spec fn concat(blocks: Seq<Seq<Seq<char>>>) -> Seq<Seq<char>>
    decreases blocks.len(),
{
    if blocks.len() == 0 {
        Seq::empty()
    } else {
        blocks[0] + concat(blocks.skip(1))
    }
}

/// The number of lines of the tallest of the columns.
pub open spec fn tallest(columns: Seq<Seq<Seq<char>>>) -> nat
    decreases columns.len(),
{
    if columns.len() == 0 {
        0
    } else if columns.last().len() >= tallest(columns.drop_last()) {
        columns.last().len()
    } else {
        tallest(columns.drop_last())
    }
}

/// The lines of a block, or the one filler line where it has none.
pub open spec fn at_least_one(lines: Seq<Seq<char>>, filler: Seq<char>) -> Seq<Seq<char>> {
    if lines.len() == 0 {
        seq![filler]
    } else {
        lines
    }
}

/// Line `k` of a column, or blanks of the column's width once it has run out.
pub open spec fn line_or_blank(lines: Seq<Seq<char>>, k: int, width: nat) -> Seq<char> {
    if 0 <= k < lines.len() {
        lines[k]
    } else {
        blanks(width)
    }
}

/// Line `k` of a row whose columns hold the given lines.
pub open spec fn row_line(
    columns: Seq<Seq<Seq<char>>>,
    gs: Seq<GraticuleView>,
    gutter: Seq<char>,
    k: int,
) -> Seq<char> {
    join(Seq::new(columns.len(), |i: int| line_or_blank(columns[i], k, gs[i].width)), gutter)
}

/// All columns are done.
pub open spec fn all_empty(cells: Seq<RemainingView>) -> bool {
    forall|i: int| 0 <= i < cells.len() ==> #[trigger] cells[i] is Empty
}

impl RemainingView {
    /// The cells directly below a row or a stack; none below a leaf.
    pub open spec fn cells(self) -> Seq<RemainingView> {
        match self {
            RemainingView::Row(cells) => cells,
            RemainingView::Stack(cells) => cells,
            _ => Seq::empty(),
        }
    }

    /// The sizing `g` has room for everything in `self`: each text fits its
    /// column, each anchor lies within its column's, and each row has a
    /// column for each of its cells.
    pub open spec fn fits(self, g: GraticuleView) -> bool
        decreases self,
    {
        match self {
            RemainingView::Empty => true,
            RemainingView::Aligned(text, _) => display_width(text) <= g.width,
            RemainingView::Anchored(text, idx) => {
                &&& idx <= display_width(text)
                &&& g.anchor matches Some((at, trailing))
                &&& idx <= at
                &&& display_width(text) - idx <= trailing
                &&& at + trailing <= g.width
            },
            RemainingView::Row(cells) => cells.len() == 0 || {
                &&& g.children is Some
                &&& cells.len() <= g.columns().len()
                &&& forall|i: int|
                    0 <= i < cells.len() ==> (#[trigger] cells[i]).fits(g.columns()[i])
            },
            RemainingView::Stack(cells) => forall|i: int|
                0 <= i < cells.len() ==> (#[trigger] cells[i]).fits(g),
        }
    }

    /// The next line to put out: what one step of rendering writes.
    pub open spec fn first_line(self, g: GraticuleView) -> Seq<char>
        decreases self,
    {
        match self {
            RemainingView::Empty => blanks(g.width),
            RemainingView::Aligned(text, align) => aligned_line(text, align, g.width),
            RemainingView::Anchored(text, idx) => anchored_line(text, idx, g),
            RemainingView::Row(cells) => if cells.len() == 0 {
                blanks(g.width)
            } else {
                join(first_lines(cells, g.columns()), g.gutter())
            },
            RemainingView::Stack(cells) => if cells.len() == 0 {
                blanks(g.width)
            } else {
                cells[0].first_line(g)
            },
        }
    }

    /// What is left once the next line is out: what one step of rendering
    /// leaves behind.
    pub open spec fn rest(self, g: GraticuleView) -> RemainingView
        decreases self,
    {
        match self {
            RemainingView::Empty => RemainingView::Empty,
            RemainingView::Aligned(_, _) => RemainingView::Empty,
            RemainingView::Anchored(_, _) => RemainingView::Empty,
            RemainingView::Row(cells) => if cells.len() == 0 {
                RemainingView::Empty
            } else {
                let left = rests(cells, g.columns());
                if all_empty(left) {
                    RemainingView::Empty
                } else {
                    RemainingView::Row(left)
                }
            },
            RemainingView::Stack(cells) => if cells.len() == 0 {
                RemainingView::Empty
            } else {
                let left = cells[0].rest(g);
                let queue = if left is Empty {
                    cells.skip(1)
                } else {
                    seq![left] + cells.skip(1)
                };
                if queue.len() == 0 {
                    RemainingView::Empty
                } else {
                    RemainingView::Stack(queue)
                }
            },
        }
    }

    /// All the lines, from the top: a leaf is one line; a row has as many
    /// lines as its tallest column, and at least one, each made of its
    /// columns' lines side by side, blank where a column has run out; a
    /// stack is its cells' lines one below the other, a blank line for each
    /// cell that has none.
    pub open spec fn lines(self, g: GraticuleView) -> Seq<Seq<char>>
        decreases self,
    {
        match self {
            RemainingView::Empty => Seq::empty(),
            RemainingView::Aligned(text, align) => seq![aligned_line(text, align, g.width)],
            RemainingView::Anchored(text, idx) => seq![anchored_line(text, idx, g)],
            RemainingView::Row(cells) => if cells.len() == 0 {
                seq![blanks(g.width)]
            } else {
                let columns = column_lines(cells, g.columns());
                Seq::new(
                    if tallest(columns) >= 1 {
                        tallest(columns)
                    } else {
                        1
                    },
                    |k: int| row_line(columns, g.columns(), g.gutter(), k),
                )
            },
            RemainingView::Stack(cells) => if cells.len() == 0 {
                seq![blanks(g.width)]
            } else {
                concat(stack_blocks(cells, g))
            },
        }
    }
}

/// The next line of each column of a row; blanks for a column without a cell.
pub open spec fn first_lines(cells: Seq<RemainingView>, gs: Seq<GraticuleView>) -> Seq<Seq<char>>
    decreases cells,
{
    Seq::new(
        gs.len(),
        |i: int|
            if 0 <= i < cells.len() {
                cells[i].first_line(gs[i])
            } else {
                blanks(gs[i].width)
            },
    )
}

/// What is left of each column of a row; nothing for a column without a cell.
pub open spec fn rests(cells: Seq<RemainingView>, gs: Seq<GraticuleView>) -> Seq<RemainingView>
    decreases cells,
{
    Seq::new(
        gs.len(),
        |i: int|
            if 0 <= i < cells.len() {
                cells[i].rest(gs[i])
            } else {
                RemainingView::Empty
            },
    )
}

/// The lines of each column of a row; none for a column without a cell.
pub open spec fn column_lines(cells: Seq<RemainingView>, gs: Seq<GraticuleView>) -> Seq<
    Seq<Seq<char>>,
>
    decreases cells,
{
    Seq::new(
        gs.len(),
        |i: int|
            if 0 <= i < cells.len() {
                cells[i].lines(gs[i])
            } else {
                Seq::empty()
            },
    )
}

/// The lines of each cell of a stack, a blank line for a cell that has none.
pub open spec fn stack_blocks(cells: Seq<RemainingView>, g: GraticuleView) -> Seq<
    Seq<Seq<char>>,
>
    decreases cells,
{
    Seq::new(
        cells.len(),
        |i: int|
            if 0 <= i < cells.len() {
                at_least_one(cells[i].lines(g), blanks(g.width))
            } else {
                Seq::empty()
            },
    )
}

impl CellView {
    /// All of the cell, still to be put out.
    pub open spec fn remaining(self) -> RemainingView
        decreases self,
    {
        match self {
            CellView::Empty => RemainingView::Empty,
            CellView::Aligned(text, align) => RemainingView::Aligned(text, align),
            CellView::Anchored(text, idx) => RemainingView::Anchored(text, idx),
            CellView::Row(cells, _) => RemainingView::Row(remainings(cells)),
            CellView::Stack(cells) => RemainingView::Stack(remainings(cells)),
        }
    }

    /// The lines that the cell renders to, from the top.
    pub open spec fn lines(self) -> Seq<Seq<char>> {
        self.remaining().lines(self.graticule())
    }

    /// The text that the cell renders to: its lines, a line break between
    /// each two and none at the end.
    pub open spec fn rendered(self) -> Seq<char> {
        block(self.lines())
    }
}

/// All of each of a run of cells.
pub open spec fn remainings(cells: Seq<CellView>) -> Seq<RemainingView>
    decreases cells,
{
    Seq::new(
        cells.len(),
        |i: int|
            if 0 <= i < cells.len() {
                cells[i].remaining()
            } else {
                RemainingView::Empty
            },
    )
}

/// The lines as one text, a line break between each two.
pub open spec fn block(lines: Seq<Seq<char>>) -> Seq<char> {
    join(lines, seq!['\n'])
}

} // verus!
