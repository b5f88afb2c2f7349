use crate::cell::{cell_views, lemma_cell_view, Cell, CellView};
use vstd::prelude::*;

verus! {

/// How far apart the cells of a row stand, from touching to widest.
#[derive(Copy, Clone, Debug, PartialEq, Eq, PartialOrd, Ord, Structural)]
pub enum Gap {
    Flush,
    Minor,
    Medium,
    Major,
}

/// What a gap is drawn with.
#[derive(Copy, Clone, Debug, PartialEq, Eq, Structural)]
pub enum Style {
    Spaced,
    Piped,
}

impl Default for Style {
    fn default() -> (style: Self)
        ensures
            style == Style::Spaced,
    {
        Style::Spaced
    }
}

impl Gap {
    /// The number of marks that the gap is drawn with.
    pub open spec fn level(self) -> nat {
        match self {
            Gap::Flush => 0,
            Gap::Minor => 1,
            Gap::Medium => 2,
            Gap::Major => 3,
        }
    }
}

impl Style {
    /// The mark that the style draws a gap with.
    pub open spec fn mark(self) -> char {
        match self {
            Style::Spaced => ' ',
            Style::Piped => '|',
        }
    }

    /// The separator for a gap: as many marks as the gap's level.
    pub open spec fn gutter_text(self, gap: Gap) -> Seq<char> {
        Seq::new(gap.level(), |i: int| self.mark())
    }

    /// The separator for a gap.
    pub fn gutter(self, gap: Gap) -> (text: &'static str)
        ensures
            text@ == self.gutter_text(gap),
    {
        proof {
            reveal_strlit("");
            reveal_strlit(" ");
            reveal_strlit("  ");
            reveal_strlit("   ");
            reveal_strlit("|");
            reveal_strlit("||");
            reveal_strlit("|||");
        }
        let text = match self {
            Style::Spaced => match gap {
                Gap::Flush => "",
                Gap::Minor => " ",
                Gap::Medium => "  ",
                Gap::Major => "   ",
            },
            Style::Piped => match gap {
                Gap::Flush => "",
                Gap::Minor => "|",
                Gap::Medium => "||",
                Gap::Major => "|||",
            },
        };
        assert(text@ =~= self.gutter_text(gap));
        text
    }
}

/// The gaps of a row and of what lies in it: the gap between the row's own
/// cells, and for each cell, where one is given, the spacing of the rows in
/// that cell.
#[derive(Debug, PartialEq, Eq)]
pub struct Spacing {
    pub primary: Gap,
    pub children: Vec<Option<Spacing>>,
}

/// A spacing as a mathematical tree.
pub struct SpacingView {
    pub primary: Gap,
    pub children: Seq<Option<SpacingView>>,
}

/// The view of a spacing: the same gaps, its list as a sequence of views.
pub open spec fn spacing_view(spacing: Spacing) -> SpacingView
    decreases spacing,
{
    SpacingView {
        primary: spacing.primary,
        children: Seq::new(
            spacing.children@.len(),
            |i: int|
                if 0 <= i < spacing.children@.len() {
                    match spacing.children@[i] {
                        Some(child) => Some(spacing_view(child)),
                        None => None,
                    }
                } else {
                    None
                },
        ),
    }
}

impl View for Spacing {
    type V = SpacingView;

    open spec fn view(&self) -> SpacingView {
        spacing_view(*self)
    }
}

/// The spacing given at the nearest position at or before `i`, if any is.
pub open spec fn nearest(children: Seq<Option<SpacingView>>, i: int) -> Option<SpacingView>
    decreases i + 1,
{
    if i < 0 {
        None
    } else if i < children.len() && children[i] is Some {
        children[i]
    } else {
        nearest(children, i - 1)
    }
}

impl SpacingView {
    /// The spacing for what lies in cell `i` of a row: the one given at the
    /// nearest position at or before `i`, and this spacing itself where none
    /// is given there.
    pub open spec fn child_spacing(self, i: int) -> SpacingView {
        match nearest(self.children, i) {
            Some(spacing) => spacing,
            None => self,
        }
    }
}

impl Spacing {
    /// A spacing with one gap throughout.
    pub fn uniform(gap: Gap) -> (spacing: Spacing)
        ensures
            spacing@ == (SpacingView { primary: gap, children: Seq::empty() }),
    {
        let spacing = Spacing { primary: gap, children: Vec::new() };
        assert(spacing@.children =~= Seq::empty());
        spacing
    }

    /// The spacing for what lies in cell `i` of a row.
    pub fn get_child_spacing(&self, i: usize) -> (spacing: &Spacing)
        ensures
            spacing@ == self@.child_spacing(i as int),
    {
        let mut j: usize = if i < self.children.len() {
            i + 1
        } else {
            self.children.len()
        };
        proof {
            if i >= self.children@.len() {
                lemma_nearest_beyond(self@.children, i as int);
            }
        }
        while j > 0
            invariant
                j <= self.children@.len(),
                nearest(self@.children, i as int) == nearest(self@.children, j - 1),
            decreases j,
        {
            j = j - 1;
            match &self.children[j] {
                Some(spacing) => {
                    return spacing;
                },
                None => {},
            }
        }
        self
    }
}

/// Positions beyond the list give nothing: the search may start at its end.
pub proof fn lemma_nearest_beyond(children: Seq<Option<SpacingView>>, i: int)
    requires
        i >= children.len() - 1,
    ensures
        nearest(children, i) == nearest(children, children.len() - 1),
    decreases i + 1,
{
    if i >= children.len() && i >= 0 {
        lemma_nearest_beyond(children, i - 1);
    }
}

impl CellView {
    /// The cell with the separator of each row drawn anew: in the given
    /// style, for the gap that the spacing names for the row.
    pub open spec fn spaced(self, spacing: SpacingView, style: Style) -> CellView
        decreases self,
    {
        match self {
            CellView::Row(cells, _) => CellView::Row(
                spaced_row(cells, spacing, style),
                style.gutter_text(spacing.primary),
            ),
            CellView::Stack(cells) => CellView::Stack(spaced_stack(cells, spacing, style)),
            other => other,
        }
    }

    /// The cell with one separator in every row.
    pub open spec fn with_gutter(self, gutter: Seq<char>) -> CellView
        decreases self,
    {
        match self {
            CellView::Row(cells, _) => CellView::Row(with_gutters(cells, gutter), gutter),
            CellView::Stack(cells) => CellView::Stack(with_gutters(cells, gutter)),
            other => other,
        }
    }
}

/// The cells of a row, each with the spacing that the row's names for it.
pub open spec fn spaced_row(cells: Seq<CellView>, spacing: SpacingView, style: Style) -> Seq<CellView>
    decreases cells,
{
    Seq::new(
        cells.len(),
        |i: int|
            if 0 <= i < cells.len() {
                cells[i].spaced(spacing.child_spacing(i), style)
            } else {
                CellView::Empty
            },
    )
}

/// The cells of a stack, each with the spacing of the stack.
pub open spec fn spaced_stack(cells: Seq<CellView>, spacing: SpacingView, style: Style) -> Seq<
    CellView,
>
    decreases cells,
{
    Seq::new(
        cells.len(),
        |i: int|
            if 0 <= i < cells.len() {
                cells[i].spaced(spacing, style)
            } else {
                CellView::Empty
            },
    )
}

/// The cells, each with the one separator in every row.
pub open spec fn with_gutters(cells: Seq<CellView>, gutter: Seq<char>) -> Seq<CellView>
    decreases cells,
{
    Seq::new(
        cells.len(),
        |i: int|
            if 0 <= i < cells.len() {
                cells[i].with_gutter(gutter)
            } else {
                CellView::Empty
            },
    )
}

impl<'a, 'g> Cell<'a, 'g> {
    /// Draws the separator of each row anew: in the given style, for the gap
    /// that the spacing names for the row. A row hands each of its cells the
    /// spacing that its own names for that cell; a stack hands its own on.
    pub fn spaced(self, spacing: &Spacing, style: Style) -> (cell: Cell<'a, 'static>)
        ensures
            cell@ == self@.spaced(spacing@, style),
        decreases self@,
    {
        let ghost me = self@;
        proof {
            lemma_cell_view(self);
        }
        let cell = match self {
            Cell::Empty => Cell::Empty,
            Cell::Aligned(s, align) => Cell::Aligned(s, align),
            Cell::Anchored(s, idx) => Cell::Anchored(s, idx),
            Cell::Row(cells, _) => {
                let ghost want = spaced_row(cell_views(cells@), spacing@, style);
                let mut done: Vec<Cell<'a, 'static>> = Vec::new();
                for child in it: cells
                    invariant
                        me == self@,
                        me is Row,
                        me->Row_0 == cell_views(cells@),
                        want == spaced_row(cell_views(cells@), spacing@, style),
                        it.seq() == cells@,
                        done@.len() == it.index(),
                        forall|j: int| 0 <= j < done@.len() ==> (#[trigger] done@[j])@ == want[j],
                {
                    let i = done.len();
                    assert(child@ == me->Row_0[i as int]);
                    assert(decreases_to!(me => me->Row_0[i as int]));
                    done.push(child.spaced(spacing.get_child_spacing(i), style));
                }
                assert(cell_views(done@) =~= want);
                Cell::Row(done, style.gutter(spacing.primary))
            },
            Cell::Stack(cells) => {
                let ghost want = spaced_stack(cell_views(cells@), spacing@, style);
                let mut done: Vec<Cell<'a, 'static>> = Vec::new();
                for child in it: cells
                    invariant
                        me == self@,
                        me is Stack,
                        me->Stack_0 == cell_views(cells@),
                        want == spaced_stack(cell_views(cells@), spacing@, style),
                        it.seq() == cells@,
                        done@.len() == it.index(),
                        forall|j: int| 0 <= j < done@.len() ==> (#[trigger] done@[j])@ == want[j],
                {
                    let ghost i = done@.len() as int;
                    assert(child@ == me->Stack_0[i]);
                    assert(decreases_to!(me => me->Stack_0[i]));
                    done.push(child.spaced(spacing, style));
                }
                assert(cell_views(done@) =~= want);
                Cell::Stack(done)
            },
        };
        proof {
            lemma_cell_view(cell);
        }
        cell
    }

    /// Gives every row the one separator.
    pub fn with_gutter<'h>(self, gutter: &'h str) -> (cell: Cell<'a, 'h>)
        ensures
            cell@ == self@.with_gutter(gutter@),
        decreases self@,
    {
        let ghost me = self@;
        proof {
            lemma_cell_view(self);
        }
        let (cells, row) = match self {
            Cell::Empty => {
                return Cell::Empty;
            },
            Cell::Aligned(s, align) => {
                let cell = Cell::Aligned(s, align);
                proof {
                    lemma_cell_view(cell);
                }
                return cell;
            },
            Cell::Anchored(s, idx) => {
                let cell = Cell::Anchored(s, idx);
                proof {
                    lemma_cell_view(cell);
                }
                return cell;
            },
            Cell::Row(cells, _) => (cells, true),
            Cell::Stack(cells) => (cells, false),
        };
        let ghost want = with_gutters(cell_views(cells@), gutter@);
        let mut done: Vec<Cell<'a, 'h>> = Vec::new();
        for child in it: cells
            invariant
                me == self@,
                row ==> me is Row && me->Row_0 == cell_views(cells@),
                !row ==> me is Stack && me->Stack_0 == cell_views(cells@),
                want == with_gutters(cell_views(cells@), gutter@),
                it.seq() == cells@,
                done@.len() == it.index(),
                forall|j: int| 0 <= j < done@.len() ==> (#[trigger] done@[j])@ == want[j],
        {
            let ghost i = done@.len() as int;
            proof {
                if row {
                    assert(child@ == me->Row_0[i]);
                    assert(decreases_to!(me => me->Row_0[i]));
                } else {
                    assert(child@ == me->Stack_0[i]);
                    assert(decreases_to!(me => me->Stack_0[i]));
                }
            }
            done.push(child.with_gutter(gutter));
        }
        assert(cell_views(done@) =~= want);
        let cell = if row {
            Cell::Row(done, gutter)
        } else {
            Cell::Stack(done)
        };
        proof {
            lemma_cell_view(cell);
        }
        cell
    }
}

} // verus!
