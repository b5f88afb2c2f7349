use crate::cell::{cell_views, lemma_cell_view, text_of, Cell, CellView};
use crate::graticule::{
    checked_columns_width, lemma_sum_widths_take, lemma_view, row_width, views, Graticule,
    GraticuleView,
};
use crate::width::{display_width, str_width};
use vstd::prelude::*;

verus! {

/// The sizings of a run of stacked cells merged into one, from the first on.
pub open spec fn merge_all(gs: Seq<GraticuleView>) -> GraticuleView
    decreases gs.len(),
{
    if gs.len() == 0 {
        GraticuleView::empty()
    } else {
        merge_all(gs.drop_last()).merge(gs.last())
    }
}

impl CellView {
    /// Every anchor lies within its text.
    pub open spec fn well_formed(self) -> bool
        decreases self,
    {
        match self {
            CellView::Empty => true,
            CellView::Aligned(_, _) => true,
            CellView::Anchored(text, idx) => idx <= display_width(text),
            CellView::Row(cells, _) => forall|i: int|
                0 <= i < cells.len() ==> (#[trigger] cells[i]).well_formed(),
            CellView::Stack(cells) => forall|i: int|
                0 <= i < cells.len() ==> (#[trigger] cells[i]).well_formed(),
        }
    }

    /// The sizing of a cell: the width it needs and where its anchor falls.
    pub open spec fn graticule(self) -> GraticuleView
        decreases self,
    {
        match self {
            CellView::Empty => GraticuleView::empty(),
            CellView::Aligned(text, _) => GraticuleView {
                width: display_width(text),
                anchor: None,
                children: None,
            },
            CellView::Anchored(text, idx) => GraticuleView {
                width: display_width(text),
                anchor: Some((idx, (display_width(text) - idx) as nat)),
                children: None,
            },
            CellView::Row(cells, gutter) => GraticuleView {
                width: row_width(graticules(cells), gutter),
                anchor: None,
                children: Some((graticules(cells), gutter)),
            },
            CellView::Stack(cells) => merge_all(graticules(cells)),
        }
    }

    /// The cells directly below a row or a stack; none below a leaf.
    pub open spec fn cells(self) -> Seq<CellView> {
        match self {
            CellView::Row(cells, _) => cells,
            CellView::Stack(cells) => cells,
            _ => Seq::empty(),
        }
    }

    /// A cell that can be sized and rendered on this machine: it is well
    /// formed, and the width it needs fits the machine's word.
    pub open spec fn renderable(self) -> bool {
        self.well_formed() && self.graticule().width <= usize::MAX
    }
}

/// The sizings of a run of cells, in order.
pub open spec fn graticules(cells: Seq<CellView>) -> Seq<GraticuleView>
    decreases cells,
{
    Seq::new(
        cells.len(),
        |i: int|
            if 0 <= i < cells.len() {
                cells[i].graticule()
            } else {
                GraticuleView::empty()
            },
    )
}

/// Merging a run of sizings never shrinks: the result is at least as wide as
/// each of them, and as the merge of each of its prefixes.
pub proof fn lemma_merge_all_grows(gs: Seq<GraticuleView>, n: int)
    requires
        0 <= n <= gs.len(),
    ensures
        merge_all(gs.take(n)).width <= merge_all(gs).width,
        n < gs.len() ==> gs[n].width <= merge_all(gs).width,
        n < gs.len() ==> merge_all(gs.take(n + 1)) == merge_all(gs.take(n)).merge(gs[n]),
    decreases gs.len() - n,
{
    if n == gs.len() {
        assert(gs.take(n) =~= gs);
    } else {
        assert(gs.take(n + 1).drop_last() =~= gs.take(n));
        lemma_merge_all_grows(gs, n + 1);
    }
}

/// Each cell directly below a renderable cell is renderable.
pub proof fn lemma_renderable_children(cell: CellView, i: int)
    requires
        cell.renderable(),
        0 <= i < cell.cells().len(),
    ensures
        cell.cells()[i].renderable(),
{
    match cell {
        CellView::Row(cells, gutter) => {
            lemma_sum_widths_take(graticules(cells), i);
        },
        CellView::Stack(cells) => {
            lemma_merge_all_grows(graticules(cells), i);
        },
        _ => {},
    }
}


impl<'a, 'g> Cell<'a, 'g> {
    /// Sizes the cell, where it can be sized on this machine.
    pub fn try_graticule(&self) -> (sized: Option<Graticule<'g>>)
        ensures
            match sized {
                Some(g) => self@.renderable() && g@ == self@.graticule(),
                None => !self@.renderable(),
            },
        decreases self,
    {
        proof {
            lemma_cell_view(*self);
        }
        match self {
            Cell::Empty => Some(Graticule::empty()),
            Cell::Aligned(s, _) => Some(
                Graticule { width: str_width(text_of(s)), anchor: None, children: None },
            ),
            Cell::Anchored(s, idx) => {
                let width = str_width(text_of(s));
                if *idx > width {
                    None
                } else {
                    Some(Graticule { width, anchor: Some((*idx, width - *idx)), children: None })
                }
            },
            Cell::Row(cells, gutter) => {
                let ghost gs = graticules(cell_views(cells@));
                let mut columns: Vec<Graticule<'g>> = Vec::new();
                let mut i: usize = 0;
                while i < cells.len()
                    invariant
                        i <= cells.len(),
                        self@ == CellView::Row(cell_views(cells@), gutter@),
                        *self == Cell::Row(*cells, *gutter),
                        gs == graticules(cell_views(cells@)),
                        columns@.len() == i,
                        forall|j: int| 0 <= j < i ==> (#[trigger] columns@[j])@ == gs[j],
                        forall|j: int|
                            0 <= j < i ==> (#[trigger] cell_views(cells@)[j]).well_formed(),
                    decreases cells.len() - i,
                {
                    proof {
                        if self@.renderable() {
                            lemma_renderable_children(self@, i as int);
                        }
                    }
                    match cells[i].try_graticule() {
                        Some(g) => {
                            columns.push(g);
                        },
                        None => {
                            return None;
                        },
                    }
                    i = i + 1;
                }
                proof {
                    assert(views(columns@) =~= gs);
                }
                match checked_columns_width(&columns, gutter) {
                    Some(width) => {
                        let sized = Graticule {
                            width,
                            anchor: None,
                            children: Some((columns, *gutter)),
                        };
                        proof {
                            lemma_view(sized);
                        }
                        Some(sized)
                    },
                    None => None,
                }
            },
            Cell::Stack(cells) => {
                let ghost gs = graticules(cell_views(cells@));
                let mut merged = Graticule::empty();
                let mut i: usize = 0;
                while i < cells.len()
                    invariant
                        i <= cells.len(),
                        self@ == CellView::Stack(cell_views(cells@)),
                        *self == Cell::Stack(*cells),
                        gs == graticules(cell_views(cells@)),
                        merged@ == merge_all(gs.take(i as int)),
                        forall|j: int|
                            0 <= j < i ==> (#[trigger] cell_views(cells@)[j]).well_formed(),
                    decreases cells.len() - i,
                {
                    proof {
                        if self@.renderable() {
                            lemma_renderable_children(self@, i as int);
                        }
                        lemma_merge_all_grows(gs, i as int);
                        lemma_merge_all_grows(gs, i as int + 1);
                    }
                    let g = match cells[i].try_graticule() {
                        Some(g) => g,
                        None => {
                            return None;
                        },
                    };
                    merged = match merged.try_merge(g) {
                        Some(m) => m,
                        None => {
                            return None;
                        },
                    };
                    i = i + 1;
                }
                proof {
                    assert(gs.take(i as int) =~= gs);
                }
                Some(merged)
            },
        }
    }

    /// Sizes the cell.
    pub fn graticule(&self) -> (sized: Graticule<'g>)
        requires
            self@.renderable(),
        ensures
            sized@ == self@.graticule(),
    {
        Graticule::from(self)
    }
}

impl<'g> Graticule<'g> {
    /// The sizing of a cell: a leaf is as wide as its text, a row as its
    /// columns and the separators between them, and a stack is the merge of
    /// its cells' sizings.
    pub fn from<'a>(value: &Cell<'a, 'g>) -> (sized: Graticule<'g>)
        requires
            value@.renderable(),
        ensures
            sized@ == value@.graticule(),
    {
        value.try_graticule().unwrap()
    }
}

} // verus!
