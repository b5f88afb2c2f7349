use crate::cell::CellView;
use crate::graticule::GraticuleView;
use crate::render::{remainings, RemainingView};
use crate::sizing::{graticules, merge_all};
use vstd::prelude::*;

verus! {

/// What fits a sizing fits every merge that the sizing takes part in.
pub proof fn lemma_merge_keeps_fit(r: RemainingView, x: GraticuleView, y: GraticuleView)
    requires
        r.fits(x),
    ensures
        r.fits(x.merge(y)),
        r.fits(y.merge(x)),
    decreases r,
{
    match r {
        RemainingView::Row(cells) => {
            if cells.len() > 0 {
                let xy = x.merge(y).columns();
                let yx = y.merge(x).columns();
                assert forall|i: int| 0 <= i < cells.len() implies (#[trigger] cells[i]).fits(
                    xy[i],
                ) && cells[i].fits(yx[i]) by {
                    if y.children is Some && i < y.columns().len() {
                        lemma_merge_keeps_fit(cells[i], x.columns()[i], y.columns()[i]);
                    }
                }
            }
        },
        RemainingView::Stack(cells) => {
            assert forall|i: int| 0 <= i < cells.len() implies (#[trigger] cells[i]).fits(
                x.merge(y),
            ) && cells[i].fits(y.merge(x)) by {
                lemma_merge_keeps_fit(cells[i], x, y);
            }
        },
        _ => {},
    }
}

/// What fits one of a run of sizings fits the merge of them all.
pub proof fn lemma_merge_all_keeps_fit(r: RemainingView, gs: Seq<GraticuleView>, i: int)
    requires
        0 <= i < gs.len(),
        r.fits(gs[i]),
    ensures
        r.fits(merge_all(gs)),
    decreases gs.len(),
{
    if i == gs.len() - 1 {
        lemma_merge_keeps_fit(r, gs.last(), merge_all(gs.drop_last()));
    } else {
        lemma_merge_all_keeps_fit(r, gs.drop_last(), i);
        lemma_merge_keeps_fit(r, merge_all(gs.drop_last()), gs.last());
    }
}

/// A well-formed cell fits its own sizing: sizing a cell before rendering it
/// leaves no text without room and no row without a column.
pub proof fn lemma_sizing_fits(cell: CellView)
    requires
        cell.well_formed(),
    ensures
        cell.remaining().fits(cell.graticule()),
    decreases cell,
{
    match cell {
        CellView::Row(cells, gutter) => {
            let gs = graticules(cells);
            let rs = remainings(cells);
            assert forall|i: int| 0 <= i < rs.len() implies (#[trigger] rs[i]).fits(gs[i]) by {
                lemma_sizing_fits(cells[i]);
            }
        },
        CellView::Stack(cells) => {
            let gs = graticules(cells);
            let rs = remainings(cells);
            assert forall|i: int| 0 <= i < rs.len() implies (#[trigger] rs[i]).fits(
                merge_all(gs),
            ) by {
                lemma_sizing_fits(cells[i]);
                lemma_merge_all_keeps_fit(rs[i], gs, i);
            }
        },
        _ => {},
    }
}

} // verus!
