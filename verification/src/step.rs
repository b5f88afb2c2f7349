use crate::graticule::GraticuleView;
use crate::render::{
    all_empty, blanks, column_lines, concat, first_lines, line_or_blank, rests, stack_blocks,
    tallest, RemainingView,
};
use vstd::prelude::*;

verus! {

/// No column is taller than the tallest, and one column is that tall.
pub proof fn lemma_tallest(columns: Seq<Seq<Seq<char>>>)
    ensures
        forall|i: int| 0 <= i < columns.len() ==> (#[trigger] columns[i]).len() <= tallest(columns),
        columns.len() > 0 ==> exists|i: int|
            0 <= i < columns.len() && (#[trigger] columns[i]).len() == tallest(columns),
        columns.len() == 0 ==> tallest(columns) == 0,
    decreases columns.len(),
{
    if columns.len() > 0 {
        let front = columns.drop_last();
        lemma_tallest(front);
        assert forall|i: int| 0 <= i < columns.len() implies (#[trigger] columns[i]).len()
            <= tallest(columns) by {
            if i < front.len() {
                assert(front[i] == columns[i]);
            }
        }
        if columns.last().len() >= tallest(front) {
            assert(columns[columns.len() - 1].len() == tallest(columns));
        } else {
            let i = choose|i: int| 0 <= i < front.len() && (#[trigger] front[i]).len() == tallest(front);
            assert(columns[i].len() == tallest(columns));
        }
    }
}

/// A bound that every column meets and one column attains is the tallest.
pub proof fn lemma_tallest_is(columns: Seq<Seq<Seq<char>>>, height: nat, at: int)
    requires
        forall|i: int| 0 <= i < columns.len() ==> (#[trigger] columns[i]).len() <= height,
        0 <= at < columns.len(),
        columns[at].len() == height,
    ensures
        tallest(columns) == height,
{
    lemma_tallest(columns);
}

/// Only the finished cell has no line left.
pub proof fn lemma_no_lines(r: RemainingView, g: GraticuleView)
    ensures
        r.lines(g).len() == 0 <==> r is Empty,
{
    match r {
        RemainingView::Stack(cells) => {
            if cells.len() > 0 {
                let blocks = stack_blocks(cells, g);
                assert(blocks[0].len() >= 1);
            }
        },
        _ => {},
    }
}

/// One step of rendering keeps within the sizing.
pub proof fn lemma_rest_fits(r: RemainingView, g: GraticuleView)
    requires
        r.fits(g),
    ensures
        r.rest(g).fits(g),
    decreases r,
{
    match r {
        RemainingView::Row(cells) => {
            if cells.len() > 0 {
                let left = rests(cells, g.columns());
                assert forall|i: int| 0 <= i < left.len() implies (#[trigger] left[i]).fits(
                    g.columns()[i],
                ) by {
                    if i < cells.len() {
                        lemma_rest_fits(cells[i], g.columns()[i]);
                    }
                }
            }
        },
        RemainingView::Stack(cells) => {
            if cells.len() > 0 {
                lemma_rest_fits(cells[0], g);
                let left = cells[0].rest(g);
                let queue = if left is Empty {
                    cells.skip(1)
                } else {
                    seq![left] + cells.skip(1)
                };
                assert forall|i: int| 0 <= i < queue.len() implies (#[trigger] queue[i]).fits(
                    g,
                ) by {
                    if left is Empty {
                        assert(queue[i] == cells[i + 1]);
                    } else if i > 0 {
                        assert(queue[i] == cells[i]);
                    }
                }
            }
        },
        _ => {},
    }
}

/// Rendering line by line gives the lines of the cell: the line that a step
/// writes is the first of them, and what the step leaves behind holds the
/// others.
pub proof fn lemma_step(r: RemainingView, g: GraticuleView)
    requires
        !(r is Empty),
    ensures
        r.lines(g) == seq![r.first_line(g)] + r.rest(g).lines(g),
    decreases r,
{
    match r {
        RemainingView::Row(cells) => {
            if cells.len() > 0 {
                lemma_step_row(cells, g);
            } else {
                assert(r.lines(g) =~= seq![r.first_line(g)] + r.rest(g).lines(g));
            }
        },
        RemainingView::Stack(cells) => {
            if cells.len() > 0 {
                lemma_step_stack(cells, g);
            } else {
                assert(r.lines(g) =~= seq![r.first_line(g)] + r.rest(g).lines(g));
            }
        },
        _ => {
            assert(r.lines(g) =~= seq![r.first_line(g)] + r.rest(g).lines(g));
        },
    }
}

/// Column by column, what a step leaves of a row holds the column's lines
/// but the first, which is the column's part of the line that the step writes.
proof fn lemma_step_columns(cells: Seq<RemainingView>, gs: Seq<GraticuleView>, i: int)
    requires
        0 <= i < gs.len(),
    ensures
        column_lines(cells, gs)[i].len() == 0 ==> column_lines(rests(cells, gs), gs)[i].len() == 0
            && first_lines(cells, gs)[i] == blanks(gs[i].width),
        column_lines(cells, gs)[i].len() > 0 ==> column_lines(cells, gs)[i] == seq![
            first_lines(cells, gs)[i],
        ] + column_lines(rests(cells, gs), gs)[i],
    decreases cells, 0nat,
{
    if i < cells.len() {
        lemma_no_lines(cells[i], gs[i]);
        if !(cells[i] is Empty) {
            lemma_step(cells[i], gs[i]);
        }
    }
}

proof fn lemma_step_row(cells: Seq<RemainingView>, g: GraticuleView)
    requires
        cells.len() > 0,
    ensures
        RemainingView::Row(cells).lines(g) == seq![RemainingView::Row(cells).first_line(g)]
            + RemainingView::Row(cells).rest(g).lines(g),
    decreases cells, 1nat,
{
    let r = RemainingView::Row(cells);
    let gs = g.columns();
    let gutter = g.gutter();
    let cols = column_lines(cells, gs);
    let left = rests(cells, gs);
    let cols2 = column_lines(left, gs);
    let firsts = first_lines(cells, gs);
    assert forall|i: int| 0 <= i < gs.len() implies (cols[i].len() == 0 ==> cols2[i].len() == 0
        && firsts[i] == blanks(gs[i].width)) && (cols[i].len() > 0 ==> cols[i] == seq![firsts[i]]
        + cols2[i]) by {
        lemma_step_columns(cells, gs, i);
    }
    let top = Seq::new(cols.len(), |i: int| line_or_blank(cols[i], 0, gs[i].width));
    assert(top =~= firsts);
    assert(r.lines(g)[0] == r.first_line(g));
    lemma_tallest(cols);
    lemma_tallest(cols2);
    if all_empty(left) {
        assert forall|i: int| 0 <= i < cols.len() implies (#[trigger] cols[i]).len() <= 1 by {
            assert(left[i] is Empty);
            lemma_no_lines(left[i], gs[i]);
        }
        assert(r.lines(g) =~= seq![r.first_line(g)] + r.rest(g).lines(g));
    } else {
        let j = choose|j: int| 0 <= j < left.len() && !(#[trigger] left[j] is Empty);
        lemma_no_lines(left[j], gs[j]);
        assert(cols2[j].len() >= 1);
        assert(cols[j].len() >= 2);
        let at = choose|i: int| 0 <= i < cols.len() && (#[trigger] cols[i]).len() == tallest(cols);
        let height = (tallest(cols) - 1) as nat;
        assert(cols2[at].len() == height);
        assert forall|i: int| 0 <= i < cols2.len() implies (#[trigger] cols2[i]).len()
            <= height by {
            assert(cols[i].len() <= tallest(cols));
        }
        lemma_tallest_is(cols2, height, at);
        let below = RemainingView::Row(left).lines(g);
        assert(below.len() == height);
        assert forall|k: int| 0 <= k < height implies below[k] == r.lines(g)[k + 1] by {
            let a = Seq::new(cols2.len(), |i: int| line_or_blank(cols2[i], k, gs[i].width));
            let b = Seq::new(cols.len(), |i: int| line_or_blank(cols[i], k + 1, gs[i].width));
            assert(a =~= b);
        }
        assert(r.lines(g) =~= seq![r.first_line(g)] + below);
    }
}

proof fn lemma_step_stack(cells: Seq<RemainingView>, g: GraticuleView)
    requires
        cells.len() > 0,
    ensures
        RemainingView::Stack(cells).lines(g) == seq![RemainingView::Stack(cells).first_line(g)]
            + RemainingView::Stack(cells).rest(g).lines(g),
    decreases cells, 1nat,
{
    let r = RemainingView::Stack(cells);
    let blocks = stack_blocks(cells, g);
    let left = cells[0].rest(g);
    let first = cells[0].first_line(g);
    lemma_no_lines(cells[0], g);
    lemma_no_lines(left, g);
    if !(cells[0] is Empty) {
        lemma_step(cells[0], g);
    }
    assert(blocks[0] =~= seq![first] + left.lines(g));
    let queue = if left is Empty {
        cells.skip(1)
    } else {
        seq![left] + cells.skip(1)
    };
    if queue.len() == 0 {
        assert(blocks.skip(1).len() == 0);
        assert(r.lines(g) == blocks[0] + concat(blocks.skip(1)));
        assert(concat(blocks.skip(1)).len() == 0);
        assert(r.lines(g) =~= seq![first] + r.rest(g).lines(g));
    } else {
        let blocks2 = stack_blocks(queue, g);
        assert(r.lines(g) == blocks[0] + concat(blocks.skip(1)));
        assert(r.rest(g).lines(g) == concat(blocks2));
        if left is Empty {
            assert(blocks2 =~= blocks.skip(1));
        } else {
            assert(blocks2[0] == left.lines(g));
            assert(blocks2.skip(1) =~= blocks.skip(1));
            assert(concat(blocks2) == blocks2[0] + concat(blocks2.skip(1)));
        }
        assert(r.lines(g) =~= seq![first] + r.rest(g).lines(g));
    }
}

} // verus!
