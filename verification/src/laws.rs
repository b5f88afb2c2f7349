use crate::cell::{Align, CellView};
use crate::graticule::GraticuleView;
use crate::render::{
    aligned_line, anchor_padding, anchored_line, blanks, column_lines, join, line_or_blank,
    padding, row_line, RemainingView,
};
use crate::conversions::{decimal_cell, scaled_cell, whole_digits};
use crate::shape::{
    columns_span, lemma_merge_associative, lemma_merge_commutative, lemma_merge_shapes_swap,
    lemma_merge_tight, lemma_shape_of_merge, lemma_span_of_shape, merge_shapes, shapes, swapped,
};
use crate::sizing::{graticules, lemma_merge_all_grows, merge_all};
use crate::step::lemma_tallest_is;
use crate::text::{before_point, is_space, trim_end};
use crate::width::display_width;
use vstd::prelude::*;

verus! {

/// Blanks at the end of a text do not survive trimming.
pub proof fn lemma_trim_end_blanks(text: Seq<char>, n: nat)
    ensures
        trim_end(text + blanks(n)) == trim_end(text),
    decreases n,
{
    if n == 0 {
        assert(text + blanks(0) =~= text);
    } else {
        let padded = text + blanks(n);
        assert(padded.last() == ' ');
        assert(padded.drop_last() =~= text + blanks((n - 1) as nat));
        lemma_trim_end_blanks(text, (n - 1) as nat);
    }
}

/// A text aligned to the left, in a column of any width, is the text again
/// once the line is trimmed at its end, given that the text itself does not
/// end in white space; in any case the two trim to the same.
pub proof fn lemma_left_aligned_trims(text: Seq<char>, width: nat)
    ensures
        trim_end(aligned_line(text, Align::Left, width)) == trim_end(text),
        text.len() == 0 || !is_space(text.last()) ==> trim_end(
            aligned_line(text, Align::Left, width),
        ) == text,
{
    let line = aligned_line(text, Align::Left, width);
    let room = padding(Align::Left, width, display_width(text)).1;
    assert(line =~= text + blanks(room));
    lemma_trim_end_blanks(text, room);
}

/// A cell of text aligned to the left renders, alone, to its text and
/// nothing else.
pub proof fn lemma_left_aligned_alone(text: Seq<char>)
    ensures
        CellView::Aligned(text, Align::Left).rendered() == text,
        trim_end(CellView::Aligned(text, Align::Left).rendered()) == trim_end(text),
        text.len() == 0 || !is_space(text.last()) ==> trim_end(
            CellView::Aligned(text, Align::Left).rendered(),
        ) == text,
{
    let cell = CellView::Aligned(text, Align::Left);
    let line = aligned_line(text, Align::Left, display_width(text));
    assert(line =~= text);
    assert(cell.lines() =~= seq![text]);
}

/// An anchored cell renders, alone, to its text and nothing else: the line
/// is as wide as the text, and the anchor stands in it where it stands in
/// the text.
pub proof fn lemma_anchored_alone(text: Seq<char>, idx: nat)
    requires
        idx <= display_width(text),
    ensures
        CellView::Anchored(text, idx).rendered() == text,
        display_width(CellView::Anchored(text, idx).rendered()) == display_width(text),
        anchor_padding(text, idx, CellView::Anchored(text, idx).graticule()) == (0nat, 0nat),
{
    let cell = CellView::Anchored(text, idx);
    let g = cell.graticule();
    assert(anchored_line(text, idx, g) =~= text);
    assert(cell.lines() =~= seq![text]);
}

/// In a column, every anchored text has its anchor at the same place: as
/// many columns before the anchor, blanks and text together, as the column
/// is wide less what it keeps behind the anchor. The blanks and the text
/// together fill the column.
pub proof fn lemma_anchors_line_up(text: Seq<char>, idx: nat, g: GraticuleView)
    requires
        RemainingView::Anchored(text, idx).fits(g),
    ensures
        g.anchor matches Some((_, trailing)) && anchor_padding(text, idx, g).0 + idx + trailing
            == g.width,
        anchor_padding(text, idx, g).0 + display_width(text) + anchor_padding(text, idx, g).1
            == g.width,
{
}

/// A row with one tall column and otherwise columns of at most one line has
/// as many lines as the tall column, and below its first line the other
/// columns are blank.
pub proof fn lemma_tall_column(cells: Seq<RemainingView>, g: GraticuleView, tall: int, k: int)
    requires
        cells.len() > 0,
        0 <= tall < g.columns().len(),
        column_lines(cells, g.columns())[tall].len() >= 1,
        forall|i: int|
            0 <= i < g.columns().len() && i != tall ==> (#[trigger] column_lines(
                cells,
                g.columns(),
            )[i]).len() <= 1,
        1 <= k < column_lines(cells, g.columns())[tall].len(),
    ensures
        RemainingView::Row(cells).lines(g).len() == column_lines(cells, g.columns())[tall].len(),
        RemainingView::Row(cells).lines(g)[k] == join(
            Seq::new(
                g.columns().len(),
                |i: int|
                    if i == tall {
                        column_lines(cells, g.columns())[tall][k]
                    } else {
                        blanks(g.columns()[i].width)
                    },
            ),
            g.gutter(),
        ),
{
    let gs = g.columns();
    let cols = column_lines(cells, gs);
    lemma_tallest_is(cols, cols[tall].len(), tall);
    let parts = Seq::new(
        gs.len(),
        |i: int|
            if i == tall {
                cols[tall][k]
            } else {
                blanks(gs[i].width)
            },
    );
    let line = Seq::new(cols.len(), |i: int| line_or_blank(cols[i], k, gs[i].width));
    assert(line =~= parts);
    assert(RemainingView::Row(cells).lines(g)[k] == row_line(cols, gs, g.gutter(), k));
}

/// The sizing of a cell is tight: each width in it is at least what its
/// anchor and its columns ask for.
pub proof fn lemma_sizing_tight(cell: CellView)
    requires
        cell.well_formed(),
    ensures
        cell.graticule().shape().tight(),
    decreases cell, 0nat,
{
    match cell {
        CellView::Row(cells, gutter) => {
            let g = cell.graticule();
            lemma_span_of_shape(g);
            assert forall|i: int| 0 <= i < cells.len() implies (#[trigger] shapes(
                graticules(cells),
            )[i]).tight() by {
                lemma_sizing_tight(cells[i]);
            }
            let sh = g.shape();
            assert(sh.columns == Some((shapes(graticules(cells)), display_width(gutter))));
            assert(sh.width >= columns_span(sh.columns));
        },
        CellView::Stack(cells) => {
            lemma_merged_tight(cells, cells.len() as int);
            assert(graticules(cells).take(cells.len() as int) =~= graticules(cells));
        },
        _ => {},
    }
}

/// The first `n` of a run of stacked cells merge to a tight sizing.
proof fn lemma_merged_tight(cells: Seq<CellView>, n: int)
    requires
        0 <= n <= cells.len(),
        forall|i: int| 0 <= i < cells.len() ==> (#[trigger] cells[i]).well_formed(),
    ensures
        merge_all(graticules(cells).take(n)).shape().tight(),
    decreases cells, n,
{
    let gs = graticules(cells);
    if n > 0 {
        lemma_merged_tight(cells, n - 1);
        lemma_sizing_tight(cells[n - 1]);
        lemma_merge_all_grows(gs, n - 1);
        let before = merge_all(gs.take(n - 1));
        lemma_shape_of_merge(before, gs[n - 1]);
        lemma_merge_tight(before.shape(), gs[n - 1].shape());
    }
}

/// The shape of a run of sizings merged is the merge of their shapes.
pub proof fn lemma_shape_of_merge_all(gs: Seq<GraticuleView>)
    ensures
        merge_all(gs).shape() == merge_shapes(shapes(gs)),
    decreases gs.len(),
{
    if gs.len() > 0 {
        lemma_shape_of_merge_all(gs.drop_last());
        lemma_shape_of_merge(merge_all(gs.drop_last()), gs.last());
        assert(shapes(gs).drop_last() =~= shapes(gs.drop_last()));
    }
}

/// The order of the cells of a stack plays no part in its sizing: with two
/// neighbours in each other's place, and so in any order, the stack is sized
/// to the same widths and anchors throughout.
pub proof fn lemma_stack_swap(cells: Seq<CellView>, i: int)
    requires
        0 <= i,
        i + 1 < cells.len(),
    ensures
        CellView::Stack(swapped(cells, i)).graticule().shape() == CellView::Stack(
            cells,
        ).graticule().shape(),
{
    let gs = graticules(cells);
    let other = graticules(swapped(cells, i));
    assert(other =~= swapped(gs, i));
    assert(shapes(other) =~= swapped(shapes(gs), i));
    lemma_shape_of_merge_all(gs);
    lemma_shape_of_merge_all(other);
    lemma_merge_shapes_swap(shapes(gs), i);
}

/// A scaled decimal is anchored where its text is as a decimal text: given
/// that the text has, before its first point, the sign and the digits that
/// the number has before its point, both anchor it on the units digit.
pub proof fn lemma_scaled_as_decimal(text: Seq<char>, negative: bool, mantissa: nat, scale: nat)
    requires
        before_point(text) == whole_digits(mantissa, scale) + if negative {
            1nat
        } else {
            0nat
        },
    ensures
        scaled_cell(text, negative, mantissa, scale) == decimal_cell(text),
{
}

/// Two cells stacked in either order are sized alike: the same widths and
/// anchors throughout.
pub proof fn lemma_stack_order(a: CellView, b: CellView)
    ensures
        CellView::Stack(seq![a, b]).graticule().shape() == CellView::Stack(
            seq![b, a],
        ).graticule().shape(),
{
    let ga = a.graticule();
    let gb = b.graticule();
    let e = GraticuleView::empty();
    let ab = graticules(seq![a, b]);
    let ba = graticules(seq![b, a]);
    assert(ab =~= seq![ga, gb]);
    assert(ba =~= seq![gb, ga]);
    lemma_merge_all_grows(ab, 0);
    lemma_merge_all_grows(ab, 1);
    lemma_merge_all_grows(ba, 0);
    lemma_merge_all_grows(ba, 1);
    assert(ab.take(2) =~= ab);
    assert(ba.take(2) =~= ba);
    assert(merge_all(ab) == e.merge(ga).merge(gb));
    assert(merge_all(ba) == e.merge(gb).merge(ga));
    lemma_shape_of_merge(e, ga);
    lemma_shape_of_merge(e, gb);
    lemma_shape_of_merge(e.merge(ga), gb);
    lemma_shape_of_merge(e.merge(gb), ga);
    let (se, sa, sb) = (e.shape(), ga.shape(), gb.shape());
    lemma_merge_associative(se, sa, sb);
    lemma_merge_commutative(sa, sb);
    lemma_merge_associative(se, sb, sa);
}

} // verus!
