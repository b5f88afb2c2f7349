use crate::graticule::{
    anchor_span, children_span, max_nat, merge_anchor, sum_widths, GraticuleView,
};
use crate::width::display_width;
use vstd::prelude::*;

verus! {

/// What two sizings must share to lay out alike: every width and anchor, and
/// the width of every separator, but not the separators' text.
pub struct Shape {
    pub width: nat,
    pub anchor: Option<(nat, nat)>,
    pub columns: Option<(Seq<Shape>, nat)>,
}

/// The sum of the widths of a run of shapes.
pub open spec fn sum_shape_widths(columns: Seq<Shape>) -> nat
    decreases columns.len(),
{
    if columns.len() == 0 {
        0
    } else {
        sum_shape_widths(columns.drop_last()) + columns.last().width
    }
}

/// Columns taken by `columns` adjacent cells' separators, each `gutter` wide.
pub open spec fn separators(gutter: nat, columns: nat) -> nat {
    if columns > 0 {
        ((columns - 1) * gutter) as nat
    } else {
        0
    }
}

/// The width that the columns of a composite shape ask for.
pub open spec fn columns_span(columns: Option<(Seq<Shape>, nat)>) -> nat {
    match columns {
        Some((cs, gutter)) => sum_shape_widths(cs) + separators(gutter, cs.len()),
        None => 0,
    }
}

impl Shape {
    /// The shape of nothing: no width, no anchor, no columns.
    pub open spec fn empty() -> Shape {
        Shape { width: 0, anchor: None, columns: None }
    }

    /// The shape that holds both `self` and `other`.
    pub open spec fn merge(self, other: Shape) -> Shape
        decreases self,
    {
        let columns = match (self.columns, other.columns) {
            (Some((c0, g0)), Some((c1, g1))) => Some(
                (
                    Seq::new(
                        max_nat(c0.len(), c1.len()),
                        |i: int|
                            if 0 <= i < c0.len() && i < c1.len() {
                                c0[i].merge(c1[i])
                            } else if 0 <= i < c0.len() {
                                c0[i]
                            } else {
                                c1[i]
                            },
                    ),
                    max_nat(g0, g1),
                ),
            ),
            (c, None) => c,
            (None, c) => c,
        };
        let anchor = merge_anchor(self.anchor, other.anchor);
        Shape {
            width: max_nat(
                max_nat(self.width, other.width),
                max_nat(columns_span(columns), anchor_span(anchor)),
            ),
            anchor,
            columns,
        }
    }

    /// A shape that asks for at least the room its anchor and its columns
    /// need, and whose columns do so too.
    pub open spec fn tight(self) -> bool
        decreases self,
    {
        &&& self.width >= anchor_span(self.anchor)
        &&& self.width >= columns_span(self.columns)
        &&& match self.columns {
            Some((cs, _)) => forall|i: int| 0 <= i < cs.len() ==> (#[trigger] cs[i]).tight(),
            None => true,
        }
    }
}

impl GraticuleView {
    /// The shape of a sizing: the same tree, with each separator's text
    /// replaced by its display width.
    pub open spec fn shape(self) -> Shape
        decreases self,
    {
        Shape {
            width: self.width,
            anchor: self.anchor,
            columns: match self.children {
                Some((cs, gutter)) => Some(
                    (
                        Seq::new(
                            cs.len(),
                            |i: int|
                                if 0 <= i < cs.len() {
                                    cs[i].shape()
                                } else {
                                    Shape::empty()
                                },
                        ),
                        display_width(gutter),
                    ),
                ),
                None => None,
            },
        }
    }
}

/// A run of shapes that is no longer than another, and column by column no
/// wider, sums to no more.
pub proof fn lemma_sum_shape_widths_grows(s: Seq<Shape>, t: Seq<Shape>)
    requires
        s.len() <= t.len(),
        forall|i: int| 0 <= i < s.len() ==> s[i].width <= t[i].width,
    ensures
        sum_shape_widths(s) <= sum_shape_widths(t),
    decreases t.len(),
{
    if t.len() == 0 {
    } else if s.len() == t.len() {
        lemma_sum_shape_widths_grows(s.drop_last(), t.drop_last());
    } else {
        lemma_sum_shape_widths_grows(s, t.drop_last());
    }
}

/// More separators, or wider ones, take no less room.
pub proof fn lemma_separators_grow(g0: nat, n0: nat, g1: nat, n1: nat)
    requires
        g0 <= g1,
        n0 <= n1,
    ensures
        separators(g0, n0) <= separators(g1, n1),
{
    if n0 > 0 {
        assert((n0 - 1) * g0 <= (n1 - 1) * g1) by (nonlinear_arith)
            requires
                0 <= g0 <= g1,
                0 <= n0 - 1 <= n1 - 1,
        ;
    } else if n1 > 0 {
        assert(0 <= (n1 - 1) * g1) by (nonlinear_arith)
            requires
                0 <= g1,
                0 <= n1 - 1,
        ;
    }
}

/// Merging never shrinks: the merged shape is at least as wide as either
/// side, and so is the room its columns ask for.
pub proof fn lemma_merge_grows(x: Shape, y: Shape)
    ensures
        x.merge(y).width >= x.width,
        x.merge(y).width >= y.width,
        columns_span(x.merge(y).columns) >= columns_span(x.columns),
        columns_span(x.merge(y).columns) >= columns_span(y.columns),
        anchor_span(x.merge(y).anchor) >= anchor_span(x.anchor),
        anchor_span(x.merge(y).anchor) >= anchor_span(y.anchor),
    decreases x,
{
    match (x.columns, y.columns) {
        (Some((c0, g0)), Some((c1, g1))) => {
            let m = x.merge(y).columns.unwrap();
            assert forall|i: int| 0 <= i < m.0.len() implies (i < c0.len() ==> c0[i].width
                <= m.0[i].width) && (i < c1.len() ==> c1[i].width <= m.0[i].width) by {
                if i < c0.len() && i < c1.len() {
                    lemma_merge_grows(c0[i], c1[i]);
                }
            }
            lemma_sum_shape_widths_grows(c0, m.0);
            lemma_sum_shape_widths_grows(c1, m.0);
            lemma_separators_grow(g0, c0.len(), m.1, m.0.len());
            lemma_separators_grow(g1, c1.len(), m.1, m.0.len());
        },
        _ => {},
    }
}

/// A merged shape is tight where the columns of both sides are.
pub proof fn lemma_merge_tight(x: Shape, y: Shape)
    requires
        x.tight(),
        y.tight(),
    ensures
        x.merge(y).tight(),
    decreases x,
{
    match (x.columns, y.columns) {
        (Some((c0, _)), Some((c1, _))) => {
            let m = x.merge(y).columns.unwrap().0;
            assert forall|i: int| 0 <= i < m.len() implies (#[trigger] m[i]).tight() by {
                if i < c0.len() && i < c1.len() {
                    lemma_merge_tight(c0[i], c1[i]);
                }
            }
        },
        _ => {},
    }
}

/// The empty shape changes nothing when merged with a tight shape.
pub proof fn lemma_merge_empty(x: Shape)
    requires
        x.tight(),
    ensures
        Shape::empty().merge(x) == x,
        x.merge(Shape::empty()) == x,
{
}

/// Two rows merge to a row: where both sides are composite, exactly as wide
/// as their columns ask for, and without an anchor, the merged shape is
/// exactly as wide as its merged columns ask for.
pub proof fn lemma_merge_of_rows(x: Shape, y: Shape)
    requires
        x.columns is Some,
        y.columns is Some,
        x.anchor is None,
        y.anchor is None,
        x.width == columns_span(x.columns),
        y.width == columns_span(y.columns),
    ensures
        x.merge(y).width == columns_span(x.merge(y).columns),
        x.merge(y).anchor is None,
{
    lemma_merge_grows(x, y);
}

/// Merging shapes does not depend on the order of the two.
pub proof fn lemma_merge_commutative(x: Shape, y: Shape)
    ensures
        x.merge(y) == y.merge(x),
    decreases x,
{
    match (x.columns, y.columns) {
        (Some((c0, g0)), Some((c1, g1))) => {
            let m01 = x.merge(y).columns.unwrap().0;
            let m10 = y.merge(x).columns.unwrap().0;
            assert forall|i: int| 0 <= i < m01.len() implies m01[i] == m10[i] by {
                if i < c0.len() && i < c1.len() {
                    lemma_merge_commutative(c0[i], c1[i]);
                }
            }
            assert(m01 =~= m10);
        },
        _ => {},
    }
}

/// Merging three shapes does not depend on which two are merged first.
pub proof fn lemma_merge_associative(x: Shape, y: Shape, z: Shape)
    ensures
        x.merge(y).merge(z) == x.merge(y.merge(z)),
    decreases x, y, z,
{
    let xy = x.merge(y);
    let yz = y.merge(z);
    let l = xy.merge(z);
    let r = x.merge(yz);
    lemma_merge_grows(x, y);
    lemma_merge_grows(y, z);
    lemma_merge_grows(xy, z);
    lemma_merge_grows(x, yz);
    match (x.columns, y.columns, z.columns) {
        (Some((c0, g0)), Some((c1, g1)), Some((c2, g2))) => {
            let ml = l.columns.unwrap().0;
            let mr = r.columns.unwrap().0;
            assert(ml.len() == mr.len());
            assert forall|i: int| 0 <= i < ml.len() implies ml[i] == mr[i] by {
                if i < c0.len() && i < c1.len() && i < c2.len() {
                    lemma_merge_associative(c0[i], c1[i], c2[i]);
                }
            }
            assert(ml =~= mr);
        },
        _ => {},
    }
    assert(l.columns == r.columns);
    assert(l.anchor == r.anchor);
}


/// A run of shapes merged into one, from the first on.
pub open spec fn merge_shapes(shapes: Seq<Shape>) -> Shape
    decreases shapes.len(),
{
    if shapes.len() == 0 {
        Shape::empty()
    } else {
        merge_shapes(shapes.drop_last()).merge(shapes.last())
    }
}

/// A run with the items at `i` and `i + 1` in each other's place.
pub open spec fn swapped<A>(items: Seq<A>, i: int) -> Seq<A> {
    items.update(i, items[i + 1]).update(i + 1, items[i])
}

/// Merging a run of shapes does not depend on the order of two neighbours,
/// and so on no order at all.
pub proof fn lemma_merge_shapes_swap(shapes: Seq<Shape>, i: int)
    requires
        0 <= i,
        i + 1 < shapes.len(),
    ensures
        merge_shapes(swapped(shapes, i)) == merge_shapes(shapes),
    decreases shapes.len(),
{
    let other = swapped(shapes, i);
    if i + 1 == shapes.len() - 1 {
        let front = shapes.drop_last().drop_last();
        let m = merge_shapes(front);
        let (a, b) = (shapes[i], shapes[i + 1]);
        assert(other.drop_last().drop_last() =~= front);
        assert(merge_shapes(shapes.drop_last()) == m.merge(a));
        assert(merge_shapes(shapes) == m.merge(a).merge(b));
        assert(other.last() == a);
        assert(other.drop_last().last() == b);
        assert(merge_shapes(other.drop_last()) == m.merge(b));
        assert(merge_shapes(other) == m.merge(b).merge(a));
        lemma_merge_associative(m, a, b);
        lemma_merge_commutative(a, b);
        lemma_merge_associative(m, b, a);
    } else {
        assert(other.drop_last() =~= swapped(shapes.drop_last(), i));
        lemma_merge_shapes_swap(shapes.drop_last(), i);
    }
}

/// The shapes of a run of sizings, in order.
pub open spec fn shapes(columns: Seq<GraticuleView>) -> Seq<Shape> {
    Seq::new(columns.len(), |i: int| columns[i].shape())
}

/// A run of sizings is as wide as the run of its shapes.
pub proof fn lemma_sum_of_shapes(columns: Seq<GraticuleView>)
    ensures
        sum_shape_widths(shapes(columns)) == sum_widths(columns),
    decreases columns.len(),
{
    if columns.len() > 0 {
        assert(shapes(columns).drop_last() =~= shapes(columns.drop_last()));
        lemma_sum_of_shapes(columns.drop_last());
    }
}

/// The shape of a sizing keeps the room that its columns ask for.
pub proof fn lemma_span_of_shape(g: GraticuleView)
    ensures
        columns_span(g.shape().columns) == children_span(g.children),
        g.children matches Some((cs, gutter)) ==> g.shape().columns == Some(
            (shapes(cs), display_width(gutter)),
        ),
        g.children is None ==> g.shape().columns is None,
{
    match g.children {
        Some((cs, gutter)) => {
            assert(g.shape().columns.unwrap().0 =~= shapes(cs));
            lemma_sum_of_shapes(cs);
        },
        None => {},
    }
}

/// The shape of a merge is the merge of the shapes: the text of the
/// separators plays no part in sizing beyond its width.
pub proof fn lemma_shape_of_merge(a: GraticuleView, b: GraticuleView)
    ensures
        a.merge(b).shape() == a.shape().merge(b.shape()),
    decreases a,
{
    let m = a.merge(b);
    lemma_span_of_shape(a);
    lemma_span_of_shape(b);
    lemma_span_of_shape(m);
    match (a.children, b.children) {
        (Some((c0, g0)), Some((c1, g1))) => {
            let left = m.shape().columns.unwrap().0;
            let right = a.shape().merge(b.shape()).columns.unwrap().0;
            assert(left.len() == right.len());
            assert forall|i: int| 0 <= i < left.len() implies left[i] == right[i] by {
                if i < c0.len() && i < c1.len() {
                    lemma_shape_of_merge(c0[i], c1[i]);
                }
            }
            assert(left =~= right);
        },
        _ => {},
    }
    assert(m.shape().columns == a.shape().merge(b.shape()).columns);
}

/// Merging two sizings in either order gives the same widths and anchors
/// throughout; only the text of a separator may differ, between two that are
/// equally wide.
pub proof fn lemma_merge_order(a: GraticuleView, b: GraticuleView)
    ensures
        a.merge(b).shape() == b.merge(a).shape(),
{
    lemma_shape_of_merge(a, b);
    lemma_shape_of_merge(b, a);
    lemma_merge_commutative(a.shape(), b.shape());
}

/// Merging three sizings gives the same widths and anchors throughout,
/// whichever two are merged first.
pub proof fn lemma_merge_grouping(a: GraticuleView, b: GraticuleView, c: GraticuleView)
    ensures
        a.merge(b).merge(c).shape() == a.merge(b.merge(c)).shape(),
{
    lemma_shape_of_merge(a, b);
    lemma_shape_of_merge(a.merge(b), c);
    lemma_shape_of_merge(b, c);
    lemma_shape_of_merge(a, b.merge(c));
    lemma_merge_associative(a.shape(), b.shape(), c.shape());
}

} // verus!
