use crate::width::{display_width, str_width};
use crate::zip::{zip_longest, zipped, Paired};
use vstd::prelude::*;

verus! {

/// The mathematical shape of a [`Graticule`]: unbounded widths, and sequences
/// in place of vectors.
pub struct GraticuleView {
    pub width: nat,
    pub anchor: Option<(nat, nat)>,
    pub children: Option<(Seq<GraticuleView>, Seq<char>)>,
}

/// The larger of two natural numbers.
pub open spec fn max_nat(a: nat, b: nat) -> nat {
    if a >= b {
        a
    } else {
        b
    }
}

/// Columns taken by the separators between `columns` adjacent cells.
pub open spec fn gutter_total(gutter: Seq<char>, columns: nat) -> nat {
    if columns > 0 {
        ((columns - 1) * display_width(gutter)) as nat
    } else {
        0
    }
}

/// The sum of the widths of a run of columns.
pub open spec fn sum_widths(columns: Seq<GraticuleView>) -> nat
    decreases columns.len(),
{
    if columns.len() == 0 {
        0
    } else {
        sum_widths(columns.drop_last()) + columns.last().width
    }
}

/// The width of a row: its columns and the separators between them.
pub open spec fn row_width(columns: Seq<GraticuleView>, gutter: Seq<char>) -> nat {
    sum_widths(columns) + gutter_total(gutter, columns.len())
}

/// The one of two separators that is displayed wider; the first on a tie.
pub open spec fn longer_of(g0: Seq<char>, g1: Seq<char>) -> Seq<char> {
    if display_width(g0) >= display_width(g1) {
        g0
    } else {
        g1
    }
}

/// Two anchors merged: each side takes the larger of the two.
pub open spec fn merge_anchor(a0: Option<(nat, nat)>, a1: Option<(nat, nat)>) -> Option<
    (nat, nat),
> {
    match (a0, a1) {
        (Some((i0, t0)), Some((i1, t1))) => Some((max_nat(i0, i1), max_nat(t0, t1))),
        (a, None) => a,
        (None, a) => a,
    }
}

/// The width that an anchor alone asks for.
pub open spec fn anchor_span(anchor: Option<(nat, nat)>) -> nat {
    match anchor {
        Some((idx, trailing)) => idx + trailing,
        None => 0,
    }
}

/// The width that the columns of a composite ask for.
pub open spec fn children_span(children: Option<(Seq<GraticuleView>, Seq<char>)>) -> nat {
    match children {
        Some((columns, gutter)) => row_width(columns, gutter),
        None => 0,
    }
}

impl GraticuleView {
    /// The sizing of nothing: no width, no anchor, no columns.
    pub open spec fn empty() -> GraticuleView {
        GraticuleView { width: 0, anchor: None, children: None }
    }

    /// The columns of a composite; none for a leaf.
    pub open spec fn columns(self) -> Seq<GraticuleView> {
        match self.children {
            Some((columns, _)) => columns,
            None => Seq::empty(),
        }
    }

    /// The separator of a composite; empty for a leaf.
    pub open spec fn gutter(self) -> Seq<char> {
        match self.children {
            Some((_, gutter)) => gutter,
            None => Seq::empty(),
        }
    }

    /// The sizing that has room for both `self` and `other`.
    ///
    /// Two composites pair their columns from the left, a column without a
    /// partner staying as it is, and keep the wider of the two separators;
    /// one composite keeps its columns. Two anchors keep the larger index
    /// and the larger trailing width; one anchor stays as it is. The width
    /// is the largest of the two widths, of what the merged columns ask
    /// for, and of what the merged anchor asks for.
    pub open spec fn merge(self, other: GraticuleView) -> GraticuleView
        decreases self,
    {
        let children = match (self.children, other.children) {
            (Some((c0, g0)), Some((c1, g1))) => Some(
                (
                    Seq::new(
                        max_nat(c0.len(), c1.len()),
                        |i: int|
                            if 0 <= i < c0.len() && i < c1.len() {
                                c0[i].merge(c1[i])
                            } else if 0 <= i < c0.len() {
                                c0[i]
                            } else {
                                c1[i]
                            },
                    ),
                    longer_of(g0, g1),
                ),
            ),
            (c, None) => c,
            (None, c) => c,
        };
        let anchor = merge_anchor(self.anchor, other.anchor);
        GraticuleView {
            width: max_nat(
                max_nat(self.width, other.width),
                max_nat(children_span(children), anchor_span(anchor)),
            ),
            anchor,
            children,
        }
    }
}


/// The sizing of a cell subtree: the width it needs, where its anchor falls,
/// and, for a row, the sizing of each column and the separator between them.
#[derive(Debug, PartialEq, Eq)]
pub struct Graticule<'g> {
    pub width: usize,
    pub anchor: Option<(usize, usize)>,
    pub children: Option<(Vec<Graticule<'g>>, &'g str)>,
}

/// The view of a graticule: each width as a natural number, each vector as a
/// sequence of views.
pub open spec fn graticule_view(g: Graticule) -> GraticuleView
    decreases g,
{
    GraticuleView {
        width: g.width as nat,
        anchor: match g.anchor {
            Some((idx, trailing)) => Some((idx as nat, trailing as nat)),
            None => None,
        },
        children: match g.children {
            Some((columns, gutter)) => Some(
                (
                    Seq::new(
                        columns@.len(),
                        |i: int|
                            if 0 <= i < columns@.len() {
                                graticule_view(columns@[i])
                            } else {
                                GraticuleView::empty()
                            },
                    ),
                    gutter@,
                ),
            ),
            None => None,
        },
    }
}

impl<'g> View for Graticule<'g> {
    type V = GraticuleView;

    open spec fn view(&self) -> GraticuleView {
        graticule_view(*self)
    }
}

/// The views of a vector of graticules, in order.
pub open spec fn views(columns: Seq<Graticule>) -> Seq<GraticuleView> {
    Seq::new(columns.len(), |i: int| columns[i]@)
}

/// What the view of a graticule is, field by field.
pub proof fn lemma_view(g: Graticule)
    ensures
        g@.width == g.width,
        g.anchor is None ==> g@.anchor is None,
        g.anchor matches Some((idx, trailing)) ==> g@.anchor == Some((idx as nat, trailing as nat)),
        g.children is None ==> g@.children is None,
        g.children matches Some((columns, gutter)) ==> g@.children == Some(
            (views(columns@), gutter@),
        ),
{
    match g.children {
        Some((columns, gutter)) => {
            assert(g@.columns() =~= views(columns@));
        },
        None => {},
    }
}

/// A prefix of a run of columns is no wider than the run, and grows by the
/// width of the column that follows it.
pub proof fn lemma_sum_widths_take(columns: Seq<GraticuleView>, n: int)
    requires
        0 <= n <= columns.len(),
    ensures
        sum_widths(columns.take(n)) <= sum_widths(columns),
        n < columns.len() ==> sum_widths(columns.take(n + 1)) == sum_widths(columns.take(n))
            + columns[n].width,
        n < columns.len() ==> columns[n].width <= sum_widths(columns),
    decreases columns.len() - n,
{
    if n == columns.len() {
        assert(columns.take(n) =~= columns);
    } else {
        assert(columns.take(n + 1).drop_last() =~= columns.take(n));
        lemma_sum_widths_take(columns, n + 1);
    }
}

/// The larger of two machine words.
pub fn max_usize(a: usize, b: usize) -> (m: usize)
    ensures
        m == max_nat(a as nat, b as nat),
{
    if a >= b {
        a
    } else {
        b
    }
}

/// The one of two separators that is displayed wider; the first on a tie.
pub fn longer<'a>(s1: &'a str, s2: &'a str) -> (s: &'a str)
    ensures
        s@ == longer_of(s1@, s2@),
{
    if str_width(s1) >= str_width(s2) {
        s1
    } else {
        s2
    }
}

/// Columns taken by the separators between `columns` adjacent cells.
pub fn total_gutter(column_gutter: &str, columns: usize) -> (total: usize)
    requires
        gutter_total(column_gutter@, columns as nat) <= usize::MAX,
    ensures
        total == gutter_total(column_gutter@, columns as nat),
{
    if columns > 0 {
        (columns - 1) * str_width(column_gutter)
    } else {
        0
    }
}

/// The width of a row of the given columns with the given separator.
pub fn columns_width(columns: &Vec<Graticule>, gutter: &str) -> (width: usize)
    requires
        row_width(views(columns@), gutter@) <= usize::MAX,
    ensures
        width == row_width(views(columns@), gutter@),
{
    let ghost vs = views(columns@);
    let mut sum: usize = 0;
    let mut i: usize = 0;
    while i < columns.len()
        invariant
            i <= columns.len(),
            vs == views(columns@),
            sum == sum_widths(vs.take(i as int)),
            sum_widths(vs) <= usize::MAX,
        decreases columns.len() - i,
    {
        proof {
            lemma_sum_widths_take(vs, i as int);
            lemma_sum_widths_take(vs, i as int + 1);
        }
        sum = sum + columns[i].width;
        i = i + 1;
    }
    proof {
        assert(vs.take(i as int) =~= vs);
    }
    sum + total_gutter(gutter, columns.len())
}

/// The width of a row of the given columns with the given separator, where
/// it fits the machine's word.
pub fn checked_columns_width(columns: &Vec<Graticule>, gutter: &str) -> (width: Option<usize>)
    ensures
        match width {
            Some(w) => w == row_width(views(columns@), gutter@),
            None => row_width(views(columns@), gutter@) > usize::MAX,
        },
{
    let ghost vs = views(columns@);
    let mut sum: usize = 0;
    let mut i: usize = 0;
    while i < columns.len()
        invariant
            i <= columns.len(),
            vs == views(columns@),
            sum == sum_widths(vs.take(i as int)),
        decreases columns.len() - i,
    {
        proof {
            lemma_sum_widths_take(vs, i as int);
            lemma_sum_widths_take(vs, i as int + 1);
        }
        match sum.checked_add(columns[i].width) {
            Some(s) => {
                sum = s;
            },
            None => {
                return None;
            },
        }
        i = i + 1;
    }
    proof {
        assert(vs.take(i as int) =~= vs);
    }
    if columns.len() == 0 {
        return Some(sum);
    }
    match (columns.len() - 1).checked_mul(str_width(gutter)) {
        Some(total) => sum.checked_add(total),
        None => None,
    }
}


impl<'g> Graticule<'g> {
    /// The sizing of nothing: no width, no anchor, no columns.
    pub fn empty() -> (g: Self)
        ensures
            g@ == GraticuleView::empty(),
    {
        Graticule { width: 0, anchor: None, children: None }
    }

    /// Merges two sizings into the one that holds both.
    pub fn merge(self, other: Graticule<'g>) -> (merged: Graticule<'g>)
        requires
            self@.merge(other@).width <= usize::MAX,
        ensures
            merged@ == self@.merge(other@),
        decreases self@,
    {
        let ghost a = self@;
        let ghost b = other@;
        let ghost target = a.merge(b);
        proof {
            lemma_view(self);
            lemma_view(other);
        }
        let Graticule { width: w0, anchor: a0, children: children0 } = self;
        let Graticule { width: w1, anchor: a1, children: children1 } = other;
        let children = match (children0, children1) {
            (Some((g0s, gutter0)), Some((g1s, gutter1))) => {
                let ghost c0 = views(g0s@);
                let ghost c1 = views(g1s@);
                let ghost want = target.columns();
                assert(a.columns() =~= c0);
                assert(b.columns() =~= c1);
                let pairs = zip_longest(g0s, g1s);
                let mut columns: Vec<Graticule<'g>> = Vec::new();
                for pair in it: pairs
                    invariant
                        a == self@,
                        a.children == Some((c0, gutter0@)),
                        b.children == Some((c1, gutter1@)),
                        target == a.merge(b),
                        want == target.columns(),
                        row_width(want, longer_of(gutter0@, gutter1@)) <= usize::MAX,
                        it.seq() == zipped(g0s@, g1s@),
                        c0 == views(g0s@),
                        c1 == views(g1s@),
                        columns@.len() == it.index(),
                        forall|j: int| 0 <= j < columns@.len() ==> (#[trigger] columns@[j])@ == want[j],
                {
                    let ghost k = columns@.len() as int;
                    proof {
                        lemma_sum_widths_take(want, k);
                    }
                    let column = match pair {
                        Paired::Both(g0, g1) => {
                            assert(g0@ == c0[k]);
                            assert(g1@ == c1[k]);
                            assert(want[k] == c0[k].merge(c1[k]));
                            assert(decreases_to!(a => c0[k]));
                            g0.merge(g1)
                        },
                        Paired::Left(g) => g,
                        Paired::Right(g) => g,
                    };
                    columns.push(column);
                }
                assert(views(columns@) =~= want);
                Some((columns, longer(gutter0, gutter1)))
            },
            (c, None) => c,
            (None, c) => c,
        };
        let anchor = match (a0, a1) {
            (Some((idx0, trailing0)), Some((idx1, trailing1))) => Some(
                (max_usize(idx0, idx1), max_usize(trailing0, trailing1)),
            ),
            (a, None) => a,
            (None, a) => a,
        };
        let span = match &children {
            Some((columns, gutter)) => columns_width(columns, gutter),
            None => 0,
        };
        let reach = match anchor {
            Some((idx, trailing)) => idx + trailing,
            None => 0,
        };
        let width = max_usize(max_usize(w0, w1), max_usize(span, reach));
        let merged = Graticule { width, anchor, children };
        assert(merged@.children == target.children);
        merged
    }

    /// The width that [`Graticule::merge`] would give, where it fits the
    /// machine's word.
    pub fn merged_width(&self, other: &Graticule<'g>) -> (width: Option<usize>)
        ensures
            match width {
                Some(w) => w == self@.merge(other@).width,
                None => self@.merge(other@).width > usize::MAX,
            },
        decreases self@,
    {
        let ghost a = self@;
        let ghost b = other@;
        let ghost target = a.merge(b);
        proof {
            lemma_view(*self);
            lemma_view(*other);
        }
        let span: usize = match (&self.children, &other.children) {
            (Some((g0s, gutter0)), Some((g1s, gutter1))) => {
                let ghost c0 = views(g0s@);
                let ghost c1 = views(g1s@);
                let ghost want = target.columns();
                let n = max_usize(g0s.len(), g1s.len());
                let mut sum: usize = 0;
                let mut i: usize = 0;
                while i < n
                    invariant
                        a == self@,
                        b == other@,
                        a.children == Some((c0, gutter0@)),
                        b.children == Some((c1, gutter1@)),
                        c0 == views(g0s@),
                        c1 == views(g1s@),
                        target == a.merge(b),
                        want == target.columns(),
                        n == want.len(),
                        n == max_nat(c0.len(), c1.len()),
                        i <= n,
                        sum == sum_widths(want.take(i as int)),
                    decreases n - i,
                {
                    proof {
                        lemma_sum_widths_take(want, i as int);
                        lemma_sum_widths_take(want, i as int + 1);
                        assert(target.width >= row_width(want, target.gutter()));
                    }
                    let w = if i < g0s.len() && i < g1s.len() {
                        assert(decreases_to!(a => c0[i as int]));
                        assert(want[i as int] == c0[i as int].merge(c1[i as int]));
                        match g0s[i].merged_width(&g1s[i]) {
                            Some(w) => w,
                            None => {
                                return None;
                            },
                        }
                    } else if i < g0s.len() {
                        g0s[i].width
                    } else {
                        g1s[i].width
                    };
                    match sum.checked_add(w) {
                        Some(s) => {
                            sum = s;
                        },
                        None => {
                            return None;
                        },
                    }
                    i = i + 1;
                }
                proof {
                    assert(want.take(i as int) =~= want);
                }
                if n == 0 {
                    sum
                } else {
                    let gw = max_usize(str_width(gutter0), str_width(gutter1));
                    match (n - 1).checked_mul(gw) {
                        Some(total) => match sum.checked_add(total) {
                            Some(s) => s,
                            None => {
                                return None;
                            },
                        },
                        None => {
                            return None;
                        },
                    }
                }
            },
            (Some((gs, gutter)), None) => match checked_columns_width(gs, gutter) {
                Some(s) => s,
                None => {
                    return None;
                },
            },
            (None, Some((gs, gutter))) => match checked_columns_width(gs, gutter) {
                Some(s) => s,
                None => {
                    return None;
                },
            },
            (None, None) => 0,
        };
        let reach: usize = match (self.anchor, other.anchor) {
            (Some((idx0, trailing0)), Some((idx1, trailing1))) => {
                match max_usize(idx0, idx1).checked_add(max_usize(trailing0, trailing1)) {
                    Some(r) => r,
                    None => {
                        return None;
                    },
                }
            },
            (Some((idx, trailing)), None) => match idx.checked_add(trailing) {
                Some(r) => r,
                None => {
                    return None;
                },
            },
            (None, Some((idx, trailing))) => match idx.checked_add(trailing) {
                Some(r) => r,
                None => {
                    return None;
                },
            },
            (None, None) => 0,
        };
        Some(max_usize(max_usize(self.width, other.width), max_usize(span, reach)))
    }

    /// Merges two sizings where the result fits the machine's word.
    pub fn try_merge(self, other: Graticule<'g>) -> (merged: Option<Graticule<'g>>)
        ensures
            match merged {
                Some(m) => m@ == self@.merge(other@),
                None => self@.merge(other@).width > usize::MAX,
            },
    {
        if self.merged_width(&other).is_some() {
            Some(self.merge(other))
        } else {
            None
        }
    }
}

} // verus!
