use crate::cell::{cell_views, lemma_cell_view, text_of, Align, Cell, CellView};
use crate::graticule::{lemma_view, views, Graticule};
use crate::render::{blanks, first_lines, join, remainings, rests, RemainingView};
use crate::width::str_width;
use crate::zip::{each_ref, zip_longest, Paired};
use std::collections::VecDeque;
use vstd::prelude::*;
use vstd::std_specs::convert::FromSpecImpl;
use vstd::std_specs::vecdeque::VecDequeAdditionalSpecFns;
use vstd::string::StringExecFns;

verus! {

/// What is left of a cell to put out while it is rendered line by line. A
/// cell that is done is `Empty`.
#[derive(Debug, PartialEq, Eq)]
pub enum Remaining<'a> {
    Empty,
    Aligned(&'a str, Align),
    Anchored(&'a str, usize),
    Row(Vec<Remaining<'a>>),
    Stack(VecDeque<Remaining<'a>>),
}

/// The view of what remains: its text as sequences of characters, its cells
/// as a sequence of views.
pub open spec fn remaining_view(r: Remaining) -> RemainingView
    decreases r,
{
    match r {
        Remaining::Empty => RemainingView::Empty,
        Remaining::Aligned(s, align) => RemainingView::Aligned(s@, align),
        Remaining::Anchored(s, idx) => RemainingView::Anchored(s@, idx as nat),
        Remaining::Row(cells) => RemainingView::Row(
            Seq::new(
                cells@.len(),
                |i: int|
                    if 0 <= i < cells@.len() {
                        remaining_view(cells@[i])
                    } else {
                        RemainingView::Empty
                    },
            ),
        ),
        Remaining::Stack(cells) => RemainingView::Stack(
            Seq::new(
                cells@.len(),
                |i: int|
                    if 0 <= i < cells@.len() {
                        remaining_view(cells[i])
                    } else {
                        RemainingView::Empty
                    },
            ),
        ),
    }
}

impl<'a> View for Remaining<'a> {
    type V = RemainingView;

    open spec fn view(&self) -> RemainingView {
        remaining_view(*self)
    }
}

/// The views of a run of remaining cells, in order.
pub open spec fn remaining_views(cells: Seq<Remaining>) -> Seq<RemainingView> {
    Seq::new(cells.len(), |i: int| cells[i]@)
}

/// What the view of a remaining cell is, variant by variant.
pub proof fn lemma_remaining_view(r: Remaining)
    ensures
        match r {
            Remaining::Empty => r@ == RemainingView::Empty,
            Remaining::Aligned(s, align) => r@ == RemainingView::Aligned(s@, align),
            Remaining::Anchored(s, idx) => r@ == RemainingView::Anchored(s@, idx as nat),
            Remaining::Row(cells) => r@ == RemainingView::Row(remaining_views(cells@)),
            Remaining::Stack(cells) => r@ == RemainingView::Stack(remaining_views(cells@)),
        },
{
    match r {
        Remaining::Row(cells) => {
            assert(r@->Row_0 =~= remaining_views(cells@));
        },
        Remaining::Stack(cells) => {
            assert(r@->Stack_0 =~= remaining_views(cells@));
        },
        _ => {},
    }
}

impl<'a, 'g> From<&'a Cell<'a, 'g>> for Remaining<'a> {
    fn from(value: &'a Cell<'a, 'g>) -> (all: Self)
        ensures
            all@ == value@.remaining(),
    {
        Remaining::from_cell(value)
    }
}

impl<'a, 'g> FromSpecImpl<&'a Cell<'a, 'g>> for Remaining<'a> {
    open spec fn obeys_from_spec() -> bool {
        false
    }

    open spec fn from_spec(v: &'a Cell<'a, 'g>) -> Self {
        choose|all: Remaining<'a>| all@ == v@.remaining()
    }
}

/// A run of `n` blanks.
pub fn pad(n: usize) -> (s: String)
    ensures
        s@ == blanks(n as nat),
{
    let mut s = String::new();
    let mut i: usize = 0;
    while i < n
        invariant
            i <= n,
            s@ == blanks(i as nat),
        decreases n - i,
    {
        proof {
            reveal_strlit(" ");
            assert(blanks(i as nat) + " "@ =~= blanks((i + 1) as nat));
        }
        s.append(" ");
        i = i + 1;
    }
    s
}


impl<'a> Remaining<'a> {
    /// All of a cell, still to be put out.
    pub fn from_cell<'g>(cell: &'a Cell<'a, 'g>) -> (all: Remaining<'a>)
        ensures
            all@ == cell@.remaining(),
        decreases cell@,
    {
        proof {
            lemma_cell_view(*cell);
        }
        match cell {
            Cell::Empty => Remaining::Empty,
            Cell::Aligned(s, align) => Remaining::Aligned(text_of(s), *align),
            Cell::Anchored(s, idx) => Remaining::Anchored(text_of(s), *idx),
            Cell::Row(cells, _gutter) => {
                let mut children: Vec<Remaining<'a>> = Vec::new();
                let mut i: usize = 0;
                while i < cells.len()
                    invariant
                        i <= cells.len(),
                        cell@ == CellView::Row(cell_views(cells@), _gutter@),
                        children@.len() == i,
                        forall|j: int|
                            0 <= j < i ==> (#[trigger] children@[j])@ == cell_views(
                                cells@,
                            )[j].remaining(),
                    decreases cells.len() - i,
                {
                    assert(decreases_to!(cell@ => cell@->Row_0[i as int]));
                    children.push(Remaining::from_cell(&cells[i]));
                    i = i + 1;
                }
                let all = Remaining::Row(children);
                proof {
                    lemma_remaining_view(all);
                    assert(remaining_views(children@) =~= remainings(cell_views(cells@)));
                }
                all
            },
            Cell::Stack(cells) => {
                let mut children: VecDeque<Remaining<'a>> = VecDeque::new();
                let mut i: usize = 0;
                while i < cells.len()
                    invariant
                        i <= cells.len(),
                        cell@ == CellView::Stack(cell_views(cells@)),
                        children@.len() == i,
                        forall|j: int|
                            0 <= j < i ==> (#[trigger] children@[j])@ == cell_views(
                                cells@,
                            )[j].remaining(),
                    decreases cells.len() - i,
                {
                    assert(decreases_to!(cell@ => cell@->Stack_0[i as int]));
                    children.push_back(Remaining::from_cell(&cells[i]));
                    i = i + 1;
                }
                let all = Remaining::Stack(children);
                proof {
                    lemma_remaining_view(all);
                    assert(remaining_views(children@) =~= remainings(cell_views(cells@)));
                }
                all
            },
        }
    }

    /// Whether nothing is left to put out.
    pub fn is_empty(&self) -> (done: bool)
        ensures
            done == (self@ is Empty),
    {
        matches!(self, Remaining::Empty)
    }
}


/// The join of the first parts grows by the separator and the next part.
pub proof fn lemma_join_take(parts: Seq<Seq<char>>, sep: Seq<char>, n: int)
    requires
        0 <= n < parts.len(),
    ensures
        join(parts.take(n + 1), sep) == if n == 0 {
            parts[0]
        } else {
            join(parts.take(n), sep) + sep + parts[n]
        },
{
    assert(parts.take(n + 1).drop_last() =~= parts.take(n));
}

impl<'a> Remaining<'a> {
    /// Puts out the next line: appends it to `out`, and returns what is left
    /// after it, `Empty` once nothing is.
    pub fn format(self, out: &mut String, g: &Graticule) -> (left: Remaining<'a>)
        requires
            self@.fits(g@),
        ensures
            final(out)@ == old(out)@ + self@.first_line(g@),
            left@ == self@.rest(g@),
        decreases self@,
    {
        let ghost me = self@;
        let ghost out0 = out@;
        proof {
            lemma_remaining_view(self);
            lemma_view(*g);
        }
        match self {
            Remaining::Empty => {
                out.append(pad(g.width).as_str());
                assert(out@ =~= out0 + me.first_line(g@));
                Remaining::Empty
            },
            Remaining::Aligned(s, align) => {
                let total_pad = g.width - str_width(s);
                let (pad_l, pad_r) = match align {
                    Align::Left => (0, total_pad),
                    Align::Right => (total_pad, 0),
                    Align::Centre => {
                        let pad_l = total_pad / 2;
                        (pad_l, total_pad - pad_l)
                    },
                };
                out.append(pad(pad_l).as_str());
                out.append(s);
                out.append(pad(pad_r).as_str());
                assert(out@ =~= out0 + me.first_line(g@));
                Remaining::Empty
            },
            Remaining::Anchored(s, idx) => {
                let (_, layout_trailing) = g.anchor.unwrap();
                let width = str_width(s);
                let trailing = width - idx;
                let pad_r = layout_trailing - trailing;
                let pad_l = g.width - width - pad_r;
                out.append(pad(pad_l).as_str());
                out.append(s);
                out.append(pad(pad_r).as_str());
                assert(out@ =~= out0 + me.first_line(g@));
                Remaining::Empty
            },
            Remaining::Row(children) => {
                if children.len() == 0 {
                    out.append(pad(g.width).as_str());
                    assert(out@ =~= out0 + me.first_line(g@));
                    Remaining::Empty
                } else {
                    let ghost cells = remaining_views(children@);
                    let ghost gs = g@.columns();
                    let ghost firsts = first_lines(cells, gs);
                    let ghost lefts = rests(cells, gs);
                    let (g_children, gutter) = match &g.children {
                        Some((g_children, gutter)) => (g_children, *gutter),
                        None => {
                            assert(false);
                            return Remaining::Empty;
                        },
                    };
                    let pairs = zip_longest(children, each_ref(g_children));
                    let mut left: Vec<Remaining<'a>> = Vec::new();
                    let mut all_done = true;
                    assert(out@ =~= out0 + join(firsts.take(0), gutter@));
                    for pair in it: pairs
                        invariant
                            me == self@,
                            me == RemainingView::Row(cells),
                            me.fits(g@),
                            cells == remaining_views(children@),
                            cells.len() > 0,
                            gs == g@.columns(),
                            gs == views(g_children@),
                            gutter@ == g@.gutter(),
                            firsts == first_lines(cells, gs),
                            lefts == rests(cells, gs),
                            it.seq().len() == gs.len(),
                            forall|j: int|
                                0 <= j < gs.len() ==> #[trigger] it.seq()[j] == (if j
                                    < children@.len() {
                                    Paired::<Remaining<'a>, &Graticule>::Both(
                                        children@[j],
                                        &g_children@[j],
                                    )
                                } else {
                                    Paired::<Remaining<'a>, &Graticule>::Right(&g_children@[j])
                                }),
                            left@.len() == it.index(),
                            forall|j: int|
                                0 <= j < left@.len() ==> (#[trigger] left@[j])@ == lefts[j],
                            all_done == (forall|j: int|
                                0 <= j < left@.len() ==> #[trigger] lefts[j] is Empty),
                            out@ == out0 + join(firsts.take(it.index()), gutter@),
                    {
                        let ghost i = left@.len() as int;
                        proof {
                            lemma_join_take(firsts, gutter@, i);
                        }
                        if left.len() > 0 {
                            out.append(gutter);
                        }
                        let l = match pair {
                            Paired::Both(child, g_child) => {
                                assert(child@ == cells[i]);
                                assert(decreases_to!(me => me->Row_0[i]));
                                child.format(out, g_child)
                            },
                            Paired::Left(_child) => {
                                proof {
                                    assert(false);
                                }
                                Remaining::Empty
                            },
                            Paired::Right(g_child) => {
                                out.append(pad(g_child.width).as_str());
                                Remaining::Empty
                            },
                        };
                        assert(out@ =~= out0 + join(firsts.take(i + 1), gutter@));
                        assert(l@ == lefts[i]);
                        if !l.is_empty() {
                            all_done = false;
                        }
                        left.push(l);
                    }
                    proof {
                        assert(firsts.take(gs.len() as int) =~= firsts);
                    }
                    if all_done {
                        Remaining::Empty
                    } else {
                        let rest = Remaining::Row(left);
                        proof {
                            lemma_remaining_view(rest);
                            assert(remaining_views(left@) =~= lefts);
                        }
                        rest
                    }
                }
            },
            Remaining::Stack(children) => {
                let ghost cells = remaining_views(children@);
                let mut children = children;
                match children.pop_front() {
                    Some(child) => {
                        assert(child@ == cells[0]);
                        assert(decreases_to!(me => me->Stack_0[0]));
                        let l = child.format(out, g);
                        if !l.is_empty() {
                            children.push_front(l);
                        }
                        if children.len() == 0 {
                            Remaining::Empty
                        } else {
                            let rest = Remaining::Stack(children);
                            proof {
                                lemma_remaining_view(rest);
                                assert(remaining_views(children@) =~= me.rest(g@)->Stack_0);
                            }
                            rest
                        }
                    },
                    None => {
                        out.append(pad(g.width).as_str());
                        assert(out@ =~= out0 + me.first_line(g@));
                        Remaining::Empty
                    },
                }
            },
        }
    }
}

} // verus!
