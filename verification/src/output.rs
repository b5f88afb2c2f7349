use crate::cell::Cell;
use crate::cover::lemma_sizing_fits;
use crate::remaining::{lemma_join_take, Remaining};
use crate::render::block;
use crate::step::{lemma_no_lines, lemma_rest_fits, lemma_step};
use vstd::prelude::*;
use vstd::string::StringExecFns;

verus! {

impl<'a, 'g> Cell<'a, 'g> {
    /// Whether the cell can be sized and rendered on this machine.
    pub fn is_renderable(&self) -> (can: bool)
        ensures
            can == self@.renderable(),
    {
        self.try_graticule().is_some()
    }

    /// Renders the cell: sizes it once, then puts it out line by line, with a
    /// line break between each two lines and none at the end.
    pub fn render(&self) -> (out: String)
        requires
            self@.renderable(),
        ensures
            out@ == self@.rendered(),
    {
        let graticule = self.graticule();
        let mut remaining = Remaining::from_cell(self);
        let mut out = String::new();
        let mut first_line = true;
        let ghost all = self@.lines();
        let ghost n: int = 0;
        proof {
            lemma_sizing_fits(self@);
            assert(all.take(0) + all =~= all);
            assert(all.take(0) =~= Seq::<Seq<char>>::empty());
        }
        while !remaining.is_empty()
            invariant
                remaining@.fits(graticule@),
                0 <= n <= all.len(),
                all == all.take(n) + remaining@.lines(graticule@),
                out@ == block(all.take(n)),
                first_line == (n == 0),
            decreases remaining@.lines(graticule@).len(),
        {
            proof {
                lemma_step(remaining@, graticule@);
                lemma_rest_fits(remaining@, graticule@);
                lemma_join_take(all, seq!['\n'], n);
                reveal_strlit("\n");
                assert("\n"@ =~= seq!['\n']);
                assert(all =~= all.take(n + 1) + remaining@.rest(graticule@).lines(graticule@));
            }
            if !first_line {
                out.append("\n");
            }
            first_line = false;
            remaining = remaining.format(&mut out, &graticule);
            proof {
                n = n + 1;
            }
        }
        proof {
            lemma_no_lines(remaining@, graticule@);
            assert(all.take(n) =~= all);
        }
        out
    }

    /// Renders the cell where it can be rendered on this machine.
    pub fn try_render(&self) -> (out: Option<String>)
        ensures
            match out {
                Some(text) => self@.renderable() && text@ == self@.rendered(),
                None => !self@.renderable(),
            },
    {
        if self.is_renderable() {
            Some(self.render())
        } else {
            None
        }
    }
}

} // verus!
