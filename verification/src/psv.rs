use crate::cell::{cell_views, lemma_cell_view, Align, Cell, CellView};
use crate::conversions::{decimal_text, digits};
use crate::text::{
    before_point, chars_of, lemma_before_point, lemma_split_on_some, lines_of, split_on, split_spans, text_between, trim, trim_span,
};
use crate::width::{is_plain, str_width};
use std::borrow::Cow;
use vstd::prelude::*;
use vstd::string::StringExecFns;

verus! {

/// Which pipe a framed line lacks.
#[derive(Copy, Clone, Debug, PartialEq, Eq, Structural)]
pub enum PsvfErrorKind {
    MissingLeadingPipe,
    MissingTrailingPipe,
}

/// Why framed pipe-separated text was refused: the first line, counted from
/// one, that is not framed, and the pipe it lacks.
#[derive(Copy, Clone, Debug, PartialEq, Eq, Structural)]
pub struct PsvfError {
    pub line: usize,
    pub kind: PsvfErrorKind,
}

impl PsvfErrorKind {
    /// The fault in words.
    pub open spec fn text(self) -> Seq<char> {
        match self {
            PsvfErrorKind::MissingLeadingPipe => "missing leading pipe"@,
            PsvfErrorKind::MissingTrailingPipe => "missing trailing pipe"@,
        }
    }

    /// The fault in words.
    pub fn message(&self) -> (text: String)
        ensures
            text@ == self.text(),
    {
        match self {
            PsvfErrorKind::MissingLeadingPipe => String::from_str("missing leading pipe"),
            PsvfErrorKind::MissingTrailingPipe => String::from_str("missing trailing pipe"),
        }
    }
}

impl PsvfError {
    /// The error in words: the line, then the fault.
    pub open spec fn text(self) -> Seq<char> {
        "Bad PSVF at line "@ + digits(self.line as nat) + ": "@ + self.kind.text()
    }

    /// The error in words: the line, then the fault.
    pub fn message(&self) -> (text: String)
        ensures
            text@ == self.text(),
    {
        let mut text = String::from_str("Bad PSVF at line ");
        text.append(decimal_text(false, self.line as u128).as_str());
        text.append(": ");
        text.append(self.kind.message().as_str());
        text
    }
}

/// The character between two fields.
pub const PIPE: char = '|';

/// One of the ten ASCII digits.
pub open spec fn is_digit(c: char) -> bool {
    '0' <= c <= '9'
}

/// Digits and points only.
pub open spec fn is_numeric(s: Seq<char>) -> bool {
    forall|i: int| 0 <= i < s.len() ==> is_digit(#[trigger] s[i]) || s[i] == '.'
}

/// The number of points in a text.
pub open spec fn points(s: Seq<char>) -> nat
    decreases s.len(),
{
    if s.len() == 0 {
        0
    } else {
        points(s.drop_last()) + if s.last() == '.' {
            1nat
        } else {
            0nat
        }
    }
}

/// The cell that a field stands for: nothing for a blank field; a whole
/// number anchored at its end and a number with one point anchored at the
/// point; any other text aligned as asked.
pub open spec fn field_cell(field: Seq<char>, align: Align) -> CellView {
    let s = trim(field);
    if s.len() == 0 {
        CellView::Empty
    } else if is_numeric(s) && points(s) <= 1 {
        CellView::Anchored(s, before_point(s))
    } else {
        CellView::Aligned(s, align)
    }
}

/// The row that a line stands for: a cell for each of its fields between pipes.
pub open spec fn row_of(line: Seq<char>, align: Align, gutter: Seq<char>) -> CellView {
    let fields = split_on(line, PIPE);
    CellView::Row(Seq::new(fields.len(), |i: int| field_cell(fields[i], align)), gutter)
}

/// The stack of rows that pipe-separated text stands for.
pub open spec fn psv_cell(text: Seq<char>, align: Align, gutter: Seq<char>) -> CellView {
    let lines = lines_of(text);
    CellView::Stack(Seq::new(lines.len(), |i: int| row_of(trim(lines[i]), align, gutter)))
}

/// What a trimmed line lacks to be framed: a pipe at its start, or, after
/// that one, a pipe at its end.
pub open spec fn frame_fault(line: Seq<char>) -> Option<PsvfErrorKind> {
    if line.len() == 0 || line[0] != PIPE {
        Some(PsvfErrorKind::MissingLeadingPipe)
    } else if line.len() < 2 || line.last() != PIPE {
        Some(PsvfErrorKind::MissingTrailingPipe)
    } else {
        None
    }
}

/// A framed line without its frame.
pub open spec fn unframed(line: Seq<char>) -> Seq<char> {
    line.subrange(1, line.len() - 1)
}

/// The stack of rows that framed pipe-separated text stands for.
pub open spec fn psvf_cell(text: Seq<char>, align: Align, gutter: Seq<char>) -> CellView {
    let lines = lines_of(text);
    CellView::Stack(
        Seq::new(lines.len(), |i: int| row_of(unframed(trim(lines[i])), align, gutter)),
    )
}



/// Whether the line, counted from zero, is the first that is not framed, and
/// lacks the pipe named.
pub open spec fn is_first_fault(text: Seq<char>, line: int, kind: PsvfErrorKind) -> bool {
    let lines = lines_of(text);
    &&& 0 <= line < lines.len()
    &&& frame_fault(trim(lines[line])) == Some(kind)
    &&& forall|i: int| 0 <= i < line ==> frame_fault(trim(#[trigger] lines[i])) is None
}

/// Whether every line is framed.
pub open spec fn all_framed(text: Seq<char>) -> bool {
    let lines = lines_of(text);
    forall|i: int| 0 <= i < lines.len() ==> frame_fault(trim(#[trigger] lines[i])) is None
}

/// Digits and points are plain characters.
pub proof fn lemma_numeric_is_plain(s: Seq<char>)
    requires
        is_numeric(s),
    ensures
        is_plain(s),
{
    assert forall|i: int| 0 <= i < s.len() implies ' ' <= #[trigger] s[i] <= '~' by {
        assert(is_digit(s[i]) || s[i] == '.');
    }
}

/// The cell that the field between `from` and `to` stands for.
pub fn field_to_cell<'a, 'g>(chars: &Vec<char>, from: usize, to: usize, align: Align) -> (cell:
    Cell<'a, 'g>)
    requires
        from <= to <= chars@.len(),
    ensures
        cell@ == field_cell(chars@.subrange(from as int, to as int), align),
        cell@.well_formed(),
{
    let (a, b) = trim_span(chars, from, to);
    if a == b {
        return Cell::Empty;
    }
    let ghost s = chars@.subrange(a as int, b as int);
    let mut numeric = true;
    let mut dots: usize = 0;
    let mut first: usize = 0;
    let mut i = a;
    proof {
        assert(s.take(0) =~= Seq::empty());
    }
    while i < b
        invariant
            a <= i <= b <= chars@.len(),
            s == chars@.subrange(a as int, b as int),
            numeric == is_numeric(s.take(i - a)),
            dots == points(s.take(i - a)),
            dots <= i - a,
            dots == 0 ==> forall|j: int| 0 <= j < i - a ==> s[j] != '.',
            dots > 0 ==> first < i - a && s[first as int] == '.' && forall|j: int|
                0 <= j < first ==> s[j] != '.',
        decreases b - i,
    {
        let c = chars[i];
        proof {
            let now = s.take(i - a + 1);
            assert(now.drop_last() =~= s.take(i - a));
            assert(now.last() == c);
            if is_numeric(now) {
                assert forall|j: int| 0 <= j < i - a implies is_digit(
                    #[trigger] s.take(i - a)[j],
                ) || s.take(i - a)[j] == '.' by {
                    assert(now[j] == s.take(i - a)[j]);
                }
            }
        }
        if c == '.' {
            if dots == 0 {
                first = i - a;
            }
            dots = dots + 1;
        } else if !('0' <= c && c <= '9') {
            numeric = false;
        }
        i = i + 1;
    }
    proof {
        assert(s.take(b - a) =~= s);
    }
    let text = text_between(chars, a, b);
    if numeric && dots <= 1 {
        let at = if dots == 0 {
            b - a
        } else {
            first
        };
        let width = str_width(text.as_str());
        proof {
            lemma_numeric_is_plain(s);
            lemma_before_point(s, at as int);
            if dots == 0 {
                assert(s.skip(at as int).len() == 0);
            } else {
                assert(s.skip(at as int)[0] == '.');
            }
        }
        Cell::Anchored(
            Cow::Owned(text),
            if at <= width {
                at
            } else {
                width
            },
        )
    } else {
        Cell::Aligned(Cow::Owned(text), align)
    }
}

/// The cell that a field stands for.
pub fn str_to_cell<'a>(s: &'a str, align: Align) -> (cell: Cell<'a, 'static>)
    ensures
        cell@ == field_cell(s@, align),
        cell@.well_formed(),
{
    let chars = chars_of(s);
    proof {
        assert(chars@.subrange(0, chars@.len() as int) =~= s@);
    }
    field_to_cell(&chars, 0, chars.len(), align)
}

/// The row that the line between `from` and `to` stands for.
pub fn line_to_row<'a, 'g>(
    chars: &Vec<char>,
    from: usize,
    to: usize,
    align: Align,
    gutter: &'g str,
) -> (row: Cell<'a, 'g>)
    requires
        from <= to <= chars@.len(),
    ensures
        row@ == row_of(chars@.subrange(from as int, to as int), align, gutter@),
        row@.well_formed(),
{
    let spans = split_spans(chars, from, to, PIPE);
    let ghost fields = split_on(chars@.subrange(from as int, to as int), PIPE);
    let mut cells: Vec<Cell<'a, 'g>> = Vec::new();
    let mut i: usize = 0;
    while i < spans.len()
        invariant
            i <= spans@.len(),
            spans@.len() == fields.len(),
            forall|k: int|
                0 <= k < spans@.len() ==> from <= (#[trigger] spans@[k]).0 <= spans@[k].1 <= to
                    && chars@.subrange(spans@[k].0 as int, spans@[k].1 as int) == fields[k],
            to <= chars@.len(),
            cells@.len() == i,
            forall|k: int| 0 <= k < i ==> (#[trigger] cells@[k])@ == field_cell(fields[k], align),
            forall|k: int| 0 <= k < i ==> (#[trigger] cells@[k])@.well_formed(),
        decreases spans@.len() - i,
    {
        let (a, b) = spans[i];
        cells.push(field_to_cell(chars, a, b, align));
        i = i + 1;
    }
    let row = Cell::Row(cells, gutter);
    proof {
        lemma_cell_view(row);
        assert(cell_views(cells@) =~= row_of(
            chars@.subrange(from as int, to as int),
            align,
            gutter@,
        )->Row_0);
    }
    row
}

/// Where the lines of the text start and end.
pub fn line_spans(chars: &Vec<char>) -> (spans: Vec<(usize, usize)>)
    ensures
        spans@.len() == lines_of(chars@).len(),
        forall|k: int|
            0 <= k < spans@.len() ==> (#[trigger] spans@[k]).0 <= spans@[k].1 <= chars@.len()
                && chars@.subrange(spans@[k].0 as int, spans@[k].1 as int) == lines_of(chars@)[k],
{
    proof {
        assert(chars@.subrange(0, chars@.len() as int) =~= chars@);
        lemma_split_on_some(chars@, '\n');
    }
    let mut spans = split_spans(chars, 0, chars.len(), '\n');
    let (a, b) = spans[spans.len() - 1];
    if a == b {
        spans.pop();
    }
    spans
}

impl<'a, 'g> Cell<'a, 'g> {
    /// Reads pipe-separated text: a row for each line, a cell for each field
    /// between pipes, lines and fields trimmed of white space.
    pub fn from_psv(psv_string: &'a str, align: Align, gutter: &'g str) -> (cell: Cell<'a, 'g>)
        ensures
            cell@ == psv_cell(psv_string@, align, gutter@),
            cell@.well_formed(),
    {
        let chars = chars_of(psv_string);
        let spans = line_spans(&chars);
        let ghost lines = lines_of(chars@);
        let mut rows: Vec<Cell<'a, 'g>> = Vec::new();
        let mut i: usize = 0;
        while i < spans.len()
            invariant
                i <= spans@.len(),
                spans@.len() == lines.len(),
                forall|k: int|
                    0 <= k < spans@.len() ==> (#[trigger] spans@[k]).0 <= spans@[k].1
                        <= chars@.len() && chars@.subrange(
                        spans@[k].0 as int,
                        spans@[k].1 as int,
                    ) == lines[k],
                rows@.len() == i,
                forall|k: int|
                    0 <= k < i ==> (#[trigger] rows@[k])@ == row_of(trim(lines[k]), align, gutter@),
                forall|k: int| 0 <= k < i ==> (#[trigger] rows@[k])@.well_formed(),
            decreases spans@.len() - i,
        {
            let (from, to) = spans[i];
            let (a, b) = trim_span(&chars, from, to);
            rows.push(line_to_row(&chars, a, b, align, gutter));
            i = i + 1;
        }
        let cell = Cell::Stack(rows);
        proof {
            lemma_cell_view(cell);
            assert(cell_views(rows@) =~= psv_cell(psv_string@, align, gutter@)->Stack_0);
        }
        cell
    }

    /// Reads framed pipe-separated text: as [`Cell::from_psv`], but each
    /// line, once trimmed, must start with a pipe and end with another. The
    /// first line that does not is reported, and no cell is made.
    pub fn from_psvf(psv_string: &'a str, align: Align, gutter: &'g str) -> (result: Result<
        Cell<'a, 'g>,
        PsvfError,
    >)
        ensures
            match result {
                Ok(cell) => all_framed(psv_string@) && cell@ == psvf_cell(
                    psv_string@,
                    align,
                    gutter@,
                ) && cell@.well_formed(),
                Err(e) => is_first_fault(psv_string@, e.line - 1, e.kind),
            },
    {
        let chars = chars_of(psv_string);
        let spans = line_spans(&chars);
        let ghost lines = lines_of(chars@);
        let mut rows: Vec<Cell<'a, 'g>> = Vec::new();
        let mut i: usize = 0;
        while i < spans.len()
            invariant
                i <= spans@.len(),
                spans@.len() == lines.len(),
                lines == lines_of(psv_string@),
                forall|k: int|
                    0 <= k < spans@.len() ==> (#[trigger] spans@[k]).0 <= spans@[k].1
                        <= chars@.len() && chars@.subrange(
                        spans@[k].0 as int,
                        spans@[k].1 as int,
                    ) == lines[k],
                rows@.len() == i,
                forall|k: int| 0 <= k < i ==> frame_fault(trim(#[trigger] lines[k])) is None,
                forall|k: int|
                    0 <= k < i ==> (#[trigger] rows@[k])@ == row_of(
                        unframed(trim(lines[k])),
                        align,
                        gutter@,
                    ),
                forall|k: int| 0 <= k < i ==> (#[trigger] rows@[k])@.well_formed(),
            decreases spans@.len() - i,
        {
            let (from, to) = spans[i];
            let (a, b) = trim_span(&chars, from, to);
            let ghost line = chars@.subrange(a as int, b as int);
            assert(line == trim(lines[i as int]));
            if a == b || chars[a] != PIPE {
                return Err(PsvfError { line: i + 1, kind: PsvfErrorKind::MissingLeadingPipe });
            } else if b - a < 2 || chars[b - 1] != PIPE {
                return Err(PsvfError { line: i + 1, kind: PsvfErrorKind::MissingTrailingPipe });
            }
            proof {
                assert(chars@.subrange(a as int + 1, b as int - 1) =~= unframed(line));
            }
            rows.push(line_to_row(&chars, a + 1, b - 1, align, gutter));
            i = i + 1;
        }
        let cell = Cell::Stack(rows);
        proof {
            lemma_cell_view(cell);
            assert(cell_views(rows@) =~= psvf_cell(psv_string@, align, gutter@)->Stack_0);
        }
        Ok(cell)
    }
}

} // verus!
