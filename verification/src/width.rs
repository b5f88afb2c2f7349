use unicode_width::UnicodeWidthStr;
use vstd::prelude::*;

verus! {

/// The number of terminal columns that a run of text occupies, as measured by
/// `unicode_width::UnicodeWidthStr::width`.
pub uninterp spec fn display_width(text: Seq<char>) -> nat;

/// Text made only of the printable ASCII characters, from the blank to the tilde.
pub open spec fn is_plain(text: Seq<char>) -> bool {
    forall|i: int| 0 <= i < text.len() ==> ' ' <= #[trigger] text[i] <= '~'
}

/// Calls `unicode_width::UnicodeWidthStr::width`. The result is the display
/// width of the text; for printable ASCII text the crate counts one column
/// per character.
#[verifier::external_body]
pub(crate) fn str_width(s: &str) -> (w: usize)
    ensures
        w == display_width(s@),
        is_plain(s@) ==> w == s@.len(),
{
    s.width()
}

} // verus!
