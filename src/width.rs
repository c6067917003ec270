use unicode_width::UnicodeWidthChar;
use vstd::prelude::*;

verus! {

/// Display width of a non-control scalar under the East Asian (CJK) rules.
pub uninterp spec fn cjk_width(c: char) -> usize;

/// Control characters: those that have no display width.
pub open spec fn is_control(c: char) -> bool {
    (c as u32) < 0x20 || (0x7f <= (c as u32) && (c as u32) < 0xa0)
}

/// Relies on unicode_width's `UnicodeWidthChar::width_cjk`: `None` exactly for
/// control characters, 1 for printable ASCII, and at most 3 columns otherwise.
#[verifier::external_body]
pub(crate) fn width_cjk(c: char) -> (r: Option<usize>)
    ensures
        is_control(c) ==> r is None,
        !is_control(c) && (c as u32) < 0x7f ==> r == Some(1usize),
        !is_control(c) && (c as u32) >= 0xa0 ==> r == Some(cjk_width(c)),
        r matches Some(w) ==> w <= 3,
{
    c.width_cjk()
}

} // verus!
