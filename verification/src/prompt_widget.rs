//! The glyph that a shell prompt shows while an overlay is active.

use crate::text::{chars_of, starts_with};
use vstd::prelude::*;

verus! {

/// The glyph, in gray.
pub const GLYPH: &'static str = "\x1b[38;5;245m\u{2591}\x1b[0m";

/// Whether a carried record says that an overlay is active: it is not
/// empty, and it does not begin with eight zeros.
pub open spec fn is_active(shadowenv_data: Seq<char>) -> bool {
    shadowenv_data.len() > 0 && !"00000000"@.is_prefix_of(shadowenv_data)
}

/// What the prompt shows for a carried record: the glyph where an overlay
/// is active, and nothing where none is.
pub fn widget(shadowenv_data: &str) -> (r: Option<&'static str>)
    ensures
        match r {
            Some(g) => is_active(shadowenv_data@) && g@ == GLYPH@,
            None => !is_active(shadowenv_data@),
        },
{
    let data = chars_of(shadowenv_data);
    let zeros = chars_of("00000000");
    if data.len() > 0 && !starts_with(&data, &zeros) {
        Some(GLYPH)
    } else {
        None
    }
}

} // verus!
