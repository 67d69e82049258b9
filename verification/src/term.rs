//! The terminal-width query: an environment-dependent value handled by
//! verified code once it is in hand.

use vstd::prelude::*;

verus! {

/// Relies on `term_size::dimensions`: the terminal's column and row count,
/// if they can be queried.  The value depends on the environment, so
/// nothing is promised of it.
#[verifier::external_body]
fn query_dimensions() -> (r: Option<(usize, usize)>) {
    term_size::dimensions()
}

/// The detected terminal width in columns, if the terminal reports one.
/// The value depends on the environment.
pub fn term_width() -> Option<usize> {
    match query_dimensions() {
        Some((w, _)) => Some(w),
        None => None,
    }
}

/// The width to lay text out in: the detected width, or 80 columns when the
/// terminal reports none.
pub fn width_or_default(w: Option<usize>) -> (r: usize)
    ensures
        r == match w {
            Some(x) => x,
            None => 80usize,
        },
{
    match w {
        Some(x) => x,
        None => 80,
    }
}

} // verus!
