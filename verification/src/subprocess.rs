//! What the build command hands back, and which of its lines are progress lines.

use vstd::prelude::*;
use crate::text::{chars_of, has_char, starts_with, trim_start, trimmed_start};

verus! {

/// The output of a build command.
pub struct CommandOutput {
    /// Merged stdout + stderr, in arrival order.
    pub raw: String,
    pub success: bool,
}

/// Whether `line` is a build progress indicator rather than compiler output:
/// after leading white space it is either a `[ 42%] ...` ninja/cmake line or a
/// `-- ...` cmake line.
pub open spec fn progress_line(line: Seq<char>) -> bool {
    let t = trim_start(line);
    ||| (t.len() > 0 && t[0] == '[' && t.contains('%') && t.contains(']'))
    ||| (t.len() >= 3 && t.take(3) == "-- "@)
}

/// Whether `line` looks like a build progress indicator (see `progress_line`).
pub fn is_progress_line(line: &str) -> (b: bool)
    ensures
        b == progress_line(line@),
{
    let t = trimmed_start(chars_of(line).as_slice());
    let dash = chars_of("-- ");
    proof {
        reveal_strlit("-- ");
    }
    (t.len() > 0 && t[0] == '[' && has_char(t.as_slice(), '%') && has_char(t.as_slice(), ']'))
        || starts_with(t.as_slice(), dash.as_slice())
}

} // verus!
