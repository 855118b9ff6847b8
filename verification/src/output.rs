//! How the lines of a report are printed.

use crate::plan::PlanView;
use crate::report::plan_lines;
use crate::rows::{Describe, HasId};
use crate::text::owned;
use vstd::prelude::*;
use vstd::string::*;

verus! {

/// Turns a terminal's text green.
pub const ANSI_GREEN: &'static str = "\u{1b}[32m";

/// Turns a terminal's text red.
pub const ANSI_RED: &'static str = "\u{1b}[31m";

/// Turns a terminal's text yellow.
pub const ANSI_YELLOW: &'static str = "\u{1b}[33m";

/// Turns a terminal's text back to what it was.
pub const ANSI_RESET: &'static str = "\u{1b}[0m";

/// The colour of a line: green for what is added, red for what is removed, yellow for what is
/// updated. Any other line has none.
pub open spec fn color_of(line: Seq<char>) -> Option<Seq<char>> {
    if line.len() == 0 {
        None
    } else if line[0] == '+' {
        Some(ANSI_GREEN@)
    } else if line[0] == '-' {
        Some(ANSI_RED@)
    } else if line[0] == '~' {
        Some(ANSI_YELLOW@)
    } else {
        None
    }
}

/// A line in its colour.
pub open spec fn colorized(line: Seq<char>) -> Seq<char> {
    match color_of(line) {
        Some(color) => color + line + ANSI_RESET@,
        None => line,
    }
}

/// Puts a line into its colour.
pub fn colorize_diff_line(line: &str) -> (r: String)
    ensures
        r@ == colorized(line@),
{
    if line.is_empty() {
        return owned(line);
    }
    let mark: char = line.get_char(0);
    let color = if mark == '+' {
        ANSI_GREEN
    } else if mark == '-' {
        ANSI_RED
    } else if mark == '~' {
        ANSI_YELLOW
    } else {
        return owned(line);
    };
    let mut out = owned(color);
    out.append(line);
    out.append(ANSI_RESET);
    out
}

/// Whether lines are coloured: only on a terminal, and only where `NO_COLOR` is not set.
pub fn use_color(is_terminal: bool, no_color_set: bool) -> (r: bool)
    ensures
        r == (is_terminal && !no_color_set),
{
    is_terminal && !no_color_set
}

/// Every line of a plan has a colour.
pub proof fn law_plan_lines_have_colors<C: HasId + Describe, D: Describe>(
    table: Seq<char>,
    current: Seq<C::V>,
    plan: PlanView<D::V>,
    k: int,
)
    requires
        0 <= k < plan_lines::<C, D>(table, current, plan).len(),
    ensures
        color_of(plan_lines::<C, D>(table, current, plan)[k]) is Some,
{
    reveal_strlit("+ ");
    reveal_strlit("- ");
    reveal_strlit("~ ");
}

/// A line that begins with `+` is shown in green, one with `-` in red and one with `~` in yellow,
/// each followed by a reset; any other line is shown as it is.
pub proof fn law_colors(line: Seq<char>)
    ensures
        line.len() > 0 && line[0] == '+' ==> colorized(line) == "\u{1b}[32m"@ + line
            + "\u{1b}[0m"@,
        line.len() > 0 && line[0] == '-' ==> colorized(line) == "\u{1b}[31m"@ + line
            + "\u{1b}[0m"@,
        line.len() > 0 && line[0] == '~' ==> colorized(line) == "\u{1b}[33m"@ + line
            + "\u{1b}[0m"@,
        line.len() == 0 || (line[0] != '+' && line[0] != '-' && line[0] != '~') ==> colorized(line)
            == line,
{
}

} // verus!
