use vstd::prelude::*;

use crate::num::{decimal, usize_to_string};

verus! {

pub const ANSI_PREFIX: char = '\x1b';

pub const ERROR_COLOR: &'static str = RED;
pub const USER_COLOR: &'static str = PURPLE;
pub const FOLDER_COLOR: &'static str = BRIGHT_CYAN;

pub const RED: &'static str = "\x1b[31m";
pub const PURPLE: &'static str = "\x1b[35m";
pub const BRIGHT_CYAN: &'static str = "\x1b[96m";
pub const BLUE: &'static str = "\x1b[34m";

pub const RESET: &'static str = "\x1b[0m";
pub const RESET_FG: &'static str = "\x1b[39m";

pub const BOLD: &'static str = "\x1b[1m";

pub const CLEAR_LINE: &'static str = "\x1b[K";

/// The escape sequence that moves the cursor up `rows` rows.
pub fn cursor_up(rows: usize) -> (s: String)
    ensures
        s@ == "\x1b["@ + decimal(rows as nat) + seq!['A'],
{
    let mut s = String::from_str("\x1b[");
    s.append(usize_to_string(rows).as_str());
    s.append("A");
    proof {
        reveal_strlit("A");
        assert(s@ =~= "\x1b["@ + decimal(rows as nat) + seq!['A']);
    }
    s
}

} // verus!
