use vstd::prelude::*;

use crate::ansi::{BOLD, ERROR_COLOR, RESET_FG};
use crate::text::concat;

verus! {

/// The line that reports `err` from `command`: errors of the shell itself
/// (starting `0-shell: `) stand alone; others get the command's name.
pub open spec fn error_line(command: Seq<char>, err: Seq<char>) -> Seq<char> {
    let prefix = "0-shell: "@;
    if prefix.len() <= err.len() && err.take(prefix.len() as int) == prefix {
        err
    } else {
        command + ": "@ + err
    }
}

/// The text of the error line for `err` from `command`.
pub fn handle_error(command: &str, err: String) -> (line: String)
    ensures
        line@ == error_line(command@, err@),
{
    if crate::text::starts_with_text(err.as_str(), "0-shell: ") {
        err
    } else {
        let mut m = concat(command, ": ");
        m.append(err.as_str());
        m
    }
}

/// `text` in bold red, resetting only the colour afterwards.
pub fn red_text(text: &str) -> (s: String)
    ensures
        s@ == ERROR_COLOR@ + BOLD@ + text@ + RESET_FG@,
{
    let mut s = String::from_str(ERROR_COLOR);
    s.append(BOLD);
    s.append(text);
    s.append(RESET_FG);
    s
}

/// The message a child writes when the command cannot be executed.
pub open spec fn exec_failure_text(cmd: Seq<char>) -> Seq<char> {
    ERROR_COLOR@ + BOLD@ + "0-shell: command not found: "@ + cmd + RESET_FG@ + seq!['\n']
}

/// `print_exec_failure`'s message, built before the fork so that the child
/// only has to write it.
pub fn exec_failure_message(cmd: &str) -> (r: String)
    ensures
        r@ == exec_failure_text(cmd@),
{
    let mut r = String::from_str(ERROR_COLOR);
    r.append(BOLD);
    r.append("0-shell: command not found: ");
    r.append(cmd);
    r.append(RESET_FG);
    r.append("\n");
    proof {
        reveal_strlit("\n");
        assert("\n"@ =~= seq!['\n']);
    }
    r
}

} // verus!
