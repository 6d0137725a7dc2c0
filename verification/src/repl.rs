use std::collections::VecDeque;

use vstd::prelude::*;

use crate::commands::exit::{any_stopped, has_stopped, STOPPED_JOBS_WARNING};
use crate::commands::jobs::Job;
use crate::input::split::{split, split_spec, top_parse_error};
use crate::text::{chars_of, is_white_space, is_whitespace, views};

verus! {

/// What the read-eval loop does next.
pub enum ReplStep {
    /// Read the next line.
    Skip,
    /// Report this error, then read the next line.
    Report(String),
    /// Leave the loop.
    Quit,
    /// Run the command with these words.
    Run(Vec<String>),
}

/// At the end of input (Ctrl-D): with stopped jobs the first time, a
/// warning and another line; otherwise the shell quits.
pub fn on_end_of_input(jobs: &[Job], exit_attempted: &mut bool) -> (r: ReplStep)
    ensures
        has_stopped(jobs@) && !*old(exit_attempted) ==> (r matches ReplStep::Report(m) && m@ == "exit: "@
            + STOPPED_JOBS_WARNING@) && *final(exit_attempted),
        !(has_stopped(jobs@) && !*old(exit_attempted)) ==> r is Quit && *final(exit_attempted) == *old(
            exit_attempted,
        ),
{
    if any_stopped(jobs) && !*exit_attempted {
        *exit_attempted = true;
        let mut m = String::from_str("exit: ");
        m.append(STOPPED_JOBS_WARNING);
        return ReplStep::Report(m);
    }
    ReplStep::Quit
}

/// A line with nothing but whitespace.
pub open spec fn is_blank(s: Seq<char>) -> bool {
    forall|i: int| 0 <= i < s.len() ==> is_white_space(#[trigger] s[i])
}

fn blank(s: &str) -> (r: bool)
    ensures
        r == is_blank(s@),
{
    let v = chars_of(s);
    let mut i: usize = 0;
    while i < v.len()
        invariant
            v@ == s@,
            i <= v@.len(),
            forall|k: int| 0 <= k < i ==> is_white_space(#[trigger] s@[k]),
        decreases v@.len() - i,
    {
        if !is_whitespace(v[i]) {
            return false;
        }
        i = i + 1;
    }
    true
}

/// A line read: a blank line is passed over; any other goes into the
/// history and is split into words, and a line that does not split is
/// reported.
pub fn on_line(line: &str, history: &mut VecDeque<String>) -> (r: ReplStep)
    ensures
        is_blank(line@) ==> r is Skip && views(final(history)@) == views(old(history)@),
        !is_blank(line@) ==> views(final(history)@) == views(old(history)@).push(line@) && match split_spec(
            line@,
            top_parse_error(),
        ) {
            Err(e) => (r matches ReplStep::Report(m) && m@ == "0-shell: "@ + e),
            Ok(ws) => if ws.len() == 0 {
                r is Skip
            } else {
                (r matches ReplStep::Run(v) && views(v@) == ws)
            },
        },
{
    if blank(line) {
        return ReplStep::Skip;
    }
    let ghost h = views(history@);
    history.push_back(String::from_str(line));
    assert(views(history@) =~= h.push(line@));
    match split(line) {
        Err(e) => {
            let mut m = String::from_str("0-shell: ");
            m.append(e.as_str());
            ReplStep::Report(m)
        },
        Ok(words) => {
            if words.len() == 0 {
                ReplStep::Skip
            } else {
                ReplStep::Run(words)
            }
        },
    }
}

/// A new history: one empty line.
pub fn new_history() -> (h: VecDeque<String>)
    ensures
        views(h@) == seq![Seq::<char>::empty()],
{
    let mut h: VecDeque<String> = VecDeque::new();
    h.push_back(String::new());
    assert(views(h@) =~= seq![Seq::<char>::empty()]);
    h
}

} // verus!
