use vstd::prelude::*;

use crate::commands::jobs::{Job, State};
use crate::num::{i64_to_string, parse_i32, parse_int_spec, signed_decimal};
use crate::text::{concat, views};

verus! {

pub const USAGE: &'static str = "Usage:\texit [status]";

pub const STOPPED_JOBS_WARNING: &'static str = "There are stopped jobs.";

pub open spec fn has_stopped(jobs: Seq<Job>) -> bool {
    exists|i: int| 0 <= i < jobs.len() && #[trigger] jobs[i].state == State::Stopped
}

/// `exit [status]`. With stopped jobs, the first attempt only warns.
pub open spec fn exit_spec(args: Seq<Seq<char>>, jobs: Seq<Job>, exit_attempted: bool) -> (Result<Seq<char>, Seq<char>>, bool) {
    if has_stopped(jobs) && !exit_attempted {
        (Err(STOPPED_JOBS_WARNING@), true)
    } else if args.len() > 2 {
        (Err("Too many arguments\n"@ + USAGE@), exit_attempted)
    } else if args.len() == 2 {
        match parse_int_spec(args[1], i32::MIN as int, i32::MAX as int) {
            Ok(code) => (Ok(signed_decimal(code)), exit_attempted),
            Err(_) => (Err("Numeric argument required: "@ + args[1]), exit_attempted),
        }
    } else {
        (Ok(seq!['0']), exit_attempted)
    }
}

pub fn any_stopped(jobs: &[Job]) -> (b: bool)
    ensures
        b == has_stopped(jobs@),
{
    let mut i: usize = 0;
    while i < jobs.len()
        invariant
            i <= jobs@.len(),
            forall|k: int| 0 <= k < i ==> #[trigger] jobs@[k].state != State::Stopped,
        decreases jobs@.len() - i,
    {
        if jobs[i].state == State::Stopped {
            return true;
        }
        i = i + 1;
    }
    false
}

/// Returns the exit status as text, or why the shell should not exit.
pub fn exit(args: &[String], jobs: &[Job], exit_attempted: &mut bool) -> (r: Result<String, String>)
    ensures
        exit_spec(views(args@), jobs@, *old(exit_attempted)) == (
            match r {
                Ok(s) => Ok::<Seq<char>, Seq<char>>(s@),
                Err(e) => Err::<Seq<char>, Seq<char>>(e@),
            },
            *final(exit_attempted),
        ),
{
    let has_stopped = any_stopped(jobs);
    if has_stopped && !*exit_attempted {
        *exit_attempted = true;
        return Err(String::from_str(STOPPED_JOBS_WARNING));
    }
    if args.len() > 2 {
        return Err(concat("Too many arguments\n", USAGE));
    }
    let mut exit_code: i32 = 0;
    if args.len() == 2 {
        match parse_i32(args[1].as_str()) {
            Ok(c) => {
                exit_code = c;
            },
            Err(_) => {
                return Err(concat("Numeric argument required: ", args[1].as_str()));
            },
        }
    }
    let s = i64_to_string(exit_code as i64);
    proof {
        if args@.len() < 2 {
            assert(s@ =~= seq!['0']);
        }
    }
    Ok(s)
}

} // verus!
