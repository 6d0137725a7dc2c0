use vstd::prelude::*;

use crate::commands::jobs::{resolve_jobspec, resolve_jobspec_spec, Job, State};
use crate::num::{int_error_message, int_error_text, parse_i32, parse_int_spec};
use crate::text::{concat, starts_with_char, views};

verus! {

pub const USAGE: &'static str = "Usage:\tkill <LEADER_PID>|%[+|-|%%|<PGID>]";

/// The index of the first job whose process group is `pgid`.
pub open spec fn pgid_index(jobs: Seq<Job>, pgid: int) -> Option<int>
    decreases jobs.len(),
{
    if jobs.len() == 0 {
        None
    } else {
        match pgid_index(jobs.drop_last(), pgid) {
            Some(i) => Some(i),
            None => if jobs.last().pgid == pgid { Some(jobs.len() - 1) } else { None },
        }
    }
}

pub proof fn lemma_pgid_index(jobs: Seq<Job>, pgid: int)
    ensures
        match pgid_index(jobs, pgid) {
            Some(i) => 0 <= i < jobs.len() && jobs[i].pgid == pgid && forall|k: int|
                0 <= k < i ==> #[trigger] jobs[k].pgid != pgid,
            None => forall|k: int| 0 <= k < jobs.len() ==> #[trigger] jobs[k].pgid != pgid,
        },
    decreases jobs.len(),
{
    if jobs.len() > 0 {
        lemma_pgid_index(jobs.drop_last(), pgid);
        assert forall|k: int| 0 <= k < jobs.len() - 1 implies #[trigger] jobs[k].pgid == jobs.drop_last()[k].pgid by {}
    }
}

/// What `kill` signals: a process group, and whether it must also be
/// continued (it is a stopped job) so that it can end.
#[derive(Debug, Clone, Copy, PartialEq, Eq, Structural)]
pub struct KillTarget {
    pub pid: i32,
    pub is_stopped: bool,
}

/// `kill %jobspec` names the job whose process group ID is the number the
/// jobspec resolves to; `kill N` names process group `N` directly.
pub open spec fn kill_target_spec(input: Seq<Seq<char>>, jobs: Seq<Job>, current: usize, previous: usize) -> Result<KillTarget, Seq<char>> {
    if input.len() > 2 {
        Err("Too many arguments\n"@ + USAGE@)
    } else if input.len() < 2 {
        Err("Not enough arguments\n"@ + USAGE@)
    } else {
        let arg = input[1];
        if arg.len() > 0 && arg[0] == '%' {
            match resolve_jobspec_spec(arg, current, previous) {
                Err(e) => Err(e),
                Ok(job_id) => match pgid_index(jobs, job_id) {
                    Some(i) => Ok(KillTarget { pid: jobs[i].pgid, is_stopped: jobs[i].state == State::Stopped }),
                    None => Err("No such job ID: "@ + arg),
                },
            }
        } else {
            match parse_int_spec(arg, i32::MIN as int, i32::MAX as int) {
                Err(e) => Err("Failed to parse ID: "@ + int_error_text(e) + "\r\n"@ + arg + "\r\n"@ + USAGE@),
                Ok(pid) => if pid <= 0 {
                    Err("ID must be positive"@)
                } else {
                    Ok(KillTarget {
                        pid: pid as i32,
                        is_stopped: match pgid_index(jobs, pid) {
                            Some(i) => jobs[i].state == State::Stopped,
                            None => false,
                        },
                    })
                },
            }
        }
    }
}

fn find_pgid(jobs: &Vec<Job>, pgid: i32) -> (r: Option<usize>)
    ensures
        match r {
            Some(i) => pgid_index(jobs@, pgid as int) == Some(i as int),
            None => pgid_index(jobs@, pgid as int) is None,
        },
{
    proof {
        lemma_pgid_index(jobs@, pgid as int);
    }
    let mut i: usize = 0;
    while i < jobs.len()
        invariant
            i <= jobs@.len(),
            forall|k: int| 0 <= k < i ==> #[trigger] jobs@[k].pgid != pgid,
            match pgid_index(jobs@, pgid as int) {
                Some(x) => 0 <= x < jobs@.len() && jobs@[x].pgid == pgid && forall|k: int|
                    0 <= k < x ==> #[trigger] jobs@[k].pgid != pgid,
                None => forall|k: int| 0 <= k < jobs@.len() ==> #[trigger] jobs@[k].pgid != pgid,
            },
        decreases jobs@.len() - i,
    {
        if jobs[i].pgid == pgid {
            return Some(i);
        }
        i = i + 1;
    }
    None
}

/// Decides what `kill` signals (after the table has been brought up to date).
pub fn kill_target(input: &[String], jobs: &Vec<Job>, current: usize, previous: usize) -> (r: Result<KillTarget, String>)
    ensures
        match r {
            Ok(t) => kill_target_spec(views(input@), jobs@, current, previous) == Ok::<KillTarget, Seq<char>>(t),
            Err(e) => kill_target_spec(views(input@), jobs@, current, previous) == Err::<KillTarget, Seq<char>>(e@),
        },
{
    if input.len() > 2 {
        return Err(concat("Too many arguments\n", USAGE));
    }
    if input.len() < 2 {
        return Err(concat("Not enough arguments\n", USAGE));
    }
    let arg = &input[1];
    if starts_with_char(arg.as_str(), '%') {
        let job_id = match resolve_jobspec(arg.as_str(), current, previous) {
            Ok(id) => id,
            Err(e) => return Err(e),
        };
        if job_id > i32::MAX as usize {
            proof {
                lemma_pgid_index(jobs@, job_id as int);
            }
            return Err(concat("No such job ID: ", arg.as_str()));
        }
        match find_pgid(jobs, job_id as i32) {
            Some(i) => {
                proof {
                    lemma_pgid_index(jobs@, job_id as int);
                }
                Ok(KillTarget { pid: jobs[i].pgid, is_stopped: jobs[i].state == State::Stopped })
            },
            None => Err(concat("No such job ID: ", arg.as_str())),
        }
    } else {
        match parse_i32(arg.as_str()) {
            Err(e) => {
                let mut msg = String::from_str("Failed to parse ID: ");
                msg.append(int_error_message(e).as_str());
                msg.append("\r\n");
                msg.append(arg.as_str());
                msg.append("\r\n");
                msg.append(USAGE);
                Err(msg)
            },
            Ok(pid) => {
                if pid <= 0 {
                    return Err(String::from_str("ID must be positive"));
                }
                let is_stopped = match find_pgid(jobs, pid) {
                    Some(i) => {
                        proof {
                            lemma_pgid_index(jobs@, pid as int);
                        }
                        jobs[i].state == State::Stopped
                    },
                    None => false,
                };
                Ok(KillTarget { pid, is_stopped })
            },
        }
    }
}

} // verus!
