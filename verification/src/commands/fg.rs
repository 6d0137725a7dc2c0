use vstd::prelude::*;

use crate::commands::jobs::{no_such_job, pointers_after_removal, resolve_jobspec, resolve_jobspec_spec, Job, State};
use crate::num::{decimal, usize_to_string};
use crate::text::views;

verus! {

pub const USAGE: &'static str = "Usage:\tfg [jobspec]";

/// The index of the first job with ID `jid`.
pub open spec fn jid_index(jobs: Seq<Job>, jid: int) -> Option<int>
    decreases jobs.len(),
{
    if jobs.len() == 0 {
        None
    } else {
        match jid_index(jobs.drop_last(), jid) {
            Some(i) => Some(i),
            None => if jobs.last().jid == jid { Some(jobs.len() - 1) } else { None },
        }
    }
}

pub proof fn lemma_jid_index(jobs: Seq<Job>, jid: int)
    ensures
        match jid_index(jobs, jid) {
            Some(i) => 0 <= i < jobs.len() && jobs[i].jid == jid && forall|k: int|
                0 <= k < i ==> #[trigger] jobs[k].jid != jid,
            None => forall|k: int| 0 <= k < jobs.len() ==> #[trigger] jobs[k].jid != jid,
        },
    decreases jobs.len(),
{
    if jobs.len() > 0 {
        lemma_jid_index(jobs.drop_last(), jid);
        assert forall|k: int| 0 <= k < jobs.len() - 1 implies #[trigger] jobs[k].jid == jobs.drop_last()[k].jid by {}
    }
}

/// The job that `fg` brings to the foreground: the last job with no
/// argument, else the job the jobspec names. On success it becomes the
/// current job and the old current one the previous.
pub open spec fn fg_target_spec(args: Seq<Seq<char>>, jobs: Seq<Job>, current: usize, previous: usize) -> Result<int, Seq<char>> {
    let id: Result<int, Seq<char>> = if args.len() < 2 {
        if jobs.len() == 0 { Err(no_such_job()) } else { Ok(jobs.last().jid as int) }
    } else {
        resolve_jobspec_spec(args[1], current, previous)
    };
    match id {
        Err(e) => Err(e),
        Ok(job_id) => match jid_index(jobs, job_id) {
            Some(i) => Ok(i),
            None => Err("No such job ID: "@ + decimal(job_id as nat)),
        },
    }
}

fn find_job_by_jid(jobs: &Vec<Job>, jid: usize) -> (r: Option<usize>)
    ensures
        match r {
            Some(i) => jid_index(jobs@, jid as int) == Some(i as int),
            None => jid_index(jobs@, jid as int) is None,
        },
{
    proof {
        lemma_jid_index(jobs@, jid as int);
    }
    let mut i: usize = 0;
    while i < jobs.len()
        invariant
            i <= jobs@.len(),
            forall|k: int| 0 <= k < i ==> #[trigger] jobs@[k].jid != jid,
            match jid_index(jobs@, jid as int) {
                Some(x) => 0 <= x < jobs@.len() && jobs@[x].jid == jid && forall|k: int|
                    0 <= k < x ==> #[trigger] jobs@[k].jid != jid,
                None => forall|k: int| 0 <= k < jobs@.len() ==> #[trigger] jobs@[k].jid != jid,
            },
        decreases jobs@.len() - i,
    {
        if jobs[i].jid == jid {
            return Some(i);
        }
        i = i + 1;
    }
    None
}

/// Chooses the job for `fg` (after the table has been brought up to date)
/// and makes it current. Returns its index in the table.
pub fn fg_target(args: &[String], jobs: &Vec<Job>, current: &mut usize, previous: &mut usize) -> (r: Result<usize, String>)
    ensures
        match r {
            Ok(i) => fg_target_spec(views(args@), jobs@, *old(current), *old(previous)) == Ok::<int, Seq<char>>(i as int)
                && *final(previous) == *old(current) && *final(current) == jobs@[i as int].jid,
            Err(e) => fg_target_spec(views(args@), jobs@, *old(current), *old(previous)) == Err::<int, Seq<char>>(e@)
                && *final(previous) == *old(previous) && *final(current) == *old(current),
        },
{
    let job_id = if args.len() < 2 {
        if jobs.len() == 0 {
            return Err(String::from_str("Current: no such job"));
        }
        jobs[jobs.len() - 1].jid
    } else {
        match resolve_jobspec(args[1].as_str(), *current, *previous) {
            Ok(id) => id,
            Err(e) => return Err(e),
        }
    };
    match find_job_by_jid(jobs, job_id) {
        Some(index) => {
            proof {
                lemma_jid_index(jobs@, job_id as int);
            }
            *previous = *current;
            *current = job_id;
            Ok(index)
        },
        None => {
            let mut msg = String::from_str("No such job ID: ");
            msg.append(usize_to_string(job_id).as_str());
            Err(msg)
        },
    }
}

/// After the foreground job stops or ends: a stopped job stays in the table
/// as stopped (and a line says so); an ended one leaves it.
pub open spec fn fg_done_spec(jobs: Seq<Job>, current: usize, previous: usize, index: int, stopped: bool) -> (Seq<Job>, usize, usize, Option<Seq<char>>) {
    let job = jobs[index];
    if stopped {
        (
            jobs.update(index, Job { state: State::Stopped, ..job }),
            current,
            previous,
            Some("\n["@ + decimal(job.jid as nat) + "]+\tStopped\t\t"@ + job.command@),
        )
    } else {
        let (c, p) = pointers_after_removal(job.jid, current, previous);
        (jobs.remove(index), c, p, None)
    }
}

pub fn fg_done(jobs: &mut Vec<Job>, current: &mut usize, previous: &mut usize, index: usize, stopped: bool) -> (msg: Option<String>)
    requires
        index < old(jobs)@.len(),
    ensures
        fg_done_spec(old(jobs)@, *old(current), *old(previous), index as int, stopped) == (
            final(jobs)@,
            *final(current),
            *final(previous),
            match msg {
                Some(m) => Some(m@),
                None => None::<Seq<char>>,
            },
        ),
{
    let job_id = jobs[index].jid;
    if stopped {
        let mut msg = String::from_str("\n[");
        msg.append(usize_to_string(job_id).as_str());
        msg.append("]+\tStopped\t\t");
        msg.append(jobs[index].command.as_str());
        let updated = Job {
            jid: job_id,
            pgid: jobs[index].pgid,
            command: jobs[index].command.clone(),
            state: State::Stopped,
        };
        jobs.set(index, updated);
        Some(msg)
    } else {
        jobs.remove(index);
        if job_id == *current {
            *current = *previous;
            *previous = 0;
        } else if job_id == *previous {
            *previous = 0;
        }
        None
    }
}

} // verus!
