use vstd::prelude::*;

use crate::commands::jobs::{Job, State};
use crate::num::{decimal, i64_to_string, parse_i32, parse_int_spec, signed_decimal, usize_to_string};
use crate::text::{eq_str, views};

verus! {

/// An argument that reads as an `i32`.
pub open spec fn is_i32_text(s: Seq<char>) -> bool {
    parse_int_spec(s, i32::MIN as int, i32::MAX as int) is Ok
}

/// The words that show a command in the job table: `N > file` is shown
/// as one word `N>file`.
pub open spec fn display_parts(args: Seq<Seq<char>>, i: int) -> Seq<Seq<char>>
    decreases args.len() - i,
{
    if i < 0 || i >= args.len() {
        Seq::<Seq<char>>::empty()
    } else if i + 2 < args.len() && is_i32_text(args[i]) && (args[i + 1] == ">"@ || args[i + 1] == ">>"@)
        && args[i + 2].len() > 0 {
        seq![args[i] + args[i + 1] + args[i + 2]] + display_parts(args, i + 3)
    } else {
        seq![args[i]] + display_parts(args, i + 1)
    }
}

/// Words joined by single spaces.
pub open spec fn join_spaces(v: Seq<Seq<char>>) -> Seq<char>
    decreases v.len(),
{
    if v.len() == 0 {
        Seq::<char>::empty()
    } else if v.len() == 1 {
        v[0]
    } else {
        join_spaces(v.drop_last()) + seq![' '] + v.last()
    }
}

pub fn join_with_spaces(v: &Vec<String>) -> (r: String)
    ensures
        r@ == join_spaces(views(v@)),
{
    let mut r = String::new();
    let mut i: usize = 0;
    while i < v.len()
        invariant
            i <= v@.len(),
            r@ == join_spaces(views(v@).take(i as int)),
        decreases v@.len() - i,
    {
        assert(views(v@).take(i + 1).drop_last() =~= views(v@).take(i as int));
        if i > 0 {
            r.append(" ");
            proof {
                reveal_strlit(" ");
            }
        }
        r.append(v[i].as_str());
        proof {
            if i == 0 {
                assert(r@ =~= views(v@).take(1)[0]);
            }
        }
        i = i + 1;
    }
    assert(views(v@).take(v@.len() as int) =~= views(v@));
    r
}

/// The command as the job table shows it.
pub fn display_command(args: &[String]) -> (s: String)
    ensures
        s@ == join_spaces(display_parts(views(args@), 0)),
{
    let ghost va = views(args@);
    let mut parts: Vec<String> = Vec::new();
    let mut i: usize = 0;
    while i < args.len()
        invariant
            va == views(args@),
            i <= args@.len() + 2,
            display_parts(va, 0) == views(parts@) + display_parts(va, i as int),
        decreases args@.len() + 3 - i,
    {
        let ghost before = views(parts@);
        if args.len() >= 3 && i < args.len() - 2 && parse_i32(args[i].as_str()).is_ok() {
            let op = &args[i + 1];
            let is_op = eq_str(op.as_str(), ">") || eq_str(op.as_str(), ">>");
            if is_op && args[i + 2].as_str().unicode_len() > 0 {
                let mut w = args[i].clone();
                w.append(op.as_str());
                w.append(args[i + 2].as_str());
                parts.push(w);
                assert(views(parts@) =~= before + seq![va[i as int] + va[i + 1] + va[i + 2]]);
                i = i + 3;
                continue;
            }
        }
        parts.push(args[i].clone());
        assert(views(parts@) =~= before + seq![va[i as int]]);
        i = i + 1;
    }
    assert(display_parts(va, i as int) =~= Seq::<Seq<char>>::empty());
    assert(views(parts@) + Seq::<Seq<char>>::empty() =~= views(parts@));
    join_with_spaces(&parts)
}

/// The argument vector to execute: this program itself as a worker for
/// the commands it implements, else the command as typed.
pub fn get_exec_args(is_worker: bool, args: &[String], self_path: String) -> (v: Vec<String>)
    ensures
        is_worker ==> views(v@) == seq![self_path@, "--internal-worker"@] + views(args@),
        !is_worker ==> views(v@) == views(args@),
{
    let mut v: Vec<String> = Vec::new();
    if is_worker {
        v.push(self_path);
        v.push(String::from_str("--internal-worker"));
    }
    let ghost start = views(v@);
    let mut i: usize = 0;
    while i < args.len()
        invariant
            i <= args@.len(),
            views(v@) == start + views(args@).take(i as int),
        decreases args@.len() - i,
    {
        let ghost before = views(v@);
        v.push(args[i].clone());
        assert(views(v@) =~= before.push(args@[i as int]@));
        assert(views(args@).take(i + 1) =~= views(args@).take(i as int).push(args@[i as int]@));
        i = i + 1;
    }
    assert(views(args@).take(args@.len() as int) =~= views(args@));
    proof {
        if is_worker {
            assert(start =~= seq![self_path@, "--internal-worker"@]);
        } else {
            assert(start =~= Seq::<Seq<char>>::empty());
        }
    }
    v
}

/// The line that announces a job launched in the background: `[id] pid`.
pub open spec fn launched_text(id: usize, pid: i32) -> Seq<char> {
    seq!['['] + decimal(id as nat) + seq![']', ' '] + signed_decimal(pid as int) + seq!['\n']
}

pub fn launched_line(id: usize, pid: i32) -> (r: String)
    ensures
        r@ == launched_text(id, pid),
{
    let mut r = String::from_str("[");
    r.append(usize_to_string(id).as_str());
    r.append("] ");
    r.append(i64_to_string(pid as i64).as_str());
    r.append("\n");
    proof {
        reveal_strlit("[");
        reveal_strlit("] ");
        reveal_strlit("\n");
        assert("["@ =~= seq!['[']);
        assert("] "@ =~= seq![']', ' ']);
        assert("\n"@ =~= seq!['\n']);
    }
    r
}

/// The line that reports a job stopped in the foreground.
pub open spec fn stopped_text(id: usize, command: Seq<char>) -> Seq<char> {
    "\n["@ + decimal(id as nat) + "]+\tStopped\t\t"@ + command + seq!['\n']
}

pub fn stopped_line(id: usize, command: &str) -> (r: String)
    ensures
        r@ == stopped_text(id, command@),
{
    let mut r = String::from_str("\n[");
    r.append(usize_to_string(id).as_str());
    r.append("]+\tStopped\t\t");
    r.append(command);
    r.append("\n");
    proof {
        reveal_strlit("\n");
        assert("\n"@ =~= seq!['\n']);
    }
    r
}

/// `run_parent`'s bookkeeping for a job launched in the background, or
/// stopped in the foreground: it joins the table as the newest job, shown
/// as the command was typed, and becomes the current job.
pub fn register_job(
    args: &[String],
    jobs: &mut Vec<Job>,
    current: &mut usize,
    previous: &mut usize,
    pid: i32,
    state: State,
) -> (id: usize)
    requires
        pid > 0,
        old(jobs)@.len() < usize::MAX,
    ensures
        id == old(jobs)@.len() + 1,
        final(jobs)@.len() == id,
        final(jobs)@.take(old(jobs)@.len() as int) == old(jobs)@,
        final(jobs)@.last().jid == id,
        final(jobs)@.last().pgid == pid,
        final(jobs)@.last().command@ == join_spaces(display_parts(views(args@), 0)),
        final(jobs)@.last().state == state,
        *final(previous) == *old(current),
        *final(current) == id,
{
    let id = jobs.len() + 1;
    let cmd = display_command(args);
    jobs.push(Job::new(id, pid, cmd, state));
    assert(jobs@.take(old(jobs)@.len() as int) =~= old(jobs)@);
    *previous = *current;
    *current = id;
    id
}

/// `launch_job`'s bookkeeping: the job joins the table as the newest, shown
/// as its words joined by blanks; the current and previous jobs stay.
pub fn register_launched_job(args: &Vec<String>, jobs: &mut Vec<Job>, pid: i32, state: State) -> (id: usize)
    requires
        pid > 0,
        old(jobs)@.len() < usize::MAX,
    ensures
        id == old(jobs)@.len() + 1,
        final(jobs)@.len() == id,
        final(jobs)@.take(old(jobs)@.len() as int) == old(jobs)@,
        final(jobs)@.last().jid == id,
        final(jobs)@.last().pgid == pid,
        final(jobs)@.last().command@ == join_spaces(views(args@)),
        final(jobs)@.last().state == state,
{
    let id = jobs.len() + 1;
    let cmd = join_with_spaces(args);
    jobs.push(Job::new(id, pid, cmd, state));
    assert(jobs@.take(old(jobs)@.len() as int) =~= old(jobs)@);
    id
}

/// What waiting for the foreground child leads to.
pub enum WaitStep {
    /// Wait again: the wait was interrupted by a signal.
    Retry,
    /// The child changed state, with this status.
    Changed(i32),
    /// The wait failed, for this reason.
    Failed(String),
}

/// `wait_for_foreground_child`'s decision on what `waitpid` returned: the
/// child's status when it answered for the child, another try when it was
/// interrupted, else the failure.
pub fn wait_step(res: i32, child_pid: i32, status: i32, interrupted: bool, err: &str) -> (r: WaitStep)
    ensures
        res == child_pid ==> r == WaitStep::Changed(status),
        res != child_pid && res == -1 && interrupted ==> r is Retry,
        res != child_pid && res == -1 && !interrupted ==> (r matches WaitStep::Failed(m) && m@ == "waitpid failed: "@
            + err@),
        res != child_pid && res != -1 ==> (r matches WaitStep::Failed(m) && m@ == "waitpid returned unexpected pid: "@
            + signed_decimal(res as int)),
{
    if res == child_pid {
        return WaitStep::Changed(status);
    }
    if res == -1 {
        if interrupted {
            return WaitStep::Retry;
        }
        let mut m = String::from_str("waitpid failed: ");
        m.append(err);
        return WaitStep::Failed(m);
    }
    let mut m = String::from_str("waitpid returned unexpected pid: ");
    m.append(i64_to_string(res as i64).as_str());
    WaitStep::Failed(m)
}

} // verus!
