use vstd::prelude::*;

use crate::num::{decimal, i64_to_string, parse_int_spec, parse_usize, signed_decimal, usize_to_string};
use crate::text::{chars_of, concat, eq_str, pad_right, pad_right_string, starts_with_char, string_of, string_of_range, views};

verus! {

pub const USAGE: &'static str = "Usage:\tjobs [-lprs] [jobspec ...]";

pub const OPTIONS_USAGE: &'static str = "\r\n-l      -- show process IDs\r\n-p      -- show only process IDs\r\n-r      -- show only running jobs\r\n-s      -- show only stopped jobs";

pub const STATE_COL_WIDTH: usize = 24;

/// The flags of `jobs`.
#[derive(Debug, Clone, Copy, PartialEq, Eq, Structural)]
pub struct JobOptions {
    pub show_pid: bool,  // -l
    pub pid_only: bool,  // -p
    pub running_only: bool,  // -r
    pub stopped_only: bool,  // -s
}

pub open spec fn no_options() -> JobOptions {
    JobOptions { show_pid: false, pid_only: false, running_only: false, stopped_only: false }
}

impl Default for JobOptions {
    fn default() -> (r: Self)
        ensures
            r == no_options(),
    {
        JobOptions { show_pid: false, pid_only: false, running_only: false, stopped_only: false }
    }
}

/// A job: a process group that the shell launched.
pub struct Job {
    pub jid: usize,  // Job ID: 1, 2, 3, ...
    pub pgid: i32,  // Process group ID: the PID of the group leader.
    pub command: String,
    pub state: State,
}

impl Job {
    pub fn new(jid: usize, pgid: i32, command: String, state: State) -> (j: Self)
        requires
            pgid > 0,
        ensures
            j.jid == jid,
            j.pgid == pgid,
            j.command == command,
            j.state == state,
    {
        Job { jid, pgid, command, state }
    }
}

#[derive(Debug, PartialEq, Eq, Clone, Copy, Structural)]
pub enum State {
    Running,
    Stopped,
}

pub open spec fn state_text(s: State) -> Seq<char> {
    match s {
        State::Running => "Running"@,
        State::Stopped => "Stopped"@,
    }
}

impl State {
    /// The state as `jobs` shows it.
    pub fn to_string(&self) -> (s: String)
        ensures
            s@ == state_text(*self),
    {
        match self {
            State::Running => String::from_str("Running"),
            State::Stopped => String::from_str("Stopped"),
        }
    }
}

/// A job as one line of `jobs`.
pub struct JobDisplay<'a> {
    pub job: &'a Job,
    pub sign: &'a str,
    pub opts: JobOptions,
}

/// The line of a job: `[jid]sign  state command &`, with the process group
/// ID after the sign when `-l` is given, and ` &` only for a running job.
pub open spec fn display_text(job: Job, sign: Seq<char>, opts: JobOptions) -> Seq<char> {
    let amp = if job.state == State::Running { seq![' ', '&'] } else { Seq::<char>::empty() };
    if opts.show_pid {
        seq!['['] + decimal(job.jid as nat) + seq![']'] + sign + seq![' '] + pad_right(
            signed_decimal(job.pgid as int),
            5,
        ) + seq![' '] + pad_right(state_text(job.state), 24) + seq![' '] + job.command@ + amp
    } else {
        seq!['['] + decimal(job.jid as nat) + seq![']'] + sign + seq![' ', ' '] + pad_right(
            state_text(job.state),
            24,
        ) + seq![' '] + job.command@ + amp
    }
}

impl<'a> JobDisplay<'a> {
    pub fn to_string(&self) -> (s: String)
        ensures
            s@ == display_text(*self.job, self.sign@, self.opts),
    {
        let job = self.job;
        let state_str = job.state.to_string();
        let mut out = String::from_str("[");
        out.append(usize_to_string(job.jid).as_str());
        out.append("]");
        out.append(self.sign);
        if self.opts.show_pid {
            out.append(" ");
            out.append(pad_right_string(i64_to_string(job.pgid as i64).as_str(), 5).as_str());
            out.append(" ");
        } else {
            out.append("  ");
        }
        out.append(pad_right_string(state_str.as_str(), STATE_COL_WIDTH).as_str());
        out.append(" ");
        out.append(job.command.as_str());
        if job.state == State::Running {
            out.append(" &");
        }
        proof {
            reveal_strlit("[");
            reveal_strlit("]");
            reveal_strlit(" ");
            reveal_strlit("  ");
            reveal_strlit(" &");
            assert(out@ =~= display_text(*job, self.sign@, self.opts));
        }
        out
    }
}

/// The mark of a job: `+` for the current one, `-` for the previous one.
pub open spec fn job_sign(jid: usize, current: usize, previous: usize) -> Seq<char> {
    if jid == current {
        seq!['+']
    } else if jid == previous {
        seq!['-']
    } else {
        seq![' ']
    }
}

/// What `jobs` prints for one job: nothing when a filter leaves it out, its
/// process group ID with `-p`, its line otherwise.
pub open spec fn job_line(job: Job, opts: JobOptions, filter: Seq<usize>, current: usize, previous: usize) -> Seq<char> {
    if filter.len() > 0 && !filter.contains(job.jid) {
        Seq::<char>::empty()
    } else if opts.running_only && job.state == State::Stopped {
        Seq::<char>::empty()
    } else if opts.stopped_only && job.state == State::Running {
        Seq::<char>::empty()
    } else if opts.pid_only {
        signed_decimal(job.pgid as int).push('\n')
    } else {
        display_text(job, job_sign(job.jid, current, previous), opts).push('\n')
    }
}

/// The lines of all jobs, in order.
pub open spec fn format_jobs_spec(jobs: Seq<Job>, opts: JobOptions, filter: Seq<usize>, current: usize, previous: usize) -> Seq<char>
    decreases jobs.len(),
{
    if jobs.len() == 0 {
        Seq::<char>::empty()
    } else {
        format_jobs_spec(jobs.drop_last(), opts, filter, current, previous) + job_line(
            jobs.last(),
            opts,
            filter,
            current,
            previous,
        )
    }
}

fn contains_usize(v: &[usize], x: usize) -> (r: bool)
    ensures
        r == v@.contains(x),
{
    let mut i: usize = 0;
    while i < v.len()
        invariant
            i <= v@.len(),
            forall|j: int| 0 <= j < i ==> v@[j] != x,
        decreases v@.len() - i,
    {
        if v[i] == x {
            assert(v@[i as int] == x);
            return true;
        }
        i = i + 1;
    }
    false
}

/// The listing of `jobs`: for each job, in order, its line (see `job_line`).
pub fn format_jobs(items: &[Job], opts: JobOptions, filter_ids: &[usize], current: usize, previous: usize) -> (s: String)
    ensures
        s@ == format_jobs_spec(items@, opts, filter_ids@, current, previous),
{
    let mut output = String::new();
    let mut i: usize = 0;
    while i < items.len()
        invariant
            i <= items@.len(),
            output@ == format_jobs_spec(items@.take(i as int), opts, filter_ids@, current, previous),
        decreases items@.len() - i,
    {
        let job = &items[i];
        assert(items@.take(i + 1).drop_last() =~= items@.take(i as int));
        assert(items@.take(i + 1).last() == *job);
        let ghost before = output@;
        if filter_ids.len() > 0 && !contains_usize(filter_ids, job.jid) {
        } else if opts.running_only && job.state == State::Stopped {
        } else if opts.stopped_only && job.state == State::Running {
        } else if opts.pid_only {
            output.append(i64_to_string(job.pgid as i64).as_str());
            output.append("\n");
            proof {
                reveal_strlit("\n");
            }
        } else {
            let sign = if job.jid == current {
                "+"
            } else if job.jid == previous {
                "-"
            } else {
                " "
            };
            proof {
                reveal_strlit("+");
                reveal_strlit("-");
                reveal_strlit(" ");
                assert(sign@ =~= job_sign(job.jid, current, previous));
            }
            let display = JobDisplay { job, sign, opts };
            output.append(display.to_string().as_str());
            output.append("\n");
            proof {
                reveal_strlit("\n");
            }
        }
        assert(output@ =~= before + job_line(*job, opts, filter_ids@, current, previous));
        i = i + 1;
    }
    assert(items@.take(items@.len() as int) =~= items@);
    output
}

pub open spec fn no_such_job() -> Seq<char> {
    "Current: no such job"@
}

/// The job ID that a jobspec names: `%`, `%+` and `%%` the current job (or
/// else the previous one), `%-` the previous job (or else the current one),
/// and `N` or `%N` job `N`.
pub open spec fn resolve_jobspec_spec(spec: Seq<char>, current: usize, previous: usize) -> Result<int, Seq<char>> {
    if spec == "%"@ || spec == "%+"@ || spec == "%%"@ {
        if current > 0 {
            Ok(current as int)
        } else if previous > 0 {
            Ok(previous as int)
        } else {
            Err(no_such_job())
        }
    } else if spec == "%-"@ {
        if previous > 0 {
            Ok(previous as int)
        } else if current > 0 {
            Ok(current as int)
        } else {
            Err(no_such_job())
        }
    } else {
        let raw = if spec.len() > 0 && spec[0] == '%' { spec.skip(1) } else { spec };
        match parse_int_spec(raw, 0, usize::MAX as int) {
            Ok(v) => Ok(v),
            Err(_) => Err("Invalid job ID: "@ + spec),
        }
    }
}

pub fn resolve_jobspec(spec: &str, current: usize, previous: usize) -> (r: Result<usize, String>)
    ensures
        match r {
            Ok(id) => resolve_jobspec_spec(spec@, current, previous) == Ok::<int, Seq<char>>(id as int),
            Err(e) => resolve_jobspec_spec(spec@, current, previous) == Err::<int, Seq<char>>(e@),
        },
{
    if eq_str(spec, "%") || eq_str(spec, "%+") || eq_str(spec, "%%") {
        if current > 0 {
            return Ok(current);
        } else if previous > 0 {
            return Ok(previous);
        } else {
            return Err(String::from_str("Current: no such job"));
        }
    } else if eq_str(spec, "%-") {
        if previous > 0 {
            return Ok(previous);
        } else if current > 0 {
            return Ok(current);
        } else {
            return Err(String::from_str("Current: no such job"));
        }
    }
    let raw = if starts_with_char(spec, '%') {
        let v = chars_of(spec);
        string_of_range(&v, 1, v.len())
    } else {
        String::from_str(spec)
    };
    match parse_usize(raw.as_str()) {
        Ok(id) => Ok(id),
        Err(_) => Err(concat("Invalid job ID: ", spec)),
    }
}

/// The options and job IDs that the arguments of `jobs` give, or the first error.
pub open spec fn option_flags(cs: Seq<char>, o: JobOptions) -> Result<JobOptions, char>
    decreases cs.len(),
{
    if cs.len() == 0 {
        Ok(o)
    } else {
        let c = cs[0];
        if c == 'l' {
            option_flags(cs.skip(1), JobOptions { show_pid: true, ..o })
        } else if c == 'p' {
            option_flags(cs.skip(1), JobOptions { pid_only: true, ..o })
        } else if c == 'r' {
            option_flags(cs.skip(1), JobOptions { running_only: true, ..o })
        } else if c == 's' {
            option_flags(cs.skip(1), JobOptions { stopped_only: true, ..o })
        } else {
            Err(c)
        }
    }
}

pub open spec fn invalid_option(c: char) -> Seq<char> {
    "Invalid option -- '"@ + seq![c] + "'\n"@ + USAGE@
}

pub open spec fn jobs_args(args: Seq<Seq<char>>, o: JobOptions, ids: Seq<usize>, current: usize, previous: usize) -> Result<(JobOptions, Seq<usize>), Seq<char>>
    decreases args.len(),
{
    if args.len() == 0 {
        Ok((o, ids))
    } else {
        let a = args[0];
        if a.len() > 0 && a[0] == '-' {
            match option_flags(a.skip(1), o) {
                Ok(o2) => jobs_args(args.skip(1), o2, ids, current, previous),
                Err(c) => Err(invalid_option(c)),
            }
        } else {
            match resolve_jobspec_spec(a, current, previous) {
                Ok(id) => jobs_args(args.skip(1), o, ids.push(id as usize), current, previous),
                Err(e) => Err(e),
            }
        }
    }
}

/// What `jobs` answers: the listing under the options and job IDs given.
pub open spec fn jobs_spec(input: Seq<Seq<char>>, jobs: Seq<Job>, current: usize, previous: usize) -> Result<Seq<char>, Seq<char>> {
    let args = if input.len() > 0 { input.skip(1) } else { input };
    match jobs_args(args, no_options(), Seq::<usize>::empty(), current, previous) {
        Ok((o, ids)) => Ok(format_jobs_spec(jobs, o, ids, current, previous)),
        Err(e) => Err(e),
    }
}


fn parse_option_chars(a: &String, o: JobOptions) -> (r: Result<JobOptions, char>)
    requires
        a@.len() > 0,
    ensures
        r == option_flags(a@.skip(1), o),
{
    let v = chars_of(a.as_str());
    let mut opts = o;
    let mut j: usize = 1;
    while j < v.len()
        invariant
            v@ == a@,
            1 <= j <= v@.len(),
            option_flags(a@.skip(1), o) == option_flags(a@.skip(j as int), opts),
        decreases v@.len() - j,
    {
        let c = v[j];
        assert(a@.skip(j as int)[0] == c);
        assert(a@.skip(j as int).skip(1) =~= a@.skip(j + 1));
        if c == 'l' {
            opts.show_pid = true;
        } else if c == 'p' {
            opts.pid_only = true;
        } else if c == 'r' {
            opts.running_only = true;
        } else if c == 's' {
            opts.stopped_only = true;
        } else {
            return Err(c);
        }
        j = j + 1;
    }
    assert(a@.skip(j as int).len() == 0);
    Ok(opts)
}

/// `jobs [-lprs] [jobspec ...]`: lists the jobs, after the job table has been
/// brought up to date.
pub fn jobs(input: &[String], job_list: &[Job], current: usize, previous: usize) -> (r: Result<String, String>)
    ensures
        match r {
            Ok(s) => jobs_spec(views(input@), job_list@, current, previous) == Ok::<Seq<char>, Seq<char>>(s@),
            Err(e) => jobs_spec(views(input@), job_list@, current, previous) == Err::<Seq<char>, Seq<char>>(e@),
        },
{
    let ghost args = if input@.len() > 0 { views(input@).skip(1) } else { views(input@) };
    let mut opts = JobOptions::default();
    let mut specific_job_ids: Vec<usize> = Vec::new();
    if input.len() == 0 {
        return Ok(format_jobs(job_list, opts, specific_job_ids.as_slice(), current, previous));
    }
    let mut k: usize = 1;
    while k < input.len()
        invariant
            1 <= k <= input@.len(),
            args == views(input@).skip(1),
            jobs_args(args, no_options(), Seq::<usize>::empty(), current, previous) == jobs_args(
                views(input@).skip(k as int),
                opts,
                specific_job_ids@,
                current,
                previous,
            ),
        decreases input@.len() - k,
    {
        let arg = &input[k];
        let ghost rest = views(input@).skip(k as int);
        assert(rest[0] == arg@);
        assert(rest.skip(1) =~= views(input@).skip(k + 1));
        if starts_with_char(arg.as_str(), '-') {
            match parse_option_chars(arg, opts) {
                Ok(o2) => {
                    opts = o2;
                },
                Err(c) => {
                    let mut cv: Vec<char> = Vec::new();
                    cv.push(c);
                    let mut msg = String::from_str("Invalid option -- '");
                    msg.append(string_of(&cv).as_str());
                    msg.append("'\n");
                    msg.append(USAGE);
                    assert(msg@ =~= invalid_option(c));
                    return Err(msg);
                },
            }
        } else {
            match resolve_jobspec(arg.as_str(), current, previous) {
                Ok(id) => {
                    specific_job_ids.push(id);
                },
                Err(e) => {
                    return Err(e);
                },
            }
        }
        k = k + 1;
    }
    assert(views(input@).skip(k as int).len() == 0);
    Ok(format_jobs(job_list, opts, specific_job_ids.as_slice(), current, previous))
}

/// How a child process changed, as `waitpid` reports it.
#[derive(Debug, Clone, Copy, PartialEq, Eq, Structural)]
pub enum ChildEvent {
    Stopped,
    Exited(i32),
    Signaled,
    Continued,
}

/// The index of the first job of process group `pgid`.
pub open spec fn job_index(jobs: Seq<Job>, pgid: i32) -> Option<int>
    decreases jobs.len(),
{
    if jobs.len() == 0 {
        None
    } else {
        match job_index(jobs.drop_last(), pgid) {
            Some(i) => Some(i),
            None => if jobs.last().pgid == pgid { Some(jobs.len() - 1) } else { None },
        }
    }
}

pub proof fn lemma_job_index(jobs: Seq<Job>, pgid: i32)
    ensures
        match job_index(jobs, pgid) {
            Some(i) => 0 <= i < jobs.len() && jobs[i].pgid == pgid && forall|k: int|
                0 <= k < i ==> #[trigger] jobs[k].pgid != pgid,
            None => forall|k: int| 0 <= k < jobs.len() ==> #[trigger] jobs[k].pgid != pgid,
        },
    decreases jobs.len(),
{
    if jobs.len() > 0 {
        lemma_job_index(jobs.drop_last(), pgid);
        assert forall|k: int| 0 <= k < jobs.len() - 1 implies #[trigger] jobs[k].pgid == jobs.drop_last()[k].pgid by {}
    }
}

/// The job pointers after job `removed` leaves the table.
pub open spec fn pointers_after_removal(removed: usize, current: usize, previous: usize) -> (usize, usize) {
    if removed == current {
        (previous, 0)
    } else if removed == previous {
        (current, 0)
    } else {
        (current, previous)
    }
}

/// What a change of child `pid` does to the job table: (jobs, current,
/// previous, message). A job that stops becomes current; a job that ends
/// leaves the table.
pub open spec fn child_event_spec(jobs: Seq<Job>, current: usize, previous: usize, pid: i32, event: ChildEvent)
    -> (Seq<Job>, usize, usize, Option<Seq<char>>)
{
    match job_index(jobs, pid) {
        None => (jobs, current, previous, None),
        Some(i) => {
            let job = jobs[i];
            match event {
                ChildEvent::Stopped => if job.state != State::Stopped {
                    (
                        jobs.update(i, Job { state: State::Stopped, ..job }),
                        job.jid,
                        current,
                        Some("\n["@ + decimal(job.jid as nat) + "]+\tStopped\t\t"@ + job.command@),
                    )
                } else {
                    (jobs, current, previous, None)
                },
                ChildEvent::Continued => (jobs, current, previous, None),
                _ => {
                    let msg = match event {
                        ChildEvent::Signaled => "["@ + decimal(job.jid as nat) + "]+\tTerminated\t"@ + job.command@,
                        ChildEvent::Exited(code) => if code == 0 {
                            "["@ + decimal(job.jid as nat) + "]+\tDone\t\t"@ + job.command@
                        } else {
                            "["@ + decimal(job.jid as nat) + "]+\tExit "@ + signed_decimal(code as int) + "\t\t"@
                                + job.command@
                        },
                        _ => Seq::<char>::empty(),
                    };
                    let (c, p) = pointers_after_removal(job.jid, current, previous);
                    (jobs.remove(i), c, p, Some(msg))
                },
            }
        },
    }
}

fn find_job_by_pgid(jobs: &Vec<Job>, pgid: i32) -> (r: Option<usize>)
    ensures
        match r {
            Some(i) => job_index(jobs@, pgid) == Some(i as int),
            None => job_index(jobs@, pgid) is None,
        },
{
    proof {
        lemma_job_index(jobs@, pgid);
    }
    let mut i: usize = 0;
    while i < jobs.len()
        invariant
            i <= jobs@.len(),
            forall|k: int| 0 <= k < i ==> #[trigger] jobs@[k].pgid != pgid,
            match job_index(jobs@, pgid) {
                Some(x) => 0 <= x < jobs@.len() && jobs@[x].pgid == pgid && forall|k: int|
                    0 <= k < x ==> #[trigger] jobs@[k].pgid != pgid,
                None => forall|k: int| 0 <= k < jobs@.len() ==> #[trigger] jobs@[k].pgid != pgid,
            },
        decreases jobs@.len() - i,
    {
        if jobs[i].pgid == pgid {
            return Some(i);
        }
        i = i + 1;
    }
    None
}

/// Records in the job table one change of a child that `waitpid` reported,
/// and returns the line to print, if any.
pub fn record_child_event(
    jobs: &mut Vec<Job>,
    current: &mut usize,
    previous: &mut usize,
    pid: i32,
    event: ChildEvent,
) -> (msg: Option<String>)
    ensures
        child_event_spec(old(jobs)@, *old(current), *old(previous), pid, event) == (
            final(jobs)@,
            *final(current),
            *final(previous),
            match msg {
                Some(m) => Some(m@),
                None => None::<Seq<char>>,
            },
        ),
{
    let index = match find_job_by_pgid(jobs, pid) {
        Some(i) => i,
        None => return None,
    };
    proof {
        lemma_job_index(jobs@, pid);
    }
    let jid = jobs[index].jid;
    match event {
        ChildEvent::Continued => None,
        ChildEvent::Stopped => {
            if jobs[index].state != State::Stopped {
                let updated = Job {
                    jid,
                    pgid: jobs[index].pgid,
                    command: jobs[index].command.clone(),
                    state: State::Stopped,
                };
                let mut msg = String::from_str("\n[");
                msg.append(usize_to_string(jid).as_str());
                msg.append("]+\tStopped\t\t");
                msg.append(jobs[index].command.as_str());
                jobs.set(index, updated);
                *previous = *current;
                *current = jid;
                Some(msg)
            } else {
                None
            }
        },
        _ => {
            let mut msg = String::from_str("[");
            msg.append(usize_to_string(jid).as_str());
            match event {
                ChildEvent::Signaled => {
                    msg.append("]+\tTerminated\t");
                },
                ChildEvent::Exited(code) => {
                    if code == 0 {
                        msg.append("]+\tDone\t\t");
                    } else {
                        msg.append("]+\tExit ");
                        msg.append(i64_to_string(code as i64).as_str());
                        msg.append("\t\t");
                    }
                },
                _ => {},
            }
            msg.append(jobs[index].command.as_str());
            jobs.remove(index);
            if jid == *current {
                *current = *previous;
                *previous = 0;
            } else if jid == *previous {
                *previous = 0;
            }
            Some(msg)
        },
    }
}

} // verus!
