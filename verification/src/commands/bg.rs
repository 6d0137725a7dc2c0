use vstd::prelude::*;

use crate::commands::jobs::{no_such_job, resolve_jobspec, resolve_jobspec_spec, Job, State};
use crate::num::{decimal, i64_to_string, signed_decimal, usize_to_string};
use crate::text::views;

verus! {

pub const USAGE: &'static str = "Usage:\tbg [jobspec ...]";

/// The job IDs that the arguments of `bg` name, each once in order of first
/// mention, with a line for each argument that names no job.
pub open spec fn bg_targets(args: Seq<Seq<char>>, current: usize, previous: usize, ids: Seq<usize>, failures: Seq<char>, count: nat)
    -> (Seq<usize>, Seq<char>, nat)
    decreases args.len(),
{
    if args.len() == 0 {
        (ids, failures, count)
    } else {
        match resolve_jobspec_spec(args[0], current, previous) {
            Ok(id) => bg_targets(
                args.skip(1),
                current,
                previous,
                if ids.contains(id as usize) { ids } else { ids.push(id as usize) },
                failures,
                count,
            ),
            Err(e) => bg_targets(args.skip(1), current, previous, ids, failures + e + seq!['\n'], count + 1),
        }
    }
}

/// The state of `bg` as it walks the job table. `attempted` holds the
/// process groups that it resumed or tried to resume, in order.
pub struct BgState {
    pub jobs: Seq<Job>,
    pub current: usize,
    pub previous: usize,
    pub targets: Seq<usize>,
    pub handled: Seq<usize>,
    pub failures: Seq<char>,
    pub failure_count: nat,
    pub success_count: nat,
    pub resumed: Seq<Seq<char>>,
    pub attempted: Seq<i32>,
}

pub open spec fn resume_failure(job: Job, e: Seq<char>) -> Seq<char> {
    "Failed to resume job "@ + decimal(job.jid as nat) + " (pid "@ + signed_decimal(job.pgid as int) + "): "@ + e
        + seq!['\n']
}

pub open spec fn not_stopped(jid: usize) -> Seq<char> {
    "Job is not stopped: "@ + decimal(jid as nat) + seq!['\n']
}

pub open spec fn resumed_line(job: Job) -> Seq<char> {
    "["@ + decimal(job.jid as nat) + "]+\t"@ + job.command@ + " &"@
}

/// One job of the table: a targeted stopped job is resumed (the attempt
/// takes the next entry of `errs`, an error or `None` for success) and
/// becomes current; a targeted running job is a failure.
pub open spec fn bg_step(job: Job, st: BgState, errs: Seq<Option<Seq<char>>>) -> BgState {
    if st.targets.contains(job.jid) && !st.handled.contains(job.jid) {
        let handled = st.handled.push(job.jid);
        if job.state == State::Stopped {
            let k = st.attempted.len();
            let err = if k < errs.len() { errs[k as int] } else { None };
            let attempted = st.attempted.push(job.pgid);
            match err {
                Some(e) => BgState {
                    jobs: st.jobs.push(job),
                    handled,
                    attempted,
                    failures: st.failures + resume_failure(job, e),
                    failure_count: st.failure_count + 1,
                    ..st
                },
                None => BgState {
                    jobs: st.jobs.push(Job { state: State::Running, ..job }),
                    current: if job.jid != st.current { job.jid } else { st.current },
                    previous: if job.jid != st.current { st.current } else { st.previous },
                    handled,
                    attempted,
                    success_count: st.success_count + 1,
                    resumed: st.resumed.push(resumed_line(job)),
                    ..st
                },
            }
        } else {
            BgState {
                jobs: st.jobs.push(job),
                handled,
                failures: st.failures + not_stopped(job.jid),
                failure_count: st.failure_count + 1,
                ..st
            }
        }
    } else {
        BgState { jobs: st.jobs.push(job), ..st }
    }
}

pub open spec fn bg_fold(jobs: Seq<Job>, st: BgState, errs: Seq<Option<Seq<char>>>) -> BgState
    decreases jobs.len(),
{
    if jobs.len() == 0 {
        st
    } else {
        bg_fold(jobs.skip(1), bg_step(jobs[0], st, errs), errs)
    }
}

/// The process groups of the jobs that `bg` tries to resume, in table order.
pub open spec fn plan_fold(jobs: Seq<Job>, targets: Seq<usize>, handled: Seq<usize>) -> Seq<i32>
    decreases jobs.len(),
{
    if jobs.len() == 0 {
        Seq::<i32>::empty()
    } else {
        let job = jobs[0];
        if targets.contains(job.jid) && !handled.contains(job.jid) {
            let rest = plan_fold(jobs.skip(1), targets, handled.push(job.jid));
            if job.state == State::Stopped {
                seq![job.pgid] + rest
            } else {
                rest
            }
        } else {
            plan_fold(jobs.skip(1), targets, handled)
        }
    }
}

/// The targets that no job of the table carries, in order.
pub open spec fn leftover(targets: Seq<usize>, handled: Seq<usize>) -> Seq<usize>
    decreases targets.len(),
{
    if targets.len() == 0 {
        Seq::<usize>::empty()
    } else {
        let rest = leftover(targets.drop_last(), handled);
        if handled.contains(targets.last()) { rest } else { rest.push(targets.last()) }
    }
}

pub open spec fn missing_lines(ids: Seq<usize>) -> Seq<char>
    decreases ids.len(),
{
    if ids.len() == 0 {
        Seq::<char>::empty()
    } else {
        missing_lines(ids.drop_last()) + "No such job ID: "@ + decimal(ids.last() as nat) + seq!['\n']
    }
}

/// `s` without its trailing newlines.
pub open spec fn trim_newlines(s: Seq<char>) -> Seq<char>
    decreases s.len(),
{
    if s.len() > 0 && s.last() == '\n' {
        trim_newlines(s.drop_last())
    } else {
        s
    }
}

/// What `bg` does when it succeeds: the new table and pointers, the lines
/// of the resumed jobs, the failure text, and `successes:failures`.
pub struct BgResult {
    pub jobs: Seq<Job>,
    pub current: usize,
    pub previous: usize,
    pub resumed: Seq<Seq<char>>,
    pub failures: Seq<char>,
    pub counts: Seq<char>,
    pub attempted: Seq<i32>,
}

/// Where `bg` starts its walk of the table: the targets and the failures
/// of the arguments; `None` where there is no argument and no job to take
/// by default.
pub open spec fn bg_start(input: Seq<Seq<char>>, current: usize, previous: usize) -> Option<BgState> {
    if input.len() < 2 && current == 0 && previous == 0 {
        None
    } else {
        let (targets, failures, count) = if input.len() < 2 {
            (seq![if current > 0 { current } else { previous }], Seq::<char>::empty(), 0nat)
        } else {
            bg_targets(input.skip(1), current, previous, Seq::<usize>::empty(), Seq::<char>::empty(), 0)
        };
        Some(
            BgState {
                jobs: Seq::<Job>::empty(),
                current,
                previous,
                targets,
                handled: Seq::<usize>::empty(),
                failures,
                failure_count: count,
                success_count: 0,
                resumed: Seq::<Seq<char>>::empty(),
                attempted: Seq::<i32>::empty(),
            },
        )
    }
}

/// The process groups that `bg` sends the signal to continue, in order:
/// those of the targeted stopped jobs, in table order, each job ID once.
pub open spec fn bg_plan_spec(input: Seq<Seq<char>>, jobs: Seq<Job>, current: usize, previous: usize) -> Seq<i32> {
    match bg_start(input, current, previous) {
        None => Seq::<i32>::empty(),
        Some(st0) => plan_fold(jobs, st0.targets, st0.handled),
    }
}

/// `bg`: with no argument, resumes the current (else previous) job; else
/// resumes each job named. `errs` are the outcomes of the resume attempts,
/// in order.
pub open spec fn bg_spec(input: Seq<Seq<char>>, jobs: Seq<Job>, current: usize, previous: usize, errs: Seq<Option<Seq<char>>>) -> Result<BgResult, Seq<char>> {
    match bg_start(input, current, previous) {
        None => Err(no_such_job()),
        Some(st0) => {
            let st = bg_fold(jobs, st0, errs);
            let left = leftover(st.targets, st.handled);
            Ok(BgResult {
                jobs: st.jobs,
                current: st.current,
                previous: st.previous,
                resumed: st.resumed,
                failures: trim_newlines(st.failures + missing_lines(left)),
                counts: decimal(st.success_count) + seq![':'] + decimal(st.failure_count + left.len()),
                attempted: st.attempted,
            })
        },
    }
}

/// The outcome of each resume attempt: `None` for success, else the error.
pub open spec fn outcome_views(outcomes: Seq<Result<(), String>>) -> Seq<Option<Seq<char>>> {
    outcomes.map_values(|r: Result<(), String>| match r {
        Ok(_) => None,
        Err(e) => Some(e@),
    })
}

/// What `bg` reports: its result, the lines of the jobs it resumed, and the
/// failures (empty when there are none).
pub struct BgOutcome {
    pub result: Result<String, String>,
    pub resumed: Vec<String>,
    pub failures: String,
}

fn contains_id(v: &Vec<usize>, x: usize) -> (r: bool)
    ensures
        r == v@.contains(x),
{
    let mut i: usize = 0;
    while i < v.len()
        invariant
            i <= v@.len(),
            forall|j: int| 0 <= j < i ==> v@[j] != x,
        decreases v@.len() - i,
    {
        if v[i] == x {
            assert(v@[i as int] == x);
            return true;
        }
        i = i + 1;
    }
    false
}

/// Removes the trailing newlines of `s`.
fn trim_trailing_newlines(s: &String) -> (r: String)
    ensures
        r@ == trim_newlines(s@),
{
    let v = crate::text::chars_of(s.as_str());
    let mut end = v.len();
    proof {
        assert(v@.take(end as int) =~= v@);
    }
    while end > 0 && v[end - 1] == '\n'
        invariant
            v@ == s@,
            end <= v@.len(),
            trim_newlines(s@) == trim_newlines(v@.take(end as int)),
        decreases end,
    {
        assert(v@.take(end as int).drop_last() =~= v@.take(end - 1));
        end = end - 1;
    }
    crate::text::string_of_range(&v, 0, end)
}

/// The targets and failures of the arguments of `bg`, or `None` where there
/// is no argument and no job to take by default.
fn start_targets(input: &[String], current: usize, previous: usize) -> (r: Option<(Vec<usize>, String, usize)>)
    requires
        input@.len() < usize::MAX,
    ensures
        match bg_start(views(input@), current, previous) {
            None => r is None,
            Some(st0) => r is Some && r->Some_0.0@ == st0.targets && r->Some_0.1@ == st0.failures && r->Some_0.2
                == st0.failure_count,
        },
        r is Some ==> r->Some_0.0@.len() + r->Some_0.2 <= input@.len() + 1 && r->Some_0.2 <= input@.len(),
{
    let ghost args = views(input@);
    let mut targets: Vec<usize> = Vec::new();
    let mut failures = String::new();
    let mut failure_count: usize = 0;
    if input.len() < 2 {
        if current > 0 {
            targets.push(current);
        } else if previous > 0 {
            targets.push(previous);
        } else {
            return None;
        }
        assert(targets@ =~= seq![if current > 0 { current } else { previous }]);
    } else {
        let mut k: usize = 1;
        while k < input.len()
            invariant
                1 <= k <= input@.len(),
                input@.len() < usize::MAX,
                args == views(input@),
                bg_targets(args.skip(1), current, previous, Seq::<usize>::empty(), Seq::<char>::empty(), 0) == bg_targets(
                    args.skip(k as int),
                    current,
                    previous,
                    targets@,
                    failures@,
                    failure_count as nat,
                ),
                targets@.len() + failure_count <= k,
            decreases input@.len() - k,
        {
            let ghost rest = args.skip(k as int);
            assert(rest[0] == input@[k as int]@);
            assert(rest.skip(1) =~= args.skip(k + 1));
            match resolve_jobspec(input[k].as_str(), current, previous) {
                Ok(id) => {
                    assert(resolve_jobspec_spec(rest[0], current, previous) == Ok::<int, Seq<char>>(id as int));
                    assert((id as int) as usize == id);
                    if !contains_id(&targets, id) {
                        targets.push(id);
                    }
                },
                Err(e) => {
                    let ghost before = failures@;
                    failures.append(e.as_str());
                    failures.append("\n");
                    proof {
                        reveal_strlit("\n");
                        assert(failures@ =~= before + e@ + seq!['\n']);
                    }
                    failure_count = failure_count + 1;
                },
            }
            k = k + 1;
        }
        assert(args.skip(k as int).len() == 0);
    }
    Some((targets, failures, failure_count))
}

/// One job of the plan: `plan_fold` from the `i`-th job on, unfolded once.
proof fn lemma_plan_step(jobs: Seq<Job>, i: int, targets: Seq<usize>, handled: Seq<usize>)
    requires
        0 <= i < jobs.len(),
    ensures
        plan_fold(jobs.skip(i), targets, handled) == (if targets.contains(jobs[i].jid) && !handled.contains(jobs[i].jid) {
            let rest = plan_fold(jobs.skip(i + 1), targets, handled.push(jobs[i].jid));
            if jobs[i].state == State::Stopped {
                seq![jobs[i].pgid] + rest
            } else {
                rest
            }
        } else {
            plan_fold(jobs.skip(i + 1), targets, handled)
        }),
{
    assert(jobs.skip(i)[0] == jobs[i]);
    assert(jobs.skip(i).skip(1) =~= jobs.skip(i + 1));
}

/// The process groups that `bg` sends the signal to continue, in order:
/// those of the stopped jobs that the arguments name (by default the
/// current, else the previous job), in table order, each job ID once; none
/// where `bg` fails with "Current: no such job".
pub fn bg_plan(input: &[String], jobs: &Vec<Job>, current: usize, previous: usize) -> (p: Vec<i32>)
    requires
        input@.len() < usize::MAX,
    ensures
        p@ == bg_plan_spec(views(input@), jobs@, current, previous),
        input@.len() < 2 && current == 0 && previous == 0 ==> p@.len() == 0,
{
    match start_targets(input, current, previous) {
        None => Vec::new(),
        Some((targets, _failures, _count)) => {
            let ghost full = plan_fold(jobs@, targets@, Seq::<usize>::empty());
            let mut plan: Vec<i32> = Vec::new();
            let mut handled: Vec<usize> = Vec::new();
            let mut i: usize = 0;
            assert(jobs@.skip(0) =~= jobs@);
            assert(plan@ + full =~= full);
            while i < jobs.len()
                invariant
                    i <= jobs@.len(),
                    full == plan_fold(jobs@, targets@, Seq::<usize>::empty()),
                    plan@ + plan_fold(jobs@.skip(i as int), targets@, handled@) == full,
                decreases jobs@.len() - i,
            {
                proof {
                    lemma_plan_step(jobs@, i as int, targets@, handled@);
                }
                let jid = jobs[i].jid;
                if contains_id(&targets, jid) && !contains_id(&handled, jid) {
                    handled.push(jid);
                    if jobs[i].state == State::Stopped {
                        let ghost before = plan@;
                        plan.push(jobs[i].pgid);
                        assert(before + (seq![jobs@[i as int].pgid] + plan_fold(jobs@.skip(i + 1), targets@, handled@))
                            =~= plan@ + plan_fold(jobs@.skip(i + 1), targets@, handled@));
                    }
                }
                i = i + 1;
            }
            assert(plan@ + plan_fold(jobs@.skip(i as int), targets@, handled@) =~= plan@);
            plan
        },
    }
}

/// `bg [jobspec ...]`: resumes stopped jobs in the background. The caller
/// sends the signal to continue to each process group of `bg_plan`, in
/// order, and hands the outcomes over in `outcomes`; the result is `bg_spec`
/// for those outcomes.
pub fn bg(
    input: &[String],
    jobs: &mut Vec<Job>,
    current: &mut usize,
    previous: &mut usize,
    outcomes: &[Result<(), String>],
) -> (out: BgOutcome)
    requires
        2 * input@.len() + old(jobs)@.len() < usize::MAX,
        outcomes@.len() == bg_plan_spec(views(input@), old(jobs)@, *old(current), *old(previous)).len(),
    ensures
        match bg_spec(views(input@), old(jobs)@, *old(current), *old(previous), outcome_views(outcomes@)) {
            Err(e) => out.result is Err && out.result->Err_0@ == e && final(jobs)@ == old(jobs)@ && *final(current) == *old(current) && *final(previous)
                == *old(previous) && out.resumed@.len() == 0 && out.failures@.len() == 0,
            Ok(r) => out.result is Ok && out.result->Ok_0@ == r.counts && final(jobs)@ == r.jobs && *final(current) == r.current && *final(previous) == r.previous
                && views(out.resumed@) == r.resumed && out.failures@ == r.failures,
        },
{
    let ghost old_jobs = jobs@;
    let ghost c0 = *current;
    let ghost p0 = *previous;
    let ghost args = views(input@);
    let ghost errs = outcome_views(outcomes@);
    let (targets, mut failures, mut failure_count) = match start_targets(input, *current, *previous) {
        None => {
            return BgOutcome {
                result: Err(String::from_str("Current: no such job")),
                resumed: Vec::new(),
                failures: String::new(),
            };
        },
        Some(t) => t,
    };
    let ghost st0 = bg_start(args, c0, p0)->Some_0;
    let ghost plan = plan_fold(old_jobs, targets@, Seq::<usize>::empty());
    let ghost mut st = st0;
    assert(old_jobs.skip(0) =~= old_jobs);
    assert(st0.attempted + plan =~= plan);
    let mut handled: Vec<usize> = Vec::new();
    let mut resumed: Vec<String> = Vec::new();
    let mut success_count: usize = 0;
    let mut attempts: usize = 0;
    let n = jobs.len();
    let mut i: usize = 0;
    while i < n
        invariant
            n == old_jobs.len(),
            i <= n,
            jobs@.len() == n,
            jobs@.take(i as int) == st.jobs,
            jobs@.skip(i as int) == old_jobs.skip(i as int),
            errs == outcome_views(outcomes@),
            plan.len() == outcomes@.len(),
            st.attempted + plan_fold(old_jobs.skip(i as int), targets@, handled@) == plan,
            attempts == st.attempted.len(),
            attempts <= i,
            bg_fold(old_jobs, st0, errs) == bg_fold(old_jobs.skip(i as int), st, errs),
            *current == st.current,
            *previous == st.previous,
            targets@ == st.targets,
            handled@ == st.handled,
            failures@ == st.failures,
            failure_count == st.failure_count,
            success_count == st.success_count,
            views(resumed@) == st.resumed,
            failure_count + success_count <= input@.len() + i,
            targets@.len() <= input@.len() + 1,
            2 * input@.len() + n < usize::MAX,
        decreases n - i,
    {
        let ghost prev_st = st;
        let jid = jobs[i].jid;
        proof {
            assert(old_jobs.skip(i as int)[0] == jobs@[i as int]);
            assert(old_jobs.skip(i as int)[0] == old_jobs[i as int]);
            assert(old_jobs.skip(i as int).skip(1) =~= old_jobs.skip(i + 1));
            lemma_plan_step(old_jobs, i as int, targets@, handled@);
            st = bg_step(old_jobs[i as int], prev_st, errs);
        }
        if contains_id(&targets, jid) && !contains_id(&handled, jid) {
            handled.push(jid);
            if jobs[i].state == State::Stopped {
                let pgid = jobs[i].pgid;
                let k = attempts;
                proof {
                    assert(prev_st.attempted + (seq![pgid] + plan_fold(old_jobs.skip(i + 1), targets@, handled@)) == plan);
                    assert(plan.len() == prev_st.attempted.len() + 1 + plan_fold(old_jobs.skip(i + 1), targets@, handled@).len());
                    assert(st.attempted + plan_fold(old_jobs.skip(i + 1), targets@, handled@) =~= plan);
                }
                attempts = attempts + 1;
                match &outcomes[k] {
                    Err(e) => {
                        assert(errs[k as int] == Some::<Seq<char>>(e@));
                        failures.append("Failed to resume job ");
                        failures.append(usize_to_string(jid).as_str());
                        failures.append(" (pid ");
                        failures.append(i64_to_string(pgid as i64).as_str());
                        failures.append("): ");
                        failures.append(e.as_str());
                        failures.append("\n");
                        failure_count = failure_count + 1;
                        proof {
                            reveal_strlit("\n");
                            assert(failures@ =~= st.failures);
                        }
                    },
                    Ok(_) => {
                        assert(errs[k as int] == None::<Seq<char>>);
                        let updated = Job {
                            jid,
                            pgid,
                            command: jobs[i].command.clone(),
                            state: State::Running,
                        };
                        let mut line = String::from_str("[");
                        line.append(usize_to_string(jid).as_str());
                        line.append("]+\t");
                        line.append(jobs[i].command.as_str());
                        line.append(" &");
                        assert(line@ =~= resumed_line(jobs@[i as int]));
                        let ghost old_resumed = resumed@;
                        resumed.push(line);
                        assert(views(resumed@) =~= views(old_resumed).push(line@));
                        if jid != *current {
                            *previous = *current;
                            *current = jid;
                        }
                        success_count = success_count + 1;
                        jobs.set(i, updated);
                    },
                }
            } else {
                failures.append("Job is not stopped: ");
                failures.append(usize_to_string(jid).as_str());
                failures.append("\n");
                failure_count = failure_count + 1;
                proof {
                    reveal_strlit("\n");
                    assert(failures@ =~= st.failures);
                }
            }
        }
        proof {
            assert(jobs@.take(i + 1) =~= st.jobs);
            assert(jobs@.skip(i + 1) =~= old_jobs.skip(i + 1));
        }
        i = i + 1;
    }
    proof {
        assert(old_jobs.skip(n as int).len() == 0);
        assert(bg_fold(old_jobs, st0, errs) == st);
        assert(jobs@ =~= st.jobs);
    }
    let mut left_count: usize = 0;
    let mut j: usize = 0;
    proof {
        assert(targets@.take(0) =~= Seq::<usize>::empty());
    }
    while j < targets.len()
        invariant
            j <= targets@.len(),
            targets@ == st.targets,
            handled@ == st.handled,
            failures@ == st.failures + missing_lines(leftover(targets@.take(j as int), handled@)),
            left_count == leftover(targets@.take(j as int), handled@).len(),
            left_count <= j,
            failure_count + success_count <= input@.len() + n,
            targets@.len() <= input@.len() + 1,
            2 * input@.len() + n < usize::MAX,
        decreases targets@.len() - j,
    {
        let t = targets[j];
        assert(targets@.take(j + 1).drop_last() =~= targets@.take(j as int));
        assert(targets@.take(j + 1).last() == t);
        let ghost l0 = leftover(targets@.take(j as int), handled@);
        let ghost l1 = leftover(targets@.take(j + 1), handled@);
        if !contains_id(&handled, t) {
            assert(l1 == l0.push(t));
            assert(l1.drop_last() =~= l0);
            assert(l1.last() == t);
            failures.append("No such job ID: ");
            failures.append(usize_to_string(t).as_str());
            failures.append("\n");
            proof {
                reveal_strlit("\n");
                assert(failures@ =~= st.failures + missing_lines(leftover(targets@.take(j + 1), handled@)));
            }
            left_count = left_count + 1;
        }
        j = j + 1;
    }
    assert(targets@.take(targets@.len() as int) =~= targets@);
    let trimmed = trim_trailing_newlines(&failures);
    let mut counts = usize_to_string(success_count);
    counts.append(":");
    counts.append(usize_to_string(failure_count + left_count).as_str());
    proof {
        reveal_strlit(":");
        assert(counts@ =~= decimal(st.success_count) + seq![':'] + decimal(st.failure_count + left_count as nat));
    }
    BgOutcome { result: Ok(counts), resumed, failures: trimmed }
}
} // verus!
