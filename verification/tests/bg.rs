use zero_shell::commands::bg::{bg, bg_plan, BgOutcome};
use zero_shell::commands::jobs::{Job, State};

/// Runs `bg` with every resume attempt answered by `answer`, and returns the
/// process groups that were to be resumed with what `bg` reported.
fn run_bg(
    input: &[String],
    jobs: &mut Vec<Job>,
    current: &mut usize,
    previous: &mut usize,
    answer: Result<(), String>,
) -> (Vec<i32>, BgOutcome) {
    let plan = bg_plan(input, jobs, *current, *previous);
    let outcomes: Vec<Result<(), String>> = plan.iter().map(|_| answer.clone()).collect();
    let out = bg(input, jobs, current, previous, &outcomes);
    (plan, out)
}

fn resumed_ok() -> Result<(), String> {
    Ok(())
}

fn no_such_process() -> Result<(), String> {
    Err(String::from("No such process"))
}

#[test]
fn test_bg_updates_stopped_jobs() {
    let mut jobs = vec![
        Job { jid: 1, pgid: 101, state: State::Stopped, command: String::from("sleep 100") },
        Job { jid: 2, pgid: 102, state: State::Running, command: String::from("ls") },
    ];

    let input = vec![String::from("bg"), String::from("1")];

    let mut current = 0;
    let mut previous = 0;
    let (plan, out) = run_bg(&input, &mut jobs, &mut current, &mut previous, resumed_ok());
    assert_eq!(plan, vec![101]);
    let result = out.result;

    assert!(result.is_ok());
    assert!(matches!(jobs[0].state, State::Running));
    assert!(matches!(jobs[1].state, State::Running));
    assert_eq!(current, 1);
    assert_eq!(previous, 0);
}

#[test]
fn test_bg_no_args_resumes_current() {
    let mut jobs = vec![
        Job { jid: 1, pgid: 101, state: State::Stopped, command: String::from("sleep 100") },
        Job { jid: 2, pgid: 102, state: State::Stopped, command: String::from("sleep 200") },
    ];

    let mut current = 2;
    let mut previous = 1;
    let input = vec![String::from("bg")];

    let (plan, out) = run_bg(&input, &mut jobs, &mut current, &mut previous, resumed_ok());
    assert_eq!(plan, vec![102]);
    let result = out.result;

    assert!(result.is_ok());
    assert!(matches!(jobs[1].state, State::Running));
    assert_eq!(current, 2);
    assert_eq!(previous, 1);
}

#[test]
fn test_bg_supports_percent_syntax() {
    let mut jobs = vec![Job {
        jid: 1,
        pgid: 101,
        state: State::Stopped,
        command: String::from("sleep 100"),
    }];

    let input = vec![String::from("bg"), String::from("%1")];

    let mut current = 0;
    let mut previous = 0;
    let (plan, out) = run_bg(&input, &mut jobs, &mut current, &mut previous, resumed_ok());
    assert_eq!(plan, vec![101]);
    let result = out.result;

    assert!(result.is_ok());
    assert!(matches!(jobs[0].state, State::Running));
    assert_eq!(current, 1);
}

#[test]
fn test_bg_ignores_missing_pids() {
    let mut jobs = vec![Job {
        jid: 1,
        pgid: 101,
        state: State::Stopped,
        command: String::from("sleep"),
    }];
    let input = vec![String::from("bg"), String::from("999")];

    let mut current = 0;
    let mut previous = 0;
    let (plan, _) = run_bg(&input, &mut jobs, &mut current, &mut previous, resumed_ok());
    assert!(plan.is_empty());

    assert!(matches!(jobs[0].state, State::Stopped));
    assert_eq!(current, 0);
    assert_eq!(previous, 0);
}

#[test]
fn test_generates_correct_number_of_failure_messages() {
    let mut jobs = vec![
        Job { jid: 1, pgid: 101, state: State::Stopped, command: String::from("sleep") },
        Job { jid: 2, pgid: 102, state: State::Running, command: String::from("ls") },
    ];
    let input = vec![
        String::from("bg"),
        String::from("1"),
        String::from("not_a_job_id"),
        String::from("2"),
        String::from("also_not_a_job_id"),
    ];

    let mut current = 0;
    let mut previous = 0;
    let (plan, out) = run_bg(&input, &mut jobs, &mut current, &mut previous, resumed_ok());
    assert_eq!(plan, vec![101]);
    let result = out.result;
    let output = result.expect("bg command failed");
    let parts: Vec<&str> = output.split(':').collect();
    let success_count: usize = parts[0].parse().expect("parsing success count failed");
    let failure_count: usize = parts[1].parse().expect("parsing failure count failed");

    assert_eq!(success_count, 1);
    assert_eq!(failure_count, 3);
}

#[test]
fn bg_keeps_the_table_on_concrete_jobs() {
    let mut jobs = vec![
        Job { jid: 1, pgid: 101, state: State::Stopped, command: String::from("a") },
        Job { jid: 2, pgid: 102, state: State::Running, command: String::from("b") },
        Job { jid: 3, pgid: 103, state: State::Stopped, command: String::from("c") },
    ];
    let input = vec![String::from("bg"), String::from("1"), String::from("3")];
    let mut current = 0;
    let mut previous = 0;
    let (plan, out) = run_bg(&input, &mut jobs, &mut current, &mut previous, resumed_ok());
    assert_eq!(plan, vec![101, 103]);
    assert_eq!(out.result, Ok(String::from("2:0")));
    assert_eq!(jobs.len(), 3);
    assert_eq!(
        jobs.iter().map(|j| (j.jid, j.pgid, j.command.clone())).collect::<Vec<_>>(),
        vec![(1, 101, String::from("a")), (2, 102, String::from("b")), (3, 103, String::from("c"))]
    );
    assert!(jobs.iter().all(|j| matches!(j.state, State::Running)));
    assert_eq!(out.resumed, vec![String::from("[1]+\ta &"), String::from("[3]+\tc &")]);
    assert_eq!((current, previous), (3, 1));
}

#[test]
fn bg_reports_resume_failures_and_empty_table() {
    let mut jobs = vec![Job { jid: 1, pgid: 101, state: State::Stopped, command: String::from("a") }];
    let input = vec![String::from("bg"), String::from("1")];
    let mut current = 0;
    let mut previous = 0;
    let (plan, out) = run_bg(&input, &mut jobs, &mut current, &mut previous, no_such_process());
    assert_eq!(plan, vec![101]);
    assert_eq!(out.result, Ok(String::from("0:1")));
    assert_eq!(out.failures, String::from("Failed to resume job 1 (pid 101): No such process"));
    assert!(matches!(jobs[0].state, State::Stopped));

    let mut none: Vec<Job> = Vec::new();
    let (plan, out) = run_bg(&[String::from("bg")], &mut none, &mut 0, &mut 0, resumed_ok());
    assert!(plan.is_empty());
    assert_eq!(out.result, Err(String::from("Current: no such job")));
}

#[test]
fn bg_applies_each_outcome_to_its_job() {
    let mut jobs = vec![
        Job { jid: 1, pgid: 101, state: State::Stopped, command: String::from("a") },
        Job { jid: 3, pgid: 103, state: State::Stopped, command: String::from("c") },
    ];
    let input = vec![String::from("bg"), String::from("3"), String::from("1"), String::from("%3")];
    let mut current = 0;
    let mut previous = 0;
    let plan = bg_plan(&input, &jobs, current, previous);
    assert_eq!(plan, vec![101, 103]);
    let outcomes = vec![Err(String::from("x")), Ok(())];
    let out = bg(&input, &mut jobs, &mut current, &mut previous, &outcomes);
    assert_eq!(out.result, Ok(String::from("1:1")));
    assert_eq!(out.failures, String::from("Failed to resume job 1 (pid 101): x"));
    assert_eq!(out.resumed, vec![String::from("[3]+\tc &")]);
    assert!(matches!(jobs[0].state, State::Stopped));
    assert!(matches!(jobs[1].state, State::Running));
    assert_eq!((current, previous), (3, 0));
}
