use zero_shell::commands::jobs::{
    format_jobs, jobs, resolve_jobspec, Job, JobDisplay, JobOptions, State, STATE_COL_WIDTH,
};

#[test]
fn short_form_pads_state_column_and_adds_ampersand() {
    let job = Job {
        jid: 2,
        pgid: 9999,
        command: String::from("sleep 50"),
        state: State::Running,
    };

    let display = JobDisplay {
        job: &job,
        sign: "+",
        opts: JobOptions::default(),
    };

    let expected = format!(
        "[2]+  {:<width$} sleep 50 &",
        "Running",
        width = STATE_COL_WIDTH
    );

    assert_eq!(
        display.to_string(),
        expected,
        "short form running job should include state padding and ampersand"
    );
}

#[test]
fn stopped_job_has_no_ampersand() {
    let job = Job {
        jid: 2,
        pgid: 9999,
        command: String::from("sleep 50"),
        state: State::Stopped,
    };

    let display = JobDisplay {
        job: &job,
        sign: "+",
        opts: JobOptions::default(),
    };

    let expected = format!(
        "[2]+  {:<width$} sleep 50",
        "Stopped",
        width = STATE_COL_WIDTH
    );

    assert_eq!(
        display.to_string(),
        expected,
        "stopped job should include state padding but no ampersand"
    );
}

#[test]
fn long_form_pads_state_and_pid_columns() {
    let job = Job {
        jid: 1,
        pgid: 8287,
        command: String::from("ls ..."),
        state: State::Stopped,
    };

    let mut opts = JobOptions::default();
    opts.show_pid = true;

    let display = JobDisplay {
        job: &job,
        sign: "-",
        opts,
    };

    let expected = format!(
        "[1]- {:<5} {:<width$} ls ...",
        "8287",
        "Stopped",
        width = STATE_COL_WIDTH
    );

    assert_eq!(
        display.to_string(),
        expected,
        "long form should include pid column and correct padding"
    );
}

#[test]
fn format_jobs_filters_by_running_only() {
    let jobs = vec![
        Job::new(1, 100, String::from("run"), State::Running),
        Job::new(2, 101, String::from("stop"), State::Stopped),
    ];

    let mut opts = JobOptions::default();
    opts.running_only = true;

    let output = format_jobs(&jobs, opts, &[], 0, 0);

    assert!(
        output.contains("Running"),
        "output should contain running job when `-r` is used"
    );
    assert!(
        !output.contains("Stopped"),
        "output should not contain stopped job when `-r` is used"
    );
}

#[test]
fn format_jobs_filters_by_specific_id() {
    let jobs = vec![
        Job::new(1, 100, String::from("run"), State::Running),
        Job::new(2, 101, String::from("stop"), State::Stopped),
    ];

    let opts = JobOptions::default();
    let filter = vec![2];

    let output = format_jobs(&jobs, opts, &filter, 0, 0);

    assert!(
        !output.contains("run"),
        "output should not contain job id 1 when filtering for job id 2"
    );
    assert!(
        output.contains("stop"),
        "output should contain job id 2 when filtering for job id 2"
    );
}

#[test]
fn format_jobs_marks_current_and_previous() {
    let jobs = vec![
        Job::new(1, 100, String::from("first"), State::Running),
        Job::new(2, 101, String::from("second"), State::Running),
        Job::new(3, 102, String::from("third"), State::Running),
    ];

    let opts = JobOptions::default();
    let output = format_jobs(&jobs, opts, &[], 2, 1);

    assert!(
        output.contains("[2]+"),
        "job 2 should be marked current with `+`"
    );
    assert!(
        output.contains("[1]-"),
        "job 1 should be marked previous with `-`"
    );
    assert!(output.contains("[3] "), "job 3 should have no sign");
}

#[test]
fn resolve_jobspec_handles_current_and_previous_aliases() {
    assert_eq!(resolve_jobspec("%+", 2, 1).unwrap(), 2, "%+ should resolve to current job");
    assert_eq!(resolve_jobspec("%%", 2, 1).unwrap(), 2, "%% should resolve to current job");
    assert_eq!(resolve_jobspec("%", 2, 1).unwrap(), 2, "% should resolve to current job");
    assert_eq!(resolve_jobspec("%-", 2, 1).unwrap(), 1, "%- should resolve to previous job");
    assert_eq!(
        resolve_jobspec("%-", 3, 0).unwrap(),
        3,
        "%- should fall back to current when previous is 0"
    );
}

#[test]
fn resolve_jobspec_reads_numbers_and_rejects_words() {
    assert_eq!(resolve_jobspec("%7", 0, 0), Ok(7));
    assert_eq!(resolve_jobspec("12", 0, 0), Ok(12));
    assert_eq!(resolve_jobspec("x", 0, 0), Err(String::from("Invalid job ID: x")));
    assert_eq!(resolve_jobspec("%", 0, 0), Err(String::from("Current: no such job")));
}

#[test]
fn jobs_command_lists_with_options() {
    let table = vec![
        Job::new(1, 100, String::from("sleep 5"), State::Running),
        Job::new(2, 101, String::from("vim"), State::Stopped),
    ];
    let input = vec![String::from("jobs"), String::from("-p")];
    assert_eq!(jobs(&input, &table, 2, 1), Ok(String::from("100\n101\n")));
    let input = vec![String::from("jobs"), String::from("-s")];
    let out = jobs(&input, &table, 2, 1).unwrap();
    assert!(out.contains("vim") && !out.contains("sleep"));
    let input = vec![String::from("jobs"), String::from("-z")];
    assert!(jobs(&input, &table, 2, 1).is_err());
}
