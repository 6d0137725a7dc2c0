use zero_shell::commands::cat::{cat_result, source_error, stdin_error, SourceProbe};
use zero_shell::commands::exit::exit;
use zero_shell::commands::fg::fg_target;
use zero_shell::commands::jobs::{record_child_event, ChildEvent, Job, State};
use zero_shell::commands::kill::kill_target;
use zero_shell::commands::{mkdir, mv, pwd, sleep, touch};
use zero_shell::error::{exec_failure_message, handle_error, red_text};
use zero_shell::fork::{display_command, get_exec_args, launched_line, register_job, stopped_line, wait_step, WaitStep};
use zero_shell::repl::{new_history, on_end_of_input, on_line, ReplStep};

fn string_vec(items: &[&str]) -> Vec<String> {
    items.iter().map(|s| String::from(*s)).collect()
}

#[test]
fn fg_errors_when_no_jobs_and_no_args() {
    let jobs = Vec::<Job>::new();
    let mut current = 0;
    let mut previous = 0;
    let input = string_vec(&["fg"]);

    let result = fg_target(&input, &jobs, &mut current, &mut previous);
    assert!(result.is_err());
    assert_eq!(result.unwrap_err(), "Current: no such job");
}

#[test]
fn fg_errors_when_job_not_found() {
    let jobs = Vec::<Job>::new();
    let mut current = 0;
    let mut previous = 0;
    let input = string_vec(&["fg", "5"]);

    let result = fg_target(&input, &jobs, &mut current, &mut previous);
    assert!(result.is_err());
    assert_eq!(result.unwrap_err(), "No such job ID: 5");
}

#[test]
fn fg_picks_the_newest_job_and_makes_it_current() {
    let jobs = vec![Job::new(1, 10, String::from("a"), State::Stopped), Job::new(2, 20, String::from("b"), State::Running)];
    let mut current = 1;
    let mut previous = 0;
    assert_eq!(fg_target(&string_vec(&["fg"]), &jobs, &mut current, &mut previous), Ok(1));
    assert_eq!((current, previous), (2, 1));
}

#[test]
fn mkdir_missing_argument_fails() {
    let input = string_vec(&["mkdir"]);
    let result = mkdir::is_input_len_at_least_two(&input);

    assert!(result.is_err());
    assert_eq!(result.unwrap_err(), format!("Not enough arguments\n{}", mkdir::USAGE));
}

#[test]
fn touch_insufficient_arguments_fails() {
    let input = string_vec(&["touch"]);
    let result = touch::validate_input(&input);

    assert!(result.is_err());
    assert_eq!(result.unwrap_err(), format!("Not enough arguments\n{}", touch::USAGE));
}

#[test]
fn mv_insufficient_arguments_fails() {
    let input = string_vec(&["mv", "some_file"]);
    let result = mv::validate_input(&input);

    assert!(!result.is_ok(), "result should not be ok");
    let expected = Err(format!("Not enough arguments\n{}", mv::USAGE));
    assert_eq!(result, expected, "Result should show correct error message");
}

#[test]
fn pwd_ok() {
    let input = string_vec(&["pwd"]);
    let expected = "0-shell\n";
    let result = pwd::pwd(&input, Ok(String::from("/home/user/0-shell"))).expect("`pwd` should be ok");
    let last_segment = result.split('/').last().unwrap();
    assert_eq!(last_segment, expected);
}

#[test]
fn pwd_too_many_args_fails() {
    let input = string_vec(&["pwd", "foo"]);
    let expected = Err(format!("Too many arguments\n{}", pwd::USAGE));
    assert_eq!(pwd::pwd(&input, Ok(String::from("/"))), expected);
}

#[test]
fn cat_one_nonexistent_source_file_fails() {
    let errors = vec![source_error("nonexistent.txt", &SourceProbe::Missing)];
    let result = cat_result(String::new(), &errors);

    assert!(result.is_err(), "result should be an error");
    assert!(result.unwrap_err().contains("No such file or directory"));
}

#[test]
fn cat_errors_are_joined_and_trimmed() {
    let errors = vec![
        source_error("d", &SourceProbe::Directory),
        source_error("x", &SourceProbe::Unreadable(String::from("Permission denied (os error 13)"))),
    ];
    assert_eq!(cat_result(String::new(), &errors), Err(String::from("d: Is a directory\ncat: x: Permission denied")));
    assert_eq!(cat_result(String::from("hi"), &Vec::new()), Ok(String::from("hi")));
    assert_eq!(stdin_error("bad (os error 5)"), "cat: -: bad");
}

#[test]
fn exit_reports_status_and_guards_stopped_jobs() {
    let stopped = vec![Job::new(1, 10, String::from("vim"), State::Stopped)];
    let mut attempted = false;
    assert_eq!(exit(&string_vec(&["exit", "3"]), &stopped, &mut attempted), Err(String::from("There are stopped jobs.")));
    assert!(attempted);
    assert_eq!(exit(&string_vec(&["exit", "3"]), &stopped, &mut attempted), Ok(String::from("3")));
    assert_eq!(exit(&string_vec(&["exit", "-7"]), &[], &mut attempted), Ok(String::from("-7")));
    assert_eq!(exit(&string_vec(&["exit"]), &[], &mut attempted), Ok(String::from("0")));
    assert_eq!(
        exit(&string_vec(&["exit", "x"]), &[], &mut attempted),
        Err(String::from("Numeric argument required: x"))
    );
    assert!(exit(&string_vec(&["exit", "1", "2"]), &[], &mut attempted).is_err());
}

#[test]
fn kill_targets_a_job_by_spec_or_pid() {
    let jobs = vec![Job::new(1, 4242, String::from("sleep 9"), State::Stopped)];
    assert_eq!(kill_target(&string_vec(&["kill", "%1"]), &jobs, 1, 0), Err(String::from("No such job ID: %1")));
    let t = kill_target(&string_vec(&["kill", "%4242"]), &jobs, 1, 0);
    assert!(t.is_ok());
    let t = t.unwrap();
    assert_eq!((t.pid, t.is_stopped), (4242, true));
    assert!(kill_target(&string_vec(&["kill"]), &jobs, 1, 0).is_err());
    assert_eq!(kill_target(&string_vec(&["kill", "-3"]), &jobs, 1, 0), Err(String::from("ID must be positive")));
    let t = kill_target(&string_vec(&["kill", "4242"]), &jobs, 1, 0).unwrap();
    assert_eq!((t.pid, t.is_stopped), (4242, true));
}

#[test]
fn sleep_reads_seconds() {
    assert_eq!(sleep::sleep_seconds(&string_vec(&["sleep", "2"])), Ok(2));
    assert!(sleep::sleep_seconds(&string_vec(&["sleep", "x"])).is_err());
}

#[test]
fn child_events_update_the_table() {
    let mut jobs = vec![Job::new(1, 10, String::from("a"), State::Running), Job::new(2, 20, String::from("b"), State::Running)];
    let mut current = 2;
    let mut previous = 1;
    let m = record_child_event(&mut jobs, &mut current, &mut previous, 10, ChildEvent::Stopped);
    assert_eq!(m, Some(String::from("\n[1]+\tStopped\t\ta")));
    assert_eq!((current, previous), (1, 2));
    let m = record_child_event(&mut jobs, &mut current, &mut previous, 10, ChildEvent::Exited(0));
    assert_eq!(m, Some(String::from("[1]+\tDone\t\ta")));
    assert_eq!(jobs.len(), 1);
    assert_eq!((current, previous), (2, 0));
    assert_ne!(current, 1);
    let m = record_child_event(&mut jobs, &mut current, &mut previous, 20, ChildEvent::Exited(3));
    assert_eq!(m, Some(String::from("[2]+\tExit 3\t\tb")));
    assert!(jobs.is_empty());
    assert_eq!(record_child_event(&mut jobs, &mut current, &mut previous, 99, ChildEvent::Signaled), None);
}

#[test]
fn launching_registers_jobs() {
    let mut jobs: Vec<Job> = Vec::new();
    let mut current = 0;
    let mut previous = 0;
    let args = string_vec(&["sleep", "9", "2", ">", "log"]);
    let id = register_job(&args, &mut jobs, &mut current, &mut previous, 77, State::Running);
    assert_eq!(id, 1);
    assert_eq!(jobs[0].command, "sleep 9 2>log");
    assert_eq!((current, previous), (1, 0));
    assert_eq!(launched_line(1, 77), "[1] 77\n");
    assert_eq!(stopped_line(1, "vim"), "\n[1]+\tStopped\t\tvim\n");
    assert_eq!(display_command(&string_vec(&["a", "1", ">>", ""])), "a 1 >> ");
    assert_eq!(
        get_exec_args(true, &string_vec(&["ls"]), String::from("/bin/0-shell")),
        string_vec(&["/bin/0-shell", "--internal-worker", "ls"])
    );
}

#[test]
fn waiting_retries_on_interruption() {
    assert!(matches!(wait_step(5, 5, 9, false, ""), WaitStep::Changed(9)));
    assert!(matches!(wait_step(-1, 5, 0, true, ""), WaitStep::Retry));
    match wait_step(-1, 5, 0, false, "No child processes") {
        WaitStep::Failed(m) => assert_eq!(m, "waitpid failed: No child processes"),
        _ => panic!("expected a failure"),
    }
    match wait_step(6, 5, 0, false, "") {
        WaitStep::Failed(m) => assert_eq!(m, "waitpid returned unexpected pid: 6"),
        _ => panic!("expected a failure"),
    }
}

#[test]
fn errors_are_reported_with_the_command() {
    assert_eq!(handle_error("cat", String::from("x: Is a directory")), "cat: x: Is a directory");
    assert_eq!(handle_error("cat", String::from("0-shell: Is a directory: t")), "0-shell: Is a directory: t");
    assert_eq!(red_text("e"), "\x1b[31m\x1b[1me\x1b[39m");
    assert_eq!(exec_failure_message("nope"), "\x1b[31m\x1b[1m0-shell: command not found: nope\x1b[39m\n");
}

#[test]
fn the_loop_skips_blank_lines_and_reports_parse_errors() {
    let mut h = new_history();
    assert!(matches!(on_line("   ", &mut h), ReplStep::Skip));
    assert_eq!(h.len(), 1);
    match on_line("ls -a", &mut h) {
        ReplStep::Run(w) => assert_eq!(w, string_vec(&["ls", "-a"])),
        _ => panic!("expected a command"),
    }
    assert_eq!(h.len(), 2);
    match on_line("echo >", &mut h) {
        ReplStep::Report(m) => assert!(m.starts_with("0-shell: ")),
        _ => panic!("expected a report"),
    }
    let stopped = vec![Job::new(1, 10, String::from("vim"), State::Stopped)];
    let mut attempted = false;
    assert!(matches!(on_end_of_input(&stopped, &mut attempted), ReplStep::Report(_)));
    assert!(matches!(on_end_of_input(&stopped, &mut attempted), ReplStep::Quit));
}
