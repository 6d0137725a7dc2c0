use std::collections::VecDeque;

use zero_shell::commands::jobs::{jobs, Job, State};
use zero_shell::commands::ls::{ls_plan, LsFlags, USAGE as LS_USAGE};
use zero_shell::commands::jobs::USAGE as JOBS_USAGE;
use zero_shell::commands::man::man;
use zero_shell::input::backtrack::find_matches;
use zero_shell::input::editor::{EditKey, LineEditor};
use zero_shell::input::split::split;
use zero_shell::redirect::separate_sources_from_targets;

fn string_vec(items: &[&str]) -> Vec<String> {
    items.iter().map(|s| String::from(*s)).collect()
}

#[test]
fn man_answers_one_line_per_command() {
    let both = man(&string_vec(&["man", "ls", "nope"])).unwrap();
    let first = man(&string_vec(&["man", "ls"])).unwrap();
    let second = man(&string_vec(&["man", "nope"])).unwrap();
    assert_eq!(both, first.clone() + &second);
    assert_eq!(first, format!("{}\n", LS_USAGE));
    assert_eq!(second, "\x1b[31mNo manual entry for nope\x1b[0m\x1b[1m\n");
    assert!(man(&string_vec(&["man"])).is_err());
}

#[test]
fn ls_names_the_first_option_word_with_an_unknown_letter() {
    let input = string_vec(&["ls", "-a", "-xq", "-z"]);
    assert_eq!(ls_plan(&input).err(), Some(format!("Unrecognized option: `-xq'\n{}", LS_USAGE)));
    let input = string_vec(&["ls", "-a", "dir", "-z"]);
    let plan = ls_plan(&input).ok().unwrap();
    let f: LsFlags = plan.flags;
    assert_eq!(
        (f.show_hidden, f.long_format, f.classify, f.reverse, f.recursive, f.first_pathname_index),
        (true, false, false, false, false, Some(1))
    );
    assert_eq!(plan.paths, string_vec(&["dir", "-z"]));
}

#[test]
fn an_unquoted_line_splits_at_whitespace() {
    assert_eq!(split("ls  -l\tdir "), Ok(string_vec(&["ls", "-l", "dir"])));
    assert_eq!(split("   "), Ok(Vec::new()));
}

#[test]
fn matches_of_sorted_entries_come_sorted() {
    let data = string_vec(&["ab", "b", "ba", "bab", "bb", "c"]);
    assert_eq!(find_matches(&data, "b"), string_vec(&["b", "ba", "bab", "bb"]));
}

#[test]
fn sources_and_targets_by_position() {
    let input = string_vec(&["echo", "a", ">", "f", "b", ">>", "g", "c"]);
    let (sources, targets) = separate_sources_from_targets(&input);
    assert_eq!(sources, vec!["a", "b", "c"]);
    assert_eq!(targets, vec![[">", "f"], [">>", "g"]]);
}

#[test]
fn jobs_option_letters_set_flags_and_refuse_others() {
    let table = vec![
        Job::new(1, 100, String::from("sleep 5"), State::Running),
        Job::new(2, 101, String::from("vim"), State::Stopped),
    ];
    let input = string_vec(&["jobs", "-lx"]);
    assert_eq!(jobs(&input, &table, 2, 1), Err(format!("Invalid option -- 'x'\n{}", JOBS_USAGE)));
    let input = string_vec(&["jobs", "-r", "-p"]);
    assert_eq!(jobs(&input, &table, 2, 1), Ok(String::from("100\n")));
}

#[test]
fn typing_then_erasing_restores_the_line() {
    let mut e = LineEditor::new();
    let mut h: VecDeque<String> = VecDeque::new();
    for c in "abc".chars() {
        e.apply_key(EditKey::Char(c), &mut h, "$ ");
    }
    assert_eq!((e.input.as_str(), e.cursor), ("abc", 3));
    for _ in 0..3 {
        e.apply_key(EditKey::Backspace, &mut h, "$ ");
    }
    assert_eq!((e.input.as_str(), e.cursor), ("", 0));
}
