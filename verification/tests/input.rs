use std::collections::VecDeque;

use zero_shell::input::backtrack::find_matches;
use zero_shell::input::editor::{
    check_options, commands, display_possibilities, prompt_start, prompt_text, DirName, EditKey,
    KeyStep, LineEditor,
};
use zero_shell::input::split::split;

fn string_vec(items: &[&str]) -> Vec<String> {
    items.iter().map(|s| String::from(*s)).collect()
}

fn command_table() -> Vec<String> {
    string_vec(&["cat", "cd", "cp", "echo", "exit", "ls", "mkdir", "mv", "pwd", "rm", "touch"])
}

#[test]
fn test_find_matches() {
    let commands = command_table();
    let mut expected: Vec<String>;

    expected = Vec::new();
    assert_eq!(
        find_matches(&commands, "x"),
        expected,
        "`find_matches` should return an empty vector when there are no matches"
    );

    expected = vec![String::from("cat"), String::from("cd"), String::from("cp")];
    assert_eq!(
        find_matches(&commands, "c"),
        expected,
        "`find_matches(\"c\")` should find all three commands beginning with 'c'"
    );

    expected = vec![String::from("mkdir")];
    assert_eq!(
        find_matches(&commands, "mk"),
        expected,
        "`find_matches(\"mk\", true)` should return a vector containing just \"mkdir\""
    );
}

#[test]
fn find_matches_lists_each_match_once_in_tree_order() {
    let data = string_vec(&["ab", "b", "a", "ab", "abc", "aa"]);
    assert_eq!(find_matches(&data, "a"), string_vec(&["a", "ab", "abc", "aa"]));
    assert_eq!(find_matches(&data, ""), string_vec(&["a", "ab", "abc", "aa", "b"]));
}

#[test]
fn test_split() {
    assert_eq!(split(""), Ok(vec![]));
    assert_eq!(
        split("echo foo bar>>baz > qux"),
        Ok(string_vec(&["echo", "foo", "bar", ">>", "baz", ">", "qux"]))
    );
}

#[test]
fn split_keeps_quoted_blanks_and_rejects_dangling_operator() {
    assert_eq!(split("echo \"a b\""), Ok(string_vec(&["echo", "\"a b\""])));
    assert!(split("echo >").is_err());
}

#[test]
fn test_string_vec() {
    let input = string_vec(&["a", String::from("b").as_str(), &String::from("c")]);
    assert_eq!(input, vec![String::from("a"), String::from("b"), String::from("c")]);
}

#[test]
fn commands_are_offered_in_order() {
    let c = commands();
    assert_eq!(c.len(), 17);
    assert_eq!(c[0], "bg");
    assert_eq!(c[16], "touch");
}

#[test]
fn prompt_shortens_home_to_tilde() {
    let p = prompt_text("/home/ann/src", "ann", "box", Some(String::from("/home/ann")));
    assert_eq!(p, "\x1b[35mann@box\x1b[39m:\x1b[96m~/src\x1b[39m$ ");
    let q = prompt_text("/tmp", "ann", "box", Some(String::from("/home/ann")));
    assert_eq!(q, "\x1b[35mann@box\x1b[39m:\x1b[96m/tmp\x1b[39m$ ");
    assert_eq!(prompt_start("$ "), "\r$ \x1b[?25h");
}

#[test]
fn editor_inserts_moves_and_deletes() {
    let mut e = LineEditor::new();
    let mut h: VecDeque<String> = VecDeque::new();
    h.push_back(String::new());
    let (step, out) = e.apply_key(EditKey::Char('a'), &mut h, "$ ");
    assert_eq!(step, KeyStep::Redraw);
    assert_eq!(out, "\r$ \x1b[Ja");
    e.apply_key(EditKey::Char('c'), &mut h, "$ ");
    e.apply_key(EditKey::Left, &mut h, "$ ");
    let (_, out) = e.apply_key(EditKey::Char('b'), &mut h, "$ ");
    assert_eq!(e.input, "abc");
    assert_eq!(e.cursor, 2);
    assert_eq!(out, "\r$ \x1b[Jabc\x1b[1D");
    e.apply_key(EditKey::Backspace, &mut h, "$ ");
    assert_eq!((e.input.as_str(), e.cursor), ("ac", 1));
    e.apply_key(EditKey::Right, &mut h, "$ ");
    e.apply_key(EditKey::Right, &mut h, "$ ");
    assert_eq!(e.cursor, 2);
    e.apply_key(EditKey::CtrlU, &mut h, "$ ");
    assert_eq!((e.input.as_str(), e.cursor), ("", 0));
    let (step, out) = e.apply_key(EditKey::CtrlD, &mut h, "$ ");
    assert_eq!(step, KeyStep::Eof);
    assert_eq!(out, "\r\n^D\r\n");
}

#[test]
fn editor_submits_and_ignores_ctrl_d_on_a_line() {
    let mut e = LineEditor::new();
    let mut h: VecDeque<String> = VecDeque::new();
    e.apply_key(EditKey::Char('l'), &mut h, "$ ");
    let (step, out) = e.apply_key(EditKey::CtrlD, &mut h, "$ ");
    assert_eq!((step, out.as_str()), (KeyStep::Stay, ""));
    let (step, out) = e.apply_key(EditKey::Char('\n'), &mut h, "$ ");
    assert_eq!((step, out.as_str()), (KeyStep::Submit, "\r\n"));
    assert_eq!(e.input, "l");
}

#[test]
fn history_up_then_down_restores_it() {
    let mut e = LineEditor::new();
    let mut h: VecDeque<String> = VecDeque::new();
    h.push_back(String::new());
    h.push_back(String::from("ls"));
    h.push_back(String::from("pwd"));
    let before: Vec<String> = h.iter().cloned().collect();
    e.apply_key(EditKey::Up, &mut h, "$ ");
    assert_eq!(e.input, "pwd");
    assert_eq!(e.cursor, 3);
    e.apply_key(EditKey::Down, &mut h, "$ ");
    assert_eq!(e.input, "");
    let after: Vec<String> = h.iter().cloned().collect();
    assert_eq!(before, after);
}

#[test]
fn tab_completes_a_single_command() {
    let mut e = LineEditor::new();
    let mut h: VecDeque<String> = VecDeque::new();
    e.apply_key(EditKey::Char('m'), &mut h, "$ ");
    e.apply_key(EditKey::Char('k'), &mut h, "$ ");
    let (step, out) = e.apply_key(EditKey::Tab(None, 80), &mut h, "$ ");
    assert_eq!(step, KeyStep::Redraw);
    assert_eq!(e.input, "mkdir ");
    assert_eq!(e.cursor, 6);
    assert_eq!(out, "\r\x1b[K$ mkdir \r$ \x1b[Jmkdir ");
}

#[test]
fn tab_completes_a_path_and_lists_several() {
    let names = vec![
        DirName { name: String::from("notes"), is_dir: true },
        DirName { name: String::from("note.txt"), is_dir: false },
        DirName { name: String::from(".hidden"), is_dir: false },
        DirName { name: String::from("zeta"), is_dir: false },
    ];
    let mut e = LineEditor::new();
    let mut h: VecDeque<String> = VecDeque::new();
    for c in "cat z".chars() {
        e.apply_key(EditKey::Char(c), &mut h, "$ ");
    }
    e.apply_key(EditKey::Tab(Some(names), 80), &mut h, "$ ");
    assert_eq!(e.input, "cat zeta ");

    let names = vec![
        DirName { name: String::from("notes"), is_dir: true },
        DirName { name: String::from("note.txt"), is_dir: false },
    ];
    let mut e = LineEditor::new();
    for c in "cat no".chars() {
        e.apply_key(EditKey::Char(c), &mut h, "$ ");
    }
    let (step, out) = e.apply_key(EditKey::Tab(Some(names), 80), &mut h, "$ ");
    assert_eq!(step, KeyStep::Stay);
    assert_eq!(e.input, "cat no");
    assert_eq!(out, "\r\nnotes/    note.txt  \r\x1b[1A\r$ cat no");

    let mut e = LineEditor::new();
    for c in "cat no".chars() {
        e.apply_key(EditKey::Char(c), &mut h, "$ ");
    }
    let (step, out) = e.apply_key(EditKey::Tab(None, 80), &mut h, "$ ");
    assert_eq!((step, out.as_str()), (KeyStep::Stay, ""));
}

#[test]
fn tab_after_a_dash_shows_options() {
    let mut e = LineEditor::new();
    let mut h: VecDeque<String> = VecDeque::new();
    for c in "ls -".chars() {
        e.apply_key(EditKey::Char(c), &mut h, "$ ");
    }
    let (step, out) = e.apply_key(EditKey::Tab(None, 80), &mut h, "$ ");
    assert_eq!(step, KeyStep::Stay);
    assert!(out.starts_with("\r\n-F      -- append file type indicators"));
    assert!(out.ends_with("\r\x1b[5A\r$ ls -\r$ ls -"));
    assert_eq!(check_options("$ ", "cd -", "cd"), "\r$ cd -");
}

#[test]
fn possibilities_run_down_the_columns() {
    let m = string_vec(&["a", "b", "c"]);
    assert_eq!(display_possibilities(&m, 6, "$ ", "x"), "\r\na  c  \r\nb  \r\x1b[2A\r$ x");
}
