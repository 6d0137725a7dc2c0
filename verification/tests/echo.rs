use zero_shell::commands::echo::{echo, parse_environment_variables, EchoEnv};

fn string_vec(items: &[&str]) -> Vec<String> {
    items.iter().map(|s| String::from(*s)).collect()
}

fn empty_env() -> EchoEnv {
    EchoEnv {
        user: String::new(),
        hostname: String::new(),
        pid: String::new(),
        path: String::new(),
        shell: String::new(),
        umask: String::new(),
        home: String::new(),
        lang: String::new(),
        term: String::new(),
    }
}

#[test]
fn echo_basic() {
    let env = empty_env();
    assert_eq!(echo(&string_vec(&["echo", "hello"]), &env), Ok(String::from("hello\n")), "Expected to echo one word");
    assert_eq!(
        echo(&string_vec(&["echo", "hello", "world"]), &env),
        Ok(String::from("hello world\n")),
        "Expected to echo two words"
    );
    assert_eq!(
        echo(&string_vec(&["echo", "hello", "world", "hello"]), &env),
        Ok(String::from("hello world hello\n")),
        "Expected to echo three words"
    );
}

#[test]
fn echo_special_characters() {
    let env = empty_env();
    assert_eq!(echo(&string_vec(&["echo", "a\\na"]), &env), Ok(String::from("ana\n")), "Expected to convert `\\n` to `n`");
    assert_eq!(echo(&string_vec(&["echo", "a\\\\na"]), &env), Ok(String::from("a\na\n")), "Expected to convert `\\\\n` to `\\n`");
    assert_eq!(echo(&string_vec(&["echo", "a\\\\\\na"]), &env), Ok(String::from("a\na\n")), "Expected to convert `\\\\\\n` to `\\n`");
    assert_eq!(
        echo(&string_vec(&["echo", "a\\\\\\\\na"]), &env),
        Ok(String::from("a\\na\n")),
        "Expected to convert `\\\\\\\\n` to `\\\\n`"
    );

    assert_eq!(
        echo(&string_vec(&["echo", "\"a\\na\""]), &env),
        Ok(String::from("a\na\n")),
        "Expected to leave `\\n` unchanged in quotes"
    );
    assert_eq!(
        echo(&vec![String::from("echo"), String::from("\"a\\\\na\"")], &env),
        Ok(String::from("a\na\n")),
        "Expected to leave `\\\\n` unchanged in quotes"
    );
    assert_eq!(
        echo(&string_vec(&["echo", "\"a\\\\\\na\""]), &env),
        Ok(String::from("a\\na\n")),
        "Expected to convert `\\\\\\n` in quotes to `\\n`"
    );
    assert_eq!(
        echo(&string_vec(&["echo", "\"a\\\\\\\\na\""]), &env),
        Ok(String::from("a\\na\n")),
        "Expected to convert `\\\\\\\\n` in quotes to `\\n`"
    );
}

#[test]
fn echo_redirection_in_double_quotes() {
    let env = empty_env();
    assert_eq!(
        echo(&string_vec(&["echo", "\">\""]), &env),
        Ok(String::from(">\n")),
        "Expected to escape `>` in double quotes, and give no error when final"
    );
    assert_eq!(
        echo(&string_vec(&["echo", "\">>\""]), &env),
        Ok(String::from(">>\n")),
        "Expected to leave `>>` unchanged in double quotes, and give no error when final"
    );
}

#[test]
fn echo_redirection_in_single_quotes() {
    let env = empty_env();
    assert_eq!(
        echo(&string_vec(&["echo", "\'>\'"]), &env),
        Ok(String::from(">\n")),
        "Expected to leave `>` unchanged in single quotes, and give no error when final"
    );
    assert_eq!(
        echo(&string_vec(&["echo", "\'>>\'"]), &env),
        Ok(String::from(">>\n")),
        "Expected to leave `>>` unchanged in single quotes, and give no error when final"
    );
}

#[test]
fn echo_replaces_environment_variables() {
    let mut env = empty_env();
    env.user = String::from("testuser");
    assert_eq!(echo(&string_vec(&["echo", "$USER"]), &env), Ok(String::from("testuser\n")));
    assert_eq!(echo(&string_vec(&["echo", "$LANG"]), &env), Ok(String::from("\n")));
    env.home = String::from("/h");
    assert_eq!(parse_environment_variables(&String::from("$HOME/$HOME$X"), &env), "/h//h$X");
}

#[test]
fn echo_without_words_and_with_redirection() {
    let env = empty_env();
    assert_eq!(echo(&string_vec(&["echo"]), &env), Ok(String::from("\n")));
    assert_eq!(echo(&string_vec(&["echo", "hello", ">", "f", "file2"]), &env), Ok(String::from("hello file2\n")));
}

#[test]
fn echo_reports_bad_json_without_os_code() {
    let env = empty_env();
    let r = echo(&string_vec(&["echo", "a\"b"]), &env);
    assert!(r.is_err());
    assert!(!r.unwrap_err().contains(" (os "));
}
