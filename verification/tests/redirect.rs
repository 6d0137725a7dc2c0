use zero_shell::redirect::{separate_sources_from_targets, write_mode, WriteMode};

fn string_vec(items: &[&str]) -> Vec<String> {
    items.iter().map(|s| String::from(*s)).collect()
}

#[test]
fn separate_sources_from_targets_standard_case() {
    let input = string_vec(&["cmd", "a", "b", ">", "c", ">>", "d", ">>", "e", "f"]);
    let (sources, targets) = separate_sources_from_targets(&input);

    assert_eq!(sources, vec!["a", "b", "f"]);
    assert_eq!(targets, vec![[">", "c"], [">>", "d"], [">>", "e"]]);
}

#[test]
fn write_mode_appends_only_to_existing_files() {
    assert!(matches!(write_mode(">>", true), WriteMode::Append));
    assert!(matches!(write_mode(">>", false), WriteMode::Create));
    assert!(matches!(write_mode(">", true), WriteMode::Create));
}
