use zero_shell::commands::ls::format::{
    blue, format_entry, format_time, get_long_list, get_short_list, long_format_list,
    short_format_list, short_format_list_for_width, visible_width, EntryInfo, EntryMeta, FileInfo,
    LongSource, TOO_NARROW,
};
use zero_shell::commands::ls::system::{
    classify, get_extended_attributes, get_symlink_info, get_total_blocks_in_directory, is_hidden,
    mode_to_string, name_or_id, path_file_name, ClassifyProbe, FileMode,
};
use zero_shell::commands::ls::{
    classify_paths, ls_plan, process_initial_results, sort_path_classification, ChildEntry,
    DirectoryWalk, LsFlags, PathKind,
};

fn string_vec(items: &[&str]) -> Vec<String> {
    items.iter().map(|s| String::from(*s)).collect()
}

fn flags(show_hidden: bool, reverse: bool, recursive: bool) -> LsFlags {
    LsFlags {
        show_hidden,
        long_format: false,
        classify: false,
        reverse,
        recursive,
        first_pathname_index: None,
    }
}

fn plain(is_dir: bool) -> ClassifyProbe {
    ClassifyProbe { is_dir, is_symlink: false, metadata: Some(FileMode { mode: 0o644, is_fifo: false, is_socket: false }) }
}

fn entry(dir: &str, name: &str, is_dir: bool) -> Result<EntryInfo, String> {
    Ok(EntryInfo { path: format!("{}/{}", dir, name), name: String::from(name), probe: plain(is_dir) })
}

#[test]
fn test_basic_and_flags_ok() {
    let basic = vec![String::from("ls")];
    let a = vec![String::from("ls"), String::from("-a")];
    let l = vec![String::from("ls"), String::from("-l")];
    let f = vec![String::from("ls"), String::from("-F")];
    let alf = vec![String::from("ls"), String::from("-alF")];
    let l_a_f = vec!["ls", "-l", "-a", "-F"].into_iter().map(String::from).collect();

    let inputs = [basic, a, l, f, alf, l_a_f];

    for input in inputs {
        assert!(ls_plan(&input).is_ok(), "`ls` should be ok for {:?}", input);
    }
}

#[test]
fn ls_plan_reads_options_and_paths() {
    let p = ls_plan(&string_vec(&["ls", "-la", "-R", "x", "-r", ">", "out"])).unwrap();
    assert!(p.flags.show_hidden && p.flags.long_format && p.flags.recursive);
    assert!(!p.flags.reverse && !p.flags.classify);
    assert_eq!(p.flags.first_pathname_index, Some(2));
    assert_eq!(p.paths, string_vec(&["x", "-r"]));
    assert!(p.is_redirect);
    assert!(p.show_header);

    let p = ls_plan(&string_vec(&["ls"])).unwrap();
    assert_eq!(p.paths, string_vec(&["."]));
    assert!(!p.show_header && !p.is_redirect);

    let e = ls_plan(&string_vec(&["ls", "-lq"])).err().unwrap();
    assert_eq!(e, "Unrecognized option: `-lq'\nUsage:\tls [-FalrR] [FILE|DIRECTORY]...");
}

#[test]
fn classification_sorts_and_reverses() {
    let paths = string_vec(&["b", "x", "a", "d"]);
    let kinds = vec![PathKind::File, PathKind::Missing, PathKind::File, PathKind::Directory];
    let mut c = classify_paths(&paths, &kinds);
    assert_eq!(c.files, string_vec(&["b", "a"]));
    assert_eq!(c.directories, string_vec(&["d"]));
    assert_eq!(c.non_existent, vec![String::from("\x1b[31mls: x: No such file or directory\x1b[0m\x1b[1m\n")]);
    sort_path_classification(&mut c, &flags(false, true, false));
    assert_eq!(c.files, string_vec(&["b", "a"]));
    sort_path_classification(&mut c, &flags(false, false, false));
    assert_eq!(c.files, string_vec(&["a", "b"]));
}

#[test]
fn sorting_keeps_duplicates_in_order() {
    let paths = string_vec(&["b", "a", "b", "B"]);
    let kinds = vec![PathKind::File, PathKind::File, PathKind::File, PathKind::File];
    let mut c = classify_paths(&paths, &kinds);
    sort_path_classification(&mut c, &flags(false, false, false));
    assert_eq!(c.files, string_vec(&["B", "a", "b", "b"]));
}

#[test]
fn initial_results_for_a_file_end_with_a_newline() {
    let files = string_vec(&["file_1", "file_2"]);
    let r = process_initial_results(&files, &Vec::new(), &flags(false, false, false), true);
    assert_eq!(r, Ok(String::from("file_1\nfile_2\n")));
    let r = process_initial_results(&Vec::new(), &Vec::new(), &flags(false, false, false), true);
    assert_eq!(r, Ok(String::new()));
    let mut long = flags(false, false, false);
    long.long_format = true;
    let r = process_initial_results(&files, &string_vec(&["  a\n", "b\n"]), &long, false);
    assert_eq!(r, Ok(String::from("a\nb\n")));
}

#[test]
fn short_list_sorts_hides_and_reverses() {
    let items = vec![entry("r", "file_root", false), entry("r", "dir_b", true), entry("r", ".hid", false), entry("r", "dir_a", true)];
    let r = get_short_list(Ok(items), &flags(false, false, false), true);
    assert_eq!(r, Ok(String::from("dir_a\ndir_b\nfile_root\n")));

    let items = vec![entry("r", "file_root", false), entry("r", "dir_b", true), entry("r", "dir_a", true)];
    let r = get_short_list(Ok(items), &flags(true, true, false), true);
    assert_eq!(r, Ok(String::from("file_root\ndir_b\ndir_a\n..\n.\n")));

    let r = get_short_list(Err(String::from("denied")), &flags(false, false, false), true);
    assert_eq!(r, Ok(String::from("Error reading directory: denied")));
    let r = get_short_list(Ok(vec![entry("r", ".x", false)]), &flags(false, false, false), true);
    assert_eq!(r, Ok(String::new()));
}

#[test]
fn short_list_colours_directories_on_a_terminal() {
    let items = vec![entry("r", "d", true), entry("r", "f", false)];
    let mut fl = flags(false, false, false);
    fl.classify = true;
    let names = zero_shell::commands::ls::format::short_list_entries(&items, &fl, false);
    assert_eq!(names, vec![String::from("\x1b[34md\x1b[39m/"), String::from("f")]);
}

#[test]
fn recursive_walk_lists_breadth_first() {
    let root = "/r";
    let mut walk = DirectoryWalk::new(vec![String::from(root)], String::new(), flags(false, false, true), true);
    let mut listings = std::collections::HashMap::new();
    listings.insert("/r", (vec![("dir_a", true), ("dir_b", true), ("file_root", false)], "dir_a\ndir_b\nfile_root\n"));
    listings.insert("/r/dir_a", (vec![("file_a1", false), ("dir_aa", true)], "dir_aa\nfile_a1\n"));
    listings.insert("/r/dir_b", (vec![], ""));
    listings.insert("/r/dir_a/dir_aa", (vec![], ""));
    while let Some(dir) = walk.next_directory() {
        let (children, listing) = listings.get(dir.as_str()).unwrap().clone();
        let children: Vec<ChildEntry> = children
            .iter()
            .map(|(n, d)| ChildEntry { path: format!("{}/{}", dir, n), name: String::from(*n), is_dir: *d })
            .collect();
        walk.add_listing(&dir, listing, &children);
    }
    assert_eq!(
        walk.results,
        "/r:\ndir_a\ndir_b\nfile_root\n\n/r/dir_a:\ndir_aa\nfile_a1\n\n/r/dir_b:\n\n/r/dir_a/dir_aa:\n"
    );
}

#[test]
fn recursive_walk_reverses_children_and_skips_hidden() {
    let mut walk = DirectoryWalk::new(vec![String::from("/r")], String::from("x\n"), flags(false, true, true), true);
    let dir = walk.next_directory().unwrap();
    let children = vec![
        ChildEntry { path: String::from("/r/a"), name: String::from("a"), is_dir: true },
        ChildEntry { path: String::from("/r/.h"), name: String::from(".h"), is_dir: true },
        ChildEntry { path: String::from("/r/b"), name: String::from("b"), is_dir: true },
    ];
    walk.add_listing(&dir, "l\n", &children);
    assert_eq!(walk.queue, string_vec(&["/r/b", "/r/a"]));
    assert_eq!(walk.results, "x\n\n/r:\nl\n");
}

#[test]
fn long_format_list_aligns_columns() {
    let entries = string_vec(&["x 1 u g 10 Jan 1 00:00 b", "y 22 uu g 5 Feb 10 11:00 a"]);
    assert_eq!(
        long_format_list(entries, 7),
        Ok(String::from("total: 7\ny 22 uu  g   5 Feb 10 11:00 a\nx  1 u   g  10 Jan 1  00:00 b\n"))
    );
    assert_eq!(long_format_list(Vec::new(), 3), Ok(String::new()));
    let r = long_format_list(string_vec(&["p 1 u g 0 Jan 1 00:00 ../", "p 1 u g 0 Jan 1 00:00 a*b", "p 1 u g 0 Jan 1 00:00 ./"]), 0).unwrap();
    assert_eq!(r, "total: 0\np 1 u  g  0 Jan 1 00:00 ./\np 1 u  g  0 Jan 1 00:00 ../\np 1 u  g  0 Jan 1 00:00 a b\n");
}

#[test]
fn long_list_adds_dot_entries_and_hides() {
    let lines = string_vec(&["p 1 u g 0 Jan 1 00:00 b", "p 1 u g 0 Jan 1 00:00 .h"]);
    let r = get_long_list(LongSource::Directory(lines.clone()), None, None, &flags(false, false, false), Some(4));
    assert_eq!(r, Ok(String::from("total: 4\np 1 u  g  0 Jan 1 00:00 b\n")));
    let r = get_long_list(LongSource::Missing, None, None, &flags(false, false, false), None);
    assert_eq!(r, Ok(String::new()));
    let r = get_long_list(LongSource::File(Some(String::from("p 1 u g 0 Jan 1 00:00 f"))), Some(String::from("p 1 u g 0 Jan 1 00:00 ./")), None, &flags(true, false, false), None);
    assert_eq!(r, Ok(String::from("total: 0\np 1 u  g  0 Jan 1 00:00 ./\np 1 u  g  0 Jan 1 00:00 f\n")));
}

#[test]
fn grid_layout_fills_columns() {
    let entries = string_vec(&["a", "bb", "c"]);
    assert_eq!(short_format_list_for_width(entries.clone(), false, 16), Ok(String::from("a       c       \nbb              \n")));
    assert_eq!(short_format_list_for_width(entries.clone(), false, 7), Err(String::from(TOO_NARROW)));
    assert_eq!(short_format_list(entries, true), Ok(String::from("a\nbb\nc\n")));
}

#[test]
fn visible_width_skips_escape_sequences() {
    assert_eq!(visible_width("abc"), 3);
    assert_eq!(visible_width(&blue("abc")), 3);
    assert_eq!(visible_width("\x1b[1"), 0);
}

#[test]
fn system_helpers() {
    assert_eq!(mode_to_string(0o754), "rwxr-xr--");
    assert_eq!(mode_to_string(0), "---------");
    assert!(is_hidden("a/.git"));
    assert!(is_hidden(".git/"));
    assert!(!is_hidden("."));
    assert!(!is_hidden(".."));
    assert!(!is_hidden("a/.."));
    assert!(is_hidden("x/.y/."));
    assert_eq!(path_file_name("/a/b//"), Some(String::from("b")));
    assert_eq!(path_file_name("/"), None);
    assert_eq!(classify(&plain(true)), "/");
    assert_eq!(classify(&ClassifyProbe { is_dir: false, is_symlink: true, metadata: None }), "@");
    assert_eq!(classify(&ClassifyProbe { is_dir: false, is_symlink: false, metadata: Some(FileMode { mode: 0o755, is_fifo: false, is_socket: false }) }), "*");
    assert_eq!(classify(&ClassifyProbe { is_dir: false, is_symlink: false, metadata: Some(FileMode { mode: 0o644, is_fifo: true, is_socket: false }) }), "|");
    assert_eq!(classify(&ClassifyProbe { is_dir: false, is_symlink: false, metadata: Some(FileMode { mode: 0o644, is_fifo: false, is_socket: true }) }), "=");
    assert_eq!(classify(&plain(false)), "");
    assert_eq!(get_extended_attributes(true), "@");
    assert_eq!(get_extended_attributes(false), "");
    assert_eq!(get_symlink_info(true), "-> symlink");
    assert_eq!(name_or_id(None, 501), "501");
    assert_eq!(name_or_id(Some(String::from("ann")), 501), "ann");
    assert_eq!(get_total_blocks_in_directory(true, Some(vec![Some(8), Some(16)])), Some(24));
    assert_eq!(get_total_blocks_in_directory(true, Some(vec![Some(8), None])), None);
    assert_eq!(get_total_blocks_in_directory(true, None), None);
    assert_eq!(get_total_blocks_in_directory(false, None), Some(0));
}

#[test]
fn time_stamps_come_from_chrono() {
    assert_eq!(format_time(0), "Jan  1 00:00");
    assert_eq!(format_time(86400 * 40 + 3600 * 13 + 60 * 5), "Feb 10 13:05");
    assert_eq!(format_time(i64::MAX as u64), (i64::MAX as u64).to_string());
    assert_eq!(format_time(u64::MAX), "Dec 31 23:59");
}

#[test]
fn long_lines_pad_their_fields() {
    let info = FileInfo {
        file_type: String::from("-"),
        permissions: String::from("rw-r--r--"),
        hard_links: 1,
        user_name: String::from("ann"),
        group_name: String::from("staff"),
        size: 12,
        timestamp: String::from("Jan  1 00:00"),
        name: String::from("a b"),
        suffix: String::new(),
        extended_attr: String::new(),
        symlink: String::new(),
    };
    assert_eq!(info.format(), "-rw-r--r-- 1     ann  staff     12  Jan  1 00:00 a*b ");
    let meta = EntryMeta {
        is_dir: true,
        mode: 0o755,
        hard_links: 2,
        user_name: String::from("ann"),
        group_name: String::from("staff"),
        size: 64,
        modified_secs: 0,
        is_symlink: false,
        has_extended_attributes: true,
        probe: plain(true),
    };
    assert_eq!(
        format_entry("d", meta, true, true),
        "drwxr-xr-x@ 2     ann  staff     64  Jan  1 00:00 \x1b[34md\x1b[39m/ "
    );
}
