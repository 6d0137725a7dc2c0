pub mod format;
pub mod system;

use vstd::prelude::*;

use crate::ansi::{BOLD, ERROR_COLOR, RESET};
use crate::redirect::{ref_views, separate_spec, separate_sources_from_targets};
use crate::commands::ls::format::{grid_fits, short_format_list, short_layout};
use crate::commands::ls::system::path_is_hidden;
use crate::sort::{sort_by_key, sort_strings};
use crate::text::{chars_of, is_white_space, is_whitespace, join_lines, join_with_newlines, string_of_range, views};

verus! {

pub const USAGE: &'static str = "Usage:\tls [-FalrR] [FILE|DIRECTORY]...";

pub const OPTIONS_USAGE: &'static str = "\r\n-F      -- append file type indicators\r\n-a      -- list entries starting with .\r\n-l      -- long listing\r\n-r      -- reverse order\r\n-R      -- recursive";

/// The options of `ls`, and where its paths begin.
#[derive(Clone, Copy, Debug)]
pub struct LsFlags {
    pub show_hidden: bool,
    pub long_format: bool,
    pub classify: bool,
    pub reverse: bool,
    pub recursive: bool,
    pub first_pathname_index: Option<usize>,
}

/// A letter that `ls` takes as an option.
pub open spec fn is_option_letter(c: char) -> bool {
    c == 'a' || c == 'l' || c == 'F' || c == 'r' || c == 'R'
}

/// A word that starts with `-`.
pub open spec fn is_option_word(arg: Seq<char>) -> bool {
    arg.len() > 0 && arg[0] == '-'
}

/// After its `-`, the word holds a letter that is no option.
pub open spec fn has_bad_letter(arg: Seq<char>) -> bool {
    exists|k: int| 1 <= k < arg.len() && !is_option_letter(#[trigger] arg[k])
}

/// The error for an option word with an unknown letter.
pub open spec fn unrecognized_option(arg: Seq<char>) -> Seq<char> {
    "Unrecognized option: `"@ + arg + "'\n"@ + USAGE@
}

pub open spec fn no_flags() -> LsFlags {
    LsFlags {
        show_hidden: false,
        long_format: false,
        classify: false,
        reverse: false,
        recursive: false,
        first_pathname_index: None,
    }
}

/// The flags after one more option word.
pub open spec fn with_option(f: LsFlags, arg: Seq<char>) -> LsFlags {
    LsFlags {
        show_hidden: f.show_hidden || arg.contains('a'),
        long_format: f.long_format || arg.contains('l'),
        classify: f.classify || arg.contains('F'),
        reverse: f.reverse || arg.contains('r'),
        recursive: f.recursive || arg.contains('R'),
        first_pathname_index: f.first_pathname_index,
    }
}

/// The options read from `args` up to the first word that is not an option
/// (where the paths begin), or the error for the first option word with an
/// unknown letter before it.
pub open spec fn parse_flags(args: Seq<Seq<char>>) -> Result<LsFlags, Seq<char>>
    decreases args.len(),
{
    if args.len() == 0 {
        Ok(no_flags())
    } else {
        match parse_flags(args.drop_last()) {
            Err(e) => Err(e),
            Ok(f) => {
                let arg = args.last();
                if f.first_pathname_index is Some {
                    Ok(f)
                } else if !is_option_word(arg) {
                    Ok(LsFlags { first_pathname_index: Some((args.len() - 1) as usize), ..f })
                } else if has_bad_letter(arg) {
                    Err(unrecognized_option(arg))
                } else {
                    Ok(with_option(f, arg))
                }
            },
        }
    }
}

/// Once a path or an error is found, the words after it change nothing.
proof fn lemma_parse_settled(args: Seq<Seq<char>>, j: int, k: int)
    requires
        0 <= j <= k <= args.len(),
        parse_flags(args.take(j)) is Err || parse_flags(args.take(j))->Ok_0.first_pathname_index is Some,
    ensures
        parse_flags(args.take(k)) == parse_flags(args.take(j)),
    decreases k - j,
{
    if k > j {
        lemma_parse_settled(args, j, k - 1);
        assert(args.take(k).drop_last() =~= args.take(k - 1));
    }
}

fn has_char(s: &str, c: char) -> (r: bool)
    ensures
        r == s@.contains(c),
{
    let v = chars_of(s);
    let mut i: usize = 0;
    while i < v.len()
        invariant
            v@ == s@,
            i <= v@.len(),
            forall|k: int| 0 <= k < i ==> v@[k] != c,
        decreases v@.len() - i,
    {
        if v[i] == c {
            assert(s@[i as int] == c);
            return true;
        }
        i = i + 1;
    }
    false
}

fn bad_letter(s: &str) -> (r: bool)
    ensures
        r == has_bad_letter(s@),
{
    let v = chars_of(s);
    let mut i: usize = 1;
    while i < v.len()
        invariant
            v@ == s@,
            1 <= i,
            forall|k: int| 1 <= k < i && k < v@.len() ==> is_option_letter(#[trigger] v@[k]),
        decreases v@.len() - i,
    {
        let c = v[i];
        if !(c == 'a' || c == 'l' || c == 'F' || c == 'r' || c == 'R') {
            assert(!is_option_letter(s@[i as int]));
            return true;
        }
        i = i + 1;
    }
    false
}

impl LsFlags {
    /// Reads the options before the first path.
    pub fn parse(args: &Vec<&String>) -> (r: Result<LsFlags, String>)
        ensures
            match r {
                Ok(f) => parse_flags(ref_views(args@)) == Ok::<LsFlags, Seq<char>>(f),
                Err(e) => parse_flags(ref_views(args@)) == Err::<LsFlags, Seq<char>>(e@),
            },
    {
        let ghost a = ref_views(args@);
        let mut flags = LsFlags {
            show_hidden: false,
            long_format: false,
            classify: false,
            reverse: false,
            recursive: false,
            first_pathname_index: None,
        };
        let mut i: usize = 0;
        while i < args.len()
            invariant
                a == ref_views(args@),
                i <= args@.len(),
                flags.first_pathname_index is None,
                parse_flags(a.take(i as int)) == Ok::<LsFlags, Seq<char>>(flags),
            decreases args@.len() - i,
        {
            let arg = args[i].as_str();
            assert(a.take(i + 1).drop_last() =~= a.take(i as int));
            assert(a.take(i + 1).last() == arg@);
            let n = arg.unicode_len();
            if !(n > 0 && arg.get_char(0) == '-') {
                flags.first_pathname_index = Some(i);
                proof {
                    lemma_parse_settled(a, i + 1, a.len() as int);
                    assert(a.take(a.len() as int) =~= a);
                }
                return Ok(flags);
            }
            if bad_letter(arg) {
                let mut e = String::from_str("Unrecognized option: `");
                e.append(arg);
                e.append("'\n");
                e.append(USAGE);
                proof {
                    lemma_parse_settled(a, i + 1, a.len() as int);
                    assert(a.take(a.len() as int) =~= a);
                }
                return Err(e);
            }
            flags.show_hidden = flags.show_hidden || has_char(arg, 'a');
            flags.long_format = flags.long_format || has_char(arg, 'l');
            flags.classify = flags.classify || has_char(arg, 'F');
            flags.reverse = flags.reverse || has_char(arg, 'r');
            flags.recursive = flags.recursive || has_char(arg, 'R');
            i = i + 1;
        }
        assert(a.take(a.len() as int) =~= a);
        Ok(flags)
    }
}

/// What `ls` was asked: its options, the paths to list (`.` when none is
/// given), whether its output goes to files, and whether each directory's
/// listing gets a header.
pub struct LsPlan {
    pub flags: LsFlags,
    pub paths: Vec<String>,
    pub is_redirect: bool,
    pub show_header: bool,
}

/// The paths to list: the words from the first path on, or `.`.
pub open spec fn plan_paths(sources: Seq<Seq<char>>, f: LsFlags) -> Seq<Seq<char>> {
    match f.first_pathname_index {
        Some(i) => sources.skip(i as int),
        None => seq![seq!['.']],
    }
}

/// Reads the command line of `ls`: its options and paths, or the error for
/// an unknown option.
pub fn ls_plan(input: &[String]) -> (r: Result<LsPlan, String>)
    ensures
        match r {
            Ok(p) => {
                let (sources, targets) = separate_spec(views(input@));
                &&& parse_flags(sources) == Ok::<LsFlags, Seq<char>>(p.flags)
                &&& views(p.paths@) == plan_paths(sources, p.flags)
                &&& p.is_redirect == (targets.len() > 0)
                &&& p.show_header == (p.flags.recursive || input@.len() > 2)
            },
            Err(e) => parse_flags(separate_spec(views(input@)).0) == Err::<LsFlags, Seq<char>>(e@),
        },
{
    let (sources, targets) = separate_sources_from_targets(input);
    let ghost sv = ref_views(sources@);
    let flags = match LsFlags::parse(&sources) {
        Ok(f) => f,
        Err(e) => return Err(e),
    };
    let mut paths: Vec<String> = Vec::new();
    match flags.first_pathname_index {
        Some(i) => {
            proof {
                lemma_path_index_in_range(sv, flags);
            }
            let mut j = i;
            while j < sources.len()
                invariant
                    sv == ref_views(sources@),
                    i <= j <= sources@.len(),
                    views(paths@) == sv.subrange(i as int, j as int),
                decreases sources@.len() - j,
            {
                let p: String = sources[j].clone();
                let ghost before = views(paths@);
                paths.push(p);
                assert(views(paths@) =~= before.push(sv[j as int]));
                assert(sv.subrange(i as int, j + 1) =~= sv.subrange(i as int, j as int).push(sv[j as int]));
                j = j + 1;
            }
            assert(sv.subrange(i as int, sv.len() as int) =~= sv.skip(i as int));
        },
        None => {
            paths.push(String::from_str("."));
            proof {
                reveal_strlit(".");
                assert("."@ =~= seq!['.']);
                assert(views(paths@) =~= seq![seq!['.']]);
            }
        },
    }
    let show_header = flags.recursive || input.len() > 2;
    Ok(LsPlan { flags, paths, is_redirect: targets.len() > 0, show_header })
}

/// The index where the paths begin is that of a word of `args`.
proof fn lemma_path_index_in_range(args: Seq<Seq<char>>, f: LsFlags)
    requires
        parse_flags(args) == Ok::<LsFlags, Seq<char>>(f),
        f.first_pathname_index is Some,
    ensures
        f.first_pathname_index->0 < args.len(),
    decreases args.len(),
{
    if args.len() > 0 {
        if let Ok(g) = parse_flags(args.drop_last()) {
            if g.first_pathname_index is Some {
                lemma_path_index_in_range(args.drop_last(), g);
            }
        }
    }
}

/// What a path is on disk.
#[derive(Clone, Copy, Debug)]
pub enum PathKind {
    Directory,
    File,
    Missing,
}

/// The paths sorted into directories, other files, and messages for those
/// that do not exist.
pub struct PathClassification {
    pub directories: Vec<String>,
    pub files: Vec<String>,
    pub non_existent: Vec<String>,
}

/// The message for a path that does not exist.
pub open spec fn missing_message(p: Seq<char>) -> Seq<char> {
    ERROR_COLOR@ + "ls: "@ + p + ": No such file or directory"@ + RESET@ + BOLD@ + seq!['\n']
}

/// Directories, files and messages for missing paths, each in the order of
/// `paths`.
pub open spec fn classify_spec(paths: Seq<Seq<char>>, kinds: Seq<PathKind>) -> (
    Seq<Seq<char>>,
    Seq<Seq<char>>,
    Seq<Seq<char>>,
)
    decreases paths.len(),
{
    if paths.len() == 0 || kinds.len() == 0 {
        (Seq::<Seq<char>>::empty(), Seq::<Seq<char>>::empty(), Seq::<Seq<char>>::empty())
    } else {
        let (d, f, m) = classify_spec(paths.drop_last(), kinds.drop_last());
        let p = paths.last();
        match kinds.last() {
            PathKind::Directory => (d.push(p), f, m),
            PathKind::File => (d, f.push(p), m),
            PathKind::Missing => (d, f, m.push(missing_message(p))),
        }
    }
}

/// `classify_paths`: sorts the paths by what they are on disk (`kinds[i]`
/// for `paths[i]`).
pub fn classify_paths(paths: &Vec<String>, kinds: &Vec<PathKind>) -> (c: PathClassification)
    requires
        paths@.len() == kinds@.len(),
    ensures
        (views(c.directories@), views(c.files@), views(c.non_existent@)) == classify_spec(
            views(paths@),
            kinds@,
        ),
{
    let mut directories: Vec<String> = Vec::new();
    let mut files: Vec<String> = Vec::new();
    let mut non_existent: Vec<String> = Vec::new();
    let mut i: usize = 0;
    while i < paths.len()
        invariant
            paths@.len() == kinds@.len(),
            i <= paths@.len(),
            (views(directories@), views(files@), views(non_existent@)) == classify_spec(
                views(paths@).take(i as int),
                kinds@.take(i as int),
            ),
        decreases paths@.len() - i,
    {
        assert(views(paths@).take(i + 1).drop_last() =~= views(paths@).take(i as int));
        assert(kinds@.take(i + 1).drop_last() =~= kinds@.take(i as int));
        let p = &paths[i];
        match kinds[i] {
            PathKind::Directory => {
                let ghost before = views(directories@);
                directories.push(p.clone());
                assert(views(directories@) =~= before.push(p@));
            },
            PathKind::File => {
                let ghost before = views(files@);
                files.push(p.clone());
                assert(views(files@) =~= before.push(p@));
            },
            PathKind::Missing => {
                let mut m = String::from_str(ERROR_COLOR);
                m.append("ls: ");
                m.append(p.as_str());
                m.append(": No such file or directory");
                m.append(RESET);
                m.append(BOLD);
                m.append("\n");
                proof {
                    reveal_strlit("\n");
                    assert("\n"@ =~= seq!['\n']);
                    assert(m@ =~= missing_message(p@));
                }
                let ghost before = views(non_existent@);
                non_existent.push(m);
                assert(views(non_existent@) =~= before.push(missing_message(p@)));
            },
        }
        i = i + 1;
    }
    assert(views(paths@).take(paths@.len() as int) =~= views(paths@));
    assert(kinds@.take(kinds@.len() as int) =~= kinds@);
    PathClassification { directories, files, non_existent }
}

pub fn reverse_strings(v: Vec<String>) -> (r: Vec<String>)
    ensures
        views(r@) == views(v@).reverse(),
{
    let mut r: Vec<String> = Vec::new();
    let mut rest = v;
    let ghost orig = views(rest@);
    while rest.len() > 0
        invariant
            views(rest@) == orig.take(views(rest@).len() as int),
            rest@.len() <= orig.len(),
            views(r@) == orig.reverse().take(orig.len() - rest@.len()),
        decreases rest@.len(),
    {
        let ghost n = rest@.len();
        let ghost before_rest = rest@;
        assert(views(before_rest)[n - 1] == before_rest[n - 1]@);
        let x = rest.pop().unwrap();
        let ghost before = views(r@);
        r.push(x);
        assert(views(rest@) =~= orig.take(n - 1));
        assert(x@ == orig[n - 1]);
        assert(views(r@) =~= before.push(x@));
        assert(orig.reverse().take(orig.len() - n + 1) =~= orig.reverse().take(orig.len() - n).push(orig[n - 1]));
    }
    assert(orig.reverse().take(orig.len() as int) =~= orig.reverse());
    r
}

/// Sorted, then reversed for `-r`.
pub open spec fn ordered(v: Seq<Seq<char>>, reverse: bool) -> Seq<Seq<char>> {
    if reverse {
        sort_by_key(v).reverse()
    } else {
        sort_by_key(v)
    }
}

fn order(v: Vec<String>, reverse: bool) -> (r: Vec<String>)
    ensures
        views(r@) == ordered(views(v@), reverse),
{
    let sorted = sort_strings(v);
    if reverse {
        reverse_strings(sorted)
    } else {
        sorted
    }
}

/// `sort_path_classification`: each list sorted, and reversed for `-r`.
pub fn sort_path_classification(classification: &mut PathClassification, flags: &LsFlags)
    ensures
        views(final(classification).directories@) == ordered(views(old(classification).directories@), flags.reverse),
        views(final(classification).files@) == ordered(views(old(classification).files@), flags.reverse),
        views(final(classification).non_existent@) == ordered(
            views(old(classification).non_existent@),
            flags.reverse,
        ),
{
    let mut d: Vec<String> = Vec::new();
    std::mem::swap(&mut d, &mut classification.directories);
    classification.directories = order(d, flags.reverse);
    let mut n: Vec<String> = Vec::new();
    std::mem::swap(&mut n, &mut classification.non_existent);
    classification.non_existent = order(n, flags.reverse);
    let mut f: Vec<String> = Vec::new();
    std::mem::swap(&mut f, &mut classification.files);
    classification.files = order(f, flags.reverse);
}

/// The texts one after the other.
pub open spec fn concat_all(v: Seq<Seq<char>>) -> Seq<char>
    decreases v.len(),
{
    if v.len() == 0 {
        Seq::<char>::empty()
    } else {
        concat_all(v.drop_last()) + v.last()
    }
}

/// `non_existent.join("")`: what `ls` prints for the missing paths.
pub fn non_existent_text(non_existent: &Vec<String>) -> (r: String)
    ensures
        r@ == concat_all(views(non_existent@)),
{
    let mut r = String::new();
    let mut i: usize = 0;
    while i < non_existent.len()
        invariant
            i <= non_existent@.len(),
            r@ == concat_all(views(non_existent@).take(i as int)),
        decreases non_existent@.len() - i,
    {
        assert(views(non_existent@).take(i + 1).drop_last() =~= views(non_existent@).take(i as int));
        r.append(non_existent[i].as_str());
        i = i + 1;
    }
    assert(views(non_existent@).take(non_existent@.len() as int) =~= views(non_existent@));
    r
}

/// `s` without its leading whitespace (`str::trim_start`).
pub open spec fn trim_start(s: Seq<char>) -> Seq<char>
    decreases s.len(),
{
    if s.len() > 0 && is_white_space(s[0]) {
        trim_start(s.skip(1))
    } else {
        s
    }
}

pub fn trim_start_str(s: &str) -> (r: String)
    ensures
        r@ == trim_start(s@),
{
    let v = chars_of(s);
    let mut i: usize = 0;
    assert(s@.skip(0) =~= s@);
    while i < v.len() && is_whitespace(v[i])
        invariant
            v@ == s@,
            i <= v@.len(),
            trim_start(s@) == trim_start(s@.skip(i as int)),
        decreases v@.len() - i,
    {
        assert(s@.skip(i as int).skip(1) =~= s@.skip(i + 1));
        i = i + 1;
    }
    assert(s@.skip(i as int) =~= s@.subrange(i as int, v@.len() as int));
    string_of_range(&v, i, v.len())
}

/// The listing of the files given on the command line: their long lines
/// (`long_lists[i]` for `files[i]`), or their names one per line for a file,
/// or a grid on a terminal; with leading whitespace trimmed and, for a file,
/// a newline after a listing that is not empty.
pub open spec fn initial_results(listing: Seq<char>, is_redirect: bool) -> Seq<char> {
    let t = trim_start(listing);
    if is_redirect && t.len() > 0 {
        t.push('\n')
    } else {
        t
    }
}

/// `process_initial_results`: lists the files given on the command line.
/// For `-l`, `long_lists` holds each file's long line (`get_long_list`).
pub fn process_initial_results(files: &Vec<String>, long_lists: &Vec<String>, flags: &LsFlags, is_redirect: bool)
    -> (r: Result<String, String>)
    ensures
        files@.len() == 0 ==> r is Ok && r->Ok_0@ == Seq::<char>::empty(),
        files@.len() > 0 && flags.long_format ==> r is Ok && r->Ok_0@ == initial_results(
            concat_all(views(long_lists@)),
            is_redirect,
        ),
        files@.len() > 0 && !flags.long_format && is_redirect ==> r is Ok && r->Ok_0@ == initial_results(
            join_lines(views(files@)),
            true,
        ),
        files@.len() > 0 && !flags.long_format && !is_redirect ==> match r {
            Ok(t) => exists|w: nat|
                1 <= w <= 65535 && grid_fits(views(files@), w) && t@ == initial_results(
                    #[trigger] short_layout(views(files@), w),
                    false,
                ),
            Err(e) => e@ == crate::commands::ls::format::TOO_NARROW@,
        },
{
    if files.len() == 0 {
        return Ok(String::new());
    }
    let listing = if flags.long_format {
        non_existent_text(long_lists)
    } else if is_redirect {
        join_with_newlines(files)
    } else {
        let mut copy: Vec<String> = Vec::new();
        let mut i: usize = 0;
        while i < files.len()
            invariant
                i <= files@.len(),
                copy@.len() == i,
                forall|k: int| 0 <= k < i ==> #[trigger] copy@[k] == files@[k],
            decreases files@.len() - i,
        {
            copy.push(files[i].clone());
            i = i + 1;
        }
        assert(views(copy@) =~= views(files@));
        match short_format_list(copy, false) {
            Ok(t) => {
                let ghost w = choose|w: nat|
                    1 <= w <= 65535 && grid_fits(views(files@), w) && t@ == short_layout(views(files@), w);
                let trimmed = trim_start_str(t.as_str());
                assert(trimmed@ == initial_results(short_layout(views(files@), w), false));
                return Ok(trimmed);
            },
            Err(e) => return Err(e),
        }
    };
    let mut trimmed = trim_start_str(listing.as_str());
    if is_redirect && trimmed.unicode_len() > 0 {
        trimmed.append("\n");
        proof {
            reveal_strlit("\n");
        }
    }
    assert(initial_results(listing@, is_redirect) == trimmed@);
    Ok(trimmed)
}

/// An entry of a directory that `-R` may descend into.
pub struct ChildEntry {
    pub path: String,
    pub name: String,
    pub is_dir: bool,
}

/// `-R` descends into a child that is a directory, is not `.` or `..`, and
/// is not hidden unless `-a` was given.
pub open spec fn child_kept(c: ChildEntry, show_hidden: bool) -> bool {
    &&& c.name@ != seq!['.']
    &&& c.name@ != seq!['.', '.']
    &&& show_hidden || !path_is_hidden(c.path@)
    &&& c.is_dir
}

/// The paths of the children `-R` descends into, in the order read.
pub open spec fn kept_children(cs: Seq<ChildEntry>, show_hidden: bool) -> Seq<Seq<char>>
    decreases cs.len(),
{
    if cs.len() == 0 {
        Seq::<Seq<char>>::empty()
    } else {
        let rest = kept_children(cs.drop_last(), show_hidden);
        if child_kept(cs.last(), show_hidden) {
            rest.push(cs.last().path@)
        } else {
            rest
        }
    }
}

/// The directories a listing adds to the queue: none without `-R`, else the
/// kept children sorted (reversed for `-r`).
pub open spec fn queued_children(cs: Seq<ChildEntry>, flags: LsFlags) -> Seq<Seq<char>> {
    if flags.recursive {
        ordered(kept_children(cs, flags.show_hidden), flags.reverse)
    } else {
        Seq::<Seq<char>>::empty()
    }
}

/// What the listing of `dir` adds to the results: a blank line after
/// earlier results, the header `dir:` where headers are shown, then the
/// listing.
pub open spec fn listing_block(results: Seq<char>, dir: Seq<char>, listing: Seq<char>, show_header: bool) -> Seq<
    char,
> {
    (if results.len() > 0 {
        seq!['\n']
    } else {
        Seq::<char>::empty()
    }) + (if show_header {
        dir + seq![':', '\n']
    } else {
        Seq::<char>::empty()
    }) + listing
}

/// `process_directories` as a state machine: the directories still to
/// list, in order, and the results so far. The caller takes the next
/// directory, reads it, and hands back its listing and its entries.
pub struct DirectoryWalk {
    pub queue: Vec<String>,
    pub results: String,
    pub flags: LsFlags,
    pub show_header: bool,
}

fn child_is_kept(c: &ChildEntry, show_hidden: bool) -> (r: bool)
    ensures
        r == child_kept(*c, show_hidden),
{
    let n = chars_of(c.name.as_str());
    let is_dot = n.len() == 1 && n[0] == '.';
    let is_dotdot = n.len() == 2 && n[0] == '.' && n[1] == '.';
    proof {
        if c.name@ == seq!['.'] {
            assert(n@[0] == '.');
        }
        if c.name@ == seq!['.', '.'] {
            assert(n@[0] == '.' && n@[1] == '.');
        }
        if is_dot {
            assert(c.name@ =~= seq!['.']);
        }
        if is_dotdot {
            assert(c.name@ =~= seq!['.', '.']);
        }
    }
    !is_dot && !is_dotdot && (show_hidden || !crate::commands::ls::system::is_hidden(c.path.as_str())) && c.is_dir
}

impl DirectoryWalk {
    /// Starts with the directories given on the command line and the
    /// results of the files.
    pub fn new(directories: Vec<String>, results: String, flags: LsFlags, show_header: bool) -> (w: Self)
        ensures
            w.queue@ == directories@,
            w.results == results,
            w.flags == flags,
            w.show_header == show_header,
    {
        DirectoryWalk { queue: directories, results, flags, show_header }
    }

    /// The next directory to list, taken from the front of the queue.
    pub fn next_directory(&mut self) -> (r: Option<String>)
        ensures
            old(self).queue@.len() == 0 ==> r is None && *final(self) == *old(self),
            old(self).queue@.len() > 0 ==> r == Some(old(self).queue@[0]) && final(self).queue@ == old(
                self,
            ).queue@.skip(1) && final(self).results == old(self).results && final(self).flags == old(
                self,
            ).flags && final(self).show_header == old(self).show_header,
    {
        if self.queue.len() == 0 {
            return None;
        }
        let d = self.queue.remove(0);
        assert(self.queue@ =~= old(self).queue@.skip(1));
        Some(d)
    }

    /// Adds the listing of `dir`, and for `-R` queues the subdirectories
    /// among `children`, the entries read from it.
    pub fn add_listing(&mut self, dir: &str, listing: &str, children: &Vec<ChildEntry>)
        ensures
            final(self).results@ == old(self).results@ + listing_block(
                old(self).results@,
                dir@,
                listing@,
                old(self).show_header,
            ),
            views(final(self).queue@) == views(old(self).queue@) + queued_children(children@, old(self).flags),
            final(self).flags == old(self).flags,
            final(self).show_header == old(self).show_header,
    {
        let ghost r0 = self.results@;
        if self.results.unicode_len() > 0 {
            self.results.append("\n");
        }
        if self.show_header {
            self.results.append(dir);
            self.results.append(":\n");
        }
        self.results.append(listing);
        proof {
            reveal_strlit("\n");
            reveal_strlit(":\n");
            assert("\n"@ =~= seq!['\n']);
            assert(":\n"@ =~= seq![':', '\n']);
            assert(self.results@ =~= r0 + listing_block(r0, dir@, listing@, self.show_header));
        }
        let ghost r1 = self.results;
        let ghost q1 = views(self.queue@);
        if self.flags.recursive {
            let mut kept: Vec<String> = Vec::new();
            let mut i: usize = 0;
            while i < children.len()
                invariant
                    self.flags == old(self).flags,
                    self.show_header == old(self).show_header,
                    self.results == r1,
                    views(self.queue@) == q1,
                    i <= children@.len(),
                    views(kept@) == kept_children(children@.take(i as int), self.flags.show_hidden),
                decreases children@.len() - i,
            {
                assert(children@.take(i + 1).drop_last() =~= children@.take(i as int));
                let c = &children[i];
                if child_is_kept(c, self.flags.show_hidden) {
                    let ghost before = views(kept@);
                    kept.push(c.path.clone());
                    assert(views(kept@) =~= before.push(c.path@));
                }
                i = i + 1;
            }
            assert(children@.take(children@.len() as int) =~= children@);
            let ordered_children = order(kept, self.flags.reverse);
            let ghost q0 = views(self.queue@);
            let mut j: usize = 0;
            while j < ordered_children.len()
                invariant
                    self.flags == old(self).flags,
                    self.show_header == old(self).show_header,
                    self.results == r1,
                    j <= ordered_children@.len(),
                    views(self.queue@) == q0 + views(ordered_children@).take(j as int),
                decreases ordered_children@.len() - j,
            {
                let ghost before = views(self.queue@);
                self.queue.push(ordered_children[j].clone());
                assert(views(self.queue@) =~= before.push(ordered_children@[j as int]@));
                assert(views(ordered_children@).take(j + 1) =~= views(ordered_children@).take(j as int).push(
                    ordered_children@[j as int]@,
                ));
                j = j + 1;
            }
            assert(views(ordered_children@).take(ordered_children@.len() as int) =~= views(ordered_children@));
        } else {
            assert(views(self.queue@) =~= views(self.queue@) + Seq::<Seq<char>>::empty());
        }
    }
}

} // verus!
