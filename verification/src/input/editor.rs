use std::collections::VecDeque;

use vstd::prelude::*;

use vstd::utf8::{is_ascii_chars, is_ascii_chars_encode_utf8};

use crate::ansi::{cursor_up, CLEAR_LINE, FOLDER_COLOR, RESET_FG, USER_COLOR};
use crate::commands::ls::format::byte_len;
use crate::fork::{join_spaces, join_with_spaces};
use crate::input::backtrack::{find_matches, lists_matches};
use crate::num::decimal;
use crate::text::{chars_of, eq_str, pad_right, pad_right_string, split_whitespace, split_whitespace_words, string_of, views};

verus! {

/// The commands that completion offers.
pub open spec fn command_names() -> Seq<Seq<char>> {
    seq![
        "bg"@,
        "cat"@,
        "cd"@,
        "cp"@,
        "echo"@,
        "exit"@,
        "fg"@,
        "jobs"@,
        "kill"@,
        "ls"@,
        "mkdir"@,
        "man"@,
        "mv"@,
        "pwd"@,
        "rm"@,
        "sleep"@,
        "touch"@,
    ]
}

/// The commands that completion offers, in the order it tries them.
pub fn commands() -> (v: Vec<String>)
    ensures
        views(v@) == command_names(),
{
    let mut v: Vec<String> = Vec::new();
    v.push(String::from_str("bg"));
    v.push(String::from_str("cat"));
    v.push(String::from_str("cd"));
    v.push(String::from_str("cp"));
    v.push(String::from_str("echo"));
    v.push(String::from_str("exit"));
    v.push(String::from_str("fg"));
    v.push(String::from_str("jobs"));
    v.push(String::from_str("kill"));
    v.push(String::from_str("ls"));
    v.push(String::from_str("mkdir"));
    v.push(String::from_str("man"));
    v.push(String::from_str("mv"));
    v.push(String::from_str("pwd"));
    v.push(String::from_str("rm"));
    v.push(String::from_str("sleep"));
    v.push(String::from_str("touch"));
    assert(views(v@) =~= command_names());
    v
}

/// The working directory as the prompt shows it: with the home directory
/// at its start written `~`.
pub open spec fn prompt_cwd(cwd: Seq<char>, home: Option<Seq<char>>) -> Seq<char> {
    match home {
        Some(h) => if h.len() <= cwd.len() && cwd.take(h.len() as int) == h {
            seq!['~'] + cwd.skip(h.len() as int)
        } else {
            cwd
        },
        None => cwd,
    }
}

/// The prompt: `user@host:cwd$ `, the user and host in one colour and the
/// directory in another.
pub open spec fn prompt_spec(cwd: Seq<char>, username: Seq<char>, hostname: Seq<char>, home: Option<Seq<char>>) -> Seq<
    char,
> {
    USER_COLOR@ + username + seq!['@'] + hostname + RESET_FG@ + seq![':'] + FOLDER_COLOR@ + prompt_cwd(cwd, home)
        + RESET_FG@ + seq!['$', ' ']
}

/// `prompt`, given the working directory, the user's and host's names and
/// the home directory (where there is one).
pub fn prompt_text(cwd: &str, username: &str, hostname: &str, home: Option<String>) -> (r: String)
    ensures
        r@ == prompt_spec(
            cwd@,
            username@,
            hostname@,
            match home {
                Some(h) => Some(h@),
                None => None,
            },
        ),
{
    let shown = match &home {
        Some(h) => {
            if crate::text::starts_with_text(cwd, h.as_str()) {
                let rest = crate::text::strip_prefix_or_keep_str(cwd, h.as_str());
                let mut t = String::from_str("~");
                t.append(rest.as_str());
                proof {
                    reveal_strlit("~");
                    assert("~"@ =~= seq!['~']);
                }
                t
            } else {
                String::from_str(cwd)
            }
        },
        None => String::from_str(cwd),
    };
    let mut r = String::from_str(USER_COLOR);
    r.append(username);
    r.append("@");
    r.append(hostname);
    r.append(RESET_FG);
    r.append(":");
    r.append(FOLDER_COLOR);
    r.append(shown.as_str());
    r.append(RESET_FG);
    r.append("$ ");
    proof {
        reveal_strlit("@");
        reveal_strlit(":");
        reveal_strlit("$ ");
        assert("@"@ =~= seq!['@']);
        assert(":"@ =~= seq![':']);
        assert("$ "@ =~= seq!['$', ' ']);
    }
    r
}

/// `termion::clear::AfterCursor` as text: the escape sequence that clears
/// the screen after the cursor, `ESC [ J`, as the crate's source derives it.
#[verifier::external_body]
fn clear_after_cursor() -> (r: String)
    ensures
        r@ == "\x1b[J"@,
{
    termion::clear::AfterCursor.to_string()
}

/// `termion::cursor::Left(n)` as text: `ESC [ n D`, the number in decimal,
/// as the crate's `Display` impl writes it.
#[verifier::external_body]
fn cursor_left(n: u16) -> (r: String)
    ensures
        r@ == "\x1b["@ + decimal(n as nat) + seq!['D'],
{
    termion::cursor::Left(n).to_string()
}

/// `termion::cursor::Show` as text: `ESC [ ? 2 5 h`, as the crate's source
/// derives it.
#[verifier::external_body]
fn show_cursor() -> (r: String)
    ensures
        r@ == "\x1b[?25h"@,
{
    termion::cursor::Show.to_string()
}

/// What is written when the prompt first shows: a carriage return, the
/// prompt, and the cursor made visible.
pub open spec fn prompt_start_text(prompt: Seq<char>) -> Seq<char> {
    seq!['\r'] + prompt + "\x1b[?25h"@
}

pub fn prompt_start(prompt: &str) -> (r: String)
    ensures
        r@ == prompt_start_text(prompt@),
{
    let mut r = String::from_str("\r");
    r.append(prompt);
    r.append(show_cursor().as_str());
    proof {
        reveal_strlit("\r");
        assert("\r"@ =~= seq!['\r']);
    }
    r
}

/// A name in the working directory, as path completion reads it.
pub struct DirName {
    pub name: String,
    pub is_dir: bool,
}

/// A key, as the line editor acts on it. `Tab` carries what completion
/// reads: the names in the working directory (none when it cannot be
/// read) and the terminal's width.
pub enum EditKey {
    CtrlD,
    CtrlU,
    Tab(Option<Vec<DirName>>, usize),
    Char(char),
    Backspace,
    Left,
    Right,
    Up,
    Down,
    Other,
}

/// What follows a key: nothing more, the line redrawn, the line submitted,
/// or the end of input.
#[derive(Clone, Copy, Debug, PartialEq, Eq)]
pub enum KeyStep {
    Stay,
    Redraw,
    Submit,
    Eof,
}

/// The line being edited and the cursor, counted in characters.
pub struct LineEditor {
    pub input: String,
    pub cursor: usize,
}

/// The history turned one step to the right: the last line comes first.
pub open spec fn rotate_right(h: Seq<Seq<char>>) -> Seq<Seq<char>> {
    seq![h.last()] + h.drop_last()
}

/// The history turned one step to the left: the first line goes last.
pub open spec fn rotate_left(h: Seq<Seq<char>>) -> Seq<Seq<char>> {
    h.drop_first().push(h[0])
}

/// The line and cursor after a key other than Tab, Enter and Ctrl-D.
pub open spec fn line_after_key(input: Seq<char>, cursor: int, h: Seq<Seq<char>>, key: EditKey) -> (Seq<char>, int) {
    match key {
        EditKey::CtrlU => (Seq::<char>::empty(), 0),
        EditKey::Char(c) => (input.take(cursor) + seq![c] + input.skip(cursor), cursor + 1),
        EditKey::Backspace => if cursor > 0 {
            (input.take(cursor - 1) + input.skip(cursor), cursor - 1)
        } else {
            (input, cursor)
        },
        EditKey::Left => if cursor > 0 {
            (input, cursor - 1)
        } else {
            (input, cursor)
        },
        EditKey::Right => if cursor < input.len() {
            (input, cursor + 1)
        } else {
            (input, cursor)
        },
        EditKey::Up => if h.len() > 0 {
            (h.last(), h.last().len() as int)
        } else {
            (input, cursor)
        },
        EditKey::Down => if h.len() > 0 {
            (rotate_left(h)[0], rotate_left(h)[0].len() as int)
        } else {
            (input, cursor)
        },
        _ => (input, cursor),
    }
}

/// The history after a key: Up and Down turn it.
pub open spec fn history_after_key(h: Seq<Seq<char>>, key: EditKey) -> Seq<Seq<char>> {
    match key {
        EditKey::Up => if h.len() > 0 {
            rotate_right(h)
        } else {
            h
        },
        EditKey::Down => if h.len() > 0 {
            rotate_left(h)
        } else {
            h
        },
        _ => h,
    }
}

/// The line redrawn: back to the start, the prompt, the rest of the screen
/// cleared, the line, and the cursor moved back over the characters after
/// it.
pub open spec fn redraw_text(prompt: Seq<char>, input: Seq<char>, cursor: int) -> Seq<char> {
    let remaining = input.len() - cursor;
    seq!['\r'] + prompt + "\x1b[J"@ + input + (if remaining > 0 {
        "\x1b["@ + decimal((remaining as u16) as nat) + seq!['D']
    } else {
        Seq::<char>::empty()
    })
}

impl LineEditor {
    pub fn new() -> (e: LineEditor)
        ensures
            e.input@ == Seq::<char>::empty(),
            e.cursor == 0,
    {
        LineEditor { input: String::new(), cursor: 0 }
    }

    /// The text that redraws the line after `prompt`.
    pub fn redraw(&self, prompt: &str) -> (r: String)
        requires
            self.cursor <= self.input@.len(),
        ensures
            r@ == redraw_text(prompt@, self.input@, self.cursor as int),
    {
        let mut r = String::from_str("\r");
        r.append(prompt);
        r.append(clear_after_cursor().as_str());
        r.append(self.input.as_str());
        let n = self.input.unicode_len();
        let remaining = n - self.cursor;
        if remaining > 0 {
            let k = remaining as u16;
            r.append(cursor_left(k).as_str());
        }
        proof {
            reveal_strlit("\r");
            assert("\r"@ =~= seq!['\r']);
        }
        r
    }

    /// Applies a key other than Tab, Enter and Ctrl-D to the line and the
    /// history.
    pub fn edit(&mut self, key: &EditKey, history: &mut VecDeque<String>)
        requires
            old(self).cursor <= old(self).input@.len(),
            old(self).input@.len() < usize::MAX,
        ensures
            final(self).cursor <= final(self).input@.len(),
            (final(self).input@, final(self).cursor as int) == line_after_key(
                old(self).input@,
                old(self).cursor as int,
                views(old(history)@),
                *key,
            ),
            views(final(history)@) == history_after_key(views(old(history)@), *key),
    {
        let ghost h = views(history@);
        match key {
            EditKey::CtrlU => {
                self.input = String::new();
                self.cursor = 0;
            },
            EditKey::Char(c) => {
                let v = chars_of(self.input.as_str());
                let mut w: Vec<char> = Vec::new();
                let mut i: usize = 0;
                while i < self.cursor
                    invariant
                        v@ == old(self).input@,
                        self.cursor == old(self).cursor,
                        self.cursor <= v@.len(),
                        i <= self.cursor,
                        w@ == v@.take(i as int),
                    decreases self.cursor - i,
                {
                    w.push(v[i]);
                    assert(v@.take(i + 1) =~= v@.take(i as int).push(v@[i as int]));
                    i = i + 1;
                }
                w.push(*c);
                let mut i = self.cursor;
                let ghost mid = w@;
                while i < v.len()
                    invariant
                        v@ == old(self).input@,
                        self.cursor <= i <= v@.len(),
                        w@ == mid + v@.subrange(self.cursor as int, i as int),
                    decreases v@.len() - i,
                {
                    w.push(v[i]);
                    assert(v@.subrange(self.cursor as int, i + 1) =~= v@.subrange(self.cursor as int, i as int).push(
                        v@[i as int],
                    ));
                    i = i + 1;
                }
                assert(w@ =~= v@.take(self.cursor as int) + seq![*c] + v@.skip(self.cursor as int));
                self.input = string_of(&w);
                self.cursor = self.cursor + 1;
            },
            EditKey::Backspace => {
                if self.cursor > 0 {
                    let v = chars_of(self.input.as_str());
                    let mut w: Vec<char> = Vec::new();
                    let k = self.cursor - 1;
                    let mut i: usize = 0;
                    while i < k
                        invariant
                            v@ == old(self).input@,
                            k < v@.len(),
                            i <= k,
                            w@ == v@.take(i as int),
                        decreases k - i,
                    {
                        w.push(v[i]);
                        assert(v@.take(i + 1) =~= v@.take(i as int).push(v@[i as int]));
                        i = i + 1;
                    }
                    let mut i = k + 1;
                    let ghost mid = w@;
                    while i < v.len()
                        invariant
                            v@ == old(self).input@,
                            k + 1 <= i <= v@.len(),
                            w@ == mid + v@.subrange(k + 1, i as int),
                        decreases v@.len() - i,
                    {
                        w.push(v[i]);
                        assert(v@.subrange(k + 1, i + 1) =~= v@.subrange(k + 1, i as int).push(v@[i as int]));
                        i = i + 1;
                    }
                    assert(w@ =~= v@.take(self.cursor - 1) + v@.skip(self.cursor as int));
                    self.input = string_of(&w);
                    self.cursor = self.cursor - 1;
                }
            },
            EditKey::Left => {
                if self.cursor > 0 {
                    self.cursor = self.cursor - 1;
                }
            },
            EditKey::Right => {
                if self.cursor < self.input.unicode_len() {
                    self.cursor = self.cursor + 1;
                }
            },
            EditKey::Up => {
                if history.len() > 0 {
                    let last = history.pop_back().unwrap();
                    history.push_front(last.clone());
                    assert(views(history@) =~= rotate_right(h));
                    self.cursor = last.unicode_len();
                    self.input = last;
                }
            },
            EditKey::Down => {
                if history.len() > 0 {
                    let first = history.pop_front().unwrap();
                    history.push_back(first);
                    assert(views(history@) =~= rotate_left(h));
                    let front = history[0].clone();
                    self.cursor = front.unicode_len();
                    self.input = front;
                }
            },
            _ => {},
        }
    }
}

/// The escape sequence that moves the cursor up `rows` rows.
pub open spec fn cursor_up_text(rows: nat) -> Seq<char> {
    "\x1b["@ + decimal(rows) + seq!['A']
}

/// The list of options shown for `rm -` and `ls -`.
pub open spec fn options_usage(cmd: Seq<char>) -> Seq<char> {
    if cmd == seq!['r', 'm'] {
        crate::commands::rm::OPTIONS_USAGE@
    } else if cmd == seq!['l', 's'] {
        crate::commands::ls::OPTIONS_USAGE@
    } else {
        Seq::<char>::empty()
    }
}

/// The number of newlines in `s`.
pub open spec fn count_newlines(s: Seq<char>) -> nat
    decreases s.len(),
{
    if s.len() == 0 {
        0
    } else {
        count_newlines(s.drop_last()) + if s.last() == '\n' {
            1nat
        } else {
            0nat
        }
    }
}

/// What is written to show a command's options: the list below the line,
/// the cursor back up, and the prompt and line again.
pub open spec fn usage_text(message: Seq<char>, prompt: Seq<char>, input: Seq<char>) -> Seq<char> {
    (if message.len() == 0 {
        Seq::<char>::empty()
    } else {
        message + seq!['\r'] + cursor_up_text(count_newlines(message)) + seq!['\r'] + prompt + input
    }) + seq!['\r'] + prompt + input
}

/// The line asks for a command's options: more than one word, the last `-`.
pub open spec fn wants_options(input: Seq<char>) -> bool {
    let w = split_whitespace(input);
    w.len() > 1 && w.last() == seq!['-']
}

/// Completion is of a command: no word yet, or one word still being typed.
pub open spec fn waiting_for_cmd(input: Seq<char>) -> bool {
    let w = split_whitespace(input);
    w.len() == 0 || (w.len() == 1 && input.len() > 0 && input.last() != ' ')
}

/// The text completion extends: the last word, or nothing after a blank
/// (or on an empty line).
pub open spec fn tab_partial(input: Seq<char>) -> Seq<char> {
    let w = split_whitespace(input);
    if waiting_for_cmd(input) {
        if w.len() == 0 {
            Seq::<char>::empty()
        } else {
            w.last()
        }
    } else if input.len() > 0 && input.last() == ' ' {
        Seq::<char>::empty()
    } else {
        w.last()
    }
}

/// A name completion offers: one that does not start with a dot.
pub open spec fn offered(d: DirName) -> bool {
    !(d.name@.len() > 0 && d.name@[0] == '.')
}

/// A name as completion offers it: a directory with `/` after it.
pub open spec fn candidate_text(d: DirName) -> Seq<char> {
    if d.is_dir {
        d.name@.push('/')
    } else {
        d.name@
    }
}

/// The names completion offers for a path, in the order read.
pub open spec fn path_candidates(ds: Seq<DirName>) -> Seq<Seq<char>>
    decreases ds.len(),
{
    if ds.len() == 0 {
        Seq::<Seq<char>>::empty()
    } else {
        let rest = path_candidates(ds.drop_last());
        if offered(ds.last()) {
            rest.push(candidate_text(ds.last()))
        } else {
            rest
        }
    }
}

/// What completion chooses from.
pub open spec fn tab_data(input: Seq<char>, entries: Seq<DirName>) -> Seq<Seq<char>> {
    if waiting_for_cmd(input) {
        command_names()
    } else {
        path_candidates(entries)
    }
}

/// The line with its last word replaced by the one match, and a blank.
pub open spec fn completed_input(input: Seq<char>, m: Seq<char>) -> Seq<char> {
    let w = split_whitespace(input);
    let head = if w.len() > 0 {
        join_spaces(w.drop_last())
    } else {
        Seq::<char>::empty()
    };
    (if head.len() > 0 && head.last() != ' ' {
        head.push(' ')
    } else {
        head
    }) + m + seq![' ']
}

/// The longest match, in bytes.
pub open spec fn max_bytes(m: Seq<Seq<char>>) -> nat
    decreases m.len(),
{
    if m.len() == 0 {
        0
    } else {
        let rest = max_bytes(m.drop_last());
        let b = byte_len(m.last()) as nat;
        if b > rest {
            b
        } else {
            rest
        }
    }
}

/// The columns of the list of matches: as many as fit, at least one.
pub open spec fn poss_cols(m: Seq<Seq<char>>, tw: nat) -> nat {
    let c = tw / (max_bytes(m) + 2);
    if c >= 1 {
        c
    } else {
        1
    }
}

pub open spec fn poss_rows(m: Seq<Seq<char>>, tw: nat) -> nat {
    ((m.len() + poss_cols(m, tw) - 1) / poss_cols(m, tw) as int) as nat
}

/// A cell of the list: the match padded to the column width, where it
/// ends before the terminal's edge.
pub open spec fn poss_cell(m: Seq<Seq<char>>, idx: int, col: int, cw: nat, tw: nat) -> Seq<char> {
    if 0 <= idx < m.len() && col * cw + byte_len(m[idx]) < tw {
        pad_right(m[idx], cw)
    } else {
        Seq::<char>::empty()
    }
}

pub open spec fn poss_row(m: Seq<Seq<char>>, row: int, rows: nat, cols: nat, cw: nat, tw: nat) -> Seq<char>
    decreases cols,
{
    if cols == 0 {
        Seq::<char>::empty()
    } else {
        let col = cols - 1;
        poss_row(m, row, rows, col as nat, cw, tw) + poss_cell(m, row + col * rows, col, cw, tw)
    }
}

pub open spec fn poss_lines(m: Seq<Seq<char>>, count: nat, rows: nat, cols: nat, cw: nat, tw: nat) -> Seq<char>
    decreases count,
{
    if count == 0 {
        Seq::<char>::empty()
    } else {
        let row = count - 1;
        poss_lines(m, row as nat, rows, cols, cw, tw) + poss_row(m, row, rows, cols, cw, tw) + (if row < rows - 1 {
            seq!['\r', '\n']
        } else {
            Seq::<char>::empty()
        })
    }
}

/// The matches listed below the line, down the columns, then the cursor
/// back up and the prompt and line again.
pub open spec fn possibilities_text(m: Seq<Seq<char>>, tw: nat, prompt: Seq<char>, input: Seq<char>) -> Seq<char> {
    if m.len() == 0 {
        Seq::<char>::empty()
    } else {
        let rows = poss_rows(m, tw);
        seq!['\r', '\n'] + poss_lines(m, rows, rows, poss_cols(m, tw), max_bytes(m) + 2, tw) + seq!['\r']
            + cursor_up_text(rows) + seq!['\r'] + prompt + input
    }
}

/// After completion found the matches `m`: whether the line stays as it
/// is, the new line and cursor, and what is written.
pub open spec fn tab_after(input: Seq<char>, cursor: int, m: Seq<Seq<char>>, prompt: Seq<char>, tw: nat) -> (
    bool,
    Seq<char>,
    int,
    Seq<char>,
) {
    if m.len() == 0 {
        (true, input, cursor, Seq::<char>::empty())
    } else if m.len() == 1 {
        let ni = completed_input(input, m[0]);
        (false, ni, ni.len() as int, seq!['\r'] + CLEAR_LINE@ + prompt + ni)
    } else {
        (true, input, cursor, possibilities_text(m, tw, prompt, input))
    }
}

fn max_bytes_of(m: &Vec<String>) -> (r: usize)
    ensures
        r == max_bytes(views(m@)),
{
    let mut r: usize = 0;
    let mut i: usize = 0;
    while i < m.len()
        invariant
            i <= m@.len(),
            r == max_bytes(views(m@).take(i as int)),
        decreases m@.len() - i,
    {
        assert(views(m@).take(i + 1).drop_last() =~= views(m@).take(i as int));
        let b = m[i].as_str().len();
        if b > r {
            r = b;
        }
        i = i + 1;
    }
    assert(views(m@).take(m@.len() as int) =~= views(m@));
    r
}

/// `display_possibilities`: the text that lists the matches below the line.
pub fn display_possibilities(matches: &Vec<String>, term_width: usize, prompt: &str, input: &str) -> (r: String)
    requires
        max_bytes(views(matches@)) + 2 <= usize::MAX,
    ensures
        r@ == possibilities_text(views(matches@), term_width as nat, prompt@, input@),
{
    let ghost m = views(matches@);
    if matches.len() == 0 {
        return String::new();
    }
    let max_len = max_bytes_of(matches);
    let col_width = max_len + 2;
    let c = term_width / col_width;
    let num_cols = if c >= 1 {
        c
    } else {
        1
    };
    let n = matches.len();
    let num_rows = (n - 1) / num_cols + 1;
    assert(num_rows == (n + num_cols - 1) / num_cols as int) by (nonlinear_arith)
        requires
            num_cols >= 1,
            n >= 1,
            num_rows == (n - 1) / num_cols as int + 1,
    ;
    assert(num_rows <= n) by (nonlinear_arith)
        requires
            num_cols >= 1,
            n >= 1,
            num_rows == (n - 1) / num_cols as int + 1,
    ;
    let mut out = String::from_str("\r\n");
    proof {
        reveal_strlit("\r\n");
        assert("\r\n"@ =~= seq!['\r', '\n']);
    }
    let ghost start = out@;
    let mut row: usize = 0;
    while row < num_rows
        invariant
            m == views(matches@),
            n == m.len(),
            n >= 1,
            col_width == max_bytes(m) + 2,
            num_cols == poss_cols(m, term_width as nat),
            num_cols >= 1,
            num_rows == (n + num_cols - 1) / num_cols as int,
            num_rows <= n,
            row <= num_rows,
            out@ == start + poss_lines(m, row as nat, num_rows as nat, num_cols as nat, col_width as nat, term_width as nat),
        decreases num_rows - row,
    {
        let ghost before = out@;
        let mut col: usize = 0;
        while col < num_cols
            invariant
                m == views(matches@),
                n == m.len(),
                col_width == max_bytes(m) + 2,
                num_cols == poss_cols(m, term_width as nat),
                num_cols >= 1,
                num_rows == (n + num_cols - 1) / num_cols as int,
                num_rows <= n,
                row < num_rows,
                col <= num_cols,
                out@ == before + poss_row(m, row as int, num_rows as nat, col as nat, col_width as nat, term_width as nat),
            decreases num_cols - col,
        {
            let ghost mid = out@;
            let product = col.checked_mul(num_rows);
            let in_range = match product {
                Some(p) => p < n - row,
                None => false,
            };
            assert(in_range == (row + col * num_rows < n)) by (nonlinear_arith)
                requires
                    in_range == (match product {
                        Some(p) => p < n - row,
                        None => false,
                    }),
                    product == (if col * num_rows > usize::MAX { None::<usize> } else { Some((col * num_rows) as usize) }),
                    row < n,
                    col >= 0,
                    num_rows >= 0,
            ;
            if in_range {
                let idx = row + product.unwrap();
                let entry = matches[idx].as_str();
                let b = entry.len();
                assert(m[idx as int] == entry@);
                assert(b == byte_len(m[idx as int]));
                let fits = if col == 0 {
                    assert(col * col_width == 0) by (nonlinear_arith)
                        requires
                            col == 0,
                    ;
                    b < term_width
                } else {
                    assert(col * col_width <= num_cols * col_width) by (nonlinear_arith)
                        requires
                            col <= num_cols,
                    ;
                    assert(num_cols * col_width <= term_width) by (nonlinear_arith)
                        requires
                            num_cols == (if (term_width as int) / (col_width as int) >= 1 { (term_width as int) / (col_width as int) } else { 1 }),
                            col >= 1,
                            col < num_cols,
                            col_width >= 2,
                    ;
                    let used = col * col_width;
                    used < term_width && b < term_width - used
                };
                assert(fits == (col * col_width + byte_len(m[idx as int]) < term_width));
                if fits {
                    let cell = pad_right_string(entry, col_width);
                    out.append(cell.as_str());
                }
                assert(out@ =~= mid + poss_cell(m, idx as int, col as int, col_width as nat, term_width as nat));
            } else {
                assert(out@ =~= mid + poss_cell(m, row + col * num_rows, col as int, col_width as nat, term_width as nat));
            }
            assert(out@ =~= before + poss_row(m, row as int, num_rows as nat, (col + 1) as nat, col_width as nat, term_width as nat));
            col = col + 1;
        }
        if row < num_rows - 1 {
            out.append("\r\n");
            proof {
                reveal_strlit("\r\n");
                assert("\r\n"@ =~= seq!['\r', '\n']);
            }
        }
        assert(out@ =~= start + poss_lines(m, (row + 1) as nat, num_rows as nat, num_cols as nat, col_width as nat, term_width as nat));
        row = row + 1;
    }
    out.append("\r");
    out.append(cursor_up(num_rows).as_str());
    out.append("\r");
    out.append(prompt);
    out.append(input);
    proof {
        reveal_strlit("\r");
        assert("\r"@ =~= seq!['\r']);
    }
    out
}

proof fn lemma_command_bytes()
    ensures
        forall|x: Seq<char>| command_names().contains(x) ==> byte_len(x) + 2 <= usize::MAX,
{
    reveal_strlit("bg");
    reveal_strlit("cat");
    reveal_strlit("cd");
    reveal_strlit("cp");
    reveal_strlit("echo");
    reveal_strlit("exit");
    reveal_strlit("fg");
    reveal_strlit("jobs");
    reveal_strlit("kill");
    reveal_strlit("ls");
    reveal_strlit("mkdir");
    reveal_strlit("man");
    reveal_strlit("mv");
    reveal_strlit("pwd");
    reveal_strlit("rm");
    reveal_strlit("sleep");
    reveal_strlit("touch");
    assert forall|x: Seq<char>| command_names().contains(x) implies byte_len(x) + 2 <= usize::MAX by {
        let i = choose|i: int| 0 <= i < command_names().len() && command_names()[i] == x;
        assert(x.len() <= 5);
        assert(is_ascii_chars(x));
        is_ascii_chars_encode_utf8(x);
    }
}

proof fn lemma_candidate_bytes(ds: Seq<DirName>)
    requires
        forall|k: int| 0 <= k < ds.len() ==> byte_len(candidate_text(#[trigger] ds[k])) + 2 <= usize::MAX,
    ensures
        forall|x: Seq<char>| path_candidates(ds).contains(x) ==> byte_len(x) + 2 <= usize::MAX,
    decreases ds.len(),
{
    if ds.len() > 0 {
        let t = ds.drop_last();
        assert forall|k: int| 0 <= k < t.len() implies byte_len(candidate_text(#[trigger] t[k])) + 2 <= usize::MAX by {
            assert(t[k] == ds[k]);
        }
        lemma_candidate_bytes(t);
        assert(byte_len(candidate_text(ds[ds.len() - 1])) + 2 <= usize::MAX);
        assert forall|x: Seq<char>| path_candidates(ds).contains(x) implies byte_len(x) + 2 <= usize::MAX by {
            let rest = path_candidates(t);
            if offered(ds.last()) {
                let j = choose|j: int| 0 <= j < rest.push(candidate_text(ds.last())).len() && rest.push(
                    candidate_text(ds.last()),
                )[j] == x;
                if j < rest.len() {
                    assert(rest.contains(x));
                }
            }
        }
    }
}

proof fn lemma_max_bytes_bound(m: Seq<Seq<char>>)
    requires
        forall|i: int| 0 <= i < m.len() ==> byte_len(#[trigger] m[i]) + 2 <= usize::MAX,
    ensures
        max_bytes(m) + 2 <= usize::MAX,
    decreases m.len(),
{
    if m.len() > 0 {
        let t = m.drop_last();
        assert forall|i: int| 0 <= i < t.len() implies byte_len(#[trigger] t[i]) + 2 <= usize::MAX by {
            assert(t[i] == m[i]);
        }
        lemma_max_bytes_bound(t);
        assert(byte_len(m[m.len() - 1]) + 2 <= usize::MAX);
    }
}

fn path_candidate_list(ds: &Vec<DirName>) -> (r: Vec<String>)
    ensures
        views(r@) == path_candidates(ds@),
{
    let mut r: Vec<String> = Vec::new();
    let mut i: usize = 0;
    while i < ds.len()
        invariant
            i <= ds@.len(),
            views(r@) == path_candidates(ds@.take(i as int)),
        decreases ds@.len() - i,
    {
        assert(ds@.take(i + 1).drop_last() =~= ds@.take(i as int));
        let d = &ds[i];
        let cs = chars_of(d.name.as_str());
        if !(cs.len() > 0 && cs[0] == '.') {
            let mut name = d.name.clone();
            if d.is_dir {
                name.append("/");
                proof {
                    reveal_strlit("/");
                    assert("/"@ =~= seq!['/']);
                }
            }
            assert(name@ =~= candidate_text(*d));
            let ghost before = views(r@);
            r.push(name);
            assert(views(r@) =~= before.push(candidate_text(*d)));
        }
        i = i + 1;
    }
    assert(ds@.take(ds@.len() as int) =~= ds@);
    r
}

fn count_newlines_in(s: &str) -> (n: usize)
    ensures
        n == count_newlines(s@),
{
    let v = chars_of(s);
    let mut n: usize = 0;
    let mut i: usize = 0;
    while i < v.len()
        invariant
            v@ == s@,
            i <= v@.len(),
            n <= i,
            n == count_newlines(s@.take(i as int)),
        decreases v@.len() - i,
    {
        assert(s@.take(i + 1).drop_last() =~= s@.take(i as int));
        if v[i] == '\n' {
            n = n + 1;
        }
        i = i + 1;
    }
    assert(s@.take(v@.len() as int) =~= s@);
    n
}

/// `check_options`: the text that shows the options of `cmd` below the
/// line (none for a command without a list) and writes the line again.
pub fn check_options(prompt: &str, input: &str, cmd: &str) -> (r: String)
    ensures
        r@ == usage_text(options_usage(cmd@), prompt@, input@),
{
    proof {
        reveal_strlit("rm");
        reveal_strlit("ls");
        assert("rm"@ =~= seq!['r', 'm']);
        assert("ls"@ =~= seq!['l', 's']);
        reveal_strlit("\r");
        assert("\r"@ =~= seq!['\r']);
    }
    let message = if eq_str(cmd, "rm") {
        crate::commands::rm::OPTIONS_USAGE
    } else if eq_str(cmd, "ls") {
        crate::commands::ls::OPTIONS_USAGE
    } else {
        ""
    };
    proof {
        reveal_strlit("");
    }
    let mut r = String::new();
    if message.unicode_len() > 0 {
        r.append(message);
        r.append("\r");
        r.append(cursor_up(count_newlines_in(message)).as_str());
        r.append("\r");
        r.append(prompt);
        r.append(input);
    }
    r.append("\r");
    r.append(prompt);
    r.append(input);
    r
}

/// What Tab does to a line: `(line stays, new line, new cursor, text
/// written)`, for the names `entries` in the working directory (`None`
/// when it cannot be read) and the terminal's width.
pub open spec fn tab_outcome(
    input: Seq<char>,
    cursor: int,
    entries: Option<Seq<DirName>>,
    prompt: Seq<char>,
    tw: nat,
    result: (bool, Seq<char>, int, Seq<char>),
) -> bool {
    let w = split_whitespace(input);
    if wants_options(input) {
        result == (true, input, cursor, usage_text(options_usage(w[0]), prompt, input))
    } else if !waiting_for_cmd(input) && entries is None {
        result == (true, input, cursor, Seq::<char>::empty())
    } else {
        let es = match entries {
            Some(v) => v,
            None => Seq::<DirName>::empty(),
        };
        exists|m: Seq<Seq<char>>|
            lists_matches(tab_data(input, es), tab_partial(input), m) && result == #[trigger] tab_after(
                input,
                cursor,
                m,
                prompt,
                tw,
            )
    }
}

impl LineEditor {
    /// `tab_and_should_continue`: completes the line, lists the matches, or
    /// shows a command's options. The result says whether the line stays
    /// as it is (`true`), and what to write.
    pub fn tab_and_should_continue(&mut self, entries: &Option<Vec<DirName>>, term_width: usize, prompt: &str) -> (r: (
        bool,
        String,
    ))
        requires
            old(self).cursor <= old(self).input@.len(),
            entries matches Some(es) ==> forall|k: int|
                0 <= k < es@.len() ==> byte_len(candidate_text(#[trigger] es@[k])) + 2 <= usize::MAX,
        ensures
            final(self).cursor <= final(self).input@.len(),
            tab_outcome(
                old(self).input@,
                old(self).cursor as int,
                match entries {
                    Some(v) => Some(v@),
                    None => None,
                },
                prompt@,
                term_width as nat,
                (r.0, final(self).input@, final(self).cursor as int, r.1@),
            ),
    {
        let ghost input = self.input@;
        let words = split_whitespace_words(self.input.as_str());
        let cs = chars_of(self.input.as_str());
        let last_is_blank = cs.len() > 0 && cs[cs.len() - 1] == ' ';
        proof {
            reveal_strlit("-");
            assert("-"@ =~= seq!['-']);
        }
        if words.len() > 1 && eq_str(words[words.len() - 1].as_str(), "-") {
            let out = check_options(prompt, self.input.as_str(), words[0].as_str());
            return (true, out);
        }
        let waiting = words.len() == 0 || (words.len() == 1 && cs.len() > 0 && cs[cs.len() - 1] != ' ');
        assert(waiting == waiting_for_cmd(input));
        let data = if waiting {
            proof {
                lemma_command_bytes();
            }
            commands()
        } else {
            match entries {
                None => {
                    return (true, String::new());
                },
                Some(es) => {
                    proof {
                        lemma_candidate_bytes(es@);
                    }
                    path_candidate_list(es)
                },
            }
        };
        let ghost es_seq = match entries {
            Some(v) => v@,
            None => Seq::<DirName>::empty(),
        };
        assert(views(data@) == tab_data(input, es_seq));
        let partial = if waiting {
            if words.len() == 0 {
                String::new()
            } else {
                words[words.len() - 1].clone()
            }
        } else if last_is_blank {
            String::new()
        } else {
            words[words.len() - 1].clone()
        };
        assert(partial@ == tab_partial(input));
        let data_slice = data.as_slice();
        let matches = find_matches(data_slice, partial.as_str());
        let ghost m = views(matches@);
        assert(lists_matches(tab_data(input, es_seq), tab_partial(input), m));
        if matches.len() == 0 {
            assert(tab_after(input, self.cursor as int, m, prompt@, term_width as nat) == (
                true,
                input,
                self.cursor as int,
                Seq::<char>::empty(),
            ));
            return (true, String::new());
        } else if matches.len() == 1 {
            let ghost w = views(words@);
            let mut head_words = words;
            if head_words.len() > 0 {
                head_words.pop();
                assert(views(head_words@) =~= w.drop_last());
            }
            let mut head = join_with_spaces(&head_words);
            let hc = chars_of(head.as_str());
            if hc.len() > 0 && hc[hc.len() - 1] != ' ' {
                head.append(" ");
            }
            head.append(matches[0].as_str());
            head.append(" ");
            proof {
                reveal_strlit(" ");
                assert(" "@ =~= seq![' ']);
            }
            let ghost ni = completed_input(input, m[0]);
            assert(head@ =~= ni);
            let mut out = String::from_str("\r");
            out.append(CLEAR_LINE);
            out.append(prompt);
            out.append(head.as_str());
            proof {
                reveal_strlit("\r");
                assert("\r"@ =~= seq!['\r']);
            }
            self.cursor = head.unicode_len();
            self.input = head;
            assert(tab_after(input, old(self).cursor as int, m, prompt@, term_width as nat) == (
                false,
                self.input@,
                self.cursor as int,
                out@,
            ));
            return (false, out);
        } else {
            proof {
                assert forall|i: int| 0 <= i < m.len() implies byte_len(#[trigger] m[i]) + 2 <= usize::MAX by {
                    assert(tab_data(input, es_seq).contains(m[i]));
                }
                lemma_max_bytes_bound(m);
            }
            let out = display_possibilities(&matches, term_width, prompt, self.input.as_str());
            assert(tab_after(input, self.cursor as int, m, prompt@, term_width as nat) == (
                true,
                input,
                self.cursor as int,
                out@,
            ));
            return (true, out);
        }
    }
}

pub open spec fn entries_view(e: Option<Vec<DirName>>) -> Option<Seq<DirName>> {
    match e {
        Some(v) => Some(v@),
        None => None,
    }
}

/// The names read for Tab can be listed: each with room for two more bytes.
pub open spec fn tab_names_fit(key: EditKey) -> bool {
    match key {
        EditKey::Tab(Some(es), _) => forall|k: int|
            0 <= k < es@.len() ==> byte_len(candidate_text(#[trigger] es@[k])) + 2 <= usize::MAX,
        _ => true,
    }
}

/// What a key does: `(step, new line, new cursor, new history, text
/// written)`. Ctrl-D ends the input on an empty line and is ignored
/// otherwise; Enter submits the line; Tab completes; any other key edits the
/// line, which is then redrawn.
pub open spec fn key_outcome(
    input: Seq<char>,
    cursor: int,
    h: Seq<Seq<char>>,
    key: EditKey,
    prompt: Seq<char>,
    result: (KeyStep, Seq<char>, int, Seq<Seq<char>>, Seq<char>),
) -> bool {
    match key {
        EditKey::CtrlD => if input.len() == 0 {
            result == (KeyStep::Eof, input, cursor, h, seq!['\r', '\n', '^', 'D', '\r', '\n'])
        } else {
            result == (KeyStep::Stay, input, cursor, h, Seq::<char>::empty())
        },
        EditKey::Tab(entries, tw) => exists|t: (bool, Seq<char>, int, Seq<char>)|
            #[trigger] tab_outcome(input, cursor, entries_view(entries), prompt, tw as nat, t) && if t.0 {
                result == (KeyStep::Stay, input, cursor, h, t.3)
            } else {
                result == (KeyStep::Redraw, t.1, t.2, h, t.3 + redraw_text(prompt, t.1, t.2))
            },
        EditKey::Char(c) if c == '\n' => result == (KeyStep::Submit, input, cursor, h, seq!['\r', '\n']),
        _ => {
            let (ni, nc) = line_after_key(input, cursor, h, key);
            result == (KeyStep::Redraw, ni, nc, history_after_key(h, key), redraw_text(prompt, ni, nc))
        },
    }
}

impl LineEditor {
    /// One key of `get_input`: its effect on the line and the history, and
    /// the text to write.
    pub fn apply_key(&mut self, key: EditKey, history: &mut VecDeque<String>, prompt: &str) -> (r: (KeyStep, String))
        requires
            old(self).cursor <= old(self).input@.len(),
            old(self).input@.len() < usize::MAX,
            tab_names_fit(key),
        ensures
            final(self).cursor <= final(self).input@.len(),
            key_outcome(
                old(self).input@,
                old(self).cursor as int,
                views(old(history)@),
                key,
                prompt@,
                (r.0, final(self).input@, final(self).cursor as int, views(final(history)@), r.1@),
            ),
    {
        proof {
            reveal_strlit("\r\n^D\r\n");
            reveal_strlit("\r\n");
            assert("\r\n^D\r\n"@ =~= seq!['\r', '\n', '^', 'D', '\r', '\n']);
            assert("\r\n"@ =~= seq!['\r', '\n']);
        }
        match key {
            EditKey::CtrlD => {
                if self.input.unicode_len() == 0 {
                    (KeyStep::Eof, String::from_str("\r\n^D\r\n"))
                } else {
                    (KeyStep::Stay, String::new())
                }
            },
            EditKey::Tab(entries, tw) => {
                let (stay, out) = self.tab_and_should_continue(&entries, tw, prompt);
                if stay {
                    (KeyStep::Stay, out)
                } else {
                    let mut o = out;
                    let redrawn = self.redraw(prompt);
                    o.append(redrawn.as_str());
                    (KeyStep::Redraw, o)
                }
            },
            EditKey::Char(c) if c == '\n' => (KeyStep::Submit, String::from_str("\r\n")),
            other => {
                self.edit(&other, history);
                (KeyStep::Redraw, self.redraw(prompt))
            },
        }
    }
}

} // verus!
