use vstd::prelude::*;

use crate::num::{decimal, u64_to_string};
use crate::text::chars_of;

verus! {

/// The characters of `p` after its last `/`.
pub open spec fn last_segment(p: Seq<char>) -> Seq<char>
    decreases p.len(),
{
    if p.len() == 0 || p.last() == '/' {
        Seq::<char>::empty()
    } else {
        last_segment(p.drop_last()).push(p.last())
    }
}

/// The last component of a path, as `Path::file_name` finds it on Unix:
/// trailing slashes and `.` components are passed over; there is none when
/// the path ends in `..` or nothing else is left.
pub open spec fn file_name(p: Seq<char>) -> Option<Seq<char>>
    decreases p.len(),
{
    if p.len() == 0 {
        None
    } else if p.last() == '/' {
        file_name(p.drop_last())
    } else {
        let seg = last_segment(p);
        if seg == seq!['.'] {
            if p.len() == 1 {
                None
            } else {
                file_name(p.drop_last())
            }
        } else if seg == seq!['.', '.'] {
            None
        } else {
            Some(seg)
        }
    }
}

/// A path is hidden when its file name starts with a dot.
pub open spec fn path_is_hidden(p: Seq<char>) -> bool {
    match file_name(p) {
        Some(n) => n.len() > 0 && n[0] == '.',
        None => false,
    }
}

proof fn lemma_last_segment_from(p: Seq<char>, start: int)
    requires
        0 <= start <= p.len(),
        start == 0 || p[start - 1] == '/',
        forall|k: int| start <= k < p.len() ==> p[k] != '/',
    ensures
        last_segment(p) == p.skip(start),
    decreases p.len(),
{
    if p.len() > start {
        assert forall|k: int| start <= k < p.drop_last().len() implies p.drop_last()[k] != '/' by {
            assert(p.drop_last()[k] == p[k]);
        }
        if start > 0 {
            assert(p.drop_last()[start - 1] == p[start - 1]);
        }
        lemma_last_segment_from(p.drop_last(), start);
        assert(p.drop_last().skip(start).push(p.last()) =~= p.skip(start));
    } else {
        if p.len() > 0 {
            assert(p.last() == '/');
        }
        assert(p.skip(start) =~= Seq::<char>::empty());
    }
}

/// The file name of `path` (`Path::file_name`), if it has one.
pub fn path_file_name(path: &str) -> (r: Option<String>)
    ensures
        match r {
            Some(n) => file_name(path@) == Some(n@),
            None => file_name(path@) is None,
        },
{
    let v = chars_of(path);
    let mut end = v.len();
    assert(path@.take(end as int) =~= path@);
    loop
        invariant
            v@ == path@,
            end <= v@.len(),
            file_name(path@) == file_name(path@.take(end as int)),
        decreases end,
    {
        let ghost p = path@.take(end as int);
        if end == 0 {
            return None;
        }
        assert(p.drop_last() =~= path@.take(end - 1));
        if v[end - 1] == '/' {
            end = end - 1;
            continue;
        }
        let mut start = end;
        while start > 0 && v[start - 1] != '/'
            invariant
                v@ == path@,
                p == path@.take(end as int),
                start <= end <= v@.len(),
                forall|k: int| start <= k < end ==> #[trigger] v@[k] != '/',
            decreases start,
        {
            start = start - 1;
        }
        proof {
            lemma_last_segment_from(p, start as int);
            assert(p.skip(start as int) =~= path@.subrange(start as int, end as int));
        }
        let len = end - start;
        if len == 1 && v[start] == '.' {
            assert(path@.subrange(start as int, end as int) =~= seq!['.']);
            if end == 1 {
                return None;
            }
            end = end - 1;
            continue;
        }
        if len == 2 && v[start] == '.' && v[start + 1] == '.' {
            assert(path@.subrange(start as int, end as int) =~= seq!['.', '.']);
            return None;
        }
        proof {
            if path@.subrange(start as int, end as int) == seq!['.'] {
                assert(path@.subrange(start as int, end as int)[0] == v@[start as int]);
            }
            if path@.subrange(start as int, end as int) == seq!['.', '.'] {
                assert(path@.subrange(start as int, end as int)[0] == v@[start as int]);
                assert(path@.subrange(start as int, end as int)[1] == v@[start + 1]);
            }
        }
        return Some(crate::text::string_of_range(&v, start, end));
    }
}

/// `is_hidden`: the path's file name starts with a dot.
pub fn is_hidden(path: &str) -> (r: bool)
    ensures
        r == path_is_hidden(path@),
{
    match path_file_name(path) {
        Some(n) => {
            let cs = chars_of(n.as_str());
            cs.len() > 0 && cs[0] == '.'
        },
        None => false,
    }
}

/// The permission bits of `mode` as `rwx` triples for owner, group and
/// others.
pub open spec fn mode_text(mode: u32) -> Seq<char> {
    seq![
        if mode & 0o400 != 0 { 'r' } else { '-' },
        if mode & 0o200 != 0 { 'w' } else { '-' },
        if mode & 0o100 != 0 { 'x' } else { '-' },
        if mode & 0o40 != 0 { 'r' } else { '-' },
        if mode & 0o20 != 0 { 'w' } else { '-' },
        if mode & 0o10 != 0 { 'x' } else { '-' },
        if mode & 0o4 != 0 { 'r' } else { '-' },
        if mode & 0o2 != 0 { 'w' } else { '-' },
        if mode & 0o1 != 0 { 'x' } else { '-' },
    ]
}

fn mode_char(mode: u32, bit: u32, c: char) -> (r: char)
    ensures
        r == (if mode & bit != 0 { c } else { '-' }),
{
    if mode & bit != 0 {
        c
    } else {
        '-'
    }
}

pub fn mode_to_string(mode: u32) -> (s: String)
    ensures
        s@ == mode_text(mode),
{
    let mut v: Vec<char> = Vec::new();
    v.push(mode_char(mode, 0o400, 'r'));
    v.push(mode_char(mode, 0o200, 'w'));
    v.push(mode_char(mode, 0o100, 'x'));
    v.push(mode_char(mode, 0o40, 'r'));
    v.push(mode_char(mode, 0o20, 'w'));
    v.push(mode_char(mode, 0o10, 'x'));
    v.push(mode_char(mode, 0o4, 'r'));
    v.push(mode_char(mode, 0o2, 'w'));
    v.push(mode_char(mode, 0o1, 'x'));
    assert(v@ =~= mode_text(mode));
    crate::text::string_of(&v)
}

/// What `stat` says of a file that the type indicator reads.
#[derive(Clone, Copy, Debug)]
pub struct FileMode {
    pub mode: u32,
    pub is_fifo: bool,
    pub is_socket: bool,
}

/// What the type indicator of a path is decided on: whether it is a
/// directory (following links), whether it is itself a link, and its mode
/// where it can be read.
#[derive(Clone, Copy, Debug)]
pub struct ClassifyProbe {
    pub is_dir: bool,
    pub is_symlink: bool,
    pub metadata: Option<FileMode>,
}

/// The type indicator `-F` appends: `/` for a directory, `@` for a link,
/// `*` for an executable, `|` for a FIFO, `=` for a socket, nothing else.
pub open spec fn classify_text(p: ClassifyProbe) -> Seq<char> {
    if p.is_dir {
        seq!['/']
    } else if p.is_symlink {
        seq!['@']
    } else {
        match p.metadata {
            Some(m) => if m.mode & 0o111 != 0 {
                seq!['*']
            } else if m.is_fifo {
                seq!['|']
            } else if m.is_socket {
                seq!['=']
            } else {
                Seq::<char>::empty()
            },
            None => Seq::<char>::empty(),
        }
    }
}

/// `classify`: the type indicator of the probed path.
pub fn classify(probe: &ClassifyProbe) -> (r: String)
    ensures
        r@ == classify_text(*probe),
{
    proof {
        reveal_strlit("/");
        reveal_strlit("@");
        reveal_strlit("*");
        reveal_strlit("|");
        reveal_strlit("=");
    }
    if probe.is_dir {
        return String::from_str("/");
    } else if probe.is_symlink {
        return String::from_str("@");
    }
    if let Some(m) = probe.metadata {
        if m.mode & 0o111 != 0 {
            return String::from_str("*");
        } else if m.is_fifo {
            return String::from_str("|");
        } else if m.is_socket {
            return String::from_str("=");
        }
    }
    String::new()
}

/// `get_extended_attributes`: `@` for a file that has extended attributes.
pub fn get_extended_attributes(has_attributes: bool) -> (r: String)
    ensures
        r@ == (if has_attributes { seq!['@'] } else { Seq::<char>::empty() }),
{
    proof {
        reveal_strlit("@");
    }
    if has_attributes {
        String::from_str("@")
    } else {
        String::new()
    }
}

/// `get_symlink_info`: the marker of a symbolic link.
pub fn get_symlink_info(is_symlink: bool) -> (r: String)
    ensures
        r@ == (if is_symlink { "-> symlink"@ } else { Seq::<char>::empty() }),
{
    if is_symlink {
        String::from_str("-> symlink")
    } else {
        String::new()
    }
}

/// An owner's or group's name, or its number where it has none.
pub fn name_or_id(name: Option<String>, id: u32) -> (r: String)
    ensures
        r@ == match name {
            Some(n) => n@,
            None => decimal(id as nat),
        },
{
    match name {
        Some(n) => n,
        None => u64_to_string(id as u64),
    }
}

/// The blocks of a directory's entries: their sum, or nothing when the
/// directory or one entry's metadata could not be read.
pub open spec fn blocks_total(entries: Seq<Option<u64>>) -> Option<int>
    decreases entries.len(),
{
    if entries.len() == 0 {
        Some(0)
    } else {
        match (blocks_total(entries.drop_last()), entries.last()) {
            (Some(t), Some(b)) => Some(t + b),
            _ => None,
        }
    }
}

/// The sum of the blocks, where every one is known.
pub open spec fn blocks_sum(entries: Seq<Option<u64>>) -> int
    decreases entries.len(),
{
    if entries.len() == 0 {
        0
    } else {
        blocks_sum(entries.drop_last()) + match entries.last() {
            Some(b) => b as int,
            None => 0,
        }
    }
}

proof fn lemma_blocks_sum_prefix(entries: Seq<Option<u64>>, i: int)
    requires
        0 <= i <= entries.len(),
    ensures
        blocks_sum(entries.take(i)) <= blocks_sum(entries),
    decreases entries.len(),
{
    if i < entries.len() {
        assert(entries.drop_last().take(i) =~= entries.take(i));
        lemma_blocks_sum_prefix(entries.drop_last(), i);
    } else {
        assert(entries.take(i) =~= entries);
    }
}

/// `get_total_blocks_in_directory`, given what was read: `None` when the
/// path is a directory that could not be read, or one of its entries'
/// metadata could not; otherwise the sum of the blocks (0 for a file).
pub fn get_total_blocks_in_directory(is_dir: bool, listing: Option<Vec<Option<u64>>>) -> (r: Option<u64>)
    requires
        listing matches Some(v) ==> blocks_sum(v@) <= u64::MAX,
    ensures
        r == (if !is_dir {
            Some(0u64)
        } else {
            match listing {
                None => None,
                Some(v) => match blocks_total(v@) {
                    Some(t) => Some(t as u64),
                    None => None,
                },
            }
        }),
{
    if !is_dir {
        return Some(0);
    }
    match listing {
        None => None,
        Some(v) => {
            let mut total: u64 = 0;
            let mut failed = false;
            let mut i: usize = 0;
            while i < v.len()
                invariant
                    i <= v@.len(),
                    blocks_sum(v@) <= u64::MAX,
                    total == blocks_sum(v@.take(i as int)),
                    failed == (blocks_total(v@.take(i as int)) is None),
                    !failed ==> blocks_total(v@.take(i as int)) == Some(total as int),
                decreases v@.len() - i,
            {
                assert(v@.take(i + 1).drop_last() =~= v@.take(i as int));
                proof {
                    lemma_blocks_sum_prefix(v@, i + 1);
                }
                match v[i] {
                    Some(b) => {
                        total = total + b;
                    },
                    None => {
                        failed = true;
                    },
                }
                i = i + 1;
            }
            assert(v@.take(v@.len() as int) =~= v@);
            if failed {
                None
            } else {
                Some(total)
            }
        },
    }
}

} // verus!
