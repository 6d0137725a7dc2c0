use vstd::prelude::*;

use crate::text::{concat, eq_str, join_lines, join_with_newlines, views};

verus! {

pub const USAGE: &'static str = "Usage: rm [-r] FILE|DIRECTORY...";

pub const OPTIONS_USAGE: &'static str = "\r\n-r      -- remove directories and their contents recursively";

/// Whether `rm` is recursive and where its paths begin, or why its
/// arguments are not enough.
pub open spec fn rm_paths_spec(input: Seq<Seq<char>>) -> Result<(bool, int), Seq<char>> {
    if input.len() < 2 {
        Err("not enough arguments\n"@ + USAGE@)
    } else if input[1] == "-r"@ {
        if input.len() < 3 {
            Err("not enough arguments\n"@ + USAGE@)
        } else {
            Ok((true, 2))
        }
    } else {
        Ok((false, 1))
    }
}

pub fn rm_paths(input: &Vec<String>) -> (r: Result<(bool, usize), String>)
    ensures
        match r {
            Ok((rec, start)) => rm_paths_spec(views(input@)) == Ok::<(bool, int), Seq<char>>((rec, start as int)),
            Err(e) => rm_paths_spec(views(input@)) == Err::<(bool, int), Seq<char>>(e@),
        },
{
    if input.len() < 2 {
        return Err(concat("not enough arguments\n", USAGE));
    }
    if eq_str(input[1].as_str(), "-r") {
        if input.len() < 3 {
            return Err(concat("not enough arguments\n", USAGE));
        }
        Ok((true, 2))
    } else {
        Ok((false, 1))
    }
}

/// What to do with one path.
#[derive(Debug, Clone, Copy, PartialEq, Eq, Structural)]
pub enum RmAction {
    RemoveDirAll,
    RemoveFile,
    RefuseDirectory,
}

/// `-r` removes a directory with its contents; without it a directory is
/// refused; a file is removed either way.
pub fn rm_action(recursive: bool, is_dir: bool) -> (a: RmAction)
    ensures
        a == (if is_dir { if recursive { RmAction::RemoveDirAll } else { RmAction::RefuseDirectory } } else { RmAction::RemoveFile }),
{
    if is_dir {
        if recursive {
            RmAction::RemoveDirAll
        } else {
            RmAction::RefuseDirectory
        }
    } else {
        RmAction::RemoveFile
    }
}

/// What happened to one path: whether it was a directory, and the error
/// of its removal, if any.
pub struct RmProbe {
    pub is_dir: bool,
    pub error: Option<String>,
}

/// The error text of each path in order, if it has one.
pub open spec fn rm_error(arg: Seq<char>, probe: RmProbe, recursive: bool) -> Option<Seq<char>> {
    if !recursive && probe.is_dir {
        Some(arg + ": is a directory"@)
    } else {
        match probe.error {
            Some(e) => Some(arg + ": "@ + e@),
            None => None,
        }
    }
}

/// The error lines: every error after the first starts with `rm: `.
pub open spec fn rm_errors(args: Seq<Seq<char>>, probes: Seq<RmProbe>, recursive: bool) -> Seq<Seq<char>>
    decreases args.len(),
{
    if args.len() == 0 || probes.len() < args.len() {
        Seq::<Seq<char>>::empty()
    } else {
        let before = rm_errors(args.drop_last(), probes.take(args.len() - 1), recursive);
        match rm_error(args.last(), probes[args.len() - 1], recursive) {
            Some(e) => before.push(if before.len() == 0 { e } else { "rm: "@ + e }),
            None => before,
        }
    }
}

/// `rm [-r] PATH...`, given what happened to each path.
pub open spec fn rm_spec(input: Seq<Seq<char>>, probes: Seq<RmProbe>) -> Result<Seq<char>, Seq<char>> {
    match rm_paths_spec(input) {
        Err(e) => Err(e),
        Ok((recursive, start)) => {
            let errors = rm_errors(input.skip(start), probes, recursive);
            if errors.len() == 0 {
                Ok(Seq::<char>::empty())
            } else {
                Err(join_lines(errors))
            }
        },
    }
}

pub fn rm(input: &Vec<String>, probes: &Vec<RmProbe>) -> (r: Result<String, String>)
    requires
        input@.len() > 0,
        input@[0]@ == "rm"@,
        rm_paths_spec(views(input@)) matches Ok((_, start)) ==> probes@.len() == input@.len() - start,
    ensures
        match r {
            Ok(s) => rm_spec(views(input@), probes@) == Ok::<Seq<char>, Seq<char>>(s@),
            Err(e) => rm_spec(views(input@), probes@) == Err::<Seq<char>, Seq<char>>(e@),
        },
{
    let (recursive, start) = match rm_paths(input) {
        Ok(x) => x,
        Err(e) => return Err(e),
    };
    let ghost args = views(input@).skip(start as int);
    let mut errors: Vec<String> = Vec::new();
    let mut k: usize = 0;
    let n = input.len() - start;
    while k < n
        invariant
            n == input@.len() - start,
            start <= input@.len(),
            input@.len() <= usize::MAX,
            probes@.len() == n,
            args == views(input@).skip(start as int),
            k <= n,
            views(errors@) == rm_errors(args.take(k as int), probes@.take(k as int), recursive),
        decreases n - k,
    {
        let arg = &input[start + k];
        let probe = &probes[k];
        assert(args.take(k + 1).drop_last() =~= args.take(k as int));
        assert(probes@.take(k + 1).take(k as int) =~= probes@.take(k as int));
        assert(args.take(k + 1).last() == arg@);
        assert(probes@.take(k + 1)[k as int] == *probe);
        let ghost before = views(errors@);
        let mut line: Option<String> = None;
        if !recursive && probe.is_dir {
            line = Some(concat(arg.as_str(), ": is a directory"));
        } else {
            match &probe.error {
                Some(e) => {
                    let mut m = concat(arg.as_str(), ": ");
                    m.append(e.as_str());
                    line = Some(m);
                },
                None => {},
            }
        }
        match line {
            Some(l) => {
                if errors.len() == 0 {
                    errors.push(l);
                } else {
                    errors.push(concat("rm: ", l.as_str()));
                }
                assert(views(errors@) =~= before.push(errors@[errors@.len() - 1]@));
            },
            None => {},
        }
        k = k + 1;
    }
    assert(args.take(n as int) =~= args);
    assert(probes@.take(n as int) =~= probes@);
    if errors.len() > 0 {
        return Err(join_with_newlines(&errors));
    }
    Ok(String::new())
}

} // verus!
