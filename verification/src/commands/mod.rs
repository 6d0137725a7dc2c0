pub mod bg;
pub mod cat;
pub mod cd;
pub mod cp;
pub mod echo;
pub mod exit;
pub mod fg;
pub mod helpers;
pub mod jobs;
pub mod kill;
pub mod ls;
pub mod man;
pub mod mkdir;
pub mod mv;
pub mod pwd;
pub mod redirect;
pub mod rm;
pub mod sleep;
pub mod touch;

use vstd::prelude::*;

use crate::commands::exit::exit_spec;
use crate::commands::jobs::Job;
use crate::num::{parse_i32, parse_int_spec};
use crate::text::{eq_str, views};

verus! {

/// A command that the shell runs itself.
#[derive(Debug, Clone, Copy, PartialEq, Eq, Structural)]
pub enum Builtin {
    Cd,
    Echo,
    Pwd,
    Bg,
    Fg,
    Jobs,
    Kill,
}

/// What the shell does with a command line.
pub enum Dispatch {
    /// Nothing left to run: the exit status, if the shell is to exit, and the result.
    Done(Option<i32>, Result<String, String>),
    /// Run a builtin with these arguments.
    Builtin(Builtin, Vec<String>),
    /// Fork: `worker` when the child runs this program's own implementation
    /// of the command, else an outside program; in the background or not.
    Spawn { args: Vec<String>, background: bool, worker: bool },
}

pub open spec fn builtin_of(name: Seq<char>) -> Option<Builtin> {
    if name == "cd"@ { Some(Builtin::Cd) }
    else if name == "echo"@ { Some(Builtin::Echo) }
    else if name == "pwd"@ { Some(Builtin::Pwd) }
    else if name == "bg"@ { Some(Builtin::Bg) }
    else if name == "fg"@ { Some(Builtin::Fg) }
    else if name == "jobs"@ { Some(Builtin::Jobs) }
    else if name == "kill"@ { Some(Builtin::Kill) }
    else { None }
}

/// The commands that this program implements for a forked child.
pub open spec fn is_worker_command(name: Seq<char>) -> bool {
    ||| name == "cat"@
    ||| name == "cp"@
    ||| name == "ls"@
    ||| name == "mkdir"@
    ||| name == "man"@
    ||| name == "mv"@
    ||| name == "rm"@
    ||| name == "sleep"@
    ||| name == "touch"@
}

/// The view of a dispatch.
pub enum DispatchView {
    Done(Option<i32>, Result<Seq<char>, Seq<char>>),
    Builtin(Builtin, Seq<Seq<char>>),
    Spawn(Seq<Seq<char>>, bool, bool),
}

pub open spec fn dispatch_view(d: Dispatch) -> DispatchView {
    match d {
        Dispatch::Done(code, r) => DispatchView::Done(
            code,
            match r {
                Ok(s) => Ok(s@),
                Err(e) => Err(e@),
            },
        ),
        Dispatch::Builtin(b, args) => DispatchView::Builtin(b, views(args@)),
        Dispatch::Spawn { args, background, worker } => DispatchView::Spawn(views(args@), background, worker),
    }
}

/// A trailing `&` asks for the background and is not an argument.
pub open spec fn strip_background(args: Seq<Seq<char>>) -> (Seq<Seq<char>>, bool) {
    if args.len() > 0 && args.last() == "&"@ {
        (args.drop_last(), true)
    } else {
        (args, false)
    }
}

/// What the shell does with the words of a command line, and the new
/// "exit already attempted" flag (any command but `exit` resets it).
pub open spec fn dispatch_spec(args: Seq<Seq<char>>, jobs: Seq<Job>, exit_attempted: bool) -> (DispatchView, bool) {
    let (clean, background) = strip_background(args);
    if clean.len() == 0 {
        (DispatchView::Done(None, Ok(Seq::<char>::empty())), exit_attempted)
    } else {
        let command = clean[0];
        if command == "exit"@ {
            let (r, attempted) = exit_spec(clean, jobs, exit_attempted);
            match r {
                Ok(code) => (
                    DispatchView::Done(
                        Some(
                            match parse_int_spec(code, i32::MIN as int, i32::MAX as int) {
                                Ok(c) => c as i32,
                                Err(_) => 0,
                            },
                        ),
                        Ok(Seq::<char>::empty()),
                    ),
                    attempted,
                ),
                Err(e) => (DispatchView::Done(None, Err(e)), attempted),
            }
        } else {
            match builtin_of(command) {
                Some(b) => (DispatchView::Builtin(b, clean), false),
                None => (DispatchView::Spawn(clean, background, is_worker_command(command)), false),
            }
        }
    }
}

fn builtin_of_exec(name: &str) -> (r: Option<Builtin>)
    ensures
        r == builtin_of(name@),
{
    if eq_str(name, "cd") { Some(Builtin::Cd) }
    else if eq_str(name, "echo") { Some(Builtin::Echo) }
    else if eq_str(name, "pwd") { Some(Builtin::Pwd) }
    else if eq_str(name, "bg") { Some(Builtin::Bg) }
    else if eq_str(name, "fg") { Some(Builtin::Fg) }
    else if eq_str(name, "jobs") { Some(Builtin::Jobs) }
    else if eq_str(name, "kill") { Some(Builtin::Kill) }
    else { None }
}

pub fn is_worker_command_exec(name: &str) -> (r: bool)
    ensures
        r == is_worker_command(name@),
{
    eq_str(name, "cat") || eq_str(name, "cp") || eq_str(name, "ls") || eq_str(name, "mkdir")
        || eq_str(name, "man") || eq_str(name, "mv") || eq_str(name, "rm") || eq_str(name, "sleep")
        || eq_str(name, "touch")
}

fn clone_strings(v: &[String], n: usize) -> (r: Vec<String>)
    requires
        n <= v@.len(),
    ensures
        r@ == v@.take(n as int),
{
    let mut r: Vec<String> = Vec::new();
    let mut i: usize = 0;
    while i < n
        invariant
            n <= v@.len(),
            i <= n,
            r@ == v@.take(i as int),
        decreases n - i,
    {
        r.push(v[i].clone());
        assert(r@ =~= v@.take(i + 1));
        i = i + 1;
    }
    r
}

/// Decides what to do with the words of a command line: a trailing `&`
/// asks for the background; `exit` is answered here; builtins and
/// commands to fork are handed back.
pub fn run_command(args: &[String], jobs: &[Job], exit_attempted: &mut bool) -> (d: Dispatch)
    ensures
        dispatch_spec(views(args@), jobs@, *old(exit_attempted)) == (dispatch_view(d), *final(exit_attempted)),
{
    let ghost va = views(args@);
    if args.len() == 0 {
        return Dispatch::Done(None, Ok(String::new()));
    }
    let background = eq_str(args[args.len() - 1].as_str(), "&");
    let n = if background { args.len() - 1 } else { args.len() };
    let clean = clone_strings(args, n);
    assert(views(clean@) =~= strip_background(va).0);
    if clean.len() == 0 {
        return Dispatch::Done(None, Ok(String::new()));
    }
    let is_exit = eq_str(clean[0].as_str(), "exit");
    if !is_exit {
        *exit_attempted = false;
    }
    if is_exit {
        match crate::commands::exit::exit(clean.as_slice(), jobs, exit_attempted) {
            Ok(code_str) => {
                let code = match parse_i32(code_str.as_str()) {
                    Ok(c) => c,
                    Err(_) => 0,
                };
                return Dispatch::Done(Some(code), Ok(String::new()));
            },
            Err(e) => {
                return Dispatch::Done(None, Err(e));
            },
        }
    }
    match builtin_of_exec(clean[0].as_str()) {
        Some(b) => Dispatch::Builtin(b, clean),
        None => {
            let worker = is_worker_command_exec(clean[0].as_str());
            Dispatch::Spawn { args: clean, background, worker }
        },
    }
}

} // verus!

verus! {

/// How one `N>target` redirection is carried out.
pub enum FdAction {
    /// Make descriptor `fd` a copy of this descriptor (`N>&M`).
    Dup(i32),
    /// Open the target for writing, appending (`>>`) or truncating (`>`).
    Open { append: bool },
    /// The redirection cannot be carried out, for this reason.
    Fail(String),
}

/// One redirection of a file descriptor, in the order given.
pub struct FdRedirect {
    pub fd: i32,
    pub op: String,
    pub target: String,
}

/// The redirections `N > target` / `N >> target` (never the command name
/// itself) and the arguments that remain.
pub open spec fn fd_scan(args: Seq<Seq<char>>, i: int) -> (Seq<(int, Seq<char>, Seq<char>)>, Seq<Seq<char>>)
    decreases args.len() - i,
{
    if i < 0 || i >= args.len() {
        (Seq::<(int, Seq<char>, Seq<char>)>::empty(), Seq::<Seq<char>>::empty())
    } else if i + 2 < args.len() && i > 0 && parse_int_spec(args[i], i32::MIN as int, i32::MAX as int) is Ok && (
    args[i + 1] == ">"@ || args[i + 1] == ">>"@) {
        let (r, kept) = fd_scan(args, i + 3);
        let fd = parse_int_spec(args[i], i32::MIN as int, i32::MAX as int)->Ok_0;
        (seq![(fd, args[i + 1], args[i + 2])] + r, kept)
    } else {
        let (r, kept) = fd_scan(args, i + 1);
        (r, seq![args[i]] + kept)
    }
}

pub open spec fn fd_redirect_views(v: Seq<FdRedirect>) -> Seq<(int, Seq<char>, Seq<char>)> {
    v.map_values(|r: FdRedirect| (r.fd as int, r.op@, r.target@))
}

/// Finds the file-descriptor redirections among the arguments of a command.
pub fn fd_redirections(args: &[String]) -> (r: (Vec<FdRedirect>, Vec<String>))
    ensures
        (fd_redirect_views(r.0@), views(r.1@)) == fd_scan(views(args@), 0),
{
    let ghost va = views(args@);
    let mut redirects: Vec<FdRedirect> = Vec::new();
    let mut filtered: Vec<String> = Vec::new();
    let mut i: usize = 0;
    while i < args.len()
        invariant
            va == views(args@),
            i <= args@.len() + 2,
            fd_scan(va, 0) == (
                fd_redirect_views(redirects@) + fd_scan(va, i as int).0,
                views(filtered@) + fd_scan(va, i as int).1,
            ),
        decreases args@.len() + 3 - i,
    {
        let ghost r0 = fd_redirect_views(redirects@);
        let ghost f0 = views(filtered@);
        if args.len() >= 3 && i < args.len() - 2 && i > 0 {
            match parse_i32(args[i].as_str()) {
                Ok(fd) => {
                    let op = &args[i + 1];
                    if eq_str(op.as_str(), ">") || eq_str(op.as_str(), ">>") {
                        redirects.push(FdRedirect { fd, op: op.clone(), target: args[i + 2].clone() });
                        assert(fd_redirect_views(redirects@) =~= r0 + seq![(fd as int, va[i + 1], va[i + 2])]);
                        assert(fd_scan(va, i as int).0 =~= seq![(fd as int, va[i + 1], va[i + 2])] + fd_scan(va, i + 3).0);
                        i = i + 3;
                        continue;
                    }
                },
                Err(_) => {},
            }
        }
        filtered.push(args[i].clone());
        assert(views(filtered@) =~= f0 + seq![va[i as int]]);
        assert(fd_scan(va, i as int).1 =~= seq![va[i as int]] + fd_scan(va, i + 1).1);
        i = i + 1;
    }
    assert(fd_redirect_views(redirects@) + Seq::<(int, Seq<char>, Seq<char>)>::empty() =~= fd_redirect_views(redirects@));
    assert(views(filtered@) + Seq::<Seq<char>>::empty() =~= views(filtered@));
    (redirects, filtered)
}

pub enum FdActionView {
    Dup(int),
    Open(bool),
    Fail(Seq<char>),
}

/// A negative descriptor is refused; `&M` duplicates descriptor `M`;
/// anything else names a file.
pub open spec fn fd_action_spec(fd: int, op: Seq<char>, target: Seq<char>) -> FdActionView {
    if fd < 0 {
        FdActionView::Fail("Invalid file descriptor"@)
    } else if target.len() > 0 && target[0] == '&' {
        match parse_int_spec(target.skip(1), i32::MIN as int, i32::MAX as int) {
            Ok(t) => FdActionView::Dup(t),
            Err(_) => FdActionView::Fail("Bad file descriptor: "@ + target),
        }
    } else {
        FdActionView::Open(op == ">>"@)
    }
}

pub fn fd_action(redirect: &FdRedirect) -> (a: FdAction)
    ensures
        fd_action_spec(redirect.fd as int, redirect.op@, redirect.target@) == match a {
            FdAction::Dup(t) => FdActionView::Dup(t as int),
            FdAction::Open { append } => FdActionView::Open(append),
            FdAction::Fail(m) => FdActionView::Fail(m@),
        },
{
    if redirect.fd < 0 {
        return FdAction::Fail(String::from_str("Invalid file descriptor"));
    }
    let t = crate::text::chars_of(redirect.target.as_str());
    if t.len() > 0 && t[0] == '&' {
        let rest = crate::text::string_of_range(&t, 1, t.len());
        match parse_i32(rest.as_str()) {
            Ok(fd) => FdAction::Dup(fd),
            Err(_) => FdAction::Fail(crate::text::concat("Bad file descriptor: ", redirect.target.as_str())),
        }
    } else {
        FdAction::Open { append: eq_str(redirect.op.as_str(), ">>") }
    }
}

/// The commands a worker process runs.
#[derive(Debug, Clone, Copy, PartialEq, Eq, Structural)]
pub enum WorkerCommand {
    Cat,
    Cp,
    Ls,
    Mkdir,
    Man,
    Mv,
    Rm,
    Sleep,
    Touch,
}

pub open spec fn worker_command_spec(name: Seq<char>) -> Option<WorkerCommand> {
    if name == "cat"@ { Some(WorkerCommand::Cat) }
    else if name == "cp"@ { Some(WorkerCommand::Cp) }
    else if name == "ls"@ { Some(WorkerCommand::Ls) }
    else if name == "mkdir"@ { Some(WorkerCommand::Mkdir) }
    else if name == "man"@ { Some(WorkerCommand::Man) }
    else if name == "mv"@ { Some(WorkerCommand::Mv) }
    else if name == "rm"@ { Some(WorkerCommand::Rm) }
    else if name == "sleep"@ { Some(WorkerCommand::Sleep) }
    else if name == "touch"@ { Some(WorkerCommand::Touch) }
    else { None }
}

/// Which command a worker runs, or the message when there is none.
pub fn worker_command(name: &str) -> (r: Result<WorkerCommand, String>)
    ensures
        match r {
            Ok(c) => worker_command_spec(name@) == Some(c),
            Err(e) => worker_command_spec(name@) is None && e@ == "Command not found: "@ + name@,
        },
{
    if eq_str(name, "cat") { Ok(WorkerCommand::Cat) }
    else if eq_str(name, "cp") { Ok(WorkerCommand::Cp) }
    else if eq_str(name, "ls") { Ok(WorkerCommand::Ls) }
    else if eq_str(name, "mkdir") { Ok(WorkerCommand::Mkdir) }
    else if eq_str(name, "man") { Ok(WorkerCommand::Man) }
    else if eq_str(name, "mv") { Ok(WorkerCommand::Mv) }
    else if eq_str(name, "rm") { Ok(WorkerCommand::Rm) }
    else if eq_str(name, "sleep") { Ok(WorkerCommand::Sleep) }
    else if eq_str(name, "touch") { Ok(WorkerCommand::Touch) }
    else { Err(crate::text::concat("Command not found: ", name)) }
}

} // verus!
