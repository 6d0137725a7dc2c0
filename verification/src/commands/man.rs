use vstd::prelude::*;

use crate::commands::{cat, cd, cp, echo, exit, ls, mkdir, mv, pwd, rm, sleep, touch};
use crate::text::{concat, eq_str, join_lines, views};

verus! {

pub const USAGE: &'static str = "Usage:\tman COMMAND";

/// The usage text of a command that has a manual entry.
pub open spec fn usage_of(cmd: Seq<char>) -> Option<Seq<char>> {
    if cmd == "cat"@ { Some(cat::USAGE@) }
    else if cmd == "cd"@ { Some(cd::USAGE@) }
    else if cmd == "cp"@ { Some(cp::USAGE@) }
    else if cmd == "echo"@ { Some(echo::USAGE@) }
    else if cmd == "exit"@ { Some(exit::USAGE@) }
    else if cmd == "ls"@ { Some(ls::USAGE@) }
    else if cmd == "man"@ { Some(USAGE@) }
    else if cmd == "mkdir"@ { Some(mkdir::USAGE@) }
    else if cmd == "mv"@ { Some(mv::USAGE@) }
    else if cmd == "pwd"@ { Some(pwd::USAGE@) }
    else if cmd == "rm"@ { Some(rm::USAGE@) }
    else if cmd == "sleep"@ { Some(sleep::USAGE@) }
    else if cmd == "touch"@ { Some(touch::USAGE@) }
    else { None }
}

/// The entry for one command: its usage, or a notice in red.
pub open spec fn man_entry(cmd: Seq<char>) -> Seq<char> {
    match usage_of(cmd) {
        Some(u) => u,
        None => "\x1b[31mNo manual entry for "@ + cmd + "\x1b[0m\x1b[1m"@,
    }
}

/// `man COMMAND...`: the entries, one per line.
pub open spec fn man_spec(input: Seq<Seq<char>>) -> Result<Seq<char>, Seq<char>> {
    if input.len() < 2 {
        Err("What manual page do you want?\n"@ + USAGE@)
    } else {
        Ok(join_lines(input.skip(1).map_values(|c: Seq<char>| man_entry(c))).push('\n'))
    }
}

fn usage_of_exec(cmd: &str) -> (r: Option<&'static str>)
    ensures
        match r {
            Some(u) => usage_of(cmd@) == Some(u@),
            None => usage_of(cmd@) is None,
        },
{
    if eq_str(cmd, "cat") { Some(cat::USAGE) }
    else if eq_str(cmd, "cd") { Some(cd::USAGE) }
    else if eq_str(cmd, "cp") { Some(cp::USAGE) }
    else if eq_str(cmd, "echo") { Some(echo::USAGE) }
    else if eq_str(cmd, "exit") { Some(exit::USAGE) }
    else if eq_str(cmd, "ls") { Some(ls::USAGE) }
    else if eq_str(cmd, "man") { Some(USAGE) }
    else if eq_str(cmd, "mkdir") { Some(mkdir::USAGE) }
    else if eq_str(cmd, "mv") { Some(mv::USAGE) }
    else if eq_str(cmd, "pwd") { Some(pwd::USAGE) }
    else if eq_str(cmd, "rm") { Some(rm::USAGE) }
    else if eq_str(cmd, "sleep") { Some(sleep::USAGE) }
    else if eq_str(cmd, "touch") { Some(touch::USAGE) }
    else { None }
}

pub fn man(input: &[String]) -> (r: Result<String, String>)
    ensures
        match r {
            Ok(s) => man_spec(views(input@)) == Ok::<Seq<char>, Seq<char>>(s@),
            Err(e) => man_spec(views(input@)) == Err::<Seq<char>, Seq<char>>(e@),
        },
{
    if input.len() < 2 {
        return Err(concat("What manual page do you want?\n", USAGE));
    }
    let ghost entries = views(input@).skip(1).map_values(|c: Seq<char>| man_entry(c));
    let mut result = String::new();
    let mut i: usize = 1;
    while i < input.len()
        invariant
            1 <= i <= input@.len(),
            entries == views(input@).skip(1).map_values(|c: Seq<char>| man_entry(c)),
            result@ == join_lines(entries.take(i - 1)),
        decreases input@.len() - i,
    {
        assert(entries.take(i as int).drop_last() =~= entries.take(i - 1));
        assert(entries[i - 1] == man_entry(input@[i as int]@));
        if i > 1 {
            result.append("\n");
            proof {
                reveal_strlit("\n");
            }
        }
        let cmd = &input[i];
        match usage_of_exec(cmd.as_str()) {
            Some(u) => result.append(u),
            None => {
                result.append("\x1b[31mNo manual entry for ");
                result.append(cmd.as_str());
                result.append("\x1b[0m\x1b[1m");
            },
        }
        proof {
            if i == 1 {
                assert(result@ =~= entries.take(1)[0]);
            }
        }
        i = i + 1;
    }
    assert(entries.take(input@.len() - 1) =~= entries);
    let ghost body = result@;
    result.append("\n");
    proof {
        reveal_strlit("\n");
        assert(result@ =~= body.push('\n'));
    }
    Ok(result)
}

} // verus!
