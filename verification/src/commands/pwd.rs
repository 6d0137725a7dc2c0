use vstd::prelude::*;

use crate::text::{before_first, before_first_str, concat};

verus! {

pub const USAGE: &'static str = "Usage:\tpwd";

/// No argument.
pub fn is_input_len_at_least_two(input: &[String]) -> (r: Result<(), String>)
    ensures
        input@.len() > 1 ==> (r matches Err(e) && e@ == "Too many arguments\n"@ + USAGE@),
        input@.len() <= 1 ==> r is Ok,
{
    if input.len() > 1 {
        return Err(concat("Too many arguments\n", USAGE));
    }
    Ok(())
}

/// `pwd`, given the current directory (or why it could not be read).
pub fn pwd(input: &[String], cwd: Result<String, String>) -> (r: Result<String, String>)
    ensures
        input@.len() > 1 ==> (r matches Err(e) && e@ == "Too many arguments\n"@ + USAGE@),
        input@.len() <= 1 ==> match cwd {
            Ok(c) => r matches Ok(s) && s@ == c@.push('\n'),
            Err(e) => r matches Err(m) && m@ == before_first("getcwd: "@ + e@, " (os"@),
        },
{
    match is_input_len_at_least_two(input) {
        Err(e) => return Err(e),
        Ok(()) => {},
    }
    match cwd {
        Ok(c) => {
            let mut s = c;
            s.append("\n");
            proof {
                reveal_strlit("\n");
            }
            Ok(s)
        },
        Err(e) => {
            proof {
                reveal_strlit(" (os");
            }
            Err(before_first_str(concat("getcwd: ", e.as_str()).as_str(), " (os"))
        },
    }
}

} // verus!
