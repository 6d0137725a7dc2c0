use vstd::prelude::*;

use crate::text::concat;

verus! {

pub const USAGE: &'static str = "Usage:\tcp SOURCE_FILE TARGET_FILE\n\tcp SOURCE_FILE... TARGET_DIRECTORY";

/// At least a source and a target.
pub fn is_input_len_at_least_two(input: &[String]) -> (r: Result<(), String>)
    ensures
        input@.len() < 3 ==> (r matches Err(e) && e@ == "Not enough arguments\n"@ + USAGE@),
        input@.len() >= 3 ==> r is Ok,
{
    if input.len() < 3 {
        return Err(concat("Not enough arguments\n", USAGE));
    }
    Ok(())
}

/// Checks the arguments of `cp`, given whether the last one is a directory.
pub fn check_args(input: &[String], target_is_dir: bool) -> (r: Result<(), String>)
    ensures
        input@.len() < 3 ==> (r matches Err(e) && e@ == "Not enough arguments\n"@ + USAGE@),
        input@.len() > 3 && !target_is_dir ==> (r matches Err(e) && e@
            == "Target must be an existing directory when copying multiple sources\n"@ + USAGE@),
        input@.len() == 3 || (input@.len() > 3 && target_is_dir) ==> r is Ok,
{
    match is_input_len_at_least_two(input) {
        Err(e) => return Err(e),
        Ok(()) => {},
    }
    if input.len() - 2 > 1 && !target_is_dir {
        return Err(concat("Target must be an existing directory when copying multiple sources\n", USAGE));
    }
    Ok(())
}

/// The message for a source that is a directory.
pub fn directory_source_error(source: &str) -> (r: String)
    ensures
        r@ == seq!['`'] + source@ + "` is a directory (not copied)"@,
{
    let mut m = String::from_str("`");
    m.append(source);
    m.append("` is a directory (not copied)");
    proof {
        reveal_strlit("`");
        assert(m@ =~= seq!['`'] + source@ + "` is a directory (not copied)"@);
    }
    m
}

} // verus!
