use vstd::prelude::*;

use crate::text::concat;

verus! {

pub const USAGE: &'static str = "USAGE:\tmv SOURCE_FILE TARGET_DIRECTORY\n\tmv SOURCE_FILE TARGET_DIRECTORY/NEW_NAME\n\tmv SOURCE_FILE NEW_NAME";

/// At least a source and a target.
pub fn validate_input(input: &[String]) -> (r: Result<(), String>)
    ensures
        input@.len() < 3 ==> (r matches Err(e) && e@ == "Not enough arguments\n"@ + USAGE@),
        input@.len() >= 3 ==> r is Ok,
{
    if input.len() < 3 {
        return Err(concat("Not enough arguments\n", USAGE));
    }
    Ok(())
}

} // verus!
