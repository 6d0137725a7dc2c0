use vstd::prelude::*;

use crate::text::{concat, join_errors, joined_errors, views};

verus! {

pub const USAGE: &'static str = "Usage:\tmkdir DIRECTORY...";

/// At least one directory.
pub fn is_input_len_at_least_two(input: &[String]) -> (r: Result<(), String>)
    ensures
        input@.len() < 2 ==> (r matches Err(e) && e@ == "Not enough arguments\n"@ + USAGE@),
        input@.len() >= 2 ==> r is Ok,
{
    if input.len() < 2 {
        return Err(concat("Not enough arguments\n", USAGE));
    }
    Ok(())
}

/// The message for a path that already exists.
pub fn exists_error(path: &str) -> (r: String)
    ensures
        r@ == "mkdir: "@ + path@ + ": File exists"@,
{
    let mut m = concat("mkdir: ", path);
    m.append(": File exists");
    m
}

/// The answer of `mkdir` after trying every directory.
pub fn mkdir_result(errors: &Vec<String>) -> (r: Result<String, String>)
    ensures
        match joined_errors(views(errors@), "mkdir: "@) {
            None => r matches Ok(s) && s@.len() == 0,
            Some(e) => r matches Err(m) && m@ == e,
        },
{
    match join_errors(errors, "mkdir: ") {
        None => Ok(String::new()),
        Some(e) => Err(e),
    }
}

} // verus!
