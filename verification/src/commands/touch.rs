use vstd::prelude::*;

use crate::text::{concat, join_errors, joined_errors, strip_os_code, views, without_os_code};

verus! {

pub const USAGE: &'static str = "Usage:\ttouch FILE...";

/// At least one file.
pub fn validate_input(input: &[String]) -> (r: Result<(), String>)
    ensures
        input@.len() < 2 ==> (r matches Err(e) && e@ == "Not enough arguments\n"@ + USAGE@),
        input@.len() >= 2 ==> r is Ok,
{
    if input.len() < 2 {
        return Err(concat("Not enough arguments\n", USAGE));
    }
    Ok(())
}

/// The message for a file that could not be touched.
pub fn touch_error(path: &str, err: &str) -> (r: String)
    ensures
        r@ == "touch: "@ + path@ + ": "@ + without_os_code(err@),
{
    let mut m = concat("touch: ", path);
    m.append(": ");
    m.append(strip_os_code(err).as_str());
    m
}

/// The answer of `touch` after trying every file.
pub fn touch_result(errors: &Vec<String>) -> (r: Result<String, String>)
    ensures
        match joined_errors(views(errors@), "touch: "@) {
            None => r matches Ok(s) && s@.len() == 0,
            Some(e) => r matches Err(m) && m@ == e,
        },
{
    match join_errors(errors, "touch: ") {
        None => Ok(String::new()),
        Some(e) => Err(e),
    }
}

} // verus!
