use vstd::prelude::*;

use crate::text::{concat, strip_os_code, without_os_code};

verus! {

pub const USAGE: &'static str = "Usage:\tcd [DIRECTORY]";

/// At most one argument.
pub fn is_input_len_at_least_two(input: &[String]) -> (r: Result<(), String>)
    ensures
        input@.len() > 2 ==> (r matches Err(e) && e@ == "Too many arguments\n"@ + USAGE@),
        input@.len() <= 2 ==> r is Ok,
{
    if input.len() > 2 {
        return Err(concat("Too many arguments\n", USAGE));
    }
    Ok(())
}

/// The directory `cd` changes to: its argument, else the home directory.
pub fn cd_target(input: &[String], home: Option<String>) -> (r: Result<String, String>)
    ensures
        input@.len() > 2 ==> (r matches Err(e) && e@ == "Too many arguments\n"@ + USAGE@),
        input@.len() == 2 ==> r == Ok::<String, String>(input@[1]),
        input@.len() < 2 ==> match home {
            Some(h) => r == Ok::<String, String>(h),
            None => r matches Err(e) && e@ == "Could not determine home directory"@,
        },
{
    match is_input_len_at_least_two(input) {
        Err(e) => return Err(e),
        Ok(()) => {},
    }
    if input.len() == 2 {
        return Ok(input[1].clone());
    }
    match home {
        Some(h) => Ok(h),
        None => Err(String::from_str("Could not determine home directory")),
    }
}

/// The message when changing directory failed with `err`.
pub fn cd_error(input: &[String], err: &str) -> (r: String)
    ensures
        input@.len() >= 2 ==> r@ == without_os_code(input@[1]@ + ": "@ + err@),
        input@.len() < 2 ==> r@ == without_os_code("Failed to change directory: "@ + err@),
{
    if input.len() >= 2 {
        let mut m = input[1].clone();
        m.append(": ");
        m.append(err);
        strip_os_code(m.as_str())
    } else {
        strip_os_code(concat("Failed to change directory: ", err).as_str())
    }
}

} // verus!
