use vstd::prelude::*;

use crate::num::{parse_int_spec, parse_u64};
use crate::text::concat;

verus! {

pub const USAGE: &'static str = "Usage:\tsleep <SECONDS>";

/// The number of seconds that `sleep` waits.
pub fn sleep_seconds(input: &[String]) -> (r: Result<u64, String>)
    ensures
        input@.len() < 2 ==> (r matches Err(e) && e@ == "Not enough arguments\n"@ + USAGE@),
        input@.len() > 2 ==> (r matches Err(e) && e@ == "Too many arguments\n"@ + USAGE@),
        input@.len() == 2 ==> match parse_int_spec(input@[1]@, 0, u64::MAX as int) {
            Ok(n) => r matches Ok(s) && s as int == n,
            Err(_) => r matches Err(e) && e@ == "Failed to parse duration"@,
        },
{
    if input.len() < 2 {
        return Err(concat("Not enough arguments\n", USAGE));
    }
    if input.len() > 2 {
        return Err(concat("Too many arguments\n", USAGE));
    }
    match parse_u64(input[1].as_str()) {
        Ok(seconds) => Ok(seconds),
        Err(_) => Err(String::from_str("Failed to parse duration")),
    }
}

} // verus!
