use vstd::prelude::*;

use crate::input::split::{part_parse_error, split_spec, split_with, words_view};

verus! {

/// Exactly `expected` words: `Ok("")`, else which way the count is off.
pub fn check_num_args(input: &[String], expected: usize) -> (r: Result<String, String>)
    ensures
        input@.len() > expected ==> (r matches Err(e) && e@ == "too many arguments"@),
        input@.len() < expected ==> (r matches Err(e) && e@ == "missing argument"@),
        input@.len() == expected ==> (r matches Ok(s) && s@.len() == 0),
{
    if input.len() > expected {
        return Err(String::from_str("too many arguments"));
    } else if input.len() < expected {
        return Err(String::from_str("missing argument"));
    }
    Ok(String::new())
}

/// Splits a command line into words, as `input::split::split` does, but with
/// the lower-case message for an operator with nothing after it.
pub fn split(input: &str) -> (r: Result<Vec<String>, String>)
    ensures
        words_view(r) == split_spec(input@, part_parse_error()),
{
    split_with(input, "parse error near `\\n'")
}

} // verus!
