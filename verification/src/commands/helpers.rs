use vstd::prelude::*;

verus! {

/// Exactly `expected` words: `Ok("")`, else which way the count is off.
pub fn check_num_args(input: &[String], expected: usize) -> (r: Result<String, String>)
    ensures
        input@.len() > expected ==> (r matches Err(e) && e@ == "Too many arguments"@),
        input@.len() < expected ==> (r matches Err(e) && e@ == "Missing argument"@),
        input@.len() == expected ==> (r matches Ok(s) && s@.len() == 0),
{
    if input.len() > expected {
        return Err(String::from_str("Too many arguments"));
    } else if input.len() < expected {
        return Err(String::from_str("Missing argument"));
    }
    Ok(String::new())
}

} // verus!
