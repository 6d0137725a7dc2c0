use vstd::prelude::*;

use crate::text::{concat, join_errors, joined_errors, strip_os_code, views, without_os_code};

verus! {

pub const USAGE: &'static str = "Usage:\tcat [FILE]...";

/// What `cat` found at a source path.
#[derive(Debug)]
pub enum SourceProbe {
    Missing,
    Directory,
    Unreadable(String),
}

pub open spec fn source_error_text(path: Seq<char>, probe: SourceProbe) -> Seq<char> {
    match probe {
        SourceProbe::Missing => "cat: "@ + path + ": No such file or directory"@,
        SourceProbe::Directory => "cat: "@ + path + ": Is a directory"@,
        SourceProbe::Unreadable(e) => "cat: "@ + path + ": "@ + without_os_code(e@),
    }
}

/// The message for a source that could not be read.
pub fn source_error(path: &str, probe: &SourceProbe) -> (r: String)
    ensures
        r@ == source_error_text(path@, *probe),
{
    let mut m = concat("cat: ", path);
    match probe {
        SourceProbe::Missing => m.append(": No such file or directory"),
        SourceProbe::Directory => m.append(": Is a directory"),
        SourceProbe::Unreadable(e) => {
            m.append(": ");
            m.append(strip_os_code(e.as_str()).as_str());
        },
    }
    m
}

/// The message when reading standard input failed.
pub fn stdin_error(err: &str) -> (r: String)
    ensures
        r@ == "cat: -: "@ + without_os_code(err@),
{
    concat("cat: -: ", strip_os_code(err).as_str())
}

/// The answer of `cat`: the contents when every source and target worked,
/// else the errors (a leading `cat: ` removed).
pub fn cat_result(contents: String, errors: &Vec<String>) -> (r: Result<String, String>)
    ensures
        match joined_errors(views(errors@), "cat: "@) {
            None => r == Ok::<String, String>(contents),
            Some(e) => r matches Err(m) && m@ == e,
        },
{
    match join_errors(errors, "cat: ") {
        None => Ok(contents),
        Some(e) => Err(e),
    }
}

} // verus!
