use vstd::prelude::*;

use crate::redirect::{pair_views, ref_views, separate_spec};
use crate::text::views;

verus! {

/// Splits the arguments of a command into sources and redirection targets
/// (see `crate::redirect::separate_sources_from_targets`).
pub fn separate_sources_from_targets(input: &[String]) -> (r: (Vec<&String>, Vec<[&String; 2]>))
    ensures
        (ref_views(r.0@), pair_views(r.1@)) == separate_spec(views(input@)),
{
    crate::redirect::separate_sources_from_targets(input)
}

} // verus!
