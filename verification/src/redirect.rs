use vstd::prelude::*;

use crate::text::{eq_str, views};

verus! {

/// `>` or `>>`.
pub open spec fn is_redirect_op(s: Seq<char>) -> bool {
    s == seq!['>'] || s == seq!['>', '>']
}

/// The arguments after the command name that are not redirections (sources),
/// and each redirection operator with the word after it (targets).
pub open spec fn separate_spec(input: Seq<Seq<char>>) -> (Seq<Seq<char>>, Seq<(Seq<char>, Seq<char>)>)
    decreases input.len(),
{
    if input.len() <= 1 {
        (Seq::<Seq<char>>::empty(), Seq::<(Seq<char>, Seq<char>)>::empty())
    } else {
        let (sources, targets) = separate_spec(input.drop_last());
        let current = input.last();
        let previous = input[input.len() - 2];
        if is_redirect_op(current) {
            (sources, targets)
        } else if is_redirect_op(previous) {
            (sources, targets.push((previous, current)))
        } else {
            (sources.push(current), targets)
        }
    }
}

pub open spec fn ref_views(v: Seq<&String>) -> Seq<Seq<char>> {
    v.map_values(|s: &String| s@)
}

pub open spec fn pair_views(v: Seq<[&String; 2]>) -> Seq<(Seq<char>, Seq<char>)> {
    v.map_values(|p: [&String; 2]| (p@[0]@, p@[1]@))
}

fn is_op(s: &String) -> (b: bool)
    ensures
        b == is_redirect_op(s@),
{
    let r = eq_str(s.as_str(), ">") || eq_str(s.as_str(), ">>");
    proof {
        reveal_strlit(">");
        reveal_strlit(">>");
        assert(">"@ =~= seq!['>']);
        assert(">>"@ =~= seq!['>', '>']);
    }
    r
}

/// Splits the arguments of a command into sources and redirection targets.
pub fn separate_sources_from_targets(input: &[String]) -> (r: (Vec<&String>, Vec<[&String; 2]>))
    ensures
        (ref_views(r.0@), pair_views(r.1@)) == separate_spec(views(input@)),
{
    let mut sources: Vec<&String> = Vec::new();
    let mut targets: Vec<[&String; 2]> = Vec::new();
    let mut index: usize = 1;
    if input.len() == 0 {
        return (sources, targets);
    }
    assert(views(input@).take(1) =~= views(input@).take(1).drop_last().push(views(input@)[0]));
    while index < input.len()
        invariant
            1 <= index <= input@.len(),
            (ref_views(sources@), pair_views(targets@)) == separate_spec(views(input@).take(index as int)),
        decreases input@.len() - index,
    {
        let current = &input[index];
        let previous = &input[index - 1];
        let ghost t = views(input@).take(index + 1);
        assert(t.drop_last() =~= views(input@).take(index as int));
        assert(t.last() == current@);
        assert(t[t.len() - 2] == previous@);
        if is_op(current) {
        } else if is_op(previous) {
            let ghost old_t = targets@;
            targets.push([previous, current]);
            assert(pair_views(targets@) =~= pair_views(old_t).push((previous@, current@)));
        } else {
            let ghost old_s = sources@;
            sources.push(current);
            assert(ref_views(sources@) =~= ref_views(old_s).push(current@));
        }
        index = index + 1;
    }
    assert(views(input@).take(input@.len() as int) =~= views(input@));
    (sources, targets)
}

} // verus!

verus! {

/// How a redirection writes to its target.
#[derive(Debug, Clone, Copy, PartialEq, Eq, Structural)]
pub enum WriteMode {
    Create,
    Append,
}

/// `>` truncates; `>>` appends, or creates a target that does not exist.
pub fn write_mode(op: &str, target_exists: bool) -> (m: WriteMode)
    ensures
        m == (if !target_exists || op@ == ">"@ { WriteMode::Create } else { WriteMode::Append }),
{
    if !target_exists || eq_str(op, ">") {
        WriteMode::Create
    } else {
        WriteMode::Append
    }
}

} // verus!
