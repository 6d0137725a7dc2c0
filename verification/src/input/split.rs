use vstd::prelude::*;

use crate::text::{chars_of, is_quote, is_white_space, is_whitespace, string_of, string_of_range, views};

verus! {

/// The message for a redirection with nothing after it.
pub open spec fn top_parse_error() -> Seq<char> {
    "Parse error near `\\n'"@
}

/// The message for a stray `>` inside a word.
pub open spec fn part_parse_error() -> Seq<char> {
    "parse error near `\\n'"@
}

/// The quote that is open after reading `t`: a quote opens when none is open,
/// and closes only at the same quote character.
pub open spec fn quote_after(t: Seq<char>) -> Option<char>
    decreases t.len(),
{
    if t.len() == 0 {
        None
    } else {
        let q = quote_after(t.drop_last());
        let c = t.last();
        if is_quote(c) {
            match q {
                Some(x) => if x == c { None } else { Some(x) },
                None => Some(c),
            }
        } else {
            q
        }
    }
}

/// The index of the first `>` of `t` that stands outside quotes.
pub open spec fn first_divider(t: Seq<char>) -> Option<int>
    decreases t.len(),
{
    if t.len() == 0 {
        None
    } else {
        match first_divider(t.drop_last()) {
            Some(i) => Some(i),
            None => if t.last() == '>' && quote_after(t.drop_last()) is None {
                Some(t.len() - 1)
            } else {
                None
            },
        }
    }
}

/// The text before the divider at `i`, the divider (`>` or `>>`), and the text after it.
pub open spec fn divide(t: Seq<char>, i: int) -> (Seq<char>, Seq<char>, Seq<char>) {
    if i + 1 < t.len() && t[i + 1] == '>' {
        (t.take(i), seq!['>', '>'], t.skip(i + 2))
    } else {
        (t.take(i), seq!['>'], t.skip(i + 1))
    }
}

/// `acc` with `cur` appended as a word when `cur` is not empty.
pub open spec fn flush(cur: Seq<char>, acc: Seq<Seq<char>>) -> Seq<Seq<char>> {
    if cur.len() > 0 {
        acc.push(cur)
    } else {
        acc
    }
}

/// One character of word splitting. The state is (inside quotes, the current
/// word, the words so far); `None` is a parse error.
pub open spec fn part_step(st: (bool, Seq<char>, Seq<Seq<char>>), c: char) -> Option<
    (bool, Seq<char>, Seq<Seq<char>>),
> {
    let (inside, cur, acc) = st;
    if inside {
        if is_quote(c) {
            Some((false, Seq::<char>::empty(), acc.push(cur.push(c))))
        } else {
            Some((true, cur.push(c), acc))
        }
    } else if c == '>' {
        None
    } else if is_quote(c) {
        Some((true, seq![c], flush(cur, acc)))
    } else if is_white_space(c) {
        Some((false, Seq::<char>::empty(), flush(cur, acc)))
    } else {
        Some((false, cur.push(c), acc))
    }
}

/// The word-splitting state after reading `t`.
pub open spec fn part_state(t: Seq<char>) -> Option<(bool, Seq<char>, Seq<Seq<char>>)>
    decreases t.len(),
{
    if t.len() == 0 {
        Some((false, Seq::<char>::empty(), Seq::<Seq<char>>::empty()))
    } else {
        match part_state(t.drop_last()) {
            Some(st) => part_step(st, t.last()),
            None => None,
        }
    }
}

/// The words of a text that holds no redirection.
pub open spec fn split_part_spec(t: Seq<char>) -> Result<Seq<Seq<char>>, Seq<char>> {
    match part_state(t) {
        Some((_inside, cur, acc)) => Ok(flush(cur, acc)),
        None => Err(part_parse_error()),
    }
}


pub proof fn lemma_first_divider_bounds(t: Seq<char>)
    ensures
        first_divider(t) matches Some(i) ==> 0 <= i < t.len() && t[i] == '>',
    decreases t.len(),
{
    if t.len() > 0 {
        lemma_first_divider_bounds(t.drop_last());
    }
}

/// The words of `t`, with each redirection operator as a word of its own;
/// `top_error` is the message for an operator with nothing after it.
pub open spec fn split_spec(t: Seq<char>, top_error: Seq<char>) -> Result<Seq<Seq<char>>, Seq<char>>
    decreases t.len(),
{
    match first_divider(t) {
        Some(i) => {
            proof {
                lemma_first_divider_bounds(t);
            }
            let (a, d, b) = divide(t, i);
            if b.len() == 0 {
                Err(top_error)
            } else {
                match split_spec(a, top_error) {
                    Err(e) => Err(e),
                    Ok(x) => match split_spec(b, top_error) {
                        Err(e) => Err(e),
                        Ok(y) => Ok(x + seq![d] + y),
                    },
                }
            }
        },
        None => split_part_spec(t),
    }
}

/// The view of a result of splitting.
pub open spec fn words_view(r: Result<Vec<String>, String>) -> Result<Seq<Seq<char>>, Seq<char>> {
    match r {
        Ok(v) => Ok(views(v@)),
        Err(e) => Err(e@),
    }
}

/// Splits a command line into words, with `>` and `>>` as words of their own.
pub fn split(input: &str) -> (r: Result<Vec<String>, String>)
    ensures
        words_view(r) == split_spec(input@, top_parse_error()),
{
    split_with(input, "Parse error near `\\n'")
}

/// Splitting with a given message for an operator with nothing after it.
pub fn split_with(input: &str, top_error: &str) -> (r: Result<Vec<String>, String>)
    ensures
        words_view(r) == split_spec(input@, top_error@),
    decreases input@.len(),
{
    match split_at_first_divider(input) {
        Some((part_1, divider, part_2)) => {
            proof {
                lemma_first_divider_bounds(input@);
            }
            if part_2.as_str().is_empty() {
                return Err(String::from_str(top_error));
            }
            let mut result: Vec<String> = Vec::new();
            let mut r1 = match split_with(part_1.as_str(), top_error) {
                Ok(x) => x,
                Err(e) => return Err(e),
            };
            let mut r2 = match split_with(part_2.as_str(), top_error) {
                Ok(x) => x,
                Err(e) => return Err(e),
            };
            let ghost v1 = r1@;
            let ghost v2 = r2@;
            result.append(&mut r1);
            result.push(divider);
            result.append(&mut r2);
            assert(views(result@) =~= views(v1) + seq![divider@] + views(v2));
            Ok(result)
        },
        None => split_part(input),
    }
}

/// Finds the first `>` outside quotes and returns the text before it, the
/// operator (`>` or `>>`) and the text after it.
pub fn split_at_first_divider(input: &str) -> (r: Option<(String, String, String)>)
    ensures
        match r {
            Some((a, d, b)) => first_divider(input@) matches Some(i) && (a@, d@, b@) == divide(input@, i),
            None => first_divider(input@) is None,
        },
{
    let v = chars_of(input);
    let n = v.len();
    let mut quote_char: Option<char> = None;
    let mut i: usize = 0;
    while i < n
        invariant
            n == v@.len(),
            v@ == input@,
            i <= n,
            quote_char == quote_after(v@.take(i as int)),
            first_divider(v@.take(i as int)) is None,
        decreases n - i,
    {
        let c = v[i];
        assert(v@.take(i + 1).drop_last() =~= v@.take(i as int));
        assert(v@.take(i + 1).last() == c);
        if c == '"' || c == '\'' {
            match quote_char {
                Some(q) => {
                    if q == c {
                        quote_char = None;
                    }
                },
                None => {
                    quote_char = Some(c);
                },
            }
        } else if c == '>' && quote_char.is_none() {
            assert(first_divider(v@.take(i + 1)) == Some(i as int));
            proof {
                lemma_first_divider_extend(v@.take(i + 1), v@.skip(i + 1));
                assert(v@.take(i + 1) + v@.skip(i + 1) =~= v@);
            }
            assert(first_divider(input@) == Some(i as int));
            let before = string_of_range(&v, 0, i);
            if i + 1 < n && v[i + 1] == '>' {
                let after = string_of_range(&v, i + 2, n);
                let d = String::from_str(">>");
                proof {
                    reveal_strlit(">>");
                    assert(d@ =~= seq!['>', '>']);
                    assert(before@ =~= v@.take(i as int));
                    assert(after@ =~= v@.skip(i + 2));
                }
                return Some((before, d, after));
            } else {
                let after = string_of_range(&v, i + 1, n);
                let d = String::from_str(">");
                proof {
                    reveal_strlit(">");
                    assert(d@ =~= seq!['>']);
                    assert(before@ =~= v@.take(i as int));
                    assert(after@ =~= v@.skip(i + 1));
                }
                return Some((before, d, after));
            }
        }
        i = i + 1;
    }
    assert(v@.take(n as int) =~= v@);
    None
}

/// A divider found in a prefix is the divider of every extension.
pub proof fn lemma_first_divider_extend(t: Seq<char>, u: Seq<char>)
    requires
        first_divider(t) is Some,
    ensures
        first_divider(t + u) == first_divider(t),
    decreases u.len(),
{
    if u.len() > 0 {
        lemma_first_divider_extend(t, u.drop_last());
        assert((t + u).drop_last() =~= t + u.drop_last());
    } else {
        assert(t + u =~= t);
    }
}

/// Once word splitting has failed, it stays failed.
pub proof fn lemma_part_state_error_extends(t: Seq<char>, u: Seq<char>)
    requires
        part_state(t) is None,
    ensures
        part_state(t + u) is None,
    decreases u.len(),
{
    if u.len() > 0 {
        lemma_part_state_error_extends(t, u.drop_last());
        assert((t + u).drop_last() =~= t + u.drop_last());
    } else {
        assert(t + u =~= t);
    }
}

/// Splits text that holds no redirection into words; quoted text is one word,
/// quotes included.
pub fn split_part(input: &str) -> (r: Result<Vec<String>, String>)
    ensures
        words_view(r) == split_part_spec(input@),
{
    let v = chars_of(input);
    let n = v.len();
    let mut result: Vec<String> = Vec::new();
    let mut current_word: Vec<char> = Vec::new();
    let mut inside_quotes = false;
    let mut i: usize = 0;
    while i < n
        invariant
            n == v@.len(),
            v@ == input@,
            i <= n,
            part_state(v@.take(i as int)) == Some((inside_quotes, current_word@, views(result@))),
        decreases n - i,
    {
        let c = v[i];
        assert(v@.take(i + 1).drop_last() =~= v@.take(i as int));
        assert(v@.take(i + 1).last() == c);
        let ghost acc = views(result@);
        if inside_quotes {
            if c == '"' || c == '\'' {
                inside_quotes = false;
                current_word.push(c);
                let w = string_of(&current_word);
                result.push(w);
                current_word = Vec::new();
                assert(views(result@) =~= acc.push(w@));
            } else {
                current_word.push(c);
            }
        } else {
            if c == '>' {
                proof {
                    lemma_part_state_error_extends(v@.take(i + 1), v@.skip(i + 1));
                    assert(v@.take(i + 1) + v@.skip(i + 1) =~= v@);
                }
                return Err(String::from_str("parse error near `\\n'"));
            }
            if c == '"' || c == '\'' {
                if current_word.len() > 0 {
                    let w = string_of(&current_word);
                    result.push(w);
                    current_word = Vec::new();
                    assert(views(result@) =~= acc.push(w@));
                }
                inside_quotes = true;
                current_word.push(c);
                assert(current_word@ =~= seq![c]);
            } else if is_whitespace(c) {
                if current_word.len() > 0 {
                    let w = string_of(&current_word);
                    result.push(w);
                    current_word = Vec::new();
                    assert(views(result@) =~= acc.push(w@));
                }
            } else {
                current_word.push(c);
            }
        }
        i = i + 1;
    }
    assert(v@.take(n as int) =~= v@);
    if current_word.len() > 0 {
        let ghost acc = views(result@);
        let w = string_of(&current_word);
        result.push(w);
        assert(views(result@) =~= acc.push(w@));
    }
    Ok(result)
}

} // verus!
