use vstd::prelude::*;

use crate::redirect::{ref_views, separate_spec, separate_sources_from_targets};
use crate::text::{chars_of, replace_all, replace_str, string_of, strip_os_code, views, without_os_code};

verus! {

pub const USAGE: &'static str = "Usage:\techo [STRING]...";

/// What `serde_json::from_str::<String>` gives for a text: the decoded
/// string, or the text of its error.
pub uninterp spec fn json_string_value(s: Seq<char>) -> Result<Seq<char>, Seq<char>>;

/// A character that a JSON string may hold without an escape.
pub open spec fn json_plain_char(c: char) -> bool {
    c != '"' && c != '\\' && c >= ' '
}

/// A JSON string literal whose characters between the quotes need no
/// decoding.
pub open spec fn plain_json_literal(s: Seq<char>) -> bool {
    &&& s.len() >= 2
    &&& s[0] == '"'
    &&& s.last() == '"'
    &&& forall|i: int| 1 <= i < s.len() - 1 ==> json_plain_char(#[trigger] s[i])
}

/// `serde_json::from_str::<String>`: decodes a JSON string literal.
/// Claimed: the result (or the error's text) is `json_string_value` of the
/// input, and a quoted text with no quote, backslash or control character
/// decodes to the text between the quotes, as the JSON grammar says.
/// What it gives for other texts is left unsaid.
#[verifier::external_body]
fn decode_json_string(s: &str) -> (r: Result<String, String>)
    ensures
        match r {
            Ok(v) => json_string_value(s@) == Ok::<Seq<char>, Seq<char>>(v@) && (plain_json_literal(s@)
                ==> v@ == s@.subrange(1, s@.len() - 1)),
            Err(e) => json_string_value(s@) == Err::<Seq<char>, Seq<char>>(e@) && !plain_json_literal(s@),
        },
{
    match serde_json::de::from_str::<String>(s) {
        Ok(v) => Ok(v),
        Err(e) => Err(e.to_string()),
    }
}

/// `n` backslashes.
pub open spec fn backslashes(n: nat) -> Seq<char> {
    Seq::new(n, |i: int| '\\')
}

/// The state after reading `s`: (output, backslashes waiting).
pub open spec fn backslash_state(s: Seq<char>, plus: nat) -> (Seq<char>, nat)
    decreases s.len(),
{
    if s.len() == 0 {
        (Seq::<char>::empty(), 0)
    } else {
        let (out, count) = backslash_state(s.drop_last(), plus);
        let c = s.last();
        if c == '\\' {
            (out, count + 1)
        } else if count > 0 {
            (out + backslashes((count + plus) / 2) + seq![c], 0)
        } else {
            (out.push(c), 0)
        }
    }
}

/// Each run of `k` backslashes before a character becomes `(k + plus) / 2`
/// backslashes; a run at the end becomes `(k + 1) / 2`.
pub open spec fn process_backslashes_spec(s: Seq<char>, plus: nat) -> Seq<char> {
    let (out, count) = backslash_state(s, plus);
    if count > 0 {
        out + backslashes((count + 1) / 2)
    } else {
        out
    }
}

fn push_backslashes(v: &mut Vec<char>, n: usize)
    ensures
        final(v)@ == old(v)@ + backslashes(n as nat),
{
    let mut i: usize = 0;
    let ghost start = v@;
    while i < n
        invariant
            i <= n,
            v@ == start + backslashes(i as nat),
        decreases n - i,
    {
        v.push('\\');
        i = i + 1;
        assert(v@ =~= start + backslashes(i as nat));
    }
}

pub fn process_backslashes(s: &Vec<char>, lo: usize, hi: usize, plus: usize) -> (r: Vec<char>)
    requires
        lo <= hi <= s@.len(),
        plus <= 1,
    ensures
        r@ == process_backslashes_spec(s@.subrange(lo as int, hi as int), plus as nat),
{
    let mut result: Vec<char> = Vec::new();
    let mut backslash_count: usize = 0;
    let mut i = lo;
    while i < hi
        invariant
            lo <= i <= hi <= s@.len(),
            plus <= 1,
            backslash_count <= i - lo,
            backslash_state(s@.subrange(lo as int, i as int), plus as nat) == (result@, backslash_count as nat),
        decreases hi - i,
    {
        let c = s[i];
        assert(s@.subrange(lo as int, i + 1).drop_last() =~= s@.subrange(lo as int, i as int));
        if c == '\\' {
            backslash_count = backslash_count + 1;
        } else {
            if backslash_count > 0 {
                let keep = (backslash_count + plus) / 2;
                push_backslashes(&mut result, keep);
                backslash_count = 0;
            }
            result.push(c);
        }
        i = i + 1;
    }
    if backslash_count > 0 {
        let keep = backslash_count / 2 + backslash_count % 2;
        assert(keep == (backslash_count + 1) / 2);
        push_backslashes(&mut result, keep);
    }
    result
}

/// A word in matching quotes (double, or single).
pub open spec fn is_quoted(arg: Seq<char>) -> bool {
    (arg.len() > 1 && arg[0] == '"' && arg.last() == '"') || (arg.len() > 0 && arg[0] == '\'' && arg.last() == '\'')
}

/// One word as `echo` writes it: a quoted word loses its quotes and keeps
/// one more backslash of each run.
pub open spec fn echo_word(arg: Seq<char>) -> Seq<char> {
    if is_quoted(arg) {
        process_backslashes_spec(arg.subrange(1, arg.len() - 1), 1)
    } else {
        process_backslashes_spec(arg, 0)
    }
}

/// The words joined by spaces.
pub open spec fn echo_words(args: Seq<Seq<char>>) -> Seq<char>
    decreases args.len(),
{
    if args.len() == 0 {
        Seq::<char>::empty()
    } else if args.len() == 1 {
        echo_word(args[0])
    } else {
        echo_words(args.drop_last()) + seq![' '] + echo_word(args.last())
    }
}

/// The JSON string literal that `echo` decodes: its words in quotes.
pub open spec fn echo_literal(input: Seq<Seq<char>>) -> Seq<char> {
    seq!['"'] + echo_words(separate_spec(input).0) + seq!['"']
}

/// `echo` cannot take the lone word `'`.
pub open spec fn echo_accepts(input: Seq<Seq<char>>) -> bool {
    forall|i: int| 0 <= i < separate_spec(input).0.len() ==> #[trigger] separate_spec(input).0[i] != seq!['\'']
}

/// The JSON string literal that `echo` decodes.
pub fn echo_literal_text(input: &[String]) -> (r: String)
    requires
        echo_accepts(views(input@)),
    ensures
        r@ == echo_literal(views(input@)),
{
    let (sources, _targets) = separate_sources_from_targets(input);
    let ghost srcs = ref_views(sources@);
    let mut out: Vec<char> = Vec::new();
    out.push('"');
    let mut i: usize = 0;
    while i < sources.len()
        invariant
            srcs == ref_views(sources@),
            srcs == separate_spec(views(input@)).0,
            echo_accepts(views(input@)),
            i <= sources@.len(),
            out@ == seq!['"'] + echo_words(srcs.take(i as int)),
        decreases sources@.len() - i,
    {
        let arg = chars_of(sources[i].as_str());
        assert(arg@ == srcs[i as int]);
        assert(srcs.take(i + 1).drop_last() =~= srcs.take(i as int));
        if i > 0 {
            out.push(' ');
        }
        let n = arg.len();
        let quoted = (n > 1 && arg[0] == '"' && arg[n - 1] == '"') || (n > 0 && arg[0] == '\'' && arg[n - 1] == '\'');
        let mut word = if quoted {
            assert(n > 1) by {
                if n == 1 {
                    assert(arg@ =~= seq!['\'']);
                }
            }
            process_backslashes(&arg, 1, n - 1, 1)
        } else {
            process_backslashes(&arg, 0, n, 0)
        };
        proof {
            if !quoted {
                assert(arg@.subrange(0, n as int) =~= arg@);
            }
        }
        out.append(&mut word);
        assert(out@ =~= seq!['"'] + echo_words(srcs.take(i + 1)));
        i = i + 1;
    }
    out.push('"');
    assert(srcs.take(sources@.len() as int) =~= srcs);
    string_of(&out)
}

/// The environment variables that `echo` replaces.
pub struct EchoEnv {
    pub user: String,
    pub hostname: String,
    pub pid: String,
    pub path: String,
    pub shell: String,
    pub umask: String,
    pub home: String,
    pub lang: String,
    pub term: String,
}

/// `$USER`, `$HOSTNAME`, `$PID`, `$PATH`, `$SHELL`, `$UMASK`, `$HOME`,
/// `$LANG` and `$TERM` replaced, in that order, by their values.
pub open spec fn expand_env(s: Seq<char>, env: EchoEnv) -> Seq<char> {
    let s1 = replace_all(s, "$USER"@, env.user@);
    let s2 = replace_all(s1, "$HOSTNAME"@, env.hostname@);
    let s3 = replace_all(s2, "$PID"@, env.pid@);
    let s4 = replace_all(s3, "$PATH"@, env.path@);
    let s5 = replace_all(s4, "$SHELL"@, env.shell@);
    let s6 = replace_all(s5, "$UMASK"@, env.umask@);
    let s7 = replace_all(s6, "$HOME"@, env.home@);
    let s8 = replace_all(s7, "$LANG"@, env.lang@);
    replace_all(s8, "$TERM"@, env.term@)
}

pub fn parse_environment_variables(output: &String, env: &EchoEnv) -> (r: String)
    ensures
        r@ == expand_env(output@, *env),
{
    proof {
        reveal_strlit("$USER");
        reveal_strlit("$HOSTNAME");
        reveal_strlit("$PID");
        reveal_strlit("$PATH");
        reveal_strlit("$SHELL");
        reveal_strlit("$UMASK");
        reveal_strlit("$HOME");
        reveal_strlit("$LANG");
        reveal_strlit("$TERM");
    }
    let s1 = replace_str(output.as_str(), "$USER", env.user.as_str());
    let s2 = replace_str(s1.as_str(), "$HOSTNAME", env.hostname.as_str());
    let s3 = replace_str(s2.as_str(), "$PID", env.pid.as_str());
    let s4 = replace_str(s3.as_str(), "$PATH", env.path.as_str());
    let s5 = replace_str(s4.as_str(), "$SHELL", env.shell.as_str());
    let s6 = replace_str(s5.as_str(), "$UMASK", env.umask.as_str());
    let s7 = replace_str(s6.as_str(), "$HOME", env.home.as_str());
    let s8 = replace_str(s7.as_str(), "$LANG", env.lang.as_str());
    replace_str(s8.as_str(), "$TERM", env.term.as_str())
}

/// What `echo` writes once its text has been decoded: the environment
/// variables replaced and a newline added; a decoding error is reported
/// without its ` (os ...)` part.
pub open spec fn finish_echo_spec(decoded: Result<Seq<char>, Seq<char>>, env: EchoEnv) -> Result<Seq<char>, Seq<char>> {
    match decoded {
        Ok(v) => Ok(expand_env(v, env).push('\n')),
        Err(e) => Err(without_os_code(e)),
    }
}

pub fn finish_echo(decoded: Result<String, String>, env: &EchoEnv) -> (r: Result<String, String>)
    ensures
        match r {
            Ok(s) => finish_echo_spec(
                match decoded { Ok(v) => Ok(v@), Err(e) => Err(e@) },
                *env,
            ) == Ok::<Seq<char>, Seq<char>>(s@),
            Err(e) => finish_echo_spec(
                match decoded { Ok(v) => Ok(v@), Err(e) => Err(e@) },
                *env,
            ) == Err::<Seq<char>, Seq<char>>(e@),
        },
{
    match decoded {
        Ok(v) => {
            let mut out = parse_environment_variables(&v, env);
            let ghost body = out@;
            out.append("\n");
            proof {
                reveal_strlit("\n");
                assert(out@ =~= body.push('\n'));
            }
            Ok(out)
        },
        Err(e) => Err(strip_os_code(e.as_str())),
    }
}

/// `echo [STRING]...`: the text it writes (to standard output, or to its
/// redirection targets).
pub open spec fn echo_spec(input: Seq<Seq<char>>, env: EchoEnv) -> Result<Seq<char>, Seq<char>> {
    if input.len() < 2 {
        Ok(seq!['\n'])
    } else {
        finish_echo_spec(json_string_value(echo_literal(input)), env)
    }
}

pub fn echo(input: &[String], env: &EchoEnv) -> (r: Result<String, String>)
    requires
        echo_accepts(views(input@)),
    ensures
        match r {
            Ok(s) => echo_spec(views(input@), *env) == Ok::<Seq<char>, Seq<char>>(s@),
            Err(e) => echo_spec(views(input@), *env) == Err::<Seq<char>, Seq<char>>(e@),
        },
        input@.len() >= 2 && plain_json_literal(echo_literal(views(input@))) ==> r is Ok && r->Ok_0@ == expand_env(
            echo_literal(views(input@)).subrange(1, echo_literal(views(input@)).len() - 1),
            *env,
        ).push('\n'),
{
    if input.len() < 2 {
        let s = String::from_str("\n");
        proof {
            reveal_strlit("\n");
            assert(s@ =~= seq!['\n']);
        }
        return Ok(s);
    }
    let literal = echo_literal_text(input);
    let decoded = decode_json_string(literal.as_str());
    finish_echo(decoded, env)
}

} // verus!
