use vstd::prelude::*;

use crate::commands::bg::{bg_fold, bg_plan_spec, bg_spec, bg_start, bg_step, plan_fold, BgState};
use crate::ansi::{BLUE, RESET_FG};
use crate::commands::exit::{exit_spec, has_stopped};
use crate::commands::ls::{has_bad_letter, is_option_word, parse_flags, unrecognized_option, LsFlags};
use crate::commands::man::{man_entry, man_spec};
use crate::input::split::{first_divider, part_state, quote_after, split_part_spec, split_spec};
use crate::redirect::{is_redirect_op, separate_spec};
use crate::commands::echo::{expand_env, EchoEnv};
use crate::text::{is_quote, join_lines, occurs_at, replace_all, split_whitespace, words_state};
use crate::commands::ls::format::{
    blue_text, keyed_row, long_listing, long_rows, row_sort_key, sorted_rows, visible_len, visible_state,
};
use crate::commands::fg::fg_done_spec;
use crate::commands::jobs::{
    child_event_spec, job_index, lemma_job_index, option_flags, pointers_after_removal, ChildEvent, Job, JobOptions, State,
};
use crate::input::backtrack::{
    first_diff, first_index, has_prefix, lemma_first_index, lemma_listed_before_irreflexive, listed_before, lists_matches,
};
use crate::input::editor::{history_after_key, line_after_key, EditKey};
use crate::num::{decimal, lemma_parse_signed_decimal, signed_decimal};
use crate::sort::{insert_by_key, sort_by_key, text_lt, SortKey};

verus! {

/// A job as `bg` leaves it: the same ID, process group and command, and
/// the same state, or running where it was stopped.
pub open spec fn kept_or_resumed(before: Job, after: Job) -> bool {
    &&& after.jid == before.jid
    &&& after.pgid == before.pgid
    &&& after.command == before.command
    &&& (after.state == before.state || (before.state == State::Stopped && after.state == State::Running))
}

proof fn lemma_bg_fold_keeps(jobs: Seq<Job>, st: BgState, errs: Seq<Option<Seq<char>>>)
    ensures
        bg_fold(jobs, st, errs).jobs.len() == st.jobs.len() + jobs.len(),
        bg_fold(jobs, st, errs).jobs.take(st.jobs.len() as int) == st.jobs,
        forall|i: int|
            0 <= i < jobs.len() ==> kept_or_resumed(jobs[i], #[trigger] bg_fold(jobs, st, errs).jobs[st.jobs.len() + i]),
    decreases jobs.len(),
{
    if jobs.len() > 0 {
        let st1 = bg_step(jobs[0], st, errs);
        assert(st1.jobs.len() == st.jobs.len() + 1);
        assert(st1.jobs.take(st.jobs.len() as int) == st.jobs);
        assert(kept_or_resumed(jobs[0], st1.jobs[st.jobs.len() as int]));
        lemma_bg_fold_keeps(jobs.skip(1), st1, errs);
        let r = bg_fold(jobs, st, errs).jobs;
        assert(r == bg_fold(jobs.skip(1), st1, errs).jobs);
        assert(r.take(st1.jobs.len() as int) == st1.jobs);
        assert(r.take(st.jobs.len() as int) =~= st1.jobs.take(st.jobs.len() as int)) by {
            assert forall|k: int| 0 <= k < st.jobs.len() implies r.take(st.jobs.len() as int)[k] == st1.jobs.take(
                st.jobs.len() as int,
            )[k] by {
                assert(r.take(st1.jobs.len() as int)[k] == r[k]);
            }
        }
        assert forall|i: int| 0 <= i < jobs.len() implies kept_or_resumed(
            jobs[i],
            #[trigger] bg_fold(jobs, st, errs).jobs[st.jobs.len() + i],
        ) by {
            if i == 0 {
                assert(r.take(st1.jobs.len() as int)[st.jobs.len() as int] == r[st.jobs.len() as int]);
            } else {
                assert(jobs.skip(1)[i - 1] == jobs[i]);
                assert(bg_fold(jobs.skip(1), st1, errs).jobs[st1.jobs.len() + (i - 1)] == r[st.jobs.len() + i]);
            }
        }
    }
}

/// `bg` keeps the job table: the same jobs in the same order, each with its
/// ID, process group and command; a job's state changes only from stopped
/// to running.
pub proof fn law_bg_keeps_table(
    input: Seq<Seq<char>>,
    jobs: Seq<Job>,
    current: usize,
    previous: usize,
    errs: Seq<Option<Seq<char>>>,
)
    requires
        bg_spec(input, jobs, current, previous, errs) is Ok,
    ensures
        bg_spec(input, jobs, current, previous, errs)->Ok_0.jobs.len() == jobs.len(),
        forall|i: int|
            0 <= i < jobs.len() ==> kept_or_resumed(
                jobs[i],
                #[trigger] bg_spec(input, jobs, current, previous, errs)->Ok_0.jobs[i],
            ),
{
    let st0 = bg_start(input, current, previous)->Some_0;
    lemma_bg_fold_keeps(jobs, st0, errs);
    assert forall|i: int| 0 <= i < jobs.len() implies kept_or_resumed(
        jobs[i],
        #[trigger] bg_spec(input, jobs, current, previous, errs)->Ok_0.jobs[i],
    ) by {
        assert(bg_fold(jobs, st0, errs).jobs[st0.jobs.len() + i] == bg_fold(jobs, st0, errs).jobs[i]);
    }
}

proof fn lemma_bg_fold_attempts(jobs: Seq<Job>, st: BgState, errs: Seq<Option<Seq<char>>>)
    ensures
        bg_fold(jobs, st, errs).attempted == st.attempted + plan_fold(jobs, st.targets, st.handled),
    decreases jobs.len(),
{
    if jobs.len() == 0 {
        assert(st.attempted + Seq::<i32>::empty() =~= st.attempted);
    } else {
        let st1 = bg_step(jobs[0], st, errs);
        lemma_bg_fold_attempts(jobs.skip(1), st1, errs);
        assert(st1.targets == st.targets);
        assert(bg_fold(jobs, st, errs).attempted =~= st.attempted + plan_fold(jobs, st.targets, st.handled));
    }
}

/// `bg` takes the outcomes of its resume attempts in the order of its plan:
/// whatever the outcomes are, the process groups that it tries to resume are
/// those of `bg_plan`, in the same order, one outcome each; and where it
/// answers "Current: no such job" the plan is empty, so nothing is signalled.
pub proof fn law_bg_attempts_follow_plan(
    input: Seq<Seq<char>>,
    jobs: Seq<Job>,
    current: usize,
    previous: usize,
    errs: Seq<Option<Seq<char>>>,
)
    ensures
        bg_spec(input, jobs, current, previous, errs) is Err ==> bg_plan_spec(input, jobs, current, previous).len() == 0,
        bg_spec(input, jobs, current, previous, errs) is Ok ==> bg_spec(input, jobs, current, previous, errs)->Ok_0.attempted
            == bg_plan_spec(input, jobs, current, previous),
{
    if bg_start(input, current, previous) is Some {
        let st0 = bg_start(input, current, previous)->Some_0;
        lemma_bg_fold_attempts(jobs, st0, errs);
        assert(st0.attempted + plan_fold(jobs, st0.targets, st0.handled) =~= plan_fold(jobs, st0.targets, st0.handled));
    }
}

/// Completion lists each match once.
pub proof fn law_matches_distinct(data: Seq<Seq<char>>, partial: Seq<char>, m: Seq<Seq<char>>)
    requires
        lists_matches(data, partial, m),
    ensures
        forall|i: int, j: int| 0 <= i < j < m.len() ==> m[i] != m[j],
{
    assert forall|i: int, j: int| 0 <= i < j < m.len() implies m[i] != m[j] by {
        lemma_listed_before_irreflexive(data, m[i]);
        assert(crate::input::backtrack::listed_before(data, m[i], m[j]));
    }
}

/// Up then Down, or Down then Up, leave the history as it was.
pub proof fn law_history_round_trip(h: Seq<Seq<char>>)
    requires
        h.len() > 0,
    ensures
        history_after_key(history_after_key(h, EditKey::Up), EditKey::Down) == h,
        history_after_key(history_after_key(h, EditKey::Down), EditKey::Up) == h,
{
    let r = history_after_key(h, EditKey::Up);
    assert(history_after_key(r, EditKey::Down) =~= h);
    let l = history_after_key(h, EditKey::Down);
    assert(history_after_key(l, EditKey::Up) =~= h);
}

/// After a job leaves the table, neither job pointer names it (where the
/// two did not both name it).
pub proof fn law_removed_job_unpointed(removed: usize, current: usize, previous: usize)
    requires
        removed > 0,
        !(current == removed && previous == removed),
    ensures
        pointers_after_removal(removed, current, previous).0 != removed,
        pointers_after_removal(removed, current, previous).1 != removed,
{
}

/// `exit N` leaves with the status `N` that it was given, for every `i32`,
/// once the shell may exit.
pub proof fn law_exit_status(jobs: Seq<Job>, exit_attempted: bool, n: i32)
    requires
        !(has_stopped(jobs) && !exit_attempted),
    ensures
        exit_spec(seq!["exit"@, signed_decimal(n as int)], jobs, exit_attempted) == (
            Ok::<Seq<char>, Seq<char>>(signed_decimal(n as int)),
            exit_attempted,
        ),
{
    lemma_parse_signed_decimal(n as int, i32::MIN as int, i32::MAX as int);
}

/// `text_lt` is asymmetric.
pub proof fn lemma_text_lt_asymmetric(a: Seq<char>, b: Seq<char>)
    ensures
        text_lt(a, b) ==> !text_lt(b, a),
    decreases a.len(),
{
    if a.len() > 0 && b.len() > 0 && a[0] == b[0] {
        lemma_text_lt_asymmetric(a.skip(1), b.skip(1));
    }
}

/// Sorted by key: no item's key is below the key of the item before it.
pub open spec fn key_sorted<A: SortKey>(s: Seq<A>) -> bool {
    forall|i: int| 0 <= i < s.len() - 1 ==> !text_lt(#[trigger] s[i + 1].sort_key(), s[i].sort_key())
}

proof fn lemma_insert_sorted<A: SortKey>(s: Seq<A>, x: A)
    requires
        key_sorted(s),
    ensures
        key_sorted(insert_by_key(s, x)),
        insert_by_key(s, x).len() == s.len() + 1,
        insert_by_key(s, x).to_multiset() == s.to_multiset().insert(x),
        s.len() > 0 ==> (insert_by_key(s, x).last() == x || insert_by_key(s, x).last() == s.last()),
    decreases s.len(),
{
    broadcast use vstd::seq_lib::group_seq_properties;
    if s.len() == 0 {
        assert(insert_by_key(s, x) =~= seq![x]);
    } else if text_lt(x.sort_key(), s.last().sort_key()) {
        let t = s.drop_last();
        assert forall|i: int| 0 <= i < t.len() - 1 implies !text_lt(#[trigger] t[i + 1].sort_key(), t[i].sort_key()) by {
            assert(t[i + 1] == s[i + 1]);
            assert(t[i] == s[i]);
        }
        lemma_insert_sorted(t, x);
        let u = insert_by_key(t, x);
        let r = u.push(s.last());
        assert(r == insert_by_key(s, x));
        lemma_text_lt_asymmetric(x.sort_key(), s.last().sort_key());
        if t.len() > 0 {
            let k = s.len() - 2;
            assert(!text_lt(s[k + 1].sort_key(), s[k].sort_key()));
            assert(t.last() == s[k]);
        }
        assert forall|i: int| 0 <= i < r.len() - 1 implies !text_lt(#[trigger] r[i + 1].sort_key(), r[i].sort_key()) by {
            if i < r.len() - 2 {
                assert(r[i + 1] == u[i + 1]);
                assert(r[i] == u[i]);
            } else {
                assert(r[i] == u.last());
                assert(r[i + 1] == s.last());
            }
        }
        assert(s =~= t.push(s.last()));
        assert(s.to_multiset() == t.to_multiset().insert(s.last()));
        assert(r.to_multiset() == u.to_multiset().insert(s.last()));
    } else {
        let r = s.push(x);
        assert forall|i: int| 0 <= i < r.len() - 1 implies !text_lt(#[trigger] r[i + 1].sort_key(), r[i].sort_key()) by {
            if i < r.len() - 2 {
                assert(r[i + 1] == s[i + 1]);
                assert(r[i] == s[i]);
            }
        }
    }
}

/// A stable sort by key puts the items in the order of their keys, and
/// keeps every item, as often as it occurs.
pub proof fn law_sort_orders_and_keeps<A: SortKey>(s: Seq<A>)
    ensures
        key_sorted(sort_by_key(s)),
        sort_by_key(s).to_multiset() == s.to_multiset(),
    decreases s.len(),
{
    broadcast use vstd::seq_lib::group_seq_properties;
    if s.len() > 0 {
        law_sort_orders_and_keeps(s.drop_last());
        lemma_insert_sorted(sort_by_key(s.drop_last()), s.last());
        assert(s =~= s.drop_last().push(s.last()));
        assert(s.to_multiset() == s.drop_last().to_multiset().insert(s.last()));
    }
}

proof fn lemma_visible_append_plain(a: Seq<char>, b: Seq<char>)
    requires
        !visible_state(a).1,
        forall|i: int| 0 <= i < b.len() ==> b[i] != '\x1b',
    ensures
        visible_state(a + b) == (visible_state(a).0 + b.len(), false),
    decreases b.len(),
{
    if b.len() == 0 {
        assert(a + b =~= a);
    } else {
        let c = b.drop_last();
        assert forall|i: int| 0 <= i < c.len() implies c[i] != '\x1b' by {
            assert(c[i] == b[i]);
        }
        lemma_visible_append_plain(a, c);
        assert((a + b).drop_last() =~= a + c);
        assert((a + b).last() == b[b.len() - 1]);
    }
}

/// Five characters `ESC [ x y m` read from a state outside any escape
/// sequence leave the count as it was.
proof fn lemma_visible_append_escape(a: Seq<char>, e: Seq<char>)
    requires
        !visible_state(a).1,
        e.len() == 5,
        e[0] == '\x1b',
        e[1] != 'm',
        e[2] != 'm',
        e[3] != 'm',
        e[4] == 'm',
    ensures
        visible_state(a + e) == visible_state(a),
{
    let s1 = a.push(e[0]);
    let s2 = s1.push(e[1]);
    let s3 = s2.push(e[2]);
    let s4 = s3.push(e[3]);
    let s5 = s4.push(e[4]);
    assert(s1.drop_last() =~= a);
    assert(s2.drop_last() =~= s1);
    assert(s3.drop_last() =~= s2);
    assert(s4.drop_last() =~= s3);
    assert(s5.drop_last() =~= s4);
    assert(visible_state(s1) == (visible_state(a).0, true));
    assert(visible_state(s2) == (visible_state(a).0, true));
    assert(visible_state(s3) == (visible_state(a).0, true));
    assert(visible_state(s4) == (visible_state(a).0, true));
    assert(visible_state(s5) == (visible_state(a).0, false));
    assert(a + e =~= s5);
}

/// Colouring a name blue does not change how wide it shows, so the grid of
/// a short listing stays aligned: for a name without escape characters,
/// the blue text shows exactly the name's characters.
pub proof fn law_blue_keeps_width(t: Seq<char>)
    requires
        forall|i: int| 0 <= i < t.len() ==> t[i] != '\x1b',
    ensures
        visible_len(blue_text(t)) == visible_len(t),
        visible_len(t) == t.len(),
{
    reveal_strlit("\x1b[34m");
    reveal_strlit("\x1b[39m");
    let empty = Seq::<char>::empty();
    assert(visible_state(empty) == (0nat, false));
    lemma_visible_append_escape(empty, BLUE@);
    assert(empty + BLUE@ =~= BLUE@);
    lemma_visible_append_plain(BLUE@, t);
    lemma_visible_append_escape(BLUE@ + t, RESET_FG@);
    lemma_visible_append_plain(empty, t);
    assert(empty + t =~= t);
}

/// The line just entered into the history is the first that Up recalls,
/// with the cursor at its end.
pub proof fn law_up_recalls_last_line(input: Seq<char>, cursor: int, h: Seq<Seq<char>>, line: Seq<char>)
    ensures
        line_after_key(input, cursor, h.push(line), EditKey::Up) == (line, line.len() as int),
{
}

/// With stopped jobs, `exit` first only warns; asked again, it exits (with
/// the status given, or 0).
pub proof fn law_second_exit_leaves(args: Seq<Seq<char>>, jobs: Seq<Job>)
    requires
        args.len() <= 2,
        args.len() == 2 ==> crate::num::parse_int_spec(args[1], i32::MIN as int, i32::MAX as int) is Ok,
    ensures
        exit_spec(args, jobs, exit_spec(args, jobs, false).1).0 is Ok,
{
}


/// Joining two nonempty lists of lines joins their joins with a newline.
pub proof fn lemma_join_lines_append(a: Seq<Seq<char>>, b: Seq<Seq<char>>)
    requires
        a.len() > 0,
        b.len() > 0,
    ensures
        join_lines(a + b) == join_lines(a) + seq!['\n'] + join_lines(b),
    decreases b.len(),
{
    assert((a + b).drop_last() =~= a + b.drop_last());
    assert((a + b).last() == b.last());
    if b.len() == 1 {
        assert(a + b.drop_last() =~= a);
    } else {
        lemma_join_lines_append(a, b.drop_last());
        assert(join_lines(a + b) =~= join_lines(a) + seq!['\n'] + join_lines(b));
    }
}

/// `man` answers one line per command, in order: with one command, its
/// entry (its usage text, or the notice that there is none) and a newline;
/// with the commands `xs` then `ys`, what it answers for `xs` followed by
/// what it answers for `ys`. It fails only when no command is given.
pub proof fn law_man_concatenates(xs: Seq<Seq<char>>, ys: Seq<Seq<char>>, cmd: Seq<char>)
    requires
        xs.len() > 0,
        ys.len() > 0,
    ensures
        man_spec(seq!["man"@, cmd]) == Ok::<Seq<char>, Seq<char>>(man_entry(cmd).push('\n')),
        man_spec(seq!["man"@] + xs + ys) == Ok::<Seq<char>, Seq<char>>(
            man_spec(seq!["man"@] + xs)->Ok_0 + man_spec(seq!["man"@] + ys)->Ok_0,
        ),
        man_spec(seq!["man"@]) is Err,
{
    let one = seq!["man"@, cmd];
    assert(one.skip(1).map_values(|c: Seq<char>| man_entry(c)) =~= seq![man_entry(cmd)]);
    let all = seq!["man"@] + xs + ys;
    let mx = xs.map_values(|c: Seq<char>| man_entry(c));
    let my = ys.map_values(|c: Seq<char>| man_entry(c));
    assert(all.skip(1).map_values(|c: Seq<char>| man_entry(c)) =~= mx + my);
    assert((seq!["man"@] + xs).skip(1).map_values(|c: Seq<char>| man_entry(c)) =~= mx);
    assert((seq!["man"@] + ys).skip(1).map_values(|c: Seq<char>| man_entry(c)) =~= my);
    lemma_join_lines_append(mx, my);
    assert((join_lines(mx) + seq!['\n'] + join_lines(my)).push('\n') =~= join_lines(mx).push('\n') + join_lines(my).push(
        '\n',
    ));
}


/// A long listing is empty for no entries. Otherwise it is the line
/// `total: N`, then a formatted row per entry, and a final newline; the rows
/// are those of the entries, each as often as it occurs, ordered by name
/// with `./` first and `../` next, entries of one name in their given order.
pub proof fn law_long_listing_shape(entries: Seq<Seq<char>>, total: u64)
    ensures
        entries.len() == 0 ==> long_listing(entries, total) == Seq::<char>::empty(),
        entries.len() > 0 ==> long_listing(entries, total).take(("total: "@ + decimal(total as nat)).len() + 1int)
            == "total: "@ + decimal(total as nat) + seq!['\n'],
        entries.len() > 0 ==> long_listing(entries, total).last() == '\n',
        sorted_rows(long_rows(entries)).len() == entries.len(),
        Seq::new(entries.len(), |j: int| keyed_row(sorted_rows(long_rows(entries))[j])).to_multiset() == Seq::new(
            entries.len(),
            |j: int| keyed_row(long_rows(entries)[j]),
        ).to_multiset(),
        forall|i: int|
            0 <= i < entries.len() - 1 ==> !text_lt(
                row_sort_key(#[trigger] sorted_rows(long_rows(entries))[i + 1]),
                row_sort_key(sorted_rows(long_rows(entries))[i]),
            ),
{
    broadcast use vstd::seq_lib::group_seq_properties;
    let rows = long_rows(entries);
    let keyed = Seq::new(rows.len(), |j: int| keyed_row(rows[j]));
    let s = sort_by_key(keyed);
    law_sort_orders_and_keeps(keyed);
    assert(s.len() == keyed.len()) by {
        assert(s.to_multiset().len() == keyed.to_multiset().len());
    }
    assert forall|j: int| 0 <= j < s.len() implies s[j] == keyed_row(s[j].1) by {
        assert(s.contains(s[j]));
        assert(keyed.to_multiset().count(s[j]) > 0);
        assert(keyed.contains(s[j]));
        let k = choose|k: int| 0 <= k < keyed.len() && keyed[k] == s[j];
        assert(keyed[k] == keyed_row(rows[k]));
    }
    let sorted = sorted_rows(rows);
    assert(Seq::new(entries.len(), |j: int| keyed_row(sorted[j])) =~= s);
    assert forall|i: int| 0 <= i < entries.len() - 1 implies !text_lt(
        row_sort_key(#[trigger] sorted[i + 1]),
        row_sort_key(sorted[i]),
    ) by {
        assert(!text_lt(s[i + 1].sort_key(), s[i].sort_key()));
        assert(s[i + 1] == keyed_row(s[i + 1].1));
        assert(s[i] == keyed_row(s[i].1));
    }
    if entries.len() > 0 {
        let head = "total: "@ + decimal(total as nat) + seq!['\n'];
        let l = long_listing(entries, total);
        assert(l.take(head.len() as int) =~= head);
    }
}


/// A word that `ls` takes as options: a `-` and known letters only.
pub open spec fn good_option(arg: Seq<char>) -> bool {
    is_option_word(arg) && !has_bad_letter(arg)
}

/// The `k`-th word is the first option word with an unknown letter, every
/// word before it being an option word.
pub open spec fn first_bad_option(args: Seq<Seq<char>>, k: int) -> bool {
    &&& 0 <= k < args.len()
    &&& forall|j: int| 0 <= j < k ==> good_option(#[trigger] args[j])
    &&& is_option_word(args[k])
    &&& has_bad_letter(args[k])
}

/// Where the options end: at the first path, or after the last word.
pub open spec fn options_end(args: Seq<Seq<char>>, f: LsFlags) -> int {
    match f.first_pathname_index {
        Some(p) => p as int,
        None => args.len() as int,
    }
}

/// Some word before `end` holds the letter `c`.
pub open spec fn letter_given(args: Seq<Seq<char>>, end: int, c: char) -> bool {
    exists|j: int| 0 <= j < end && #[trigger] args[j].contains(c)
}

/// `f` is what the option words of `args` say: they are all the words
/// before the first path, and each flag is set exactly when one of them
/// holds its letter.
pub open spec fn flags_read(args: Seq<Seq<char>>, f: LsFlags) -> bool {
    let e = options_end(args, f);
    &&& 0 <= e <= args.len()
    &&& forall|j: int| 0 <= j < e ==> good_option(#[trigger] args[j])
    &&& f.first_pathname_index is Some ==> e < args.len() && !is_option_word(args[e])
    &&& f.show_hidden == letter_given(args, e, 'a')
    &&& f.long_format == letter_given(args, e, 'l')
    &&& f.classify == letter_given(args, e, 'F')
    &&& f.reverse == letter_given(args, e, 'r')
    &&& f.recursive == letter_given(args, e, 'R')
}

proof fn lemma_letter_given_prefix(args: Seq<Seq<char>>, e: int, c: char)
    requires
        args.len() > 0,
        0 <= e < args.len(),
    ensures
        letter_given(args, e, c) == letter_given(args.drop_last(), e, c),
{
    let a = args.drop_last();
    if letter_given(args, e, c) {
        let j = choose|j: int| 0 <= j < e && #[trigger] args[j].contains(c);
        assert(a[j] == args[j]);
    }
    if letter_given(a, e, c) {
        let j = choose|j: int| 0 <= j < e && #[trigger] a[j].contains(c);
        assert(a[j] == args[j]);
    }
}

proof fn lemma_letter_given_extend(args: Seq<Seq<char>>, n: int, c: char)
    requires
        0 <= n < args.len(),
    ensures
        letter_given(args, n + 1, c) == (letter_given(args, n, c) || args[n].contains(c)),
{
    if letter_given(args, n + 1, c) {
        let j = choose|j: int| 0 <= j < n + 1 && #[trigger] args[j].contains(c);
        if j < n {
            assert(letter_given(args, n, c));
        }
    }
    if args[n].contains(c) {
        assert(letter_given(args, n + 1, c));
    }
    if letter_given(args, n, c) {
        let j = choose|j: int| 0 <= j < n && #[trigger] args[j].contains(c);
        assert(letter_given(args, n + 1, c));
    }
}

/// `ls` reads its options from the words before the first path (the first
/// word that does not start with `-`). It refuses them exactly when one of
/// those words holds a letter other than `a`, `l`, `F`, `r` and `R`, and
/// then names the first such word; otherwise each flag is set exactly when
/// one of those words holds its letter.
pub proof fn law_ls_options(args: Seq<Seq<char>>)
    requires
        args.len() <= usize::MAX,
    ensures
        parse_flags(args) is Err <==> exists|k: int| first_bad_option(args, k),
        forall|k: int|
            first_bad_option(args, k) ==> parse_flags(args) == Err::<LsFlags, Seq<char>>(unrecognized_option(args[k])),
        parse_flags(args) is Ok ==> flags_read(args, parse_flags(args)->Ok_0),
    decreases args.len(),
{
    if args.len() == 0 {
        let f = parse_flags(args)->Ok_0;
        assert(!letter_given(args, 0, 'a'));
        assert(!letter_given(args, 0, 'l'));
        assert(!letter_given(args, 0, 'F'));
        assert(!letter_given(args, 0, 'r'));
        assert(!letter_given(args, 0, 'R'));
    } else {
        let a = args.drop_last();
        let n = a.len() as int;
        let last = args.last();
        law_ls_options(a);
        assert forall|j: int| 0 <= j < n implies a[j] == args[j] by {}
        match parse_flags(a) {
            Err(e) => {
                let k = choose|k: int| first_bad_option(a, k);
                assert forall|j: int| 0 <= j < k implies good_option(#[trigger] args[j]) by {
                    assert(a[j] == args[j]);
                    assert(good_option(a[j]));
                }
                assert(first_bad_option(args, k));
                assert forall|k2: int| first_bad_option(args, k2) implies parse_flags(args) == Err::<
                    LsFlags,
                    Seq<char>,
                >(unrecognized_option(args[k2])) by {
                    if k2 < k {
                        assert(good_option(args[k2]));
                    } else if k2 > k {
                        assert(good_option(args[k]));
                    }
                }
            },
            Ok(f) => {
                let e0 = options_end(a, f);
                assert forall|j: int| 0 <= j < e0 implies good_option(#[trigger] args[j]) by {
                    assert(a[j] == args[j]);
                    assert(good_option(a[j]));
                }
                if f.first_pathname_index is Some {
                    assert(!is_option_word(args[e0]));
                    assert forall|k: int| !first_bad_option(args, k) by {
                        if first_bad_option(args, k) {
                            if k < n {
                                assert forall|j: int| 0 <= j < k implies good_option(#[trigger] a[j]) by {
                                    assert(good_option(args[j]));
                                }
                                assert(first_bad_option(a, k));
                            } else {
                                assert(good_option(args[e0]));
                            }
                        }
                    }
                    lemma_letter_given_prefix(args, e0, 'a');
                    lemma_letter_given_prefix(args, e0, 'l');
                    lemma_letter_given_prefix(args, e0, 'F');
                    lemma_letter_given_prefix(args, e0, 'r');
                    lemma_letter_given_prefix(args, e0, 'R');
                } else {
                    assert(e0 == n);
                    assert forall|k: int| 0 <= k < n implies !first_bad_option(args, k) by {
                        assert(good_option(args[k]));
                    }
                    lemma_letter_given_prefix(args, n, 'a');
                    lemma_letter_given_prefix(args, n, 'l');
                    lemma_letter_given_prefix(args, n, 'F');
                    lemma_letter_given_prefix(args, n, 'r');
                    lemma_letter_given_prefix(args, n, 'R');
                    if !is_option_word(last) {
                        assert(!first_bad_option(args, n));
                    } else if has_bad_letter(last) {
                        assert(first_bad_option(args, n));
                        assert forall|k2: int| first_bad_option(args, k2) implies k2 == n by {
                            if k2 < n {
                                assert(good_option(args[k2]));
                            }
                        }
                    } else {
                        assert(!first_bad_option(args, n));
                        assert(good_option(args[n]));
                        lemma_letter_given_extend(args, n, 'a');
                        lemma_letter_given_extend(args, n, 'l');
                        lemma_letter_given_extend(args, n, 'F');
                        lemma_letter_given_extend(args, n, 'r');
                        lemma_letter_given_extend(args, n, 'R');
                    }
                }
            },
        }
    }
}


proof fn lemma_plain_text_state(t: Seq<char>)
    requires
        forall|i: int| 0 <= i < t.len() ==> !is_quote(#[trigger] t[i]) && t[i] != '>',
    ensures
        part_state(t) == Some((false, words_state(t).1, words_state(t).0)),
        first_divider(t) is None,
    decreases t.len(),
{
    if t.len() > 0 {
        let u = t.drop_last();
        assert forall|i: int| 0 <= i < u.len() implies !is_quote(#[trigger] u[i]) && u[i] != '>' by {
            assert(u[i] == t[i]);
        }
        lemma_plain_text_state(u);
        assert(t.last() == t[t.len() - 1]);
    }
}

/// On a line without quotes and without `>`, splitting gives its words: the
/// longest runs of characters that are not whitespace, in order.
pub proof fn law_split_unquoted(t: Seq<char>, top_error: Seq<char>)
    requires
        forall|i: int| 0 <= i < t.len() ==> !is_quote(#[trigger] t[i]) && t[i] != '>',
    ensures
        split_spec(t, top_error) == Ok::<Seq<Seq<char>>, Seq<char>>(split_whitespace(t)),
{
    lemma_plain_text_state(t);
}


/// The `i`-th word is a source: not the command, not an operator, and not
/// right after one.
pub open spec fn source_at(input: Seq<Seq<char>>, i: int) -> bool {
    1 <= i < input.len() && !is_redirect_op(input[i]) && !is_redirect_op(input[i - 1])
}

/// The `i`-th word is the target of the operator just before it.
pub open spec fn target_at(input: Seq<Seq<char>>, i: int) -> bool {
    1 <= i < input.len() && !is_redirect_op(input[i]) && is_redirect_op(input[i - 1])
}

pub open spec fn pick_source(input: Seq<Seq<char>>, i: int) -> Option<Seq<char>> {
    if source_at(input, i) {
        Some(input[i])
    } else {
        None
    }
}

pub open spec fn pick_target(input: Seq<Seq<char>>, i: int) -> Option<(Seq<char>, Seq<char>)> {
    if target_at(input, i) {
        Some((input[i - 1], input[i]))
    } else {
        None
    }
}

proof fn lemma_separate_prefix(input: Seq<Seq<char>>, k: int)
    requires
        0 <= k <= input.len(),
    ensures
        separate_spec(input.take(k)).0 == Seq::new(k as nat, |i: int| i).filter_map(|i: int| pick_source(input, i)),
        separate_spec(input.take(k)).1 == Seq::new(k as nat, |i: int| i).filter_map(|i: int| pick_target(input, i)),
    decreases k,
{
    if k > 0 {
        lemma_separate_prefix(input, k - 1);
        let t = input.take(k);
        assert(t.drop_last() =~= input.take(k - 1));
        assert(Seq::new(k as nat, |i: int| i).drop_last() =~= Seq::new((k - 1) as nat, |i: int| i));
        assert(Seq::new(k as nat, |i: int| i).last() == k - 1);
        if k == 1 {
            assert(Seq::new(0nat, |i: int| i).filter_map(|i: int| pick_source(input, i)) =~= Seq::<Seq<char>>::empty());
            assert(Seq::new(0nat, |i: int| i).filter_map(|i: int| pick_target(input, i)) =~= Seq::<
                (Seq<char>, Seq<char>),
            >::empty());
        } else {
            assert(t.last() == input[k - 1]);
            assert(t[t.len() - 2] == input[k - 2]);
        }
    }
}

/// `separate_sources_from_targets` by position: the sources are the words
/// after the command that are no operator and follow none, and the targets
/// pair each operator with the word after it (when that word is no operator
/// itself), both in the order of the line.
pub proof fn law_separate_by_position(input: Seq<Seq<char>>)
    ensures
        separate_spec(input).0 == Seq::new(input.len(), |i: int| i).filter_map(|i: int| pick_source(input, i)),
        separate_spec(input).1 == Seq::new(input.len(), |i: int| i).filter_map(|i: int| pick_target(input, i)),
{
    lemma_separate_prefix(input, input.len() as int);
    assert(input.take(input.len() as int) =~= input);
}


proof fn lemma_first_diff_props(u: Seq<char>, v: Seq<char>)
    ensures
        0 <= first_diff(u, v) <= u.len(),
        first_diff(u, v) <= v.len(),
        u.take(first_diff(u, v)) == v.take(first_diff(u, v)),
        first_diff(u, v) < u.len() && first_diff(u, v) < v.len() ==> u[first_diff(u, v)] != v[first_diff(u, v)],
    decreases u.len(),
{
    if u.len() > 0 && v.len() > 0 && u[0] == v[0] {
        let (u1, v1) = (u.drop_first(), v.drop_first());
        lemma_first_diff_props(u1, v1);
        let d = first_diff(u1, v1);
        assert(u.take(d + 1) =~= seq![u[0]] + u1.take(d));
        assert(v.take(d + 1) =~= seq![v[0]] + v1.take(d));
        if d < u1.len() && d < v1.len() {
            assert(u[d + 1] == u1[d]);
            assert(v[d + 1] == v1[d]);
        }
    } else {
        assert(u.take(0) =~= v.take(0));
    }
}

/// `x` sorts before `y` where they agree up to `j` and then `x` ends or has
/// the smaller character.
proof fn lemma_text_lt_at(x: Seq<char>, y: Seq<char>, j: int)
    requires
        0 <= j <= x.len(),
        j < y.len(),
        x.take(j) == y.take(j),
        j == x.len() || x[j] < y[j],
    ensures
        text_lt(x, y),
    decreases j,
{
    if j > 0 {
        assert(x[0] == x.take(j)[0]);
        assert(y[0] == y.take(j)[0]);
        let (x1, y1) = (x.skip(1), y.skip(1));
        assert(x1.take(j - 1) =~= x.take(j).skip(1));
        assert(y1.take(j - 1) =~= y.take(j).skip(1));
        if j < x.len() {
            assert(x1[j - 1] == x[j]);
        }
        assert(y1[j - 1] == y[j]);
        lemma_text_lt_at(x1, y1, j - 1);
    }
}

/// Where the entries are sorted, completion lists its matches in sorted
/// order.
pub proof fn law_matches_keep_sorted_order(data: Seq<Seq<char>>, partial: Seq<char>, m: Seq<Seq<char>>)
    requires
        lists_matches(data, partial, m),
        forall|i: int, k: int| 0 <= i < k < data.len() ==> !text_lt(#[trigger] data[k], #[trigger] data[i]),
    ensures
        forall|i: int, j: int| 0 <= i < j < m.len() ==> text_lt(#[trigger] m[i], #[trigger] m[j]),
{
    assert forall|i: int, j: int| 0 <= i < j < m.len() implies text_lt(#[trigger] m[i], #[trigger] m[j]) by {
        let (u, v) = (m[i], m[j]);
        assert(listed_before(data, u, v));
        lemma_first_diff_props(u, v);
        let d = first_diff(u, v);
        if d == u.len() {
            lemma_text_lt_at(u, v, d);
        } else {
            assert(d < v.len());
            let (pu, pv) = (u.take(d + 1), v.take(d + 1));
            lemma_first_index(data, pu);
            lemma_first_index(data, pv);
            let a = first_index(data, pu);
            let b = first_index(data, pv);
            assert(a < b);
            assert(data.contains(v));
            let kv = choose|k: int| 0 <= k < data.len() && data[k] == v;
            assert(has_prefix(data[kv], pv)) by {
                assert(v.take(pv.len() as int) =~= pv);
            }
            assert(b < data.len());
            let (x, y) = (data[a], data[b]);
            assert(x.take(d) =~= u.take(d)) by {
                assert(x.take(d) =~= x.take(d + 1).take(d));
                assert(u.take(d) =~= pu.take(d));
            }
            assert(y.take(d) =~= v.take(d)) by {
                assert(y.take(d) =~= y.take(d + 1).take(d));
                assert(v.take(d) =~= pv.take(d));
            }
            assert(x[d] == u[d]) by {
                assert(x.take(d + 1)[d] == x[d]);
            }
            assert(y[d] == v[d]) by {
                assert(y.take(d + 1)[d] == y[d]);
            }
            if v[d] < u[d] {
                lemma_text_lt_at(y, x, d);
                assert(!text_lt(data[b], data[a]));
            }
            lemma_text_lt_at(u, v, d);
        }
    }
}


/// A letter that `jobs` takes as an option.
pub open spec fn is_jobs_letter(c: char) -> bool {
    c == 'l' || c == 'p' || c == 'r' || c == 's'
}

proof fn lemma_contains_split(cs: Seq<char>, c: char)
    requires
        cs.len() > 0,
    ensures
        cs.contains(c) == (cs[0] == c || cs.skip(1).contains(c)),
{
    if cs.contains(c) {
        let i = choose|i: int| 0 <= i < cs.len() && cs[i] == c;
        if i > 0 {
            assert(cs.skip(1)[i - 1] == c);
        }
    }
    if cs.skip(1).contains(c) {
        let i = choose|i: int| 0 <= i < cs.skip(1).len() && cs.skip(1)[i] == c;
        assert(cs[i + 1] == c);
    }
    if cs[0] == c {
        assert(cs.contains(c));
    }
}

/// The letters after the `-` of an option word of `jobs` set their flags,
/// `l` the process IDs, `p` the process IDs only, `r` running jobs only,
/// `s` stopped jobs only, keeping the flags already set; at the first other
/// letter the word is refused, naming that letter.
pub proof fn law_jobs_option_letters(cs: Seq<char>, o: JobOptions)
    ensures
        (forall|i: int| 0 <= i < cs.len() ==> is_jobs_letter(#[trigger] cs[i])) ==> option_flags(cs, o) == Ok::<
            JobOptions,
            char,
        >(
            JobOptions {
                show_pid: o.show_pid || cs.contains('l'),
                pid_only: o.pid_only || cs.contains('p'),
                running_only: o.running_only || cs.contains('r'),
                stopped_only: o.stopped_only || cs.contains('s'),
            },
        ),
        forall|k: int|
            0 <= k < cs.len() && !is_jobs_letter(#[trigger] cs[k]) && (forall|i: int|
                0 <= i < k ==> is_jobs_letter(#[trigger] cs[i])) ==> option_flags(cs, o) == Err::<JobOptions, char>(cs[k]),
    decreases cs.len(),
{
    if cs.len() > 0 {
        let c = cs[0];
        let rest = cs.skip(1);
        let o2 = if c == 'l' {
            JobOptions { show_pid: true, ..o }
        } else if c == 'p' {
            JobOptions { pid_only: true, ..o }
        } else if c == 'r' {
            JobOptions { running_only: true, ..o }
        } else {
            JobOptions { stopped_only: true, ..o }
        };
        law_jobs_option_letters(rest, o2);
        lemma_contains_split(cs, 'l');
        lemma_contains_split(cs, 'p');
        lemma_contains_split(cs, 'r');
        lemma_contains_split(cs, 's');
        if forall|i: int| 0 <= i < cs.len() ==> is_jobs_letter(#[trigger] cs[i]) {
            assert(is_jobs_letter(cs[0]));
            assert forall|i: int| 0 <= i < rest.len() implies is_jobs_letter(#[trigger] rest[i]) by {
                assert(rest[i] == cs[i + 1]);
            }
        }
        assert forall|k: int|
            0 <= k < cs.len() && !is_jobs_letter(#[trigger] cs[k]) && (forall|i: int|
                0 <= i < k ==> is_jobs_letter(#[trigger] cs[i])) implies option_flags(cs, o) == Err::<JobOptions, char>(
            cs[k],
        ) by {
            if k > 0 {
                assert(is_jobs_letter(cs[0]));
                assert(rest[k - 1] == cs[k]);
                assert forall|i: int| 0 <= i < k - 1 implies is_jobs_letter(#[trigger] rest[i]) by {
                    assert(rest[i] == cs[i + 1]);
                }
            }
        }
    }
}


/// The line and cursor after a sequence of keys, none of them Tab, Enter or
/// Ctrl-D, with the history turning as Up and Down turn it.
pub open spec fn line_after_keys(input: Seq<char>, cursor: int, h: Seq<Seq<char>>, keys: Seq<EditKey>) -> (Seq<char>, int)
    decreases keys.len(),
{
    if keys.len() == 0 {
        (input, cursor)
    } else {
        let (next, at) = line_after_key(input, cursor, h, keys[0]);
        line_after_keys(next, at, history_after_key(h, keys[0]), keys.skip(1))
    }
}

pub open spec fn char_key(c: char) -> EditKey {
    EditKey::Char(c)
}

pub open spec fn typed_keys(cs: Seq<char>) -> Seq<EditKey> {
    Seq::new(cs.len(), |i: int| char_key(cs[i]))
}

pub open spec fn backspaces(n: nat) -> Seq<EditKey> {
    Seq::new(n, |i: int| EditKey::Backspace)
}

/// Typing characters at the end of the line appends them, the cursor
/// staying at the end; as many Backspaces then take them away again.
pub proof fn law_typing_and_erasing(input: Seq<char>, h: Seq<Seq<char>>, cs: Seq<char>)
    ensures
        line_after_keys(input, input.len() as int, h, typed_keys(cs)) == (input + cs, (input + cs).len() as int),
        line_after_keys(input + cs, (input + cs).len() as int, h, backspaces(cs.len())) == (input, input.len() as int),
    decreases cs.len(),
{
    if cs.len() == 0 {
        assert(input + cs =~= input);
    } else {
        let c = cs[0];
        let next = input.push(c);
        law_typing_and_erasing(next, h, cs.skip(1));
        assert(typed_keys(cs)[0] == EditKey::Char(c));
        assert(typed_keys(cs).skip(1) =~= typed_keys(cs.skip(1)));
        assert(input.take(input.len() as int) + seq![c] + input.skip(input.len() as int) =~= next);
        assert(next + cs.skip(1) =~= input + cs);
        let rest = cs.drop_last();
        law_typing_and_erasing(input, h, rest);
        let all = input + cs;
        assert(backspaces(cs.len())[0] == EditKey::Backspace);
        assert(backspaces(cs.len()).skip(1) =~= backspaces(rest.len()));
        assert(all.take(all.len() - 1) + all.skip(all.len() as int) =~= input + rest);
    }
}


/// The `i`-th character is a `>` outside quotes: every quote opened before
/// it has been closed by the same quote character.
pub open spec fn unquoted_gt(t: Seq<char>, i: int) -> bool {
    0 <= i < t.len() && t[i] == '>' && quote_after(t.take(i)) is None
}

/// `split` divides a command line at its first `>` outside quotes, and only
/// there: a `>` inside quotes never divides.
pub proof fn law_divider_outside_quotes(t: Seq<char>)
    ensures
        forall|i: int|
            #![trigger unquoted_gt(t, i)]
            first_divider(t) == Some(i) <==> (unquoted_gt(t, i) && forall|k: int|
                0 <= k < i ==> !#[trigger] unquoted_gt(t, k)),
        first_divider(t) is None <==> forall|i: int| !#[trigger] unquoted_gt(t, i),
    decreases t.len(),
{
    if t.len() > 0 {
        let u = t.drop_last();
        let n = u.len() as int;
        law_divider_outside_quotes(u);
        assert forall|k: int| 0 <= k < n implies #[trigger] unquoted_gt(t, k) == unquoted_gt(u, k) by {
            assert(t.take(k) =~= u.take(k));
            assert(t[k] == u[k]);
        }
        assert(t.take(n) =~= u);
        assert(!unquoted_gt(u, n));
        match first_divider(u) {
            Some(j) => {
                assert(unquoted_gt(u, j));
                assert(unquoted_gt(t, j));
                assert forall|i: int|
                    #![trigger unquoted_gt(t, i)]
                    first_divider(t) == Some(i) <==> (unquoted_gt(t, i) && forall|k: int|
                        0 <= k < i ==> !#[trigger] unquoted_gt(t, k)) by {
                    if i < j && unquoted_gt(t, i) {
                        assert(unquoted_gt(u, i));
                    }
                    if i == j {
                        assert forall|k: int| 0 <= k < i implies !#[trigger] unquoted_gt(t, k) by {
                            assert(!unquoted_gt(u, k));
                        }
                    }
                }
            },
            None => {
                assert forall|k: int| 0 <= k < n implies !#[trigger] unquoted_gt(t, k) by {
                    assert(!unquoted_gt(u, k));
                }
                assert forall|i: int|
                    #![trigger unquoted_gt(t, i)]
                    first_divider(t) == Some(i) <==> (unquoted_gt(t, i) && forall|k: int|
                        0 <= k < i ==> !#[trigger] unquoted_gt(t, k)) by {
                    if i == n && unquoted_gt(t, i) {
                        assert(t.last() == t[n]);
                    }
                }
                if first_divider(t) is None {
                    assert forall|i: int| !#[trigger] unquoted_gt(t, i) by {
                        if i == n && unquoted_gt(t, i) {
                            assert(t.last() == t[n]);
                        }
                    }
                } else {
                    assert(unquoted_gt(t, n));
                }
            },
        }
    }
}

/// A line whose every `>` stands inside quotes has no divider: `split`
/// gives the words of the whole line as the word reader takes them, where a
/// quoted `>` is text.
pub proof fn law_split_quoted_gt_is_text(t: Seq<char>, top_error: Seq<char>)
    requires
        forall|i: int| 0 <= i < t.len() && t[i] == '>' ==> quote_after(#[trigger] t.take(i)) is Some,
    ensures
        split_spec(t, top_error) == split_part_spec(t),
{
    law_divider_outside_quotes(t);
    assert forall|i: int| !#[trigger] unquoted_gt(t, i) by {
        if 0 <= i < t.len() && t[i] == '>' {
            assert(quote_after(t.take(i)) is Some);
        }
    }
}


/// No character of `s` is `$`.
pub open spec fn dollar_free(s: Seq<char>) -> bool {
    forall|i: int| 0 <= i < s.len() ==> #[trigger] s[i] != '$'
}

proof fn lemma_replace_dollar_free(s: Seq<char>, p: Seq<char>, r: Seq<char>)
    requires
        dollar_free(s),
        p.len() > 0,
        p[0] == '$',
    ensures
        replace_all(s, p, r) == s,
    decreases s.len(),
{
    if s.len() > 0 {
        assert(!occurs_at(s, p, 0)) by {
            if occurs_at(s, p, 0) {
                assert(s.subrange(0, p.len() as int)[0] == s[0]);
            }
        }
        let t = s.skip(1);
        assert forall|i: int| 0 <= i < t.len() implies #[trigger] t[i] != '$' by {
            assert(t[i] == s[i + 1]);
        }
        lemma_replace_dollar_free(t, p, r);
        assert(seq![s[0]] + t =~= s);
    }
}

proof fn lemma_dollar_free_concat(a: Seq<char>, b: Seq<char>)
    requires
        dollar_free(a),
        dollar_free(b),
    ensures
        dollar_free(a + b),
{
    assert forall|i: int| 0 <= i < (a + b).len() implies #[trigger] (a + b)[i] != '$' by {
        if i < a.len() {
            assert((a + b)[i] == a[i]);
        } else {
            assert((a + b)[i] == b[i - a.len()]);
        }
    }
}

/// Text without `$` before the rest is passed over unchanged.
proof fn lemma_replace_prefix(a: Seq<char>, x: Seq<char>, p: Seq<char>, r: Seq<char>)
    requires
        dollar_free(a),
        p.len() > 0,
        p[0] == '$',
    ensures
        replace_all(a + x, p, r) == a + replace_all(x, p, r),
    decreases a.len(),
{
    if a.len() == 0 {
        assert(a + x =~= x);
        assert(a + replace_all(x, p, r) =~= replace_all(x, p, r));
    } else {
        let t = a + x;
        assert(t[0] == a[0]);
        assert(!occurs_at(t, p, 0)) by {
            if occurs_at(t, p, 0) {
                assert(t.subrange(0, p.len() as int)[0] == t[0]);
            }
        }
        let a1 = a.skip(1);
        assert forall|i: int| 0 <= i < a1.len() implies #[trigger] a1[i] != '$' by {
            assert(a1[i] == a[i + 1]);
        }
        assert(t.skip(1) =~= a1 + x);
        lemma_replace_prefix(a1, x, p, r);
        assert(replace_all(t, p, r) == seq![t[0]] + replace_all(t.skip(1), p, r));
        assert(seq![a[0]] + (a1 + replace_all(x, p, r)) =~= a + replace_all(x, p, r));
    }
}

/// Replacing a variable name `p` in a text that starts with a variable name
/// `s` followed by text without `$`: the value where the names agree,
/// nothing where they differ (two names differ in their second, third or
/// fourth character).
proof fn lemma_replace_name(s: Seq<char>, b: Seq<char>, p: Seq<char>, r: Seq<char>)
    requires
        s.len() >= 4,
        p.len() >= 4,
        s[0] == '$',
        p[0] == '$',
        dollar_free(s.skip(1)),
        dollar_free(b),
        s == p || s[1] != p[1] || s[2] != p[2] || s[3] != p[3],
    ensures
        replace_all(s + b, p, r) == (if s == p { r } else { s }) + b,
{
    let t = s + b;
    if s == p {
        assert(occurs_at(t, p, 0)) by {
            assert(t.subrange(0, p.len() as int) =~= p);
        }
        assert(t.skip(p.len() as int) =~= b);
        lemma_replace_dollar_free(b, p, r);
        assert(replace_all(t, p, r) == r + replace_all(t.skip(p.len() as int), p, r));
    } else {
        assert(!occurs_at(t, p, 0)) by {
            if occurs_at(t, p, 0) {
                let w = t.subrange(0, p.len() as int);
                assert(w[1] == s[1] && w[2] == s[2] && w[3] == s[3]);
            }
        }
        lemma_dollar_free_concat(s.skip(1), b);
        assert(t.skip(1) =~= s.skip(1) + b);
        lemma_replace_dollar_free(t.skip(1), p, r);
        assert(replace_all(t, p, r) == seq![t[0]] + replace_all(t.skip(1), p, r));
        assert(seq![t[0]] + t.skip(1) =~= t);
    }
}

/// `echo` replaces each of its nine variables by its value: in a text made
/// of `$USER`, `$HOSTNAME`, `$PID`, `$PATH`, `$SHELL`, `$UMASK`, `$HOME`,
/// `$LANG` or `$TERM` with text without `$` around it, the name becomes the
/// variable's value and the rest stays (values without `$`).
#[verifier::rlimit(60)]
pub proof fn law_echo_variables(env: EchoEnv, a: Seq<char>, b: Seq<char>)
    requires
        dollar_free(a),
        dollar_free(b),
        dollar_free(env.user@),
        dollar_free(env.hostname@),
        dollar_free(env.pid@),
        dollar_free(env.path@),
        dollar_free(env.shell@),
        dollar_free(env.umask@),
        dollar_free(env.home@),
        dollar_free(env.lang@),
        dollar_free(env.term@),
    ensures
        expand_env(a + "$USER"@ + b, env) == a + env.user@ + b,
        expand_env(a + "$HOSTNAME"@ + b, env) == a + env.hostname@ + b,
        expand_env(a + "$PID"@ + b, env) == a + env.pid@ + b,
        expand_env(a + "$PATH"@ + b, env) == a + env.path@ + b,
        expand_env(a + "$SHELL"@ + b, env) == a + env.shell@ + b,
        expand_env(a + "$UMASK"@ + b, env) == a + env.umask@ + b,
        expand_env(a + "$HOME"@ + b, env) == a + env.home@ + b,
        expand_env(a + "$LANG"@ + b, env) == a + env.lang@ + b,
        expand_env(a + "$TERM"@ + b, env) == a + env.term@ + b,
{
    reveal_strlit("$USER");
    reveal_strlit("$HOSTNAME");
    reveal_strlit("$PID");
    reveal_strlit("$PATH");
    reveal_strlit("$SHELL");
    reveal_strlit("$UMASK");
    reveal_strlit("$HOME");
    reveal_strlit("$LANG");
    reveal_strlit("$TERM");
    assert("$USER"@ =~= seq!['$', 'U', 'S', 'E', 'R']);
    assert(dollar_free("$USER"@.skip(1))) by {
        assert("$USER"@.skip(1) =~= seq!['$', 'U', 'S', 'E', 'R'].skip(1));
    }
    assert("$HOSTNAME"@ =~= seq!['$', 'H', 'O', 'S', 'T', 'N', 'A', 'M', 'E']);
    assert(dollar_free("$HOSTNAME"@.skip(1))) by {
        assert("$HOSTNAME"@.skip(1) =~= seq!['$', 'H', 'O', 'S', 'T', 'N', 'A', 'M', 'E'].skip(1));
    }
    assert("$PID"@ =~= seq!['$', 'P', 'I', 'D']);
    assert(dollar_free("$PID"@.skip(1))) by {
        assert("$PID"@.skip(1) =~= seq!['$', 'P', 'I', 'D'].skip(1));
    }
    assert("$PATH"@ =~= seq!['$', 'P', 'A', 'T', 'H']);
    assert(dollar_free("$PATH"@.skip(1))) by {
        assert("$PATH"@.skip(1) =~= seq!['$', 'P', 'A', 'T', 'H'].skip(1));
    }
    assert("$SHELL"@ =~= seq!['$', 'S', 'H', 'E', 'L', 'L']);
    assert(dollar_free("$SHELL"@.skip(1))) by {
        assert("$SHELL"@.skip(1) =~= seq!['$', 'S', 'H', 'E', 'L', 'L'].skip(1));
    }
    assert("$UMASK"@ =~= seq!['$', 'U', 'M', 'A', 'S', 'K']);
    assert(dollar_free("$UMASK"@.skip(1))) by {
        assert("$UMASK"@.skip(1) =~= seq!['$', 'U', 'M', 'A', 'S', 'K'].skip(1));
    }
    assert("$HOME"@ =~= seq!['$', 'H', 'O', 'M', 'E']);
    assert(dollar_free("$HOME"@.skip(1))) by {
        assert("$HOME"@.skip(1) =~= seq!['$', 'H', 'O', 'M', 'E'].skip(1));
    }
    assert("$LANG"@ =~= seq!['$', 'L', 'A', 'N', 'G']);
    assert(dollar_free("$LANG"@.skip(1))) by {
        assert("$LANG"@.skip(1) =~= seq!['$', 'L', 'A', 'N', 'G'].skip(1));
    }
    assert("$TERM"@ =~= seq!['$', 'T', 'E', 'R', 'M']);
    assert(dollar_free("$TERM"@.skip(1))) by {
        assert("$TERM"@.skip(1) =~= seq!['$', 'T', 'E', 'R', 'M'].skip(1));
    }
    assert(a + "$USER"@ + b =~= a + ("$USER"@ + b));
    lemma_dollar_free_concat(a, env.user@);
    lemma_dollar_free_concat(a + env.user@, b);
    assert(a + (env.user@ + b) =~= a + env.user@ + b);
    lemma_replace_prefix(a, "$USER"@ + b, "$USER"@, env.user@);
    lemma_replace_name("$USER"@, b, "$USER"@, env.user@);
    lemma_replace_dollar_free(a + env.user@ + b, "$HOSTNAME"@, env.hostname@);
    lemma_replace_dollar_free(a + env.user@ + b, "$PID"@, env.pid@);
    lemma_replace_dollar_free(a + env.user@ + b, "$PATH"@, env.path@);
    lemma_replace_dollar_free(a + env.user@ + b, "$SHELL"@, env.shell@);
    lemma_replace_dollar_free(a + env.user@ + b, "$UMASK"@, env.umask@);
    lemma_replace_dollar_free(a + env.user@ + b, "$HOME"@, env.home@);
    lemma_replace_dollar_free(a + env.user@ + b, "$LANG"@, env.lang@);
    lemma_replace_dollar_free(a + env.user@ + b, "$TERM"@, env.term@);
    assert(a + "$HOSTNAME"@ + b =~= a + ("$HOSTNAME"@ + b));
    lemma_dollar_free_concat(a, env.hostname@);
    lemma_dollar_free_concat(a + env.hostname@, b);
    assert(a + (env.hostname@ + b) =~= a + env.hostname@ + b);
    lemma_replace_prefix(a, "$HOSTNAME"@ + b, "$USER"@, env.user@);
    lemma_replace_name("$HOSTNAME"@, b, "$USER"@, env.user@);
    lemma_replace_prefix(a, "$HOSTNAME"@ + b, "$HOSTNAME"@, env.hostname@);
    lemma_replace_name("$HOSTNAME"@, b, "$HOSTNAME"@, env.hostname@);
    lemma_replace_dollar_free(a + env.hostname@ + b, "$PID"@, env.pid@);
    lemma_replace_dollar_free(a + env.hostname@ + b, "$PATH"@, env.path@);
    lemma_replace_dollar_free(a + env.hostname@ + b, "$SHELL"@, env.shell@);
    lemma_replace_dollar_free(a + env.hostname@ + b, "$UMASK"@, env.umask@);
    lemma_replace_dollar_free(a + env.hostname@ + b, "$HOME"@, env.home@);
    lemma_replace_dollar_free(a + env.hostname@ + b, "$LANG"@, env.lang@);
    lemma_replace_dollar_free(a + env.hostname@ + b, "$TERM"@, env.term@);
    assert(a + "$PID"@ + b =~= a + ("$PID"@ + b));
    lemma_dollar_free_concat(a, env.pid@);
    lemma_dollar_free_concat(a + env.pid@, b);
    assert(a + (env.pid@ + b) =~= a + env.pid@ + b);
    lemma_replace_prefix(a, "$PID"@ + b, "$USER"@, env.user@);
    lemma_replace_name("$PID"@, b, "$USER"@, env.user@);
    lemma_replace_prefix(a, "$PID"@ + b, "$HOSTNAME"@, env.hostname@);
    lemma_replace_name("$PID"@, b, "$HOSTNAME"@, env.hostname@);
    lemma_replace_prefix(a, "$PID"@ + b, "$PID"@, env.pid@);
    lemma_replace_name("$PID"@, b, "$PID"@, env.pid@);
    lemma_replace_dollar_free(a + env.pid@ + b, "$PATH"@, env.path@);
    lemma_replace_dollar_free(a + env.pid@ + b, "$SHELL"@, env.shell@);
    lemma_replace_dollar_free(a + env.pid@ + b, "$UMASK"@, env.umask@);
    lemma_replace_dollar_free(a + env.pid@ + b, "$HOME"@, env.home@);
    lemma_replace_dollar_free(a + env.pid@ + b, "$LANG"@, env.lang@);
    lemma_replace_dollar_free(a + env.pid@ + b, "$TERM"@, env.term@);
    assert(a + "$PATH"@ + b =~= a + ("$PATH"@ + b));
    lemma_dollar_free_concat(a, env.path@);
    lemma_dollar_free_concat(a + env.path@, b);
    assert(a + (env.path@ + b) =~= a + env.path@ + b);
    lemma_replace_prefix(a, "$PATH"@ + b, "$USER"@, env.user@);
    lemma_replace_name("$PATH"@, b, "$USER"@, env.user@);
    lemma_replace_prefix(a, "$PATH"@ + b, "$HOSTNAME"@, env.hostname@);
    lemma_replace_name("$PATH"@, b, "$HOSTNAME"@, env.hostname@);
    lemma_replace_prefix(a, "$PATH"@ + b, "$PID"@, env.pid@);
    lemma_replace_name("$PATH"@, b, "$PID"@, env.pid@);
    lemma_replace_prefix(a, "$PATH"@ + b, "$PATH"@, env.path@);
    lemma_replace_name("$PATH"@, b, "$PATH"@, env.path@);
    lemma_replace_dollar_free(a + env.path@ + b, "$SHELL"@, env.shell@);
    lemma_replace_dollar_free(a + env.path@ + b, "$UMASK"@, env.umask@);
    lemma_replace_dollar_free(a + env.path@ + b, "$HOME"@, env.home@);
    lemma_replace_dollar_free(a + env.path@ + b, "$LANG"@, env.lang@);
    lemma_replace_dollar_free(a + env.path@ + b, "$TERM"@, env.term@);
    assert(a + "$SHELL"@ + b =~= a + ("$SHELL"@ + b));
    lemma_dollar_free_concat(a, env.shell@);
    lemma_dollar_free_concat(a + env.shell@, b);
    assert(a + (env.shell@ + b) =~= a + env.shell@ + b);
    lemma_replace_prefix(a, "$SHELL"@ + b, "$USER"@, env.user@);
    lemma_replace_name("$SHELL"@, b, "$USER"@, env.user@);
    lemma_replace_prefix(a, "$SHELL"@ + b, "$HOSTNAME"@, env.hostname@);
    lemma_replace_name("$SHELL"@, b, "$HOSTNAME"@, env.hostname@);
    lemma_replace_prefix(a, "$SHELL"@ + b, "$PID"@, env.pid@);
    lemma_replace_name("$SHELL"@, b, "$PID"@, env.pid@);
    lemma_replace_prefix(a, "$SHELL"@ + b, "$PATH"@, env.path@);
    lemma_replace_name("$SHELL"@, b, "$PATH"@, env.path@);
    lemma_replace_prefix(a, "$SHELL"@ + b, "$SHELL"@, env.shell@);
    lemma_replace_name("$SHELL"@, b, "$SHELL"@, env.shell@);
    lemma_replace_dollar_free(a + env.shell@ + b, "$UMASK"@, env.umask@);
    lemma_replace_dollar_free(a + env.shell@ + b, "$HOME"@, env.home@);
    lemma_replace_dollar_free(a + env.shell@ + b, "$LANG"@, env.lang@);
    lemma_replace_dollar_free(a + env.shell@ + b, "$TERM"@, env.term@);
    assert(a + "$UMASK"@ + b =~= a + ("$UMASK"@ + b));
    lemma_dollar_free_concat(a, env.umask@);
    lemma_dollar_free_concat(a + env.umask@, b);
    assert(a + (env.umask@ + b) =~= a + env.umask@ + b);
    lemma_replace_prefix(a, "$UMASK"@ + b, "$USER"@, env.user@);
    lemma_replace_name("$UMASK"@, b, "$USER"@, env.user@);
    lemma_replace_prefix(a, "$UMASK"@ + b, "$HOSTNAME"@, env.hostname@);
    lemma_replace_name("$UMASK"@, b, "$HOSTNAME"@, env.hostname@);
    lemma_replace_prefix(a, "$UMASK"@ + b, "$PID"@, env.pid@);
    lemma_replace_name("$UMASK"@, b, "$PID"@, env.pid@);
    lemma_replace_prefix(a, "$UMASK"@ + b, "$PATH"@, env.path@);
    lemma_replace_name("$UMASK"@, b, "$PATH"@, env.path@);
    lemma_replace_prefix(a, "$UMASK"@ + b, "$SHELL"@, env.shell@);
    lemma_replace_name("$UMASK"@, b, "$SHELL"@, env.shell@);
    lemma_replace_prefix(a, "$UMASK"@ + b, "$UMASK"@, env.umask@);
    lemma_replace_name("$UMASK"@, b, "$UMASK"@, env.umask@);
    lemma_replace_dollar_free(a + env.umask@ + b, "$HOME"@, env.home@);
    lemma_replace_dollar_free(a + env.umask@ + b, "$LANG"@, env.lang@);
    lemma_replace_dollar_free(a + env.umask@ + b, "$TERM"@, env.term@);
    assert(a + "$HOME"@ + b =~= a + ("$HOME"@ + b));
    lemma_dollar_free_concat(a, env.home@);
    lemma_dollar_free_concat(a + env.home@, b);
    assert(a + (env.home@ + b) =~= a + env.home@ + b);
    lemma_replace_prefix(a, "$HOME"@ + b, "$USER"@, env.user@);
    lemma_replace_name("$HOME"@, b, "$USER"@, env.user@);
    lemma_replace_prefix(a, "$HOME"@ + b, "$HOSTNAME"@, env.hostname@);
    lemma_replace_name("$HOME"@, b, "$HOSTNAME"@, env.hostname@);
    lemma_replace_prefix(a, "$HOME"@ + b, "$PID"@, env.pid@);
    lemma_replace_name("$HOME"@, b, "$PID"@, env.pid@);
    lemma_replace_prefix(a, "$HOME"@ + b, "$PATH"@, env.path@);
    lemma_replace_name("$HOME"@, b, "$PATH"@, env.path@);
    lemma_replace_prefix(a, "$HOME"@ + b, "$SHELL"@, env.shell@);
    lemma_replace_name("$HOME"@, b, "$SHELL"@, env.shell@);
    lemma_replace_prefix(a, "$HOME"@ + b, "$UMASK"@, env.umask@);
    lemma_replace_name("$HOME"@, b, "$UMASK"@, env.umask@);
    lemma_replace_prefix(a, "$HOME"@ + b, "$HOME"@, env.home@);
    lemma_replace_name("$HOME"@, b, "$HOME"@, env.home@);
    lemma_replace_dollar_free(a + env.home@ + b, "$LANG"@, env.lang@);
    lemma_replace_dollar_free(a + env.home@ + b, "$TERM"@, env.term@);
    assert(a + "$LANG"@ + b =~= a + ("$LANG"@ + b));
    lemma_dollar_free_concat(a, env.lang@);
    lemma_dollar_free_concat(a + env.lang@, b);
    assert(a + (env.lang@ + b) =~= a + env.lang@ + b);
    lemma_replace_prefix(a, "$LANG"@ + b, "$USER"@, env.user@);
    lemma_replace_name("$LANG"@, b, "$USER"@, env.user@);
    lemma_replace_prefix(a, "$LANG"@ + b, "$HOSTNAME"@, env.hostname@);
    lemma_replace_name("$LANG"@, b, "$HOSTNAME"@, env.hostname@);
    lemma_replace_prefix(a, "$LANG"@ + b, "$PID"@, env.pid@);
    lemma_replace_name("$LANG"@, b, "$PID"@, env.pid@);
    lemma_replace_prefix(a, "$LANG"@ + b, "$PATH"@, env.path@);
    lemma_replace_name("$LANG"@, b, "$PATH"@, env.path@);
    lemma_replace_prefix(a, "$LANG"@ + b, "$SHELL"@, env.shell@);
    lemma_replace_name("$LANG"@, b, "$SHELL"@, env.shell@);
    lemma_replace_prefix(a, "$LANG"@ + b, "$UMASK"@, env.umask@);
    lemma_replace_name("$LANG"@, b, "$UMASK"@, env.umask@);
    lemma_replace_prefix(a, "$LANG"@ + b, "$HOME"@, env.home@);
    lemma_replace_name("$LANG"@, b, "$HOME"@, env.home@);
    lemma_replace_prefix(a, "$LANG"@ + b, "$LANG"@, env.lang@);
    lemma_replace_name("$LANG"@, b, "$LANG"@, env.lang@);
    lemma_replace_dollar_free(a + env.lang@ + b, "$TERM"@, env.term@);
    assert(a + "$TERM"@ + b =~= a + ("$TERM"@ + b));
    lemma_dollar_free_concat(a, env.term@);
    lemma_dollar_free_concat(a + env.term@, b);
    assert(a + (env.term@ + b) =~= a + env.term@ + b);
    lemma_replace_prefix(a, "$TERM"@ + b, "$USER"@, env.user@);
    lemma_replace_name("$TERM"@, b, "$USER"@, env.user@);
    lemma_replace_prefix(a, "$TERM"@ + b, "$HOSTNAME"@, env.hostname@);
    lemma_replace_name("$TERM"@, b, "$HOSTNAME"@, env.hostname@);
    lemma_replace_prefix(a, "$TERM"@ + b, "$PID"@, env.pid@);
    lemma_replace_name("$TERM"@, b, "$PID"@, env.pid@);
    lemma_replace_prefix(a, "$TERM"@ + b, "$PATH"@, env.path@);
    lemma_replace_name("$TERM"@, b, "$PATH"@, env.path@);
    lemma_replace_prefix(a, "$TERM"@ + b, "$SHELL"@, env.shell@);
    lemma_replace_name("$TERM"@, b, "$SHELL"@, env.shell@);
    lemma_replace_prefix(a, "$TERM"@ + b, "$UMASK"@, env.umask@);
    lemma_replace_name("$TERM"@, b, "$UMASK"@, env.umask@);
    lemma_replace_prefix(a, "$TERM"@ + b, "$HOME"@, env.home@);
    lemma_replace_name("$TERM"@, b, "$HOME"@, env.home@);
    lemma_replace_prefix(a, "$TERM"@ + b, "$LANG"@, env.lang@);
    lemma_replace_name("$TERM"@, b, "$LANG"@, env.lang@);
    lemma_replace_prefix(a, "$TERM"@ + b, "$TERM"@, env.term@);
    lemma_replace_name("$TERM"@, b, "$TERM"@, env.term@);
}

/// A quote opened outside quotes stays open until the same quote character
/// comes again, whatever other characters (the other quote among them) come
/// between; that character closes it.
pub proof fn law_quote_stays_open(p: Seq<char>, q: char, m: Seq<char>)
    requires
        quote_after(p) is None,
        is_quote(q),
        forall|i: int| 0 <= i < m.len() ==> #[trigger] m[i] != q,
    ensures
        quote_after(p.push(q) + m) == Some(q),
        quote_after(p.push(q) + m.push(q)) is None,
    decreases m.len(),
{
    assert((p.push(q) + m.push(q)).drop_last() =~= p.push(q) + m);
    if m.len() == 0 {
        assert(p.push(q) + m =~= p.push(q));
        assert(p.push(q).drop_last() =~= p);
    } else {
        let m1 = m.drop_last();
        assert forall|i: int| 0 <= i < m1.len() implies #[trigger] m1[i] != q by {
            assert(m1[i] == m[i]);
        }
        law_quote_stays_open(p, q, m1);
        assert((p.push(q) + m).drop_last() =~= p.push(q) + m1);
        assert((p.push(q) + m).last() == m[m.len() - 1]);
    }
}


/// `after` is `before` without its `i`-th entry, the others in their order.
pub open spec fn without_entry(before: Seq<Job>, after: Seq<Job>, i: int) -> bool {
    &&& after.len() == before.len() - 1
    &&& forall|k: int| 0 <= k < i ==> #[trigger] after[k] == before[k]
    &&& forall|k: int| i <= k < after.len() ==> #[trigger] after[k] == before[k + 1]
}

/// `after` is `before` with the `i`-th job stopped: the same ID, process
/// group and command, and every other entry unchanged.
pub open spec fn with_entry_stopped(before: Seq<Job>, after: Seq<Job>, i: int) -> bool {
    &&& after.len() == before.len()
    &&& after[i].jid == before[i].jid
    &&& after[i].pgid == before[i].pgid
    &&& after[i].command == before[i].command
    &&& after[i].state == State::Stopped
    &&& forall|k: int| 0 <= k < before.len() && k != i ==> #[trigger] after[k] == before[k]
}

/// `m` names job `jid` and its command: it starts with `[jid]+` and a tab,
/// and ends with the command.
pub open spec fn names_job(m: Seq<char>, jid: usize, command: Seq<char>) -> bool {
    let head = "["@ + decimal(jid as nat) + "]+\t"@;
    &&& head.len() + command.len() <= m.len()
    &&& m.take(head.len() as int) == head
    &&& m.skip(m.len() - command.len()) == command
}

/// When the foreground job stops, it stays in the table, stopped, with its
/// ID, process group and command, and the rest of the table is unchanged;
/// when it ends, it leaves the table and nothing else changes in it.
pub proof fn law_fg_done(jobs: Seq<Job>, current: usize, previous: usize, index: int)
    requires
        0 <= index < jobs.len(),
    ensures
        with_entry_stopped(jobs, fg_done_spec(jobs, current, previous, index, true).0, index),
        fg_done_spec(jobs, current, previous, index, true).3 is Some,
        without_entry(jobs, fg_done_spec(jobs, current, previous, index, false).0, index),
        fg_done_spec(jobs, current, previous, index, false).3 is None,
{
}

/// A job's process group reporting that it exited or was killed takes that
/// job out of the table, the others keeping their order, and gives a notice
/// naming the job and its command; a notice that it stopped leaves the job
/// stopped and current; a notice that it continued changes no job.
pub proof fn law_child_event(jobs: Seq<Job>, current: usize, previous: usize, pid: i32, event: ChildEvent, i: int)
    requires
        0 <= i < jobs.len(),
        jobs[i].pgid == pid,
        forall|k: int| 0 <= k < i ==> #[trigger] jobs[k].pgid != pid,
    ensures
        (event is Exited || event is Signaled) ==> {
            let r = child_event_spec(jobs, current, previous, pid, event);
            &&& without_entry(jobs, r.0, i)
            &&& r.3 is Some
            &&& names_job(r.3->Some_0, jobs[i].jid, jobs[i].command@)
        },
        event is Signaled ==> child_event_spec(jobs, current, previous, pid, event).3 == Some(
            "["@ + decimal(jobs[i].jid as nat) + "]+\tTerminated\t"@ + jobs[i].command@,
        ),
        (event is Stopped && jobs[i].state != State::Stopped) ==> {
            let r = child_event_spec(jobs, current, previous, pid, event);
            &&& with_entry_stopped(jobs, r.0, i)
            &&& r.1 == jobs[i].jid
        },
        event is Continued ==> child_event_spec(jobs, current, previous, pid, event).0 == jobs,
{
    lemma_job_index(jobs, pid);
    assert(job_index(jobs, pid) == Some(i)) by {
        if job_index(jobs, pid) is None {
            assert(jobs[i].pgid != pid);
        } else {
            let x = job_index(jobs, pid)->Some_0;
            if x < i {
                assert(jobs[x].pgid != pid);
            } else if x > i {
                assert(jobs[i].pgid != pid);
            }
        }
    }
    let job = jobs[i];
    let head = "["@ + decimal(job.jid as nat) + "]+\t"@;
    let cmd = job.command@;
    reveal_strlit("]+\t");
    reveal_strlit("]+\tTerminated\t");
    reveal_strlit("]+\tDone\t\t");
    reveal_strlit("]+\tExit ");
    reveal_strlit("\t\t");
    match event {
        ChildEvent::Signaled => {
            let m = "["@ + decimal(job.jid as nat) + "]+\tTerminated\t"@ + cmd;
            let rest = "Terminated\t"@;
            reveal_strlit("Terminated\t");
            assert("]+\tTerminated\t"@ =~= "]+\t"@ + rest);
            assert(m =~= head + (rest + cmd));
            assert(m.take(head.len() as int) =~= head);
            assert(m.skip(m.len() - cmd.len()) =~= cmd);
        },
        ChildEvent::Exited(code) => {
            if code == 0 {
                let m = "["@ + decimal(job.jid as nat) + "]+\tDone\t\t"@ + cmd;
                let rest = "Done\t\t"@;
                reveal_strlit("Done\t\t");
                assert("]+\tDone\t\t"@ =~= "]+\t"@ + rest);
                assert(m =~= head + (rest + cmd));
                assert(m.take(head.len() as int) =~= head);
                assert(m.skip(m.len() - cmd.len()) =~= cmd);
            } else {
                let m = "["@ + decimal(job.jid as nat) + "]+\tExit "@ + signed_decimal(code as int) + "\t\t"@ + cmd;
                let rest = "Exit "@ + signed_decimal(code as int) + "\t\t"@;
                reveal_strlit("Exit ");
                assert("]+\tExit "@ =~= "]+\t"@ + "Exit "@);
                assert(m =~= head + (rest + cmd));
                assert(m.take(head.len() as int) =~= head);
                assert(m.skip(m.len() - cmd.len()) =~= cmd);
            }
        },
        _ => {},
    }
}

/// Left and Right move the cursor by exactly one character within the line
/// and leave the line as it is; at the start (Left) or the end (Right) the
/// cursor stays.
pub proof fn law_cursor_moves_one(input: Seq<char>, cursor: int, h: Seq<Seq<char>>)
    requires
        0 <= cursor <= input.len(),
    ensures
        cursor < input.len() ==> line_after_key(input, cursor, h, EditKey::Right) == (input, cursor + 1),
        cursor == input.len() ==> line_after_key(input, cursor, h, EditKey::Right) == (input, cursor),
        cursor > 0 ==> line_after_key(input, cursor, h, EditKey::Left) == (input, cursor - 1),
        cursor == 0 ==> line_after_key(input, cursor, h, EditKey::Left) == (input, cursor),
        line_after_key(input, cursor, h, EditKey::Right).0 == input,
        line_after_key(input, cursor, h, EditKey::Left).0 == input,
{
}

} // verus!
