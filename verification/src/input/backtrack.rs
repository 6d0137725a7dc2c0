use vstd::prelude::*;

use crate::text::{chars_of, string_of, views};

verus! {

/// `w` starts with `p`.
pub open spec fn has_prefix(w: Seq<char>, p: Seq<char>) -> bool {
    p.len() <= w.len() && w.take(p.len() as int) == p
}

/// The index of the first entry of `data` that starts with `w` (`data.len()` if none does).
pub open spec fn first_index(data: Seq<Seq<char>>, w: Seq<char>) -> int
    decreases data.len(),
{
    if data.len() == 0 {
        0
    } else if has_prefix(data[0], w) {
        0
    } else {
        1 + first_index(data.drop_first(), w)
    }
}

/// The position of the first character at which `u` and `v` differ (the
/// length of the shorter when one is a prefix of the other).
pub open spec fn first_diff(u: Seq<char>, v: Seq<char>) -> int
    decreases u.len(),
{
    if u.len() == 0 || v.len() == 0 {
        0
    } else if u[0] != v[0] {
        0
    } else {
        1 + first_diff(u.drop_first(), v.drop_first())
    }
}

/// The order in which completion lists its matches: a word comes before its
/// extensions, and where two words part, the branch that an earlier entry of
/// `data` takes comes first.
pub open spec fn listed_before(data: Seq<Seq<char>>, u: Seq<char>, v: Seq<char>) -> bool {
    let j = first_diff(u, v);
    if j == u.len() {
        j < v.len()
    } else if j == v.len() {
        false
    } else {
        first_index(data, u.take(j + 1)) < first_index(data, v.take(j + 1))
    }
}

/// `m` lists each entry of `data` that starts with `partial`, once, in the
/// order of `listed_before`.
pub open spec fn lists_matches(data: Seq<Seq<char>>, partial: Seq<char>, m: Seq<Seq<char>>) -> bool {
    &&& forall|i: int| 0 <= i < m.len() ==> data.contains(#[trigger] m[i]) && has_prefix(m[i], partial)
    &&& forall|x: Seq<char>| data.contains(x) && has_prefix(x, partial) ==> #[trigger] m.contains(x)
    &&& forall|i: int, j: int|
        0 <= i < j < m.len() ==> #[trigger] listed_before(data, m[i], m[j])
}

/// The length of the longest entry.
pub open spec fn max_len(data: Seq<Seq<char>>) -> int
    decreases data.len(),
{
    if data.len() == 0 {
        0
    } else {
        let rest = max_len(data.drop_first());
        if data[0].len() > rest {
            data[0].len() as int
        } else {
            rest
        }
    }
}

pub open spec fn cviews(v: Seq<Vec<char>>) -> Seq<Seq<char>> {
    v.map_values(|x: Vec<char>| x@)
}

pub proof fn lemma_max_len(data: Seq<Seq<char>>)
    ensures
        max_len(data) >= 0,
        forall|k: int| 0 <= k < data.len() ==> #[trigger] data[k].len() <= max_len(data),
    decreases data.len(),
{
    if data.len() > 0 {
        lemma_max_len(data.drop_first());
        assert forall|k: int| 0 <= k < data.len() implies #[trigger] data[k].len() <= max_len(data) by {
            if k > 0 {
                assert(data[k] == data.drop_first()[k - 1]);
            }
        }
    }
}

pub proof fn lemma_first_index(data: Seq<Seq<char>>, w: Seq<char>)
    ensures
        0 <= first_index(data, w) <= data.len(),
        first_index(data, w) < data.len() ==> has_prefix(data[first_index(data, w)], w),
        forall|k: int| 0 <= k < first_index(data, w) ==> !has_prefix(#[trigger] data[k], w),
    decreases data.len(),
{
    if data.len() > 0 && !has_prefix(data[0], w) {
        lemma_first_index(data.drop_first(), w);
        assert forall|k: int| 0 <= k < first_index(data, w) implies !has_prefix(#[trigger] data[k], w) by {
            if k > 0 {
                assert(data[k] == data.drop_first()[k - 1]);
            }
        }
    }
}

/// Where `u` and `v` agree on their first `n` characters and part at `n` (or
/// `u` ends there), they first differ at `n`.
pub proof fn lemma_first_diff(u: Seq<char>, v: Seq<char>, n: int)
    requires
        0 <= n <= u.len(),
        n <= v.len(),
        u.take(n) == v.take(n),
        n == u.len() || n == v.len() || u[n] != v[n],
    ensures
        first_diff(u, v) == n,
    decreases n,
{
    if n > 0 {
        assert(u[0] == u.take(n)[0]);
        assert(v[0] == v.take(n)[0]);
        assert(u.drop_first().take(n - 1) =~= u.take(n).drop_first());
        assert(v.drop_first().take(n - 1) =~= v.take(n).drop_first());
        if n < u.len() && n < v.len() {
            assert(u.drop_first()[n - 1] == u[n]);
            assert(v.drop_first()[n - 1] == v[n]);
        }
        lemma_first_diff(u.drop_first(), v.drop_first(), n - 1);
    }
}

pub proof fn lemma_prefix_trans(x: Seq<char>, c: Seq<char>, p: Seq<char>)
    requires
        has_prefix(x, c),
        has_prefix(c, p),
    ensures
        has_prefix(x, p),
{
    assert(x.take(p.len() as int) =~= c.take(p.len() as int));
}

fn has_prefix_exec(w: &Vec<char>, p: &Vec<char>) -> (b: bool)
    ensures
        b == has_prefix(w@, p@),
{
    if p.len() > w.len() {
        return false;
    }
    let mut i: usize = 0;
    while i < p.len()
        invariant
            p@.len() <= w@.len(),
            i <= p@.len(),
            w@.take(i as int) == p@.take(i as int),
        decreases p@.len() - i,
    {
        if w[i] != p[i] {
            assert(w@.take(p@.len() as int)[i as int] == w@[i as int]);
            return false;
        }
        assert(w@.take(i + 1) =~= w@.take(i as int).push(w@[i as int]));
        assert(p@.take(i + 1) =~= p@.take(i as int).push(p@[i as int]));
        i = i + 1;
    }
    assert(p@.take(p@.len() as int) =~= p@);
    true
}

fn chars_eq(a: &Vec<char>, b: &Vec<char>) -> (r: bool)
    ensures
        r == (a@ == b@),
{
    if a.len() != b.len() {
        return false;
    }
    let r = has_prefix_exec(a, b);
    proof {
        if r {
            assert(a@ =~= a@.take(b@.len() as int));
        } else {
            if a@ == b@ {
                assert(a@.take(b@.len() as int) =~= a@);
            }
        }
    }
    r
}

/// No entry of `data` starts with `partial`.
fn reject(partial: &Vec<char>, data: &Vec<Vec<char>>) -> (b: bool)
    ensures
        b == !(exists|k: int| 0 <= k < data@.len() && has_prefix(#[trigger] cviews(data@)[k], partial@)),
{
    let mut k: usize = 0;
    while k < data.len()
        invariant
            k <= data@.len(),
            forall|j: int| 0 <= j < k ==> !has_prefix(#[trigger] cviews(data@)[j], partial@),
        decreases data@.len() - k,
    {
        if has_prefix_exec(&data[k], partial) {
            assert(has_prefix(cviews(data@)[k as int], partial@));
            return false;
        }
        k = k + 1;
    }
    true
}

/// Some entry of `data` is `partial` itself.
fn accept(partial: &Vec<char>, data: &Vec<Vec<char>>) -> (b: bool)
    ensures
        b == cviews(data@).contains(partial@),
{
    let mut k: usize = 0;
    while k < data.len()
        invariant
            k <= data@.len(),
            forall|j: int| 0 <= j < k ==> #[trigger] cviews(data@)[j] != partial@,
        decreases data@.len() - k,
    {
        if chars_eq(&data[k], partial) {
            assert(cviews(data@)[k as int] == partial@);
            return true;
        }
        k = k + 1;
    }
    false
}

/// What `get_candidates` returns: each way to extend `partial` by one
/// character toward some entry, once, ordered by the first entry that takes it.
pub open spec fn candidates_ok(data: Seq<Seq<char>>, p: Seq<char>, cs: Seq<Seq<char>>, n: int) -> bool {
    &&& forall|i: int|
        0 <= i < cs.len() ==> (#[trigger] cs[i]).len() == p.len() + 1 && has_prefix(cs[i], p)
            && first_index(data, cs[i]) < n
    &&& forall|k: int|
        0 <= k < n && has_prefix(#[trigger] data[k], p) && data[k].len() > p.len() ==> cs.contains(
            data[k].take(p.len() as int + 1),
        )
    &&& forall|i: int, j: int|
        0 <= i < j < cs.len() ==> first_index(data, #[trigger] cs[i]) < first_index(data, #[trigger] cs[j])
}

fn get_candidates(partial: &Vec<char>, data: &Vec<Vec<char>>) -> (cs: Vec<Vec<char>>)
    ensures
        candidates_ok(cviews(data@), partial@, cviews(cs@), data@.len() as int),
{
    let ghost dv = cviews(data@);
    let mut candidates: Vec<Vec<char>> = Vec::new();
    let partial_len = partial.len();
    let mut k: usize = 0;
    while k < data.len()
        invariant
            dv == cviews(data@),
            partial_len == partial@.len(),
            k <= data@.len(),
            candidates_ok(dv, partial@, cviews(candidates@), k as int),
        decreases data@.len() - k,
    {
        let item = &data[k];
        assert(item@ == dv[k as int]);
        if has_prefix_exec(item, partial) && item.len() > partial_len {
            let next_char = item[partial_len];
            let mut candidate = partial.clone();
            candidate.push(next_char);
            assert(candidate@ =~= dv[k as int].take(partial@.len() as int + 1));
            let ghost cs = cviews(candidates@);
            let mut found = false;
            let mut j: usize = 0;
            while j < candidates.len()
                invariant
                    cs == cviews(candidates@),
                    j <= candidates@.len(),
                    !found ==> forall|i: int| 0 <= i < j ==> #[trigger] cs[i] != candidate@,
                    found ==> cs.contains(candidate@),
                decreases candidates@.len() - j,
            {
                if chars_eq(&candidates[j], &candidate) {
                    assert(cs[j as int] == candidate@);
                    found = true;
                }
                j = j + 1;
            }
            if !found {
                proof {
                    lemma_first_index(dv, candidate@);
                    assert(candidate@.take(partial@.len() as int) =~= partial@);
                    assert(has_prefix(dv[k as int], candidate@)) by {
                        assert(dv[k as int].take(candidate@.len() as int) =~= candidate@);
                    }
                    assert forall|m: int| 0 <= m < k implies !has_prefix(#[trigger] dv[m], candidate@) by {
                        if has_prefix(dv[m], candidate@) {
                            lemma_prefix_trans(dv[m], candidate@, partial@);
                            assert(candidate@.take(partial@.len() as int) =~= partial@);
                            assert(dv[m].take(partial@.len() as int + 1) =~= candidate@);
                            assert(cs.contains(dv[m].take(partial@.len() as int + 1)));
                            let t = choose|t: int| 0 <= t < cs.len() && cs[t] == candidate@;
                            assert(cs[t] != candidate@);
                        }
                    }
                    assert(first_index(dv, candidate@) == k);
                    assert(candidate@.take(partial@.len() as int) =~= partial@);
                }
                candidates.push(candidate);
                proof {
                    let ncs = cviews(candidates@);
                    assert(ncs =~= cs.push(candidate@));
                    assert(ncs[ncs.len() - 1] == candidate@);
                    assert forall|m: int|
                        0 <= m < k + 1 && has_prefix(#[trigger] dv[m], partial@) && dv[m].len()
                            > partial@.len() implies ncs.contains(dv[m].take(partial@.len() as int + 1)) by {
                        if m < k {
                            let t = choose|t: int| 0 <= t < cs.len() && cs[t] == dv[m].take(partial@.len() as int + 1);
                            assert(ncs[t] == cs[t]);
                        } else {
                            assert(ncs[ncs.len() - 1] == dv[m].take(partial@.len() as int + 1));
                        }
                    }
                }
            } else {
                proof {
                    assert forall|m: int|
                        0 <= m < k + 1 && has_prefix(#[trigger] dv[m], partial@) && dv[m].len()
                            > partial@.len() implies cs.contains(dv[m].take(partial@.len() as int + 1)) by {
                        if m == k {
                            assert(dv[m].take(partial@.len() as int + 1) == candidate@);
                        }
                    }
                }
            }
        }
        k = k + 1;
    }
    candidates
}


/// Two words on different branches below `p` are listed in the order of
/// their branches.
pub proof fn lemma_listed_before_branches(
    data: Seq<Seq<char>>,
    p: Seq<char>,
    u: Seq<char>,
    v: Seq<char>,
    cu: Seq<char>,
    cv: Seq<char>,
)
    requires
        has_prefix(u, cu),
        has_prefix(v, cv),
        cu.len() == p.len() + 1,
        cv.len() == p.len() + 1,
        has_prefix(cu, p),
        has_prefix(cv, p),
        first_index(data, cu) < first_index(data, cv),
    ensures
        listed_before(data, u, v),
        u != v,
{
    let n = p.len() as int;
    assert(u.take(n) =~= cu.take(n));
    assert(v.take(n) =~= cv.take(n));
    assert(u[n] == cu[n]) by {
        assert(u.take(n + 1)[n] == u[n]);
    }
    assert(v[n] == cv[n]) by {
        assert(v.take(n + 1)[n] == v[n]);
    }
    if cu[n] == cv[n] {
        assert(cu =~= cv) by {
            assert forall|k: int| 0 <= k < cu.len() implies cu[k] == cv[k] by {
                if k < n {
                    assert(cu.take(n)[k] == cv.take(n)[k]);
                }
            }
        }
    }
    lemma_first_diff(u, v, n);
    assert(u.take(n + 1) =~= cu);
    assert(v.take(n + 1) =~= cv);
}

/// No word comes before itself, so a list in this order has no repeats.
pub proof fn lemma_listed_before_irreflexive(data: Seq<Seq<char>>, u: Seq<char>)
    ensures
        !listed_before(data, u, u),
{
    lemma_first_diff(u, u, u.len() as int);
}

/// A word comes before its proper extensions.
pub proof fn lemma_listed_before_extension(data: Seq<Seq<char>>, p: Seq<char>, v: Seq<char>)
    requires
        has_prefix(v, p),
        v.len() > p.len(),
    ensures
        listed_before(data, p, v),
        p != v,
{
    assert(p.take(p.len() as int) =~= p);
    lemma_first_diff(p, v, p.len() as int);
}

/// Depth-first search over the prefixes of the entries: appends to `matches`
/// each entry that starts with `partial`.
fn backtrack(data: &Vec<Vec<char>>, partial: &Vec<char>, matches: &mut Vec<String>)
    ensures
        final(matches)@.len() >= old(matches)@.len(),
        final(matches)@.take(old(matches)@.len() as int) == old(matches)@,
        lists_matches(
            cviews(data@),
            partial@,
            views(final(matches)@.skip(old(matches)@.len() as int)),
        ),
    decreases max_len(cviews(data@)) - partial@.len(),
{
    let ghost dv = cviews(data@);
    let ghost start = matches@.len() as int;
    let ghost m0 = matches@;
    if reject(partial, data) {
        proof {
            assert(matches@.take(start) =~= m0);
            let m = views(matches@.skip(start));
            assert(m.len() == 0);
            assert forall|x: Seq<char>| dv.contains(x) && has_prefix(x, partial@) implies #[trigger] m.contains(x) by {
                let k = choose|k: int| 0 <= k < dv.len() && dv[k] == x;
                assert(has_prefix(dv[k], partial@));
            }
        }
        return;
    }
    proof {
        lemma_max_len(dv);
    }
    let accepted = accept(partial, data);
    if accepted {
        matches.push(string_of(partial));
    }
    let candidates = get_candidates(partial, data);
    let ghost cs = cviews(candidates@);
    proof {
        let m = views(matches@.skip(start));
        assert(matches@.take(start) =~= m0);
        if accepted {
            assert(m =~= seq![partial@]);
            assert(m[0] == partial@);
            assert(partial@.take(partial@.len() as int) =~= partial@);
            assert(has_prefix(m[0], partial@));
        } else {
            assert(m =~= Seq::<Seq<char>>::empty());
        }
    }
    let ghost mut mm = views(matches@.skip(start));
    let mut i: usize = 0;
    while i < candidates.len()
        invariant
            dv == cviews(data@),
            cs == cviews(candidates@),
            candidates_ok(dv, partial@, cs, dv.len() as int),
            accepted == dv.contains(partial@),
            i <= cs.len(),
            start == m0.len(),
            matches@.len() >= start,
            matches@.take(start) == m0,
            mm == views(matches@.skip(start)),
            forall|t: int|
                0 <= t < mm.len() ==> dv.contains(#[trigger] mm[t]) && has_prefix(mm[t], partial@) && (
                mm[t] == partial@ || exists|j: int| 0 <= j < i && has_prefix(mm[t], #[trigger] cs[j])),
            forall|a: int, b: int|
                0 <= a < b < mm.len() ==> #[trigger] listed_before(dv, mm[a], mm[b]),
            accepted ==> mm.contains(partial@),
            forall|x: Seq<char>, j: int|
                0 <= j < i && dv.contains(x) && has_prefix(x, #[trigger] cs[j]) ==> #[trigger] mm.contains(x),
        decreases cs.len() - i,
    {
        let ghost before = matches@;
        let ghost mb = mm;
        let candidate = &candidates[i];
        assert(candidate@ == cs[i as int]);
        proof {
            lemma_max_len(dv);
            lemma_first_index(dv, cs[i as int]);
            let fi = first_index(dv, cs[i as int]);
            assert(dv[fi].len() <= max_len(dv));
        }
        backtrack(data, candidate, matches);
        proof {
            let seg = views(matches@.skip(before.len() as int));
            assert(lists_matches(dv, cs[i as int], seg));
            let m = views(matches@.skip(start));
            assert(matches@ =~= before + matches@.skip(before.len() as int));
            assert(matches@.take(start) =~= before.take(start));
            assert(m =~= mb + seg) by {
                assert(matches@.skip(start) =~= before.skip(start) + matches@.skip(before.len() as int));
            }
            let c = cs[i as int];
            assert forall|t: int| 0 <= t < m.len() implies dv.contains(#[trigger] m[t]) && has_prefix(
                m[t],
                partial@,
            ) && (m[t] == partial@ || exists|j: int| 0 <= j < i + 1 && has_prefix(m[t], #[trigger] cs[j])) by {
                if t < mb.len() {
                    assert(m[t] == mb[t]);
                    if m[t] != partial@ {
                        let j = choose|j: int| 0 <= j < i && has_prefix(mb[t], #[trigger] cs[j]);
                        assert(has_prefix(m[t], cs[j]));
                    }
                } else {
                    assert(m[t] == seg[t - mb.len()]);
                    lemma_prefix_trans(m[t], c, partial@);
                    assert(has_prefix(m[t], cs[i as int]));
                }
            }
            assert forall|a: int, b: int| 0 <= a < b < m.len() implies #[trigger] listed_before(
                dv,
                m[a],
                m[b],
            ) by {
                if b < mb.len() {
                    assert(m[a] == mb[a] && m[b] == mb[b]);
                    assert(listed_before(dv, mb[a], mb[b]));
                } else if a >= mb.len() {
                    assert(m[a] == seg[a - mb.len()] && m[b] == seg[b - mb.len()]);
                    let ii = a - mb.len();
                    let jj = b - mb.len();
                    assert(0 <= ii < jj < seg.len());
                    assert(listed_before(dv, seg[ii], seg[jj]));
                } else {
                    assert(m[a] == mb[a] && m[b] == seg[b - mb.len()]);
                    let bb = b - mb.len();
                    assert(has_prefix(seg[bb], c));
                    assert(has_prefix(m[b], c));
                    assert(c.len() == partial@.len() + 1 && has_prefix(c, partial@));
                    lemma_prefix_trans(m[b], c, partial@);
                    if mb[a] == partial@ {
                        lemma_listed_before_extension(dv, partial@, m[b]);
                        assert(listed_before(dv, m[a], m[b]));
                    } else {
                        assert(dv.contains(mb[a]) && has_prefix(mb[a], partial@));
                        let j = choose|j: int| 0 <= j < i && has_prefix(mb[a], #[trigger] cs[j]);
                        assert(cs[j].len() == partial@.len() + 1 && has_prefix(cs[j], partial@));
                        assert(first_index(dv, cs[j]) < first_index(dv, cs[i as int]));
                        lemma_listed_before_branches(dv, partial@, m[a], m[b], cs[j], c);
                        assert(listed_before(dv, m[a], m[b]));
                    }
                }
            }
            if accepted {
                let t = choose|t: int| 0 <= t < mb.len() && mb[t] == partial@;
                assert(m[t] == partial@);
            }
            assert forall|x: Seq<char>, j: int|
                0 <= j < i + 1 && dv.contains(x) && has_prefix(x, #[trigger] cs[j]) implies #[trigger] m.contains(x) by {
                if j < i {
                    assert(mb.contains(x));
                    let t = choose|t: int| 0 <= t < mb.len() && mb[t] == x;
                    assert(m[t] == x);
                } else {
                    lemma_prefix_trans(x, c, partial@);
                    assert(seg.contains(x));
                    let t = choose|t: int| 0 <= t < seg.len() && seg[t] == x;
                    assert(m[mb.len() + t] == x);
                }
            }
            mm = m;
        }
        i = i + 1;
    }
    proof {
        let m = mm;
        assert forall|x: Seq<char>| dv.contains(x) && has_prefix(x, partial@) implies #[trigger] m.contains(x) by {
            if x.len() == partial@.len() {
                assert(x =~= partial@) by {
                    assert(x.take(partial@.len() as int) =~= x);
                }
            } else {
                let k = choose|k: int| 0 <= k < dv.len() && dv[k] == x;
                assert(has_prefix(dv[k], partial@));
                let w = x.take(partial@.len() as int + 1);
                assert(cs.contains(w));
                let j = choose|j: int| 0 <= j < cs.len() && cs[j] == w;
                assert(has_prefix(x, cs[j])) by {
                    assert(x.take(w.len() as int) =~= w);
                }
            }
        }
    }
}

/// The entries of `data` that start with `partial`, each once, in
/// depth-first order of their characters (each level ordered by the first
/// entry that continues that way).
pub fn find_matches(data: &[String], partial: &str) -> (r: Vec<String>)
    ensures
        lists_matches(views(data@), partial@, views(r@)),
{
    let mut dv: Vec<Vec<char>> = Vec::new();
    let mut k: usize = 0;
    while k < data.len()
        invariant
            k <= data@.len(),
            cviews(dv@) =~= views(data@).take(k as int),
        decreases data@.len() - k,
    {
        let w = chars_of(data[k].as_str());
        let ghost old_dv = dv@;
        dv.push(w);
        assert(cviews(dv@) =~= cviews(old_dv).push(data@[k as int]@));
        assert(views(data@).take(k + 1) =~= views(data@).take(k as int).push(data@[k as int]@));
        k = k + 1;
    }
    assert(cviews(dv@) =~= views(data@));
    let p = chars_of(partial);
    let mut matches: Vec<String> = Vec::new();
    backtrack(&dv, &p, &mut matches);
    assert(matches@.skip(0) =~= matches@);
    matches
}

} // verus!
