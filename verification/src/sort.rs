use vstd::prelude::*;

use crate::text::{chars_of, views};

verus! {

/// `a` sorts strictly before `b` in the order of `str`'s `Ord`: the
/// characters are compared one by one by code point (which is the order of
/// their UTF-8 bytes), and a proper prefix comes first.
pub open spec fn text_lt(a: Seq<char>, b: Seq<char>) -> bool
    decreases a.len(),
{
    if a.len() == 0 {
        b.len() > 0
    } else if b.len() == 0 {
        false
    } else if a[0] != b[0] {
        a[0] < b[0]
    } else {
        text_lt(a.skip(1), b.skip(1))
    }
}

/// `a < b` for strings.
pub fn text_less(a: &str, b: &str) -> (r: bool)
    ensures
        r == text_lt(a@, b@),
{
    let va = chars_of(a);
    let vb = chars_of(b);
    let mut i: usize = 0;
    assert(a@.skip(0) =~= a@);
    assert(b@.skip(0) =~= b@);
    while i < va.len() && i < vb.len() && va[i] == vb[i]
        invariant
            va@ == a@,
            vb@ == b@,
            i <= va@.len(),
            i <= vb@.len(),
            text_lt(a@, b@) == text_lt(a@.skip(i as int), b@.skip(i as int)),
        decreases va@.len() - i,
    {
        assert(a@.skip(i as int).skip(1) =~= a@.skip(i + 1));
        assert(b@.skip(i as int).skip(1) =~= b@.skip(i + 1));
        i = i + 1;
    }
    if i == va.len() {
        i < vb.len()
    } else if i == vb.len() {
        false
    } else {
        va[i] < vb[i]
    }
}

/// A value that is sorted by a text key.
pub trait SortKey {
    spec fn sort_key(&self) -> Seq<char>;
}

/// A value whose sort key can be read at run time.
pub trait KeyText: SortKey {
    fn key_text(&self) -> (r: &str)
        ensures
            r@ == self.sort_key(),
    ;
}

impl SortKey for String {
    open spec fn sort_key(&self) -> Seq<char> {
        self@
    }
}

impl KeyText for String {
    fn key_text(&self) -> (r: &str) {
        self.as_str()
    }
}

impl SortKey for Seq<char> {
    open spec fn sort_key(&self) -> Seq<char> {
        *self
    }
}

/// A row of fields with the key it is sorted by.
impl SortKey for (Seq<char>, Seq<Seq<char>>) {
    open spec fn sort_key(&self) -> Seq<char> {
        self.0
    }
}

/// `s` with `x` inserted after the last item whose key is not greater than
/// the key of `x` (for a sorted `s`: after every such item).
pub open spec fn insert_by_key<A: SortKey>(s: Seq<A>, x: A) -> Seq<A>
    decreases s.len(),
{
    if s.len() == 0 {
        seq![x]
    } else if text_lt(x.sort_key(), s.last().sort_key()) {
        insert_by_key(s.drop_last(), x).push(s.last())
    } else {
        s.push(x)
    }
}

/// `s` sorted by key, items with equal keys keeping their order (a stable
/// sort): each item in turn is inserted after those with keys not greater.
pub open spec fn sort_by_key<A: SortKey>(s: Seq<A>) -> Seq<A>
    decreases s.len(),
{
    if s.len() == 0 {
        s
    } else {
        insert_by_key(sort_by_key(s.drop_last()), s.last())
    }
}

/// Inserting `x` into `s` passes over a tail of items whose keys are all
/// greater than the key of `x`.
pub proof fn lemma_insert_before_greater<A: SortKey>(s: Seq<A>, x: A, j: int)
    requires
        0 <= j <= s.len(),
        forall|k: int| j <= k < s.len() ==> text_lt(x.sort_key(), #[trigger] s[k].sort_key()),
    ensures
        insert_by_key(s, x) == insert_by_key(s.take(j), x) + s.skip(j),
    decreases s.len() - j,
{
    if j == s.len() {
        assert(s.take(j) =~= s);
        assert(insert_by_key(s.take(j), x) + s.skip(j) =~= insert_by_key(s, x));
    } else {
        let t = s.drop_last();
        assert(text_lt(x.sort_key(), s[s.len() - 1].sort_key()));
        assert forall|k: int| j <= k < t.len() implies text_lt(x.sort_key(), #[trigger] t[k].sort_key()) by {
            assert(t[k] == s[k]);
        }
        lemma_insert_before_greater(t, x, j);
        assert(t.take(j) =~= s.take(j));
        assert(t.skip(j).push(s.last()) =~= s.skip(j));
        assert(insert_by_key(s, x) == insert_by_key(t, x).push(s.last()));
        assert((insert_by_key(s.take(j), x) + t.skip(j)).push(s.last()) =~= insert_by_key(s.take(j), x)
            + s.skip(j));
    }
}

proof fn lemma_insert_map<A: SortKey, B: SortKey>(t: Seq<A>, x: A, f: spec_fn(A) -> B)
    requires
        forall|a: A| #[trigger] f(a).sort_key() == a.sort_key(),
    ensures
        insert_by_key(t.map_values(f), f(x)) == insert_by_key(t, x).map_values(f),
    decreases t.len(),
{
    let m = t.map_values(f);
    if t.len() == 0 {
        assert(insert_by_key(t, x).map_values(f) =~= seq![f(x)]);
    } else {
        assert(m.last() == f(t.last()));
        assert(m.drop_last() =~= t.drop_last().map_values(f));
        assert(f(x).sort_key() == x.sort_key());
        assert(f(t.last()).sort_key() == t.last().sort_key());
        if text_lt(x.sort_key(), t.last().sort_key()) {
            lemma_insert_map(t.drop_last(), x, f);
            assert(insert_by_key(t.drop_last(), x).push(t.last()).map_values(f) =~= insert_by_key(
                t.drop_last(),
                x,
            ).map_values(f).push(f(t.last())));
        } else {
            assert(t.push(x).map_values(f) =~= m.push(f(x)));
        }
    }
}

/// Sorting commutes with a map that keeps the keys.
pub proof fn lemma_sort_map<A: SortKey, B: SortKey>(s: Seq<A>, f: spec_fn(A) -> B)
    requires
        forall|a: A| #[trigger] f(a).sort_key() == a.sort_key(),
    ensures
        sort_by_key(s.map_values(f)) == sort_by_key(s).map_values(f),
    decreases s.len(),
{
    if s.len() > 0 {
        let m = s.map_values(f);
        assert(m.drop_last() =~= s.drop_last().map_values(f));
        assert(m.last() == f(s.last()));
        lemma_sort_map(s.drop_last(), f);
        lemma_insert_map(sort_by_key(s.drop_last()), s.last(), f);
    } else {
        assert(s.map_values(f) =~= Seq::<B>::empty());
        assert(sort_by_key(s).map_values(f) =~= Seq::<B>::empty());
    }
}

/// Where `x` goes in the sorted `out`: after the last item whose key is not
/// greater than its own.
fn insertion_index<A: KeyText>(out: &Vec<A>, x: &A) -> (p: usize)
    ensures
        p <= out@.len(),
        insert_by_key(out@, *x) == out@.take(p as int).push(*x) + out@.skip(p as int),
{
    let mut p = out.len();
    while p > 0 && text_less(x.key_text(), out[p - 1].key_text())
        invariant
            p <= out@.len(),
            forall|k: int| p <= k < out@.len() ==> text_lt(x.sort_key(), #[trigger] out@[k].sort_key()),
        decreases p,
    {
        p = p - 1;
    }
    proof {
        lemma_insert_before_greater(out@, *x, p as int);
        let t = out@.take(p as int);
        if p > 0 {
            assert(t.last() == out@[p - 1]);
            assert(t.drop_last().push(t.last()) =~= t);
        }
    }
    p
}

/// A stable sort by key (`sort_by_key`; for strings, `sort`).
pub fn sort_by_keys<A: KeyText>(v: Vec<A>) -> (r: Vec<A>)
    ensures
        r@ == sort_by_key(v@),
{
    let ghost orig = v@;
    let mut rest = v;
    let mut out: Vec<A> = Vec::new();
    while rest.len() > 0
        invariant
            rest@.len() <= orig.len(),
            rest@ == orig.skip(orig.len() - rest@.len()),
            out@ == sort_by_key(orig.take(orig.len() - rest@.len())),
        decreases rest@.len(),
    {
        let ghost done = orig.len() - rest@.len();
        let ghost before = out@;
        let x = rest.remove(0);
        assert(x == orig[done]);
        assert(rest@ =~= orig.skip(done + 1));
        let p = insertion_index(&out, &x);
        out.insert(p, x);
        assert(out@ =~= before.take(p as int).push(x) + before.skip(p as int));
        assert(orig.take(done + 1).drop_last() =~= orig.take(done));
        assert(orig.take(done + 1).last() == x);
    }
    assert(orig.take(orig.len() as int) =~= orig);
    out
}

/// `v.sort()` for strings.
pub fn sort_strings(v: Vec<String>) -> (r: Vec<String>)
    ensures
        views(r@) == sort_by_key(views(v@)),
{
    let ghost orig = v@;
    let r = sort_by_keys(v);
    proof {
        let f = |s: String| s@;
        lemma_sort_map(orig, f);
        assert(views(orig) =~= orig.map_values(f));
        assert(views(r@) =~= r@.map_values(f));
    }
    r
}

} // verus!
