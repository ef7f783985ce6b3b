use vstd::prelude::*;

verus! {

/// Items ordered by a rank, highest first.
pub trait Ranked {
    spec fn rank(&self) -> int;

    /// Whether `self` ranks strictly above `other`.
    fn outranks(&self, other: &Self) -> (r: bool)
        ensures
            r == (self.rank() > other.rank()),
    ;
}

/// `s` with `x` put before its first item that does not rank above `x`.
pub open spec fn insert_ranked<T: Ranked>(s: Seq<T>, x: T) -> Seq<T>
    decreases s.len(),
{
    if s.len() == 0 {
        seq![x]
    } else if s[0].rank() > x.rank() {
        seq![s[0]] + insert_ranked(s.drop_first(), x)
    } else {
        seq![x] + s
    }
}

/// `s` in descending order of rank; items of equal rank keep their order in `s`.
pub open spec fn ranked<T: Ranked>(s: Seq<T>) -> Seq<T>
    decreases s.len(),
{
    if s.len() == 0 {
        seq![]
    } else {
        insert_ranked(ranked(s.drop_first()), s[0])
    }
}

/// Ranks never increase along `s`.
pub open spec fn descending<T: Ranked>(s: Seq<T>) -> bool {
    forall|i: int, j: int| 0 <= i < j < s.len() ==> s[i].rank() >= s[j].rank()
}

proof fn lemma_insert_at<T: Ranked>(s: Seq<T>, x: T, p: int)
    requires
        0 <= p <= s.len(),
        forall|i: int| 0 <= i < p ==> (#[trigger] s[i]).rank() > x.rank(),
        p < s.len() ==> s[p].rank() <= x.rank(),
    ensures
        insert_ranked(s, x) == s.take(p) + seq![x] + s.skip(p),
    decreases p,
{
    if p == 0 {
        assert(s.take(0) + seq![x] + s.skip(0) =~= seq![x] + s);
    } else {
        let t = s.drop_first();
        assert forall|i: int| 0 <= i < p - 1 implies (#[trigger] t[i]).rank() > x.rank() by {
            assert(t[i] == s[i + 1]);
        }
        if p - 1 < t.len() {
            assert(t[p - 1] == s[p]);
        }
        lemma_insert_at(t, x, p - 1);
        assert(s[0].rank() > x.rank());
        assert(seq![s[0]] + (t.take(p - 1) + seq![x] + t.skip(p - 1)) =~= s.take(p) + seq![x]
            + s.skip(p));
    }
}

proof fn lemma_insert_facts<T: Ranked>(s: Seq<T>, x: T)
    ensures
        insert_ranked(s, x).len() == s.len() + 1,
        descending(s) ==> descending(insert_ranked(s, x)),
        forall|j: int|
            0 <= j < insert_ranked(s, x).len() ==> #[trigger] insert_ranked(s, x)[j] == x
                || s.contains(insert_ranked(s, x)[j]),
    decreases s.len(),
{
    if s.len() > 0 && s[0].rank() > x.rank() {
        let t = s.drop_first();
        lemma_insert_facts(t, x);
        let r = insert_ranked(s, x);
        let rt = insert_ranked(t, x);
        assert forall|j: int| 0 <= j < r.len() implies #[trigger] r[j] == x || s.contains(r[j]) by {
            if j == 0 {
                assert(s[0] == r[0]);
            } else {
                assert(r[j] == rt[j - 1]);
                if rt[j - 1] != x {
                    let k = choose|k: int| 0 <= k < t.len() && t[k] == rt[j - 1];
                    assert(s[k + 1] == t[k]);
                }
            }
        }
        if descending(s) {
            assert forall|i: int, j: int| 0 <= i < j < t.len() implies t[i].rank()
                >= t[j].rank() by {
                assert(t[i] == s[i + 1] && t[j] == s[j + 1]);
            }
            assert forall|i: int, j: int| 0 <= i < j < r.len() implies r[i].rank()
                >= r[j].rank() by {
                if i == 0 {
                    assert(r[0] == s[0]);
                    assert(r[j] == rt[j - 1]);
                    if rt[j - 1] != x {
                        let k = choose|k: int| 0 <= k < t.len() && t[k] == rt[j - 1];
                        assert(s[k + 1] == t[k]);
                    }
                } else {
                    assert(r[i] == rt[i - 1] && r[j] == rt[j - 1]);
                }
            }
        }
    } else if s.len() > 0 {
        let r = insert_ranked(s, x);
        assert forall|j: int| 0 <= j < r.len() implies #[trigger] r[j] == x || s.contains(r[j]) by {
            if j > 0 {
                assert(r[j] == s[j - 1]);
            }
        }
        if descending(s) {
            assert forall|i: int, j: int| 0 <= i < j < r.len() implies r[i].rank()
                >= r[j].rank() by {
                if i > 0 {
                    assert(r[i] == s[i - 1]);
                }
                assert(r[j] == s[j - 1]);
            }
        }
    }
}

/// Ranking keeps the number of items, takes every item from the input, and
/// leaves the items in descending order of rank.
pub proof fn lemma_ranked_facts<T: Ranked>(s: Seq<T>)
    ensures
        ranked(s).len() == s.len(),
        descending(ranked(s)),
        forall|j: int| 0 <= j < ranked(s).len() ==> s.contains(#[trigger] ranked(s)[j]),
    decreases s.len(),
{
    if s.len() > 0 {
        let t = s.drop_first();
        lemma_ranked_facts(t);
        lemma_insert_facts(ranked(t), s[0]);
        let r = ranked(s);
        assert forall|j: int| 0 <= j < r.len() implies s.contains(#[trigger] r[j]) by {
            if r[j] == s[0] {
                assert(s[0] == r[j]);
            } else {
                assert(ranked(t).contains(r[j]));
                let k = choose|k: int| 0 <= k < ranked(t).len() && ranked(t)[k] == r[j];
                assert(t.contains(ranked(t)[k]));
                let m = choose|m: int| 0 <= m < t.len() && t[m] == ranked(t)[k];
                assert(s[m + 1] == t[m]);
            }
        }
    }
}

/// Orders `items` by descending rank, keeping the order of equal ranks.
pub fn sort_ranked<T: Ranked>(items: Vec<T>) -> (r: Vec<T>)
    ensures
        r@ == ranked(items@),
{
    let ghost orig = items@;
    let mut rest = items;
    let mut out: Vec<T> = Vec::new();
    assert(orig.skip(orig.len() as int) =~= Seq::<T>::empty());
    assert(orig.take(orig.len() as int) =~= orig);
    while rest.len() > 0
        invariant
            rest@.len() <= orig.len(),
            rest@ == orig.take(rest@.len() as int),
            out@ == ranked(orig.skip(rest@.len() as int)),
        decreases rest@.len(),
    {
        let ghost k = rest@.len() as int;
        let x = rest.pop().unwrap();
        assert(x == orig[k - 1]);
        assert(rest@ =~= orig.take(k - 1));
        let mut p: usize = 0;
        while p < out.len() && out[p].outranks(&x)
            invariant
                p <= out@.len(),
                forall|i: int| 0 <= i < p ==> (#[trigger] out@[i]).rank() > x.rank(),
            decreases out@.len() - p,
        {
            p = p + 1;
        }
        proof {
            lemma_insert_at(out@, x, p as int);
            assert(orig.skip(k - 1).drop_first() =~= orig.skip(k));
            assert(orig.skip(k - 1)[0] == x);
        }
        out.insert(p, x);
        assert(out@ =~= ranked(orig.skip(k - 1)));
    }
    assert(orig.skip(0) =~= orig);
    out
}

} // verus!
