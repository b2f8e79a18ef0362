//! Ordering: texts in dictionary order by code point, and a sort for any
//! type that says which of two values ranks first.

use vstd::prelude::*;

verus! {

/// Whether `a` comes strictly before `b` in dictionary order by code point.
/// This is the order in which `str` values compare.
pub open spec fn lex_lt(a: Seq<char>, b: Seq<char>) -> bool
    decreases a.len(),
{
    if b.len() == 0 {
        false
    } else if a.len() == 0 {
        true
    } else if a[0] == b[0] {
        lex_lt(a.drop_first(), b.drop_first())
    } else {
        a[0] < b[0]
    }
}

/// No text comes before itself.
pub proof fn lemma_lex_irreflexive(a: Seq<char>)
    ensures
        !lex_lt(a, a),
    decreases a.len(),
{
    if a.len() > 0 {
        lemma_lex_irreflexive(a.drop_first());
    }
}

/// Of two different texts one comes before the other.
pub proof fn lemma_lex_total(a: Seq<char>, b: Seq<char>)
    ensures
        lex_lt(a, b) || lex_lt(b, a) || a == b,
    decreases a.len(),
{
    if a.len() > 0 && b.len() > 0 {
        if a[0] == b[0] {
            lemma_lex_total(a.drop_first(), b.drop_first());
            if a.drop_first() == b.drop_first() {
                assert(a =~= seq![a[0]].add(a.drop_first()));
                assert(b =~= seq![b[0]].add(b.drop_first()));
            }
        }
    } else if a.len() == 0 && b.len() == 0 {
        assert(a =~= b);
    }
}

/// Dictionary order is transitive.
pub proof fn lemma_lex_transitive(a: Seq<char>, b: Seq<char>, c: Seq<char>)
    requires
        lex_lt(a, b),
        lex_lt(b, c),
    ensures
        lex_lt(a, c),
    decreases a.len(),
{
    if a.len() > 0 && a[0] == b[0] && b[0] == c[0] {
        lemma_lex_transitive(a.drop_first(), b.drop_first(), c.drop_first());
    }
}

/// Two texts do not each come before the other.
pub proof fn lemma_lex_asymmetric(a: Seq<char>, b: Seq<char>)
    requires
        lex_lt(a, b),
    ensures
        !lex_lt(b, a),
{
    if lex_lt(b, a) {
        lemma_lex_transitive(a, b, a);
        lemma_lex_irreflexive(a);
    }
}

/// What does not come after, taken twice, does not come after.
pub proof fn lemma_lex_not_after(a: Seq<char>, b: Seq<char>, c: Seq<char>)
    requires
        !lex_lt(b, a),
        !lex_lt(c, b),
    ensures
        !lex_lt(c, a),
{
    lemma_lex_total(a, b);
    lemma_lex_total(b, c);
    if lex_lt(c, a) {
        if a == b {
        } else if b == c {
        } else {
            lemma_lex_transitive(c, a, b);
        }
    }
}

/// Whether `a` comes strictly before `b` in dictionary order.
pub fn lex_less(a: &[char], b: &[char]) -> (r: bool)
    ensures
        r == lex_lt(a@, b@),
{
    let mut i: usize = 0;
    assert(a@.skip(0) =~= a@);
    assert(b@.skip(0) =~= b@);
    while i < a.len() && i < b.len()
        invariant
            i <= a@.len(),
            i <= b@.len(),
            lex_lt(a@, b@) == lex_lt(a@.skip(i as int), b@.skip(i as int)),
        decreases a@.len() - i,
    {
        if a[i] != b[i] {
            return a[i] < b[i];
        }
        assert(a@.skip(i as int).drop_first() =~= a@.skip(i + 1));
        assert(b@.skip(i as int).drop_first() =~= b@.skip(i + 1));
        i += 1;
    }
    i < b.len()
}

/// Whether each text of `s` comes strictly before the next: the texts are in
/// dictionary order and none stands twice.
pub open spec fn strictly_sorted(s: Seq<Seq<char>>) -> bool {
    forall|i: int, j: int| 0 <= i < j < s.len() ==> lex_lt(s[i], s[j])
}

/// A type whose values are ranked: of two values one may rank before the
/// other, and values of which neither does rank alike.
pub trait Ranked: Sized {
    /// Whether `self` ranks strictly before `other`.
    spec fn ranks_before(&self, other: &Self) -> bool;

    /// Whether `self` ranks strictly before `other`.
    fn is_before(&self, other: &Self) -> (r: bool)
        ensures
            r == self.ranks_before(other),
    ;

    /// Two values do not each rank before the other.
    proof fn lemma_asymmetric(a: &Self, b: &Self)
        requires
            a.ranks_before(b),
        ensures
            !b.ranks_before(a),
    ;

    /// If `b` does not rank before `a`, nor `c` before `b`, then `c` does
    /// not rank before `a`.
    proof fn lemma_not_after(a: &Self, b: &Self, c: &Self)
        requires
            !b.ranks_before(a),
            !c.ranks_before(b),
        ensures
            !c.ranks_before(a),
    ;
}

/// Whether no value of `s` ranks before one that stands earlier.
pub open spec fn sorted<T: Ranked>(s: Seq<T>) -> bool {
    forall|i: int, j: int| 0 <= i < j < s.len() ==> !(#[trigger] s[j]).ranks_before(#[trigger] &s[i])
}

/// Two lists with the same values, each as often in one as in the other,
/// are as long as each other, and each value of one stands in the other.
pub proof fn lemma_same_members<T>(a: Seq<T>, b: Seq<T>)
    requires
        a.to_multiset() == b.to_multiset(),
    ensures
        a.len() == b.len(),
        forall|i: int| 0 <= i < a.len() ==> #[trigger] b.contains(a[i]),
        forall|i: int| 0 <= i < b.len() ==> #[trigger] a.contains(b[i]),
{
    broadcast use vstd::seq_lib::group_to_multiset_ensures;

    assert(a.len() == a.to_multiset().len());
    assert(b.len() == b.to_multiset().len());
    assert forall|i: int| 0 <= i < a.len() implies #[trigger] b.contains(a[i]) by {
        assert(a.to_multiset().count(a[i]) > 0);
        assert(b.to_multiset().count(a[i]) > 0);
    }
    assert forall|i: int| 0 <= i < b.len() implies #[trigger] a.contains(b[i]) by {
        assert(b.to_multiset().count(b[i]) > 0);
        assert(a.to_multiset().count(b[i]) > 0);
    }
}

/// Whether `out` holds the values that `v` holds from the place `start`
/// on, in ranking order, those that rank alike in the order in which they
/// stand in `v`. `from` says for each place of `out` from which place of
/// `v` its value comes.
pub open spec fn arranges<T: Ranked>(out: Seq<T>, v: Seq<T>, from: Seq<int>, start: int) -> bool {
    &&& from.len() == out.len()
    &&& out.len() == v.len() - start
    &&& forall|i: int|
        0 <= i < out.len() ==> start <= #[trigger] from[i] < v.len() && out[i] == v[from[i]]
    &&& forall|i: int, j: int|
        0 <= i < j < out.len() ==> (#[trigger] from[i]) != (#[trigger] from[j])
    &&& forall|i: int, j: int|
        0 <= i < j < out.len() && !out[i].ranks_before(&out[j]) ==> (#[trigger] from[i]) < (
        #[trigger] from[j])
}

/// Whether `out` is `v` sorted, the values that rank alike left in the
/// order in which they stand in `v`.
pub open spec fn stably_sorted<T: Ranked>(out: Seq<T>, v: Seq<T>) -> bool {
    sorted(out) && exists|from: Seq<int>| arranges(out, v, from, 0)
}

/// The values of `v` in ranking order. Values that rank alike keep the
/// order in which they stood.
pub fn sort<T: Ranked>(v: Vec<T>) -> (out: Vec<T>)
    ensures
        sorted(out@),
        stably_sorted(out@, v@),
        out@.to_multiset() == v@.to_multiset(),
{
    let ghost orig = v@;
    let mut rest = v;
    let mut out: Vec<T> = Vec::new();
    let ghost mut from: Seq<int> = Seq::empty();
    proof {
        broadcast use vstd::seq_lib::group_to_multiset_ensures;

        assert(out@.to_multiset().add(rest@.to_multiset()) =~= orig.to_multiset());
        assert(rest@ =~= orig.take(rest@.len() as int));
    }
    while rest.len() > 0
        invariant
            sorted(out@),
            out@.to_multiset().add(rest@.to_multiset()) == orig.to_multiset(),
            rest@ == orig.take(rest@.len() as int),
            rest@.len() <= orig.len(),
            arranges(out@, orig, from, rest@.len() as int),
        decreases rest@.len(),
    {
        let ghost before = out@;
        let ghost rest_before = rest@;
        let ghost from_before = from;
        let x = rest.pop().unwrap();
        let ghost r = rest@.len() as int;
        let mut p: usize = 0;
        while p < out.len() && out[p].is_before(&x)
            invariant
                p <= out@.len(),
                forall|k: int| 0 <= k < p ==> (#[trigger] out@[k]).ranks_before(&x),
            decreases out@.len() - p,
        {
            p += 1;
        }
        out.insert(p, x);
        proof {
            broadcast use vstd::seq_lib::group_to_multiset_ensures;

            from = from_before.insert(p as int, r);
            assert(rest_before =~= rest@.push(x));
            assert(x == orig[r]);
            assert(rest@ =~= orig.take(r));
            assert(out@.to_multiset().add(rest@.to_multiset()) =~= orig.to_multiset());
            assert forall|i: int, j: int| 0 <= i < j < out@.len() implies !(#[trigger] out@[j]).ranks_before(
                #[trigger] &out@[i],
            ) by {
                if j < p {
                    assert(out@[i] == before[i] && out@[j] == before[j]);
                } else if j == p {
                    assert(out@[i] == before[i]);
                    T::lemma_asymmetric(&before[i], &x);
                } else if i < p {
                    assert(out@[i] == before[i] && out@[j] == before[j - 1]);
                } else if i == p {
                    assert(out@[j] == before[j - 1]);
                    if j - 1 > p {
                        assert(!before[j - 1].ranks_before(&before[p as int]));
                        T::lemma_not_after(&x, &before[p as int], &before[j - 1]);
                    }
                } else {
                    assert(out@[i] == before[i - 1] && out@[j] == before[j - 1]);
                }
            }
            assert forall|i: int| 0 <= i < out@.len() implies r <= #[trigger] from[i] < orig.len()
                && out@[i] == orig[from[i]] by {
                if i < p {
                    assert(from[i] == from_before[i] && out@[i] == before[i]);
                } else if i > p {
                    assert(from[i] == from_before[i - 1] && out@[i] == before[i - 1]);
                }
            }
            assert forall|i: int, j: int| 0 <= i < j < out@.len() implies (#[trigger] from[i]) != (
            #[trigger] from[j]) && (!out@[i].ranks_before(&out@[j]) ==> from[i] < from[j]) by {
                let bi = if i < p { i } else { i - 1 };
                let bj = if j < p { j } else { j - 1 };
                if i != p && j != p {
                    assert(from[i] == from_before[bi] && from[j] == from_before[bj]);
                    assert(out@[i] == before[bi] && out@[j] == before[bj]);
                    assert(from_before[bi] != from_before[bj]);
                } else if i == p {
                    assert(from[j] == from_before[bj]);
                    assert(r + 1 <= from_before[bj]);
                } else {
                    assert(from[i] == from_before[bi]);
                    assert(r + 1 <= from_before[bi]);
                    assert(out@[i] == before[i]);
                    assert(before[i].ranks_before(&x));
                }
            }
        }
    }
    proof {
        broadcast use vstd::seq_lib::group_to_multiset_ensures;

        assert(rest@ =~= Seq::<T>::empty());
        assert(out@.to_multiset().add(rest@.to_multiset()) =~= out@.to_multiset());
        assert(arranges(out@, orig, from, 0));
    }
    out
}

} // verus!
