//! Small sequence lemmas shared by the diff modules.

use vstd::prelude::*;

verus! {

/// Every element of a filtered sequence comes from the original and meets
/// the predicate.
pub proof fn lemma_filter_mem<A>(s: Seq<A>, pred: spec_fn(A) -> bool, x: A)
    requires
        s.filter(pred).contains(x),
    ensures
        s.contains(x),
        pred(x),
    decreases s.len(),
{
    reveal(Seq::filter);
    if s.len() > 0 {
        if s.last() == x && pred(x) {
            assert(s[s.len() - 1] == x);
        } else {
            if s.drop_last().filter(pred).contains(x) {
                lemma_filter_mem(s.drop_last(), pred, x);
                let i = choose|i: int|
                    0 <= i < s.drop_last().len() && #[trigger] s.drop_last()[i] == x;
                assert(s[i] == x);
            } else {
                if pred(s.last()) {
                    assert(s.filter(pred) == s.drop_last().filter(pred) + seq![s.last()]);
                    let i = choose|i: int|
                        0 <= i < s.filter(pred).len() && #[trigger] s.filter(pred)[i] == x;
                    if i < s.drop_last().filter(pred).len() {
                        assert(s.drop_last().filter(pred)[i] == x);
                    }
                }
            }
        }
    }
}

/// A member of a sequence that meets the predicate survives filtering.
pub proof fn lemma_filter_keeps<A>(s: Seq<A>, pred: spec_fn(A) -> bool, i: int)
    requires
        0 <= i < s.len(),
        pred(s[i]),
    ensures
        s.filter(pred).contains(s[i]),
{
    s.filter_lemma(pred);
}

/// A filtered sequence holds exactly the original's elements that meet the
/// predicate.
pub proof fn lemma_filter_membership<A>(s: Seq<A>, pred: spec_fn(A) -> bool)
    ensures
        forall|x: A|
            #[trigger] s.filter(pred).contains(x) <==> (s.contains(x) && pred(x)),
{
    assert forall|x: A|
        #[trigger] s.filter(pred).contains(x) <==> (s.contains(x) && pred(x)) by {
        if s.filter(pred).contains(x) {
            lemma_filter_mem(s, pred, x);
        }
        if s.contains(x) && pred(x) {
            let i = choose|i: int| 0 <= i < s.len() && s[i] == x;
            lemma_filter_keeps(s, pred, i);
        }
    }
}

/// When no two positions of a sequence agree under `same`, no two positions
/// of a filtered copy do either.
pub proof fn lemma_filter_preserves_distinct_by<A>(
    s: Seq<A>,
    pred: spec_fn(A) -> bool,
    same: spec_fn(A, A) -> bool,
)
    requires
        forall|a: int, b: int|
            0 <= a < s.len() && 0 <= b < s.len() && a != b ==> !same(
                #[trigger] s[a],
                #[trigger] s[b],
            ),
    ensures
        forall|i: int, j: int|
            0 <= i < s.filter(pred).len() && 0 <= j < s.filter(pred).len() && i != j ==> !same(
                #[trigger] s.filter(pred)[i],
                #[trigger] s.filter(pred)[j],
            ),
    decreases s.len(),
{
    reveal(Seq::filter);
    if s.len() > 0 {
        let d = s.drop_last();
        assert forall|a: int, b: int|
            0 <= a < d.len() && 0 <= b < d.len() && a != b implies !same(
            #[trigger] d[a],
            #[trigger] d[b],
        ) by {
            assert(d[a] == s[a] && d[b] == s[b]);
        }
        lemma_filter_preserves_distinct_by(d, pred, same);
        if pred(s.last()) {
            assert(s.filter(pred) == d.filter(pred) + seq![s.last()]);
            let f = s.filter(pred);
            let fd = d.filter(pred);
            assert forall|i: int, j: int|
                0 <= i < f.len() && 0 <= j < f.len() && i != j implies !same(
                #[trigger] f[i],
                #[trigger] f[j],
            ) by {
                if i < fd.len() && j < fd.len() {
                    assert(f[i] == fd[i] && f[j] == fd[j]);
                } else if i < fd.len() {
                    assert(f[i] == fd[i] && f[j] == s.last());
                    assert(fd.contains(fd[i]));
                    lemma_filter_mem(d, pred, fd[i]);
                    let a = choose|a: int| 0 <= a < d.len() && #[trigger] d[a] == fd[i];
                    assert(s[a] == fd[i] && s[s.len() - 1] == s.last());
                } else if j < fd.len() {
                    assert(f[j] == fd[j] && f[i] == s.last());
                    assert(fd.contains(fd[j]));
                    lemma_filter_mem(d, pred, fd[j]);
                    let a = choose|a: int| 0 <= a < d.len() && #[trigger] d[a] == fd[j];
                    assert(s[a] == fd[j] && s[s.len() - 1] == s.last());
                }
            }
        }
    }
}

/// Membership in a sequence extended at the back.
pub proof fn lemma_push_contains<A>(s: Seq<A>, x: A)
    ensures
        forall|y: A| #[trigger] s.push(x).contains(y) <==> (s.contains(y) || y == x),
{
    assert forall|y: A| #[trigger] s.push(x).contains(y) <==> (s.contains(y) || y == x) by {
        if s.push(x).contains(y) {
            let i = choose|i: int| 0 <= i < s.push(x).len() && s.push(x)[i] == y;
            if i < s.len() {
                assert(s[i] == y);
            }
        }
        if s.contains(y) {
            let i = choose|i: int| 0 <= i < s.len() && s[i] == y;
            assert(s.push(x)[i] == y);
        }
        assert(s.push(x)[s.len() as int] == x);
    }
}

/// Filtering keeps a duplicate-free sequence duplicate-free.
pub proof fn lemma_filter_no_duplicates<A>(s: Seq<A>, pred: spec_fn(A) -> bool)
    requires
        s.no_duplicates(),
    ensures
        s.filter(pred).no_duplicates(),
    decreases s.len(),
{
    reveal(Seq::filter);
    if s.len() > 0 {
        assert(s.drop_last().no_duplicates());
        lemma_filter_no_duplicates(s.drop_last(), pred);
        if pred(s.last()) {
            assert(s.filter(pred) == s.drop_last().filter(pred) + seq![s.last()]);
            assert(!s.drop_last().filter(pred).contains(s.last())) by {
                if s.drop_last().filter(pred).contains(s.last()) {
                    crate::seq_util::lemma_filter_mem(s.drop_last(), pred, s.last());
                    let i = choose|i: int|
                        0 <= i < s.drop_last().len() && #[trigger] s.drop_last()[i] == s.last();
                    assert(s[i] == s[s.len() - 1]);
                }
            }
            let f = s.filter(pred);
            let fd = s.drop_last().filter(pred);
            assert forall|i: int, j: int|
                0 <= i < f.len() && 0 <= j < f.len() && i != j implies f[i] != f[j] by {
                if i < fd.len() && j < fd.len() {
                } else if i < fd.len() {
                    assert(f[j] == s.last());
                    if f[i] == f[j] {
                        assert(fd.contains(fd[i]));
                    }
                } else if j < fd.len() {
                    assert(f[i] == s.last());
                    if f[i] == f[j] {
                        assert(fd.contains(fd[j]));
                    }
                }
            }
        }
    } else {
        assert(s.filter(pred) =~= Seq::<A>::empty());
    }
}

} // verus!
