//! The small numeric helper the embed rendering leans on: the most frequent
//! element of a list.

use vstd::prelude::*;

use crate::models::OsuGamemode;

verus! {

/// How often `x` occurs in `s`.
pub open spec fn count_matches(s: Seq<OsuGamemode>, x: OsuGamemode) -> int {
    s.filter(|y: OsuGamemode| y == x).len() as int
}

proof fn lemma_count_absent(s: Seq<OsuGamemode>, x: OsuGamemode)
    requires
        !s.contains(x),
    ensures
        count_matches(s, x) == 0,
    decreases s.len(),
{
    reveal(Seq::filter);
    if s.len() > 0 {
        assert(!s.drop_last().contains(x)) by {
            if s.drop_last().contains(x) {
                let i = choose|i: int| 0 <= i < s.drop_last().len() && s.drop_last()[i] == x;
                assert(s[i] == x);
            }
        }
        lemma_count_absent(s.drop_last(), x);
        assert(s.last() != x) by {
            assert(s[s.len() - 1] == s.last());
        }
    }
}

/// Appending one element raises its own count by one and no other.
proof fn lemma_count_push(s: Seq<OsuGamemode>, e: OsuGamemode, x: OsuGamemode)
    ensures
        count_matches(s.push(e), x) == count_matches(s, x) + (if e == x {
            1int
        } else {
            0int
        }),
{
    reveal(Seq::filter);
    assert(s.push(e).drop_last() =~= s);
    assert(s.push(e).last() == e);
}

fn count_occurrences(v: &Vec<OsuGamemode>, x: OsuGamemode) -> (r: usize)
    ensures
        r as int == count_matches(v@, x),
{
    broadcast use vstd::seq_lib::group_seq_properties;

    let n = v.len();
    let mut r: usize = 0;
    proof {
        reveal(Seq::filter);
        assert(v@.take(0) =~= Seq::<OsuGamemode>::empty());
    }
    let mut k: usize = 0;
    while k < n
        invariant
            n == v@.len(),
            k <= n,
            r <= k,
            r as int == count_matches(v@.take(k as int), x),
        decreases n - k,
    {
        proof {
            v@.lemma_take_succ_push(k as int);
            assert(v@.take(k + 1) == v@.take(k as int).push(v@[k as int]));
            lemma_count_push(v@.take(k as int), v@[k as int], x);
        }
        if v[k] == x {
            r += 1;
        }
        k += 1;
    }
    proof {
        assert(v@.take(n as int) =~= v@);
    }
    r
}

/// Most frequent element of the list: `None` only for an empty list, else
/// some element no other element outnumbers. Ties fall where they may.
pub fn mode(input: &Vec<OsuGamemode>) -> (r: Option<OsuGamemode>)
    ensures
        match r {
            Some(x) => input@.contains(x) && forall|y: OsuGamemode|
                count_matches(input@, y) <= count_matches(input@, x),
            None => input@.len() == 0,
        },
{
    let n = input.len();
    if n == 0 {
        return None;
    }
    let mut best: OsuGamemode = input[0];
    let mut best_count: usize = count_occurrences(input, best);
    proof {
        assert(input@.contains(input@[0]));
    }
    let mut k: usize = 1;
    while k < n
        invariant
            n == input@.len(),
            1 <= k <= n,
            input@.contains(best),
            best_count as int == count_matches(input@, best),
            forall|j: int|
                0 <= j < k ==> count_matches(input@, #[trigger] input@[j]) <= best_count as int,
        decreases n - k,
    {
        let c = count_occurrences(input, input[k]);
        if c > best_count {
            best = input[k];
            best_count = c;
            proof {
                assert(input@.contains(input@[k as int]));
            }
        }
        k += 1;
    }
    proof {
        assert forall|y: OsuGamemode|
            count_matches(input@, y) <= count_matches(input@, best) by {
            if input@.contains(y) {
                let j = choose|j: int| 0 <= j < input@.len() && input@[j] == y;
                assert(count_matches(input@, input@[j]) <= best_count as int);
            } else {
                lemma_count_absent(input@, y);
                lemma_count_nonneg(input@, best);
            }
        }
    }
    Some(best)
}

proof fn lemma_count_nonneg(s: Seq<OsuGamemode>, x: OsuGamemode)
    ensures
        count_matches(s, x) >= 0,
{
}

} // verus!
