//! Tracked-item feed logic: the id-set diff that drives one reconciliation
//! cycle, the cycle itself against the store, the parsing of subscription
//! links and of the interactive control identifiers, and the convergence
//! laws of the diff.

use vstd::prelude::*;

use crate::models::{BeatmapStatus, Beatmapset, SubscriptionError, SubscriptionMode};
use crate::patterns::{capture_group, osu_link_pattern, osu_link_pattern_str, regex_captures,
    spec_captures, spec_regex_fault};
use crate::seq_util::{lemma_filter_membership, lemma_push_contains};
use crate::subscriptions::MapfeedStore;
use crate::text::{all_digits, digits_value, parse_i32_digits};
use vstd::string::StrSliceExecFns;

verus! {

/// The id-level difference of one cycle: remote-only ids, store-only ids,
/// and the ids both sides list.
pub struct MapfeedDiff {
    pub added: Vec<i32>,
    pub removed: Vec<i32>,
    pub common: Vec<i32>,
}

/// Elements of `src` (each once) whose membership in `other` equals
/// `keep_in`.
fn dedup_filter(src: &Vec<i32>, other: &Vec<i32>, keep_in: bool) -> (r: Vec<i32>)
    ensures
        r@.no_duplicates(),
        forall|x: i32|
            #[trigger] r@.contains(x) <==> (src@.contains(x) && other@.contains(x) == keep_in),
{
    let n = src.len();
    let mut r: Vec<i32> = Vec::new();
    let mut k: usize = 0;
    while k < n
        invariant
            n == src@.len(),
            k <= n,
            r@.no_duplicates(),
            forall|x: i32|
                #[trigger] r@.contains(x) <==> (src@.take(k as int).contains(x)
                    && other@.contains(x) == keep_in),
        decreases n - k,
    {
        let x = src[k];
        proof {
            src@.lemma_take_succ_push(k as int);
            assert(src@.take(k + 1) == src@.take(k as int).push(src@[k as int]));
            lemma_push_contains(src@.take(k as int), src@[k as int]);
        }
        let in_other = contains_i32(other, x);
        let picked = contains_i32(&r, x);
        if in_other == keep_in && !picked {
            let ghost r0 = r@;
            r.push(x);
            proof {
                lemma_push_contains(r0, x);
                assert(r@.no_duplicates()) by {
                    assert forall|i: int, j: int|
                        0 <= i < r@.len() && 0 <= j < r@.len() && i != j implies r@[i] != r@[j] by {
                        if i < r0.len() && j < r0.len() {
                            assert(r0[i] == r@[i]);
                            assert(r0[j] == r@[j]);
                        } else if i < r0.len() {
                            assert(r0.contains(r0[i]));
                        } else if j < r0.len() {
                            assert(r0.contains(r0[j]));
                        }
                    }
                }
            }
        }
        k += 1;
    }
    proof {
        assert(src@.take(n as int) =~= src@);
    }
    r
}

fn contains_i32(v: &Vec<i32>, x: i32) -> (r: bool)
    ensures
        r == v@.contains(x),
{
    let n = v.len();
    let mut k: usize = 0;
    while k < n
        invariant
            n == v@.len(),
            k <= n,
            forall|j: int| 0 <= j < k ==> v@[j] != x,
        decreases n - k,
    {
        if v[k] == x {
            return true;
        }
        k += 1;
    }
    false
}

/// Id-set difference of one cycle: `added` holds the remote-only ids,
/// `removed` the store-only ids, `common` the shared ones — each as a
/// duplicate-free list. No id lands in both `added` and `removed`.
pub fn diff_ids(remote: &Vec<i32>, local: &Vec<i32>) -> (d: MapfeedDiff)
    ensures
        d.added@.to_set() == remote@.to_set().difference(local@.to_set()),
        d.removed@.to_set() == local@.to_set().difference(remote@.to_set()),
        d.common@.to_set() == remote@.to_set().intersect(local@.to_set()),
        d.added@.no_duplicates(),
        d.removed@.no_duplicates(),
        d.common@.no_duplicates(),
{
    let added = dedup_filter(remote, local, false);
    let removed = dedup_filter(local, remote, false);
    let common = dedup_filter(remote, local, true);
    proof {
        assert(added@.to_set() =~= remote@.to_set().difference(local@.to_set()));
        assert(removed@.to_set() =~= local@.to_set().difference(remote@.to_set()));
        assert(common@.to_set() =~= remote@.to_set().intersect(local@.to_set()));
    }
    MapfeedDiff { added, removed, common }
}

/// The diff never reports an id as both added and removed.
pub proof fn lemma_id_diff_disjoint(remote: Set<i32>, local: Set<i32>)
    ensures
        remote.difference(local).intersect(local.difference(remote)) == Set::<i32>::empty(),
{
    assert(remote.difference(local).intersect(local.difference(remote)) =~= Set::<i32>::empty());
}

/// Applying a diff's additions and removals to the local snapshot and
/// re-diffing against the unchanged remote snapshot reports nothing: each
/// cycle converges.
pub proof fn lemma_rediff_after_apply(remote: Set<i32>, local: Set<i32>)
    ensures
        ({
            let added = remote.difference(local);
            let removed = local.difference(remote);
            let applied = local.union(added).difference(removed);
            &&& applied == remote
            &&& remote.difference(applied) == Set::<i32>::empty()
            &&& applied.difference(remote) == Set::<i32>::empty()
        }),
{
    let added = remote.difference(local);
    let removed = local.difference(remote);
    let applied = local.union(added).difference(removed);
    assert(applied =~= remote);
    assert(remote.difference(applied) =~= Set::<i32>::empty());
    assert(applied.difference(remote) =~= Set::<i32>::empty());
}

/// Seconds the interactive controls of a notification stay listening
/// before they are stripped from the message.
pub const BUTTON_TIMEOUT_SECONDS: u64 = 60 * 120;

/// One notification of a cycle: the record it is about and, for a record
/// that left the qualified set, its subscribers to ping.
pub struct MessageData {
    pub beatmapset: Beatmapset,
    pub subscribed_user_ids: Option<Vec<i64>>,
}

impl MessageData {
    /// Subscribe and unsubscribe controls ride only on messages about still
    /// qualified records.
    pub fn needs_controls(&self) -> (r: bool)
        ensures
            r == (self.beatmapset.ranked_status == BeatmapStatus::Qualified),
    {
        self.beatmapset.ranked_status == BeatmapStatus::Qualified
    }
}

/// Identifiers of a list of records.
pub open spec fn ids_of_maps(s: Seq<Beatmapset>) -> Seq<i32> {
    s.map_values(|b: Beatmapset| b.id)
}

fn map_ids(maps: &Vec<Beatmapset>) -> (r: Vec<i32>)
    ensures
        r@ == ids_of_maps(maps@),
{
    let n = maps.len();
    let mut r: Vec<i32> = Vec::new();
    let mut k: usize = 0;
    while k < n
        invariant
            n == maps@.len(),
            k <= n,
            r@.len() == k,
            forall|j: int| 0 <= j < k ==> r@[j] == ids_of_maps(maps@)[j],
        decreases n - k,
    {
        r.push(maps[k].id);
        k += 1;
    }
    proof {
        assert(r@ =~= ids_of_maps(maps@));
    }
    r
}

/// One reconciliation cycle against the store, after the remote records
/// have been fetched: the freshly qualified records are persisted and
/// announced without pings; the records that left the qualified set are
/// announced to their subscribers and then dropped from the store, edges
/// and all — but only after their subscriber lists were read, so no ping
/// is lost.
#[verifier::rlimit(50)]
pub fn run_mapfeed_cycle(
    store: &mut MapfeedStore,
    new_maps: Vec<Beatmapset>,
    changed_maps: Vec<Beatmapset>,
) -> (msgs: Vec<MessageData>)
    requires
        old(store).wf(),
    ensures
        final(store).wf(),
        msgs@.len() == new_maps@.len() + changed_maps@.len(),
        forall|i: int|
            0 <= i < new_maps@.len() ==> (#[trigger] msgs@[i]).beatmapset == new_maps@[i]
                && msgs@[i].subscribed_user_ids is None,
        forall|i: int|
            0 <= i < changed_maps@.len() ==> {
                let m = #[trigger] msgs@[new_maps@.len() + i];
                &&& m.beatmapset == changed_maps@[i]
                &&& match m.subscribed_user_ids {
                    Some(v) => v@ == old(store).edges().filter(
                        |e: (i64, i32)| e.1 == changed_maps@[i].id,
                    ).map_values(|e: (i64, i32)| e.0) && v@.len() > 0,
                    None => old(store).edges().filter(
                        |e: (i64, i32)| e.1 == changed_maps@[i].id,
                    ).len() == 0,
                }
            },
        final(store).tracked_ids().to_set() == old(store).tracked_ids().to_set().union(
            ids_of_maps(new_maps@).to_set(),
        ).difference(ids_of_maps(changed_maps@).to_set()),
        forall|e: (i64, i32)|
            #[trigger] final(store).edges().contains(e) <==> (old(store).edges().contains(e)
                && !ids_of_maps(changed_maps@).contains(e.1)),
{
    let ghost st0 = *old(store);

    // Persist the fresh records first; this touches no subscriber edge.
    let new_ids = map_ids(&new_maps);
    store.insert_beatmaps(&new_ids);

    // Announce fresh records, then departing ones with their subscribers,
    // before anything is dropped.
    let mut msgs: Vec<MessageData> = Vec::new();
    let mut new_maps = new_maps;
    let ghost nm0 = new_maps@;
    let total_new = new_maps.len();
    let mut done: usize = 0;
    while new_maps.len() > 0
        invariant
            total_new == nm0.len(),
            done + new_maps@.len() == nm0.len(),
            done <= total_new,
            new_maps@ == nm0.subrange(done as int, nm0.len() as int),
            msgs@.len() == done,
            forall|i: int|
                0 <= i < done ==> (#[trigger] msgs@[i]).beatmapset == nm0[i]
                    && msgs@[i].subscribed_user_ids is None,
        decreases new_maps@.len(),
    {
        let m = new_maps.remove(0);
        proof {
            assert(m == nm0[done as int]);
            assert(new_maps@ =~= nm0.subrange(done + 1, nm0.len() as int));
        }
        msgs.push(MessageData { beatmapset: m, subscribed_user_ids: None });
        done += 1;
    }

    let changed_ids = map_ids(&changed_maps);
    let ghost st1 = *store;

    let mut changed_maps = changed_maps;
    let ghost cm0 = changed_maps@;
    let total_changed = changed_maps.len();
    let mut done_c: usize = 0;
    while changed_maps.len() > 0
        invariant
            *store == st1,
            st1.wf(),
            st1.edges() == st0.edges(),
            total_changed == cm0.len(),
            done_c + changed_maps@.len() == cm0.len(),
            done_c <= total_changed,
            changed_maps@ == cm0.subrange(done_c as int, cm0.len() as int),
            total_new == nm0.len(),
            msgs@.len() == total_new + done_c,
            forall|i: int|
                0 <= i < total_new ==> (#[trigger] msgs@[i]).beatmapset == nm0[i]
                    && msgs@[i].subscribed_user_ids is None,
            forall|i: int|
                0 <= i < done_c ==> {
                    let m = #[trigger] msgs@[total_new + i];
                    &&& m.beatmapset == cm0[i]
                    &&& match m.subscribed_user_ids {
                        Some(v) => v@ == st0.edges().filter(
                            |e: (i64, i32)| e.1 == cm0[i].id,
                        ).map_values(|e: (i64, i32)| e.0) && v@.len() > 0,
                        None => st0.edges().filter(|e: (i64, i32)| e.1 == cm0[i].id).len() == 0,
                    }
                },
        decreases changed_maps@.len(),
    {
        let m = changed_maps.remove(0);
        proof {
            assert(m == cm0[done_c as int]);
            assert(changed_maps@ =~= cm0.subrange(done_c + 1, cm0.len() as int));
        }
        let subs = store.fetch_all_subscribers_for_beatmap(m.id);
        msgs.push(MessageData { beatmapset: m, subscribed_user_ids: subs });
        done_c += 1;
    }
    proof {
        assert(cm0.subrange(done_c as int, cm0.len() as int).len() == 0);
    }

    // Drop the departed records last, cascading their edges.
    let ghost base = store.tracked_ids().to_set();
    let n_del = changed_ids.len();
    let mut k: usize = 0;
    while k < n_del
        invariant
            n_del == changed_ids@.len(),
            k <= n_del,
            changed_ids@ == ids_of_maps(cm0),
            store.wf(),
            base == st0.tracked_ids().to_set().union(ids_of_maps(nm0).to_set()),
            store.tracked_ids().to_set() == base.difference(changed_ids@.take(k as int).to_set()),
            forall|e: (i64, i32)|
                #[trigger] store.edges().contains(e) <==> (st0.edges().contains(e)
                    && !changed_ids@.take(k as int).contains(e.1)),
            total_new == nm0.len(),
            total_changed == cm0.len(),
            msgs@.len() == total_new + total_changed,
            forall|i: int|
                0 <= i < total_new ==> (#[trigger] msgs@[i]).beatmapset == nm0[i]
                    && msgs@[i].subscribed_user_ids is None,
            forall|i: int|
                0 <= i < total_changed ==> {
                    let m = #[trigger] msgs@[total_new + i];
                    &&& m.beatmapset == cm0[i]
                    &&& match m.subscribed_user_ids {
                        Some(v) => v@ == st0.edges().filter(
                            |e: (i64, i32)| e.1 == cm0[i].id,
                        ).map_values(|e: (i64, i32)| e.0) && v@.len() > 0,
                        None => st0.edges().filter(|e: (i64, i32)| e.1 == cm0[i].id).len() == 0,
                    }
                },
        decreases n_del - k,
    {
        let id = changed_ids[k];
        let ghost pre = *store;
        store.delete_beatmap(id);
        proof {
            changed_ids@.lemma_take_succ_push(k as int);
            assert(changed_ids@.take(k + 1) == changed_ids@.take(k as int).push(
                changed_ids@[k as int],
            ));
            lemma_push_contains(changed_ids@.take(k as int), changed_ids@[k as int]);
            lemma_filter_membership(pre.tracked_ids(), |x: i32| x != id);
            lemma_filter_membership(pre.edges(), |e: (i64, i32)| e.1 != id);
            assert forall|a: i32|
                store.tracked_ids().to_set().contains(a) <==> base.difference(
                    changed_ids@.take(k + 1).to_set(),
                ).contains(a) by {
                assert(store.tracked_ids().contains(a) <==> (pre.tracked_ids().contains(a) && a
                    != id));
                assert(pre.tracked_ids().to_set().contains(a) <==> base.difference(
                    changed_ids@.take(k as int).to_set(),
                ).contains(a));
                assert(changed_ids@.take(k + 1).contains(a) <==> (changed_ids@.take(
                    k as int,
                ).contains(a) || a == changed_ids@[k as int]));
            }
            assert(store.tracked_ids().to_set() =~= base.difference(
                changed_ids@.take(k + 1).to_set(),
            ));
        }
        k += 1;
    }
    proof {
        assert(changed_ids@.take(n_del as int) =~= changed_ids@);
        assert(final(store).tracked_ids().to_set() =~= st0.tracked_ids().to_set().union(
            ids_of_maps(nm0).to_set(),
        ).difference(ids_of_maps(cm0).to_set()));
    }
    msgs
}

/// Seed pass at startup: an empty store takes the whole qualified set
/// silently, so the first real cycle reports only changes; a store that
/// already holds records is left alone.
pub fn populate(store: &mut MapfeedStore, remote_ids: &Vec<i32>) -> (seeded: bool)
    requires
        old(store).wf(),
    ensures
        final(store).wf(),
        final(store).edges() == old(store).edges(),
        seeded == (old(store).tracked_ids().len() == 0),
        seeded ==> final(store).tracked_ids().to_set() == remote_ids@.to_set(),
        !seeded ==> final(store).tracked_ids() == old(store).tracked_ids(),
{
    if store.fetch_all_tracked().is_none() {
        store.insert_beatmaps(remote_ids);
        proof {
            assert(store.tracked_ids().to_set() =~= remote_ids@.to_set());
        }
        true
    } else {
        false
    }
}

/// Order of the subscription listing: by ranked date, absent dates first.
pub open spec fn date_le(a: Beatmapset, b: Beatmapset) -> bool {
    match (a.ranked_date_unix, b.ranked_date_unix) {
        (Option::None, _) => true,
        (Option::Some(_), Option::None) => false,
        (Option::Some(x), Option::Some(y)) => x <= y,
    }
}

fn date_le_exec(a: &Beatmapset, b: &Beatmapset) -> (r: bool)
    ensures
        r == date_le(*a, *b),
{
    match (a.ranked_date_unix, b.ranked_date_unix) {
        (Option::None, _) => true,
        (Option::Some(_), Option::None) => false,
        (Option::Some(x), Option::Some(y)) => x <= y,
    }
}

/// First position whose record does not sort at or before `x`.
fn insert_position(out: &Vec<Beatmapset>, x: &Beatmapset) -> (p: usize)
    ensures
        p <= out@.len(),
        forall|j: int| 0 <= j < p ==> date_le(#[trigger] out@[j], *x),
        p < out@.len() ==> !date_le(out@[p as int], *x),
{
    let n = out.len();
    let mut p: usize = 0;
    while p < n
        invariant
            p <= n,
            n == out@.len(),
            forall|j: int| 0 <= j < p ==> date_le(#[trigger] out@[j], *x),
        decreases n - p,
    {
        if !date_le_exec(&out[p], x) {
            return p;
        }
        p += 1;
    }
    p
}

/// Sorts the listing of subscribed records the way the reply shows them:
/// closest to being ranked first, records without a ranked date ahead. The
/// records are kept as they are, only reordered.
pub fn sort_beatmaps_by_ranked_date(beatmaps: Vec<Beatmapset>) -> (r: Vec<Beatmapset>)
    ensures
        vstd::relations::sorted_by(r@, (|a: Beatmapset, b: Beatmapset| date_le(a, b))),
        r@.to_multiset() == beatmaps@.to_multiset(),
{
    broadcast use vstd::seq_lib::group_to_multiset_ensures;

    let ghost orig = beatmaps@;
    let ghost leq = |a: Beatmapset, b: Beatmapset| date_le(a, b);
    let mut v = beatmaps;
    let mut out: Vec<Beatmapset> = Vec::new();
    proof {
        assert(out@.to_multiset().add(v@.to_multiset()) =~= orig.to_multiset());
    }
    while v.len() > 0
        invariant
            out@.to_multiset().add(v@.to_multiset()) == orig.to_multiset(),
            vstd::relations::sorted_by(out@, (|a: Beatmapset, b: Beatmapset| date_le(a, b))),
        decreases v@.len(),
    {
        let ghost v0 = v@;
        let x = v.remove(0);
        proof {
            v0.to_multiset_ensures();
            assert(v@.to_multiset() =~= v0.to_multiset().remove(x));
        }
        let p = insert_position(&out, &x);
        let ghost o0 = out@;
        out.insert(p, x);
        proof {
            o0.insert_ensures(p as int, x);
            assert(vstd::relations::sorted_by(
                out@,
                (|a: Beatmapset, b: Beatmapset| date_le(a, b)),
            )) by {
                assert forall|i: int, j: int| 0 <= i < j < out@.len() implies date_le(
                    #[trigger] out@[i],
                    #[trigger] out@[j],
                ) by {
                    if i < p && j < p {
                        assert(out@[i] == o0[i] && out@[j] == o0[j]);
                        assert((|a: Beatmapset, b: Beatmapset| date_le(a, b))(o0[i], o0[j]));
                    } else if i < p && j == p {
                        assert(out@[i] == o0[i] && out@[j] == x);
                        assert(date_le(o0[i], x));
                    } else if i < p && j > p {
                        assert(out@[i] == o0[i] && out@[j] == o0[j - 1]);
                        if j - 1 == p {
                            assert(date_le(o0[i], x));
                            assert(!date_le(o0[p as int], x));
                            assert(date_le(o0[i], o0[j - 1]));
                        } else {
                            assert((|a: Beatmapset, b: Beatmapset| date_le(a, b))(
                                o0[i],
                                o0[j - 1],
                            ));
                        }
                    } else if i == p && j > p {
                        assert(out@[i] == x && out@[j] == o0[j - 1]);
                        assert(j - 1 >= p && p < o0.len());
                        assert(!date_le(o0[p as int], x));
                        assert(date_le(x, o0[p as int]));
                        if j - 1 > p {
                            assert((|a: Beatmapset, b: Beatmapset| date_le(a, b))(
                                o0[p as int],
                                o0[j - 1],
                            ));
                        }
                    } else {
                        assert(out@[i] == o0[i - 1] && out@[j] == o0[j - 1]);
                        assert((|a: Beatmapset, b: Beatmapset| date_le(a, b))(
                            o0[i - 1],
                            o0[j - 1],
                        ));
                    }
                }
            }
            o0.to_multiset_ensures();
            out@.to_multiset_ensures();
            assert(out@.remove(p as int) =~= o0);
            assert(out@.to_multiset().remove(x) =~= o0.to_multiset());
            assert(out@[p as int] == x);
            assert(out@.to_multiset().count(x) > 0);
            assert(out@.to_multiset() =~= o0.to_multiset().insert(x)) by {
                assert forall|y: Beatmapset|
                    out@.to_multiset().count(y) == o0.to_multiset().insert(x).count(y) by {
                    if y == x {
                        assert(out@.to_multiset().remove(x).count(x) == out@.to_multiset().count(x)
                            - 1);
                    } else {
                        assert(out@.to_multiset().remove(x).count(y) == out@.to_multiset().count(
                            y,
                        ));
                    }
                }
            }
            assert(out@.to_multiset().add(v@.to_multiset()) =~= orig.to_multiset());
        }
    }
    proof {
        assert(v@.to_multiset().len() == 0);
        assert(out@.to_multiset().add(v@.to_multiset()) =~= out@.to_multiset());
    }
    out
}

/// The two actions an interactive control can ask for.
#[derive(Debug, Clone, Copy, PartialEq, Eq, Structural)]
pub enum ButtonState {
    Subscribe,
    Unsubscribe,
}

/// A decoded control identifier: which record, which action.
#[derive(Debug, Clone, Copy, PartialEq, Eq, Structural)]
pub struct ButtonInteraction {
    pub id: i32,
    pub state: ButtonState,
}

/// `dot` is the first dot of `s`.
pub open spec fn is_first_dot(s: Seq<char>, dot: int) -> bool {
    &&& 0 <= dot < s.len()
    &&& s[dot] == '.'
    &&& forall|j: int| 0 <= j < dot ==> s[j] != '.'
}

/// What a control identifier split at `dot` decodes to, if anything: a
/// record id in digits before the dot, the action spelled out after it.
pub open spec fn button_parse(s: Seq<char>, dot: int) -> Option<(int, ButtonState)> {
    let head = s.subrange(0, dot);
    let tail = s.subrange(dot + 1, s.len() as int);
    if !(dot > 0 && all_digits(head) && digits_value(head) <= i32::MAX as int) {
        None
    } else if tail == "subscribe"@ {
        Some((digits_value(head), ButtonState::Subscribe))
    } else if tail == "unsubscribe"@ {
        Some((digits_value(head), ButtonState::Unsubscribe))
    } else {
        None
    }
}

/// Are two strings the same character for character?
fn chars_eq(a: &str, b: &str) -> (r: bool)
    ensures
        r == (a@ == b@),
{
    let an = a.unicode_len();
    let bn = b.unicode_len();
    if an != bn {
        return false;
    }
    let mut k: usize = 0;
    while k < an
        invariant
            an == a@.len(),
            bn == b@.len(),
            an == bn,
            k <= an,
            forall|j: int| 0 <= j < k ==> a@[j] == b@[j],
        decreases an - k,
    {
        if a.get_char(k) != b.get_char(k) {
            return false;
        }
        k += 1;
    }
    proof {
        assert(a@ =~= b@);
    }
    true
}

/// Decodes a control identifier of the shape "id.action": the digits before
/// the first dot as the record id, the text after it as the action. Anything
/// else — no dot, a non-digit or oversized id, an unknown action — decodes
/// to nothing.
pub fn parse_custom_button_id(s: &str) -> (r: Option<ButtonInteraction>)
    ensures
        match r {
            Some(b) => exists|dot: int|
                #[trigger] is_first_dot(s@, dot) && button_parse(s@, dot) == Some(
                    (b.id as int, b.state),
                ),
            None => forall|dot: int|
                #[trigger] is_first_dot(s@, dot) ==> button_parse(s@, dot) is None,
        },
{
    let n = s.unicode_len();
    let mut dot: usize = 0;
    let mut found = false;
    while dot < n && !found
        invariant
            n == s@.len(),
            dot <= n,
            !found ==> forall|j: int| 0 <= j < dot ==> s@[j] != '.',
            found ==> is_first_dot(s@, dot as int),
        decreases n - dot, (if found { 0int } else { 1int }),
    {
        if s.get_char(dot) == '.' {
            found = true;
        } else {
            dot += 1;
        }
    }
    if !found {
        proof {
            assert forall|d: int| #[trigger] is_first_dot(s@, d) implies false by {}
        }
        return None;
    }
    if dot == 0 {
        return None;
    }
    let head = s.substring_char(0, dot);
    let tail = s.substring_char(dot + 1, n);
    let id = match parse_i32_digits(head) {
        Some(v) => v,
        None => {
            return None;
        },
    };
    if chars_eq(tail, "subscribe") {
        proof {
            assert(button_parse(s@, dot as int) == Some((id as int, ButtonState::Subscribe)));
        }
        Some(ButtonInteraction { id, state: ButtonState::Subscribe })
    } else if chars_eq(tail, "unsubscribe") {
        proof {
            assert(button_parse(s@, dot as int) == Some((id as int, ButtonState::Unsubscribe)));
        }
        Some(ButtonInteraction { id, state: ButtonState::Unsubscribe })
    } else {
        None
    }
}

/// Applies one control interaction: decodes the control identifier, applies
/// the action to the store, and picks the ephemeral confirmation. An
/// identifier that does not decode, or a store refusal, yields no reply and
/// leaves the edges alone; either way the same pair is never added or
/// removed twice.
pub fn handle_interaction(store: &mut MapfeedStore, user_id: i64, custom_id: &str) -> (r: Option<
    &'static str,
>)
    requires
        old(store).wf(),
    ensures
        final(store).wf(),
        final(store).tracked_ids() == old(store).tracked_ids(),
        match r {
            Some(msg) => exists|dot: int|
                #[trigger] is_first_dot(custom_id@, dot) && match button_parse(custom_id@, dot) {
                    Some((id, state)) => {
                        let pair = (user_id, id as i32);
                        ||| (state == ButtonState::Subscribe && old(store).tracked_ids().contains(
                            id as i32,
                        ) && !old(store).edges().contains(pair) && final(store).edges() == old(
                            store,
                        ).edges().push(pair) && msg@ == "Subscribed successfully"@)
                        ||| (state == ButtonState::Subscribe && old(store).edges().contains(pair)
                            && final(store).edges() == old(store).edges() && msg@
                            == "You are already subscribed to this beatmap!"@)
                        ||| (state == ButtonState::Unsubscribe && old(store).edges().contains(pair)
                            && final(store).edges() == old(store).edges().filter(
                            (|e: (i64, i32)| e != pair),
                        ) && msg@ == "Unsubscribed successfully"@)
                        ||| (state == ButtonState::Unsubscribe && !old(store).edges().contains(
                            pair,
                        ) && final(store).edges() == old(store).edges() && msg@
                            == "You are not subscribed to this beatmap!"@)
                    },
                    None => false,
                },
            None => final(store).edges() == old(store).edges() && ((forall|dot: int|
                #[trigger] is_first_dot(custom_id@, dot) ==> button_parse(custom_id@, dot)
                    is None) || (exists|dot: int|
                #[trigger] is_first_dot(custom_id@, dot) && match button_parse(
                    custom_id@,
                    dot,
                ) {
                    Some((id, state)) => state == ButtonState::Subscribe && !old(
                        store,
                    ).tracked_ids().contains(id as i32),
                    None => false,
                })),
        },
{
    let parsed = match parse_custom_button_id(custom_id) {
        Some(b) => b,
        None => {
            return None;
        },
    };
    match parsed.state {
        ButtonState::Subscribe => {
            match store.subscribe_to_beatmap(user_id, parsed.id) {
                Ok(crate::models::UserAdditionStatus::UserAdded) => Some(
                    "Subscribed successfully",
                ),
                Ok(crate::models::UserAdditionStatus::UserAlreadyExists) => Some(
                    "You are already subscribed to this beatmap!",
                ),
                Err(_) => None,
            }
        },
        ButtonState::Unsubscribe => {
            match store.unsubscribe_from_beatmap(user_id, parsed.id) {
                crate::models::UserDeletionStatus::UserRemoved => Some(
                    "Unsubscribed successfully",
                ),
                crate::models::UserDeletionStatus::UserDoesNotExist => Some(
                    "You are not subscribed to this beatmap!",
                ),
            }
        },
    }
}

/// The digits group the link pattern captures on a link, if it matches and
/// the group took part.
pub open spec fn link_digits(link: Seq<char>) -> Option<Seq<char>> {
    match spec_captures(osu_link_pattern(), link) {
        Some(groups) => if groups.len() > 1 {
            groups[1]
        } else {
            None
        },
        None => None,
    }
}

/// Reads the beatmapset id out of a subscription link: the id the link
/// pattern captures. A link the pattern does not match is invalid; a match
/// without the id group is a non-capture; an id past the integer range does
/// not parse; an engine fault is reported as such, and only then.
pub fn parse_beatmapset_link(link: &str) -> (r: Result<i32, SubscriptionError>)
    ensures
        match r {
            Ok(id) => !spec_regex_fault(osu_link_pattern(), link@) && (link_digits(link@) matches
                Some(d) && d.len() > 0 && all_digits(d) && id as int == digits_value(d)),
            Err(SubscriptionError::InvalidLink) => !spec_regex_fault(osu_link_pattern(), link@)
                && spec_captures(osu_link_pattern(), link@) is None,
            Err(SubscriptionError::NonCapture) => !spec_regex_fault(osu_link_pattern(), link@)
                && spec_captures(osu_link_pattern(), link@) is Some && link_digits(link@) is None,
            Err(SubscriptionError::ParseError) => !spec_regex_fault(osu_link_pattern(), link@)
                && (link_digits(link@) matches Some(d) && (d.len() == 0 || !all_digits(d)
                || digits_value(d) > i32::MAX as int)),
            Err(SubscriptionError::RegexError) => spec_regex_fault(osu_link_pattern(), link@),
            Err(SubscriptionError::DatabaseError) => false,
        },
{
    let caps = match regex_captures(osu_link_pattern_str(), link) {
        Ok(Some(c)) => c,
        Ok(None) => {
            return Err(SubscriptionError::InvalidLink);
        },
        Err(_) => {
            return Err(SubscriptionError::RegexError);
        },
    };
    let digits = match capture_group(&caps, 1) {
        Some(d) => d,
        None => {
            return Err(SubscriptionError::NonCapture);
        },
    };
    match parse_i32_digits(digits.as_str()) {
        Some(id) => Ok(id),
        None => Err(SubscriptionError::ParseError),
    }
}

/// Applies a subscribe/unsubscribe command given as a link: decodes the
/// beatmapset id and updates the store. On success the edge set gained or
/// lost exactly the (subscriber, id) pair; every failure leaves the store
/// untouched and says why.
pub fn subscription_handler(
    store: &mut MapfeedStore,
    subscriber: i64,
    link: &str,
    mode: SubscriptionMode,
) -> (r: Result<(), SubscriptionError>)
    requires
        old(store).wf(),
    ensures
        final(store).wf(),
        final(store).tracked_ids() == old(store).tracked_ids(),
        match r {
            Ok(()) => !spec_regex_fault(osu_link_pattern(), link@) && (link_digits(link@) matches
                Some(d) && d.len() > 0 && all_digits(d)
                && digits_value(d) <= i32::MAX as int && {
                let id = digits_value(d) as i32;
                match mode {
                    SubscriptionMode::Subscribe => old(store).tracked_ids().contains(id)
                        && final(store).edges().to_set() == old(store).edges().to_set().insert(
                        (subscriber, id),
                    ),
                    SubscriptionMode::Unsubscribe => final(store).edges().to_set() == old(store).edges().to_set().remove(
                        (subscriber, id),
                    ),
                }
            }),
            Err(SubscriptionError::InvalidLink) => final(store).edges() == old(store).edges()
                && !spec_regex_fault(osu_link_pattern(), link@) && spec_captures(
                osu_link_pattern(),
                link@,
            ) is None,
            Err(SubscriptionError::NonCapture) => final(store).edges() == old(store).edges()
                && !spec_regex_fault(osu_link_pattern(), link@) && spec_captures(
                osu_link_pattern(),
                link@,
            ) is Some && link_digits(link@) is None,
            Err(SubscriptionError::ParseError) => final(store).edges() == old(store).edges()
                && !spec_regex_fault(osu_link_pattern(), link@) && (link_digits(link@) matches
                Some(d) && (d.len() == 0 || !all_digits(d) || digits_value(d) > i32::MAX as int)),
            Err(SubscriptionError::RegexError) => final(store).edges() == old(store).edges()
                && spec_regex_fault(osu_link_pattern(), link@),
            Err(SubscriptionError::DatabaseError) => final(store).edges() == old(store).edges()
                && !spec_regex_fault(osu_link_pattern(), link@) && mode
                == SubscriptionMode::Subscribe && (link_digits(link@) matches Some(d)
                && d.len() > 0 && all_digits(d) && digits_value(d) <= i32::MAX as int && !old(
                store,
            ).tracked_ids().contains(digits_value(d) as i32)),
        },
{
    let id = match parse_beatmapset_link(link) {
        Ok(id) => id,
        Err(e) => {
            return Err(e);
        },
    };
    match mode {
        SubscriptionMode::Subscribe => {
            let ghost e0 = store.edges();
            match store.subscribe_to_beatmap(subscriber, id) {
                Ok(_) => {
                    proof {
                        lemma_push_contains(e0, (subscriber, id));
                        assert(store.edges().to_set() =~= e0.to_set().insert((subscriber, id)));
                    }
                    Ok(())
                },
                Err(e) => Err(e),
            }
        },
        SubscriptionMode::Unsubscribe => {
            let ghost e0 = store.edges();
            let _ = store.unsubscribe_from_beatmap(subscriber, id);
            proof {
                lemma_filter_membership(e0, |e: (i64, i32)| e != (subscriber, id));
                assert(store.edges().to_set() =~= e0.to_set().remove((subscriber, id)));
            }
            Ok(())
        },
    }
}

} // verus!
