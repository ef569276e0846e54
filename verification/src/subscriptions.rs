//! In-memory model of the persistence the feeds reconcile against: the
//! tracked beatmapset set, the per-beatmapset subscriber edges, and the
//! channel-level feed subscriptions. Adding an existing edge or removing a
//! missing one reports a status instead of erring.

use vstd::prelude::*;

use crate::models::{
    ChannelKind, ChannelType, SubscriptionError, SubscriptionMode, Subscriptions,
    UserAdditionStatus, UserDeletionStatus,
};

verus! {

/// The beatmapsets under watch and their subscriber edges.
pub struct MapfeedStore {
    beatmapsets: Vec<i32>,
    subscriptions: Vec<(i64, i32)>,
}

impl MapfeedStore {
    /// Identifiers of the beatmapsets under watch, insertion order.
    pub closed spec fn tracked_ids(self) -> Seq<i32> {
        self.beatmapsets@
    }

    /// Subscriber edges (user, beatmapset), insertion order.
    pub closed spec fn edges(self) -> Seq<(i64, i32)> {
        self.subscriptions@
    }

    /// Identifiers are unique, edges are unique, and every edge points at a
    /// stored beatmapset.
    pub open spec fn wf(self) -> bool {
        &&& self.tracked_ids().no_duplicates()
        &&& self.edges().no_duplicates()
        &&& forall|i: int|
            0 <= i < self.edges().len() ==> self.tracked_ids().contains(
                (#[trigger] self.edges()[i]).1,
            )
    }

    pub fn new() -> (s: Self)
        ensures
            s.wf(),
            s.tracked_ids() == Seq::<i32>::empty(),
            s.edges() == Seq::<(i64, i32)>::empty(),
    {
        MapfeedStore { beatmapsets: Vec::new(), subscriptions: Vec::new() }
    }

    /// Inserts the given beatmapsets, ignoring ones already present.
    pub fn insert_beatmaps(&mut self, ids: &Vec<i32>)
        requires
            old(self).wf(),
        ensures
            final(self).wf(),
            final(self).tracked_ids().to_set() == old(self).tracked_ids().to_set().union(
                ids@.to_set(),
            ),
            final(self).edges() == old(self).edges(),
    {
        broadcast use vstd::seq_lib::group_seq_properties;

        let ghost t0 = self.beatmapsets@;
        let n = ids.len();
        let mut k: usize = 0;
        while k < n
            invariant
                n == ids@.len(),
                k <= n,
                self.wf(),
                self.subscriptions@ == old(self).edges(),
                self.beatmapsets@.to_set() == t0.to_set().union(ids@.take(k as int).to_set()),
                forall|i: int|
                    0 <= i < self.subscriptions@.len() ==> self.beatmapsets@.contains(
                        (#[trigger] self.subscriptions@[i]).1,
                    ),
            decreases n - k,
        {
            let id = ids[k];
            let present = contains_id_vec(&self.beatmapsets, id);
            proof {
                ids@.lemma_take_succ_push(k as int);
            }
            proof {
                crate::seq_util::lemma_push_contains(ids@.take(k as int), ids@[k as int]);
                assert(ids@.take(k + 1) == ids@.take(k as int).push(ids@[k as int]));
            }
            if !present {
                let ghost tprev = self.beatmapsets@;
                self.beatmapsets.push(id);
                proof {
                    crate::seq_util::lemma_push_contains(tprev, id);
                    assert forall|a: i32|
                        self.beatmapsets@.to_set().contains(a) <==> t0.to_set().union(
                            ids@.take(k + 1).to_set(),
                        ).contains(a) by {
                        assert(self.beatmapsets@ == tprev.push(id));
                        assert(self.beatmapsets@.contains(a) <==> tprev.contains(a) || a == id);
                        assert(ids@.take(k + 1).contains(a) <==> ids@.take(k as int).contains(a)
                            || a == ids@[k as int]);
                        assert(tprev.to_set().contains(a) <==> t0.to_set().contains(a)
                            || ids@.take(k as int).to_set().contains(a));
                    }
                    assert(self.beatmapsets@.to_set() =~= t0.to_set().union(
                        ids@.take(k + 1).to_set(),
                    ));
                    assert forall|i: int|
                        0 <= i < tprev.len() implies self.beatmapsets@[i] == tprev[i] by {}
                }
            } else {
                proof {
                    assert forall|a: i32|
                        self.beatmapsets@.to_set().contains(a) <==> t0.to_set().union(
                            ids@.take(k + 1).to_set(),
                        ).contains(a) by {
                        assert(ids@.take(k + 1).contains(a) <==> ids@.take(k as int).contains(a)
                            || a == ids@[k as int]);
                        assert(self.beatmapsets@.to_set().contains(a) <==> t0.to_set().contains(a)
                            || ids@.take(k as int).to_set().contains(a));
                        if a == id {
                            assert(self.beatmapsets@.contains(a));
                        }
                    }
                    assert(self.beatmapsets@.to_set() =~= t0.to_set().union(
                        ids@.take(k + 1).to_set(),
                    ));
                }
            }
            k += 1;
        }
        proof {
            assert(ids@.take(n as int) =~= ids@);
        }
    }

    /// Drops a beatmapset and, with it, every subscriber edge it still has.
    pub fn delete_beatmap(&mut self, beatmapset_id: i32)
        requires
            old(self).wf(),
        ensures
            final(self).wf(),
            final(self).tracked_ids() == old(self).tracked_ids().filter(
                |x: i32| x != beatmapset_id,
            ),
            final(self).edges() == old(self).edges().filter(
                |e: (i64, i32)| e.1 != beatmapset_id,
            ),
    {
        let kept = filter_ids_ne(&self.beatmapsets, beatmapset_id);
        self.beatmapsets = kept;
        let kept_edges = filter_edges_ne(&self.subscriptions, beatmapset_id);
        self.subscriptions = kept_edges;
        proof {
            crate::seq_util::lemma_filter_no_duplicates(old(self).tracked_ids(), |x: i32| x != beatmapset_id);
            crate::seq_util::lemma_filter_no_duplicates(
                old(self).edges(),
                |e: (i64, i32)| e.1 != beatmapset_id,
            );
            assert forall|i: int| 0 <= i < self.subscriptions@.len() implies self.beatmapsets@.contains(
                (#[trigger] self.subscriptions@[i]).1,
            ) by {
                let e = self.subscriptions@[i];
                assert(self.subscriptions@.contains(e));
                crate::seq_util::lemma_filter_mem(
                    old(self).edges(),
                    |e: (i64, i32)| e.1 != beatmapset_id,
                    e,
                );
                let j = choose|j: int|
                    0 <= j < old(self).edges().len() && #[trigger] old(self).edges()[j] == e;
                assert(old(self).tracked_ids().contains(e.1));
                let t = choose|t: int|
                    0 <= t < old(self).tracked_ids().len() && #[trigger] old(
                        self,
                    ).tracked_ids()[t] == e.1;
                crate::seq_util::lemma_filter_keeps(
                    old(self).tracked_ids(),
                    |x: i32| x != beatmapset_id,
                    t,
                );
            }
        }
    }

    /// All stored identifiers, or `None` when the table is empty.
    pub fn fetch_all_tracked(&self) -> (r: Option<Vec<i32>>)
        ensures
            match r {
                Some(v) => v@ == self.tracked_ids() && v@.len() > 0,
                None => self.tracked_ids().len() == 0,
            },
    {
        if self.beatmapsets.len() == 0 {
            return None;
        }
        Some(copy_ids(&self.beatmapsets))
    }

    /// Whether a beatmapset is in the store.
    pub fn is_tracked(&self, beatmapset_id: i32) -> (r: bool)
        ensures
            r == self.tracked_ids().contains(beatmapset_id),
    {
        contains_id_vec(&self.beatmapsets, beatmapset_id)
    }

    /// Adds a subscriber edge. Subscribing an already-subscribed pair reports
    /// `UserAlreadyExists` and changes nothing; a beatmapset the store does
    /// not hold is refused.
    pub fn subscribe_to_beatmap(&mut self, user_id: i64, beatmapset_id: i32) -> (r: Result<
        UserAdditionStatus,
        SubscriptionError,
    >)
        requires
            old(self).wf(),
        ensures
            final(self).wf(),
            final(self).tracked_ids() == old(self).tracked_ids(),
            match r {
                Ok(UserAdditionStatus::UserAdded) => {
                    &&& old(self).tracked_ids().contains(beatmapset_id)
                    &&& !old(self).edges().contains((user_id, beatmapset_id))
                    &&& final(self).edges() == old(self).edges().push((user_id, beatmapset_id))
                },
                Ok(UserAdditionStatus::UserAlreadyExists) => {
                    &&& old(self).tracked_ids().contains(beatmapset_id)
                    &&& old(self).edges().contains((user_id, beatmapset_id))
                    &&& final(self).edges() == old(self).edges()
                },
                Err(e) => {
                    &&& e == SubscriptionError::DatabaseError
                    &&& !old(self).tracked_ids().contains(beatmapset_id)
                    &&& final(self).edges() == old(self).edges()
                },
            },
    {
        if !contains_id_vec(&self.beatmapsets, beatmapset_id) {
            return Err(SubscriptionError::DatabaseError);
        }
        if contains_edge(&self.subscriptions, user_id, beatmapset_id) {
            return Ok(UserAdditionStatus::UserAlreadyExists);
        }
        let ghost e0 = self.subscriptions@;
        self.subscriptions.push((user_id, beatmapset_id));
        proof {
            broadcast use vstd::seq_lib::group_seq_properties;

            assert forall|i: int| 0 <= i < self.subscriptions@.len() implies self.beatmapsets@.contains(
                (#[trigger] self.subscriptions@[i]).1,
            ) by {
                if i < e0.len() {
                    assert(self.subscriptions@[i] == e0[i]);
                }
            }
            assert(self.subscriptions@.no_duplicates()) by {
                assert forall|i: int, j: int|
                    0 <= i < self.subscriptions@.len() && 0 <= j < self.subscriptions@.len() && i
                        != j implies self.subscriptions@[i] != self.subscriptions@[j] by {
                    if i < e0.len() && j < e0.len() {
                    } else if i < e0.len() {
                        assert(e0.contains(e0[i]));
                    } else if j < e0.len() {
                        assert(e0.contains(e0[j]));
                    }
                }
            }
        }
        Ok(UserAdditionStatus::UserAdded)
    }

    /// Removes a subscriber edge. Unsubscribing a pair that is not there
    /// reports `UserDoesNotExist` and changes nothing.
    pub fn unsubscribe_from_beatmap(&mut self, user_id: i64, beatmapset_id: i32) -> (r:
        UserDeletionStatus)
        requires
            old(self).wf(),
        ensures
            final(self).wf(),
            final(self).tracked_ids() == old(self).tracked_ids(),
            match r {
                UserDeletionStatus::UserRemoved => {
                    &&& old(self).edges().contains((user_id, beatmapset_id))
                    &&& final(self).edges() == old(self).edges().filter(
                        |e: (i64, i32)| e != (user_id, beatmapset_id),
                    )
                },
                UserDeletionStatus::UserDoesNotExist => {
                    &&& !old(self).edges().contains((user_id, beatmapset_id))
                    &&& final(self).edges() == old(self).edges()
                },
            },
    {
        if !contains_edge(&self.subscriptions, user_id, beatmapset_id) {
            return UserDeletionStatus::UserDoesNotExist;
        }
        let kept = filter_edges_ne_pair(&self.subscriptions, user_id, beatmapset_id);
        self.subscriptions = kept;
        proof {
            crate::seq_util::lemma_filter_no_duplicates(
                old(self).edges(),
                |e: (i64, i32)| e != (user_id, beatmapset_id),
            );
            assert forall|i: int| 0 <= i < self.subscriptions@.len() implies self.beatmapsets@.contains(
                (#[trigger] self.subscriptions@[i]).1,
            ) by {
                let e = self.subscriptions@[i];
                assert(self.subscriptions@.contains(e));
                crate::seq_util::lemma_filter_mem(
                    old(self).edges(),
                    |e: (i64, i32)| e != (user_id, beatmapset_id),
                    e,
                );
                let j = choose|j: int|
                    0 <= j < old(self).edges().len() && #[trigger] old(self).edges()[j] == e;
            }
        }
        UserDeletionStatus::UserRemoved
    }

    /// Subscribers of one beatmapset, or `None` when it has none.
    pub fn fetch_all_subscribers_for_beatmap(&self, beatmapset_id: i32) -> (r: Option<Vec<i64>>)
        ensures
            match r {
                Some(v) => v@ == self.edges().filter(|e: (i64, i32)| e.1 == beatmapset_id)
                    .map_values(|e: (i64, i32)| e.0) && v@.len() > 0,
                None => self.edges().filter(|e: (i64, i32)| e.1 == beatmapset_id).len() == 0,
            },
    {
        broadcast use vstd::seq_lib::group_seq_properties;

        let ghost pred = |e: (i64, i32)| e.1 == beatmapset_id;
        let n = self.subscriptions.len();
        let mut out: Vec<i64> = Vec::new();
        proof {
            reveal(Seq::filter);
            assert(self.edges().take(0) =~= Seq::<(i64, i32)>::empty());
            assert(Seq::<(i64, i32)>::empty().filter(pred).map_values(|e: (i64, i32)| e.0) =~= Seq::<
                i64,
            >::empty());
        }
        let mut k: usize = 0;
        while k < n
            invariant
                n == self.edges().len(),
                k <= n,
                out@ == self.edges().take(k as int).filter(|e: (i64, i32)| e.1 == beatmapset_id)
                    .map_values(|e: (i64, i32)| e.0),
            decreases n - k,
        {
            let e = self.subscriptions[k];
            proof {
                self.edges().lemma_take_succ_push(k as int);
                self.edges().take(k as int).lemma_filter_push(
                    self.edges()[k as int],
                    |e: (i64, i32)| e.1 == beatmapset_id,
                );
                let pre = self.edges().take(k as int).filter(
                    |e: (i64, i32)| e.1 == beatmapset_id,
                );
                if self.edges()[k as int].1 == beatmapset_id {
                    assert(pre.push(self.edges()[k as int]).map_values(|e: (i64, i32)| e.0)
                        =~= pre.map_values(|e: (i64, i32)| e.0).push(self.edges()[k as int].0));
                }
            }
            if e.1 == beatmapset_id {
                out.push(e.0);
            }
            k += 1;
        }
        proof {
            assert(self.edges().take(n as int) =~= self.edges());
        }
        if out.len() == 0 {
            proof {
                assert(self.edges().filter(|e: (i64, i32)| e.1 == beatmapset_id).map_values(
                    |e: (i64, i32)| e.0,
                ).len() == self.edges().filter(|e: (i64, i32)| e.1 == beatmapset_id).len());
            }
            return None;
        }
        Some(out)
    }

    /// Beatmapsets one user subscribes to, or `None` when there are none.
    pub fn fetch_all_subscriptions_for_user(&self, user_id: i64) -> (r: Option<Vec<i32>>)
        ensures
            match r {
                Some(v) => v@ == self.edges().filter(|e: (i64, i32)| e.0 == user_id).map_values(
                    |e: (i64, i32)| e.1,
                ) && v@.len() > 0,
                None => self.edges().filter(|e: (i64, i32)| e.0 == user_id).len() == 0,
            },
    {
        broadcast use vstd::seq_lib::group_seq_properties;

        let n = self.subscriptions.len();
        let mut out: Vec<i32> = Vec::new();
        proof {
            reveal(Seq::filter);
            assert(self.edges().take(0) =~= Seq::<(i64, i32)>::empty());
            assert(Seq::<(i64, i32)>::empty().filter(|e: (i64, i32)| e.0 == user_id).map_values(
                |e: (i64, i32)| e.1,
            ) =~= Seq::<i32>::empty());
        }
        let mut k: usize = 0;
        while k < n
            invariant
                n == self.edges().len(),
                k <= n,
                out@ == self.edges().take(k as int).filter(|e: (i64, i32)| e.0 == user_id)
                    .map_values(|e: (i64, i32)| e.1),
            decreases n - k,
        {
            let e = self.subscriptions[k];
            proof {
                self.edges().lemma_take_succ_push(k as int);
                self.edges().take(k as int).lemma_filter_push(
                    self.edges()[k as int],
                    |e: (i64, i32)| e.0 == user_id,
                );
                let pre = self.edges().take(k as int).filter(|e: (i64, i32)| e.0 == user_id);
                if self.edges()[k as int].0 == user_id {
                    assert(pre.push(self.edges()[k as int]).map_values(|e: (i64, i32)| e.1)
                        =~= pre.map_values(|e: (i64, i32)| e.1).push(self.edges()[k as int].1));
                }
            }
            if e.0 == user_id {
                out.push(e.1);
            }
            k += 1;
        }
        proof {
            assert(self.edges().take(n as int) =~= self.edges());
        }
        if out.len() == 0 {
            proof {
                assert(self.edges().filter(|e: (i64, i32)| e.0 == user_id).map_values(
                    |e: (i64, i32)| e.1,
                ).len() == self.edges().filter(|e: (i64, i32)| e.0 == user_id).len());
            }
            return None;
        }
        Some(out)
    }

    /// Applies one subscribe/unsubscribe command for a user and beatmapset:
    /// subscribing adds the edge (a no-op when it is already there),
    /// unsubscribing drops it (a no-op when it is not); neither no-op errs.
    pub fn beatmap_subscription_handler(
        &mut self,
        user_id: i64,
        beatmapset_id: i32,
        type_: SubscriptionMode,
    ) -> (r: Result<(), SubscriptionError>)
        requires
            old(self).wf(),
        ensures
            final(self).wf(),
            final(self).tracked_ids() == old(self).tracked_ids(),
            match r {
                Ok(()) => match type_ {
                    SubscriptionMode::Subscribe => {
                        &&& old(self).tracked_ids().contains(beatmapset_id)
                        &&& if old(self).edges().contains((user_id, beatmapset_id)) {
                            final(self).edges() == old(self).edges()
                        } else {
                            final(self).edges() == old(self).edges().push(
                                (user_id, beatmapset_id),
                            )
                        }
                    },
                    SubscriptionMode::Unsubscribe => {
                        if old(self).edges().contains((user_id, beatmapset_id)) {
                            final(self).edges() == old(self).edges().filter(
                                (|e: (i64, i32)| e != (user_id, beatmapset_id)),
                            )
                        } else {
                            final(self).edges() == old(self).edges()
                        }
                    },
                },
                Err(e) => {
                    &&& e == SubscriptionError::DatabaseError
                    &&& type_ == SubscriptionMode::Subscribe
                    &&& !old(self).tracked_ids().contains(beatmapset_id)
                    &&& final(self).edges() == old(self).edges()
                },
            },
    {
        match type_ {
            SubscriptionMode::Subscribe => {
                match self.subscribe_to_beatmap(user_id, beatmapset_id) {
                    Ok(_) => Ok(()),
                    Err(e) => Err(e),
                }
            },
            SubscriptionMode::Unsubscribe => {
                let _ = self.unsubscribe_from_beatmap(user_id, beatmapset_id);
                Ok(())
            },
        }
    }
}

/// Channel-level feed subscriptions, one row per channel.
pub struct ChannelStore {
    rows: Vec<Subscriptions>,
}

/// The feed a command targets.
pub open spec fn kind_of(t: ChannelType) -> ChannelKind {
    match t {
        ChannelType::Mapfeed(_) => ChannelKind::Mapfeed,
        ChannelType::Music(_) => ChannelKind::Music,
        ChannelType::Groups(_) => ChannelKind::Groups,
    }
}

/// Whether a command subscribes or unsubscribes.
pub open spec fn mode_of(t: ChannelType) -> SubscriptionMode {
    match t {
        ChannelType::Mapfeed(m) => m,
        ChannelType::Music(m) => m,
        ChannelType::Groups(m) => m,
    }
}

impl ChannelStore {
    /// Subscription rows, insertion order.
    pub closed spec fn rows_seq(self) -> Seq<Subscriptions> {
        self.rows@
    }

    /// One row per channel.
    pub open spec fn wf(self) -> bool {
        forall|i: int, j: int|
            0 <= i < self.rows_seq().len() && 0 <= j < self.rows_seq().len() && i != j ==> (
            #[trigger] self.rows_seq()[i]).channel_id != (#[trigger] self.rows_seq()[j]).channel_id
    }

    pub fn new() -> (s: Self)
        ensures
            s.wf(),
            s.rows_seq() == Seq::<Subscriptions>::empty(),
    {
        ChannelStore { rows: Vec::new() }
    }

    /// Subscribes or unsubscribes one channel. A channel already holding a
    /// row cannot take a second one; unsubscribing drops the channel's row
    /// of the named feed, and is a no-op when there is none.
    pub fn channel_subscription_handler(&mut self, channel_id: i64, type_: ChannelType) -> (r:
        Result<(), SubscriptionError>)
        requires
            old(self).wf(),
        ensures
            final(self).wf(),
            match r {
                Ok(()) => {
                    if mode_of(type_) == SubscriptionMode::Subscribe {
                        &&& !(exists|i: int|
                            0 <= i < old(self).rows_seq().len() && (#[trigger] old(
                                self,
                            ).rows_seq()[i]).channel_id == channel_id)
                        &&& final(self).rows_seq() == old(self).rows_seq().push(
                            Subscriptions { channel_id, kind: kind_of(type_) },
                        )
                    } else {
                        final(self).rows_seq() == old(self).rows_seq().filter(
                            |row: Subscriptions|
                                !(row.channel_id == channel_id && row.kind == kind_of(type_)),
                        )
                    }
                },
                Err(e) => {
                    &&& e == SubscriptionError::DatabaseError
                    &&& mode_of(type_) == SubscriptionMode::Subscribe
                    &&& exists|i: int|
                        0 <= i < old(self).rows_seq().len() && (#[trigger] old(
                            self,
                        ).rows_seq()[i]).channel_id == channel_id
                    &&& final(self).rows_seq() == old(self).rows_seq()
                },
            },
    {
        let kind = match type_ {
            ChannelType::Mapfeed(_) => ChannelKind::Mapfeed,
            ChannelType::Music(_) => ChannelKind::Music,
            ChannelType::Groups(_) => ChannelKind::Groups,
        };
        let mode = match type_ {
            ChannelType::Mapfeed(m) => m,
            ChannelType::Music(m) => m,
            ChannelType::Groups(m) => m,
        };
        match mode {
            SubscriptionMode::Subscribe => {
                let n = self.rows.len();
                let mut k: usize = 0;
                while k < n
                    invariant
                        n == self.rows@.len(),
                        k <= n,
                        self.rows@ == old(self).rows_seq(),
                        old(self).wf(),
                        mode_of(type_) == SubscriptionMode::Subscribe,
                        forall|j: int| 0 <= j < k ==> (#[trigger] self.rows@[j]).channel_id != channel_id,
                    decreases n - k,
                {
                    if self.rows[k].channel_id == channel_id {
                        proof {
                            assert((#[trigger] old(self).rows_seq()[k as int]).channel_id
                                == channel_id);
                        }
                        return Err(SubscriptionError::DatabaseError);
                    }
                    k += 1;
                }
                let ghost r0 = self.rows@;
                self.rows.push(Subscriptions { channel_id, kind });
                proof {
                    assert forall|i: int, j: int|
                        0 <= i < self.rows@.len() && 0 <= j < self.rows@.len() && i != j implies (
                    #[trigger] self.rows@[i]).channel_id != (
                    #[trigger] self.rows@[j]).channel_id by {
                        if i < r0.len() && j < r0.len() {
                            assert(r0[i] == self.rows@[i]);
                            assert(r0[j] == self.rows@[j]);
                        }
                    }
                }
                Ok(())
            },
            SubscriptionMode::Unsubscribe => {
                let kept = filter_rows(&self.rows, channel_id, kind);
                self.rows = kept;
                proof {
                    let pred = |row: Subscriptions|
                        !(row.channel_id == channel_id && row.kind == kind);
                    assert forall|i: int, j: int|
                        0 <= i < self.rows@.len() && 0 <= j < self.rows@.len() && i != j implies (
                    #[trigger] self.rows@[i]).channel_id != (
                    #[trigger] self.rows@[j]).channel_id by {
                        lemma_filter_index_mem(old(self).rows_seq(), pred, i);
                        lemma_filter_index_mem(old(self).rows_seq(), pred, j);
                        let a = self.rows@[i];
                        let b = self.rows@[j];
                        let ai = choose|x: int|
                            0 <= x < old(self).rows_seq().len() && #[trigger] old(
                                self,
                            ).rows_seq()[x] == a;
                        if a.channel_id == b.channel_id {
                            let bi = choose|x: int|
                                0 <= x < old(self).rows_seq().len() && #[trigger] old(
                                    self,
                                ).rows_seq()[x] == b;
                            if ai != bi {
                            } else {
                                assert(a == b);
                                lemma_filter_distinct_indices(old(self).rows_seq(), pred, i, j);
                            }
                        }
                    }
                }
                Ok(())
            },
        }
    }

    /// Channels subscribed to the named feed, insertion order.
    pub fn fetch_all_subscribed_channels(&self, type_: ChannelType) -> (r: Vec<i64>)
        ensures
            r@ == self.rows_seq().filter(
                |row: Subscriptions| row.kind == kind_of(type_),
            ).map_values(|row: Subscriptions| row.channel_id),
    {
        broadcast use vstd::seq_lib::group_seq_properties;

        let kind = match type_ {
            ChannelType::Mapfeed(_) => ChannelKind::Mapfeed,
            ChannelType::Music(_) => ChannelKind::Music,
            ChannelType::Groups(_) => ChannelKind::Groups,
        };
        let n = self.rows.len();
        let mut out: Vec<i64> = Vec::new();
        proof {
            reveal(Seq::filter);
            assert(self.rows_seq().take(0) =~= Seq::<Subscriptions>::empty());
            assert(Seq::<Subscriptions>::empty().filter(
                |row: Subscriptions| row.kind == kind_of(type_),
            ).map_values(|row: Subscriptions| row.channel_id) =~= Seq::<i64>::empty());
        }
        let mut k: usize = 0;
        while k < n
            invariant
                n == self.rows_seq().len(),
                k <= n,
                kind == kind_of(type_),
                out@ == self.rows_seq().take(k as int).filter(
                    |row: Subscriptions| row.kind == kind_of(type_),
                ).map_values(|row: Subscriptions| row.channel_id),
            decreases n - k,
        {
            let row = &self.rows[k];
            proof {
                self.rows_seq().lemma_take_succ_push(k as int);
                self.rows_seq().take(k as int).lemma_filter_push(
                    self.rows_seq()[k as int],
                    |row: Subscriptions| row.kind == kind_of(type_),
                );
                let pre = self.rows_seq().take(k as int).filter(
                    |row: Subscriptions| row.kind == kind_of(type_),
                );
                if self.rows_seq()[k as int].kind == kind_of(type_) {
                    assert(pre.push(self.rows_seq()[k as int]).map_values(
                        |row: Subscriptions| row.channel_id,
                    ) =~= pre.map_values(|row: Subscriptions| row.channel_id).push(
                        self.rows_seq()[k as int].channel_id,
                    ));
                }
            }
            if row.kind == kind {
                out.push(row.channel_id);
            }
            k += 1;
        }
        proof {
            assert(self.rows_seq().take(n as int) =~= self.rows_seq());
        }
        out
    }
}

fn contains_id_vec(v: &Vec<i32>, x: i32) -> (r: bool)
    ensures
        r == v@.contains(x),
{
    let n = v.len();
    let mut k: usize = 0;
    while k < n
        invariant
            n == v@.len(),
            k <= n,
            forall|j: int| 0 <= j < k ==> v@[j] != x,
        decreases n - k,
    {
        if v[k] == x {
            return true;
        }
        k += 1;
    }
    false
}

fn contains_edge(v: &Vec<(i64, i32)>, user_id: i64, beatmapset_id: i32) -> (r: bool)
    ensures
        r == v@.contains((user_id, beatmapset_id)),
{
    let n = v.len();
    let mut k: usize = 0;
    while k < n
        invariant
            n == v@.len(),
            k <= n,
            forall|j: int| 0 <= j < k ==> v@[j] != (user_id, beatmapset_id),
        decreases n - k,
    {
        if v[k].0 == user_id && v[k].1 == beatmapset_id {
            proof {
                assert(v@[k as int] == (user_id, beatmapset_id));
            }
            return true;
        }
        k += 1;
    }
    false
}

fn copy_ids(v: &Vec<i32>) -> (r: Vec<i32>)
    ensures
        r@ == v@,
{
    let n = v.len();
    let mut r: Vec<i32> = Vec::new();
    let mut k: usize = 0;
    while k < n
        invariant
            n == v@.len(),
            k <= n,
            r@ == v@.take(k as int),
        decreases n - k,
    {
        broadcast use vstd::seq_lib::group_seq_properties;

        proof {
            v@.lemma_take_succ_push(k as int);
        }
        r.push(v[k]);
        k += 1;
    }
    proof {
        assert(v@.take(n as int) =~= v@);
    }
    r
}

fn filter_ids_ne(v: &Vec<i32>, x: i32) -> (r: Vec<i32>)
    ensures
        r@ == v@.filter(|y: i32| y != x),
{
    broadcast use vstd::seq_lib::group_seq_properties;

    let n = v.len();
    let mut r: Vec<i32> = Vec::new();
    proof {
        reveal(Seq::filter);
        assert(v@.take(0) =~= Seq::<i32>::empty());
    }
    let mut k: usize = 0;
    while k < n
        invariant
            n == v@.len(),
            k <= n,
            r@ == v@.take(k as int).filter(|y: i32| y != x),
        decreases n - k,
    {
        proof {
            v@.lemma_take_succ_push(k as int);
            v@.take(k as int).lemma_filter_push(v@[k as int], |y: i32| y != x);
        }
        if v[k] != x {
            r.push(v[k]);
        }
        k += 1;
    }
    proof {
        assert(v@.take(n as int) =~= v@);
    }
    r
}

fn filter_edges_ne(v: &Vec<(i64, i32)>, beatmapset_id: i32) -> (r: Vec<(i64, i32)>)
    ensures
        r@ == v@.filter(|e: (i64, i32)| e.1 != beatmapset_id),
{
    broadcast use vstd::seq_lib::group_seq_properties;

    let n = v.len();
    let mut r: Vec<(i64, i32)> = Vec::new();
    proof {
        reveal(Seq::filter);
        assert(v@.take(0) =~= Seq::<(i64, i32)>::empty());
    }
    let mut k: usize = 0;
    while k < n
        invariant
            n == v@.len(),
            k <= n,
            r@ == v@.take(k as int).filter(|e: (i64, i32)| e.1 != beatmapset_id),
        decreases n - k,
    {
        proof {
            v@.lemma_take_succ_push(k as int);
            v@.take(k as int).lemma_filter_push(
                v@[k as int],
                |e: (i64, i32)| e.1 != beatmapset_id,
            );
        }
        if v[k].1 != beatmapset_id {
            r.push(v[k]);
        }
        k += 1;
    }
    proof {
        assert(v@.take(n as int) =~= v@);
    }
    r
}

fn filter_edges_ne_pair(v: &Vec<(i64, i32)>, user_id: i64, beatmapset_id: i32) -> (r: Vec<
    (i64, i32),
>)
    ensures
        r@ == v@.filter(|e: (i64, i32)| e != (user_id, beatmapset_id)),
{
    broadcast use vstd::seq_lib::group_seq_properties;

    let n = v.len();
    let mut r: Vec<(i64, i32)> = Vec::new();
    proof {
        reveal(Seq::filter);
        assert(v@.take(0) =~= Seq::<(i64, i32)>::empty());
    }
    let mut k: usize = 0;
    while k < n
        invariant
            n == v@.len(),
            k <= n,
            r@ == v@.take(k as int).filter(|e: (i64, i32)| e != (user_id, beatmapset_id)),
        decreases n - k,
    {
        proof {
            v@.lemma_take_succ_push(k as int);
            v@.take(k as int).lemma_filter_push(
                v@[k as int],
                |e: (i64, i32)| e != (user_id, beatmapset_id),
            );
        }
        if !(v[k].0 == user_id && v[k].1 == beatmapset_id) {
            proof {
                assert(v@[k as int] != (user_id, beatmapset_id));
            }
            r.push(v[k]);
        } else {
            proof {
                assert(v@[k as int] == (user_id, beatmapset_id));
            }
        }
        k += 1;
    }
    proof {
        assert(v@.take(n as int) =~= v@);
    }
    r
}

fn filter_rows(v: &Vec<Subscriptions>, channel_id: i64, kind: ChannelKind) -> (r: Vec<
    Subscriptions,
>)
    ensures
        r@ == v@.filter(
            |row: Subscriptions| !(row.channel_id == channel_id && row.kind == kind),
        ),
{
    broadcast use vstd::seq_lib::group_seq_properties;

    let ghost pred = |row: Subscriptions| !(row.channel_id == channel_id && row.kind == kind);
    let n = v.len();
    let mut r: Vec<Subscriptions> = Vec::new();
    proof {
        reveal(Seq::filter);
        assert(v@.take(0) =~= Seq::<Subscriptions>::empty());
    }
    let mut k: usize = 0;
    while k < n
        invariant
            n == v@.len(),
            k <= n,
            r@ == v@.take(k as int).filter(
                |row: Subscriptions| !(row.channel_id == channel_id && row.kind == kind),
            ),
        decreases n - k,
    {
        proof {
            v@.lemma_take_succ_push(k as int);
            v@.take(k as int).lemma_filter_push(
                v@[k as int],
                |row: Subscriptions| !(row.channel_id == channel_id && row.kind == kind),
            );
        }
        let row = self_row(&v[k]);
        if !(row.channel_id == channel_id && (row.kind == kind)) {
            r.push(row);
        }
        k += 1;
    }
    proof {
        assert(v@.take(n as int) =~= v@);
    }
    r
}

fn self_row(row: &Subscriptions) -> (r: Subscriptions)
    ensures
        r == *row,
{
    Subscriptions { channel_id: row.channel_id, kind: row.kind }
}

/// An element of a filtered sequence sits somewhere in the original.
proof fn lemma_filter_index_mem<A>(s: Seq<A>, pred: spec_fn(A) -> bool, i: int)
    requires
        0 <= i < s.filter(pred).len(),
    ensures
        s.contains(s.filter(pred)[i]),
        pred(s.filter(pred)[i]),
{
    assert(s.filter(pred).contains(s.filter(pred)[i]));
    crate::seq_util::lemma_filter_mem(s, pred, s.filter(pred)[i]);
}

/// Distinct positions of a filtered duplicate-free sequence hold distinct
/// elements.
proof fn lemma_filter_distinct_indices<A>(s: Seq<A>, pred: spec_fn(A) -> bool, i: int, j: int)
    requires
        s.no_duplicates(),
        0 <= i < s.filter(pred).len(),
        0 <= j < s.filter(pred).len(),
        i != j,
    ensures
        s.filter(pred)[i] != s.filter(pred)[j],
{
    crate::seq_util::lemma_filter_no_duplicates(s, pred);
}

} // verus!
