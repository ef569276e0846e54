//! Audio feature logic: recognising a video link in a message, the channel
//! cache deciding where the feature is on, and the size gate on a fetched
//! song.

use vstd::prelude::*;

use crate::models::DownloadError;
use crate::patterns::{capture_group, regex_captures, spec_captures, spec_regex_fault,
    youtube_pattern, youtube_pattern_str};

verus! {

/// Largest audio payload the feature forwards.
pub const MAX_FILE_SIZE: usize = 10 * 1024 * 1024;

/// A fetched audio payload.
pub struct Song(Vec<u8>);

impl Song {
    /// The payload bytes.
    pub closed spec fn bytes(self) -> Seq<u8> {
        self.0@
    }

    pub fn new(data: Vec<u8>) -> (s: Self)
        ensures
            s.bytes() == data@,
    {
        Song(data)
    }

    /// Hands the payload back out.
    pub fn get(self) -> (r: Vec<u8>)
        ensures
            r@ == self.bytes(),
    {
        self.0
    }

    pub fn len(&self) -> (r: usize)
        ensures
            r == self.bytes().len(),
    {
        self.0.len()
    }

    pub fn is_empty(&self) -> (r: bool)
        ensures
            r == (self.bytes().len() == 0),
    {
        self.0.is_empty()
    }
}

/// The size gate of the audio feature: a payload over the limit is refused,
/// anything else passes through unchanged.
pub fn check_song_size(song: Song) -> (r: Result<Song, DownloadError>)
    ensures
        match r {
            Ok(s) => s.bytes() == song.bytes() && song.bytes().len() <= MAX_FILE_SIZE,
            Err(e) => e == DownloadError::FileTooLarge && song.bytes().len() > MAX_FILE_SIZE,
        },
{
    if song.len() > MAX_FILE_SIZE {
        Err(DownloadError::FileTooLarge)
    } else {
        Ok(song)
    }
}

/// Picks the video id out of a message, if it links a video on one of the
/// known hosts: the first capture group of the link pattern. `None` comes
/// exactly from a message the pattern does not match, a match without the
/// id group, or an engine failure.
pub fn check_link(message: &str) -> (r: Option<String>)
    ensures
        match r {
            Some(s) => {
                &&& !spec_regex_fault(youtube_pattern(), message@)
                &&& (spec_captures(youtube_pattern(), message@) matches Some(groups)
                    && groups.len() > 1 && groups[1] == Some(s@))
            },
            None => spec_regex_fault(youtube_pattern(), message@) || spec_captures(
                youtube_pattern(),
                message@,
            ) is None || (spec_captures(youtube_pattern(), message@) matches Some(groups) && (
            groups.len() <= 1 || groups[1] is None)),
        },
{
    let caps = match regex_captures(youtube_pattern_str(), message) {
        Ok(Some(c)) => c,
        Ok(None) => {
            return None;
        },
        Err(_) => {
            return None;
        },
    };
    capture_group(&caps, 1)
}

/// Channel cache of the audio feature: which channels have the feature on,
/// populated once and refreshed incrementally from the authoritative store.
pub struct ChannelCache {
    initialized: bool,
    channels: Vec<i64>,
}

impl ChannelCache {
    /// The cached channel identifiers.
    pub closed spec fn channel_ids(self) -> Seq<i64> {
        self.channels@
    }

    /// Population ran at least once.
    pub closed spec fn is_initialized(self) -> bool {
        self.initialized
    }

    /// No channel is cached twice.
    pub open spec fn wf(self) -> bool {
        self.channel_ids().no_duplicates()
    }

    pub fn new() -> (s: Self)
        ensures
            s.wf(),
            !s.is_initialized(),
            s.channel_ids() == Seq::<i64>::empty(),
    {
        ChannelCache { initialized: false, channels: Vec::new() }
    }

    /// Whether a channel has the feature on, per the cache; answered only
    /// after the one-time population ran, so a fresh cache never feigns an
    /// empty subscription set.
    pub fn check(&self, id: i64) -> (r: bool)
        requires
            self.is_initialized(),
        ensures
            r == self.channel_ids().contains(id),
    {
        contains_i64(&self.channels, id)
    }

    /// One-time population from the authoritative channel list.
    pub fn populate(&mut self, authoritative: &Vec<i64>)
        ensures
            final(self).wf(),
            final(self).is_initialized(),
            final(self).channel_ids().to_set() == authoritative@.to_set(),
    {
        self.channels = Vec::new();
        self.initialized = true;
        self.merge_additions(authoritative);
        proof {
            assert(self.channels@.to_set() =~= authoritative@.to_set());
        }
    }

    /// Refresh against the authoritative list: additions are inserted and
    /// stale entries dropped, rather than replacing the cache wholesale —
    /// and the result is exactly the authoritative set. A cache that was
    /// never populated counts as populated afterwards.
    pub fn update_cache(&mut self, authoritative: &Vec<i64>)
        requires
            old(self).wf(),
        ensures
            final(self).wf(),
            final(self).is_initialized(),
            final(self).channel_ids().to_set() == authoritative@.to_set(),
    {
        self.initialized = true;
        self.merge_additions(authoritative);
        let ghost merged = self.channels@;
        let kept = keep_present(&self.channels, authoritative);
        self.channels = kept;
        proof {
            crate::seq_util::lemma_filter_no_duplicates(merged, |c: i64| authoritative@.contains(c));
            assert forall|a: i64|
                self.channels@.to_set().contains(a) <==> authoritative@.to_set().contains(a) by {
                if self.channels@.contains(a) {
                    crate::seq_util::lemma_filter_mem(
                        merged,
                        |c: i64| authoritative@.contains(c),
                        a,
                    );
                }
                if authoritative@.contains(a) {
                    assert(merged.to_set().contains(a));
                    let i = choose|i: int| 0 <= i < merged.len() && merged[i] == a;
                    crate::seq_util::lemma_filter_keeps(
                        merged,
                        |c: i64| authoritative@.contains(c),
                        i,
                    );
                }
            }
            assert(self.channels@.to_set() =~= authoritative@.to_set());
        }
    }

    /// Inserts every authoritative channel the cache is missing.
    fn merge_additions(&mut self, authoritative: &Vec<i64>)
        requires
            old(self).wf(),
        ensures
            final(self).wf(),
            final(self).is_initialized() == old(self).is_initialized(),
            final(self).channel_ids().to_set() == old(self).channel_ids().to_set().union(
                authoritative@.to_set(),
            ),
    {
        let ghost c0 = self.channels@;
        let n = authoritative.len();
        let mut k: usize = 0;
        while k < n
            invariant
                n == authoritative@.len(),
                k <= n,
                self.initialized == old(self).is_initialized(),
                self.channels@.no_duplicates(),
                self.channels@.to_set() == c0.to_set().union(
                    authoritative@.take(k as int).to_set(),
                ),
            decreases n - k,
        {
            let id = authoritative[k];
            let present = contains_i64(&self.channels, id);
            proof {
                authoritative@.lemma_take_succ_push(k as int);
                crate::seq_util::lemma_push_contains(
                    authoritative@.take(k as int),
                    authoritative@[k as int],
                );
                assert(authoritative@.take(k + 1) == authoritative@.take(k as int).push(
                    authoritative@[k as int],
                ));
            }
            if !present {
                let ghost cprev = self.channels@;
                self.channels.push(id);
                proof {
                    crate::seq_util::lemma_push_contains(cprev, id);
                    assert(self.channels@.no_duplicates()) by {
                        assert forall|i: int, j: int|
                            0 <= i < self.channels@.len() && 0 <= j < self.channels@.len() && i
                                != j implies self.channels@[i] != self.channels@[j] by {
                            if i < cprev.len() && j < cprev.len() {
                                assert(cprev[i] == self.channels@[i]);
                                assert(cprev[j] == self.channels@[j]);
                            } else if i < cprev.len() {
                                assert(cprev.contains(cprev[i]));
                            } else if j < cprev.len() {
                                assert(cprev.contains(cprev[j]));
                            }
                        }
                    }
                    assert forall|a: i64|
                        self.channels@.to_set().contains(a) <==> c0.to_set().union(
                            authoritative@.take(k + 1).to_set(),
                        ).contains(a) by {
                        assert(self.channels@ == cprev.push(id));
                        assert(self.channels@.contains(a) <==> cprev.contains(a) || a == id);
                        assert(authoritative@.take(k + 1).contains(a) <==> authoritative@.take(
                            k as int,
                        ).contains(a) || a == authoritative@[k as int]);
                        assert(cprev.to_set().contains(a) <==> c0.to_set().contains(a)
                            || authoritative@.take(k as int).to_set().contains(a));
                    }
                    assert(self.channels@.to_set() =~= c0.to_set().union(
                        authoritative@.take(k + 1).to_set(),
                    ));
                }
            } else {
                proof {
                    assert forall|a: i64|
                        self.channels@.to_set().contains(a) <==> c0.to_set().union(
                            authoritative@.take(k + 1).to_set(),
                        ).contains(a) by {
                        assert(authoritative@.take(k + 1).contains(a) <==> authoritative@.take(
                            k as int,
                        ).contains(a) || a == authoritative@[k as int]);
                        assert(self.channels@.to_set().contains(a) <==> c0.to_set().contains(a)
                            || authoritative@.take(k as int).to_set().contains(a));
                        if a == id {
                            assert(self.channels@.contains(a));
                        }
                    }
                    assert(self.channels@.to_set() =~= c0.to_set().union(
                        authoritative@.take(k + 1).to_set(),
                    ));
                }
            }
            k += 1;
        }
        proof {
            assert(authoritative@.take(n as int) =~= authoritative@);
        }
    }
}

fn keep_present(v: &Vec<i64>, keep: &Vec<i64>) -> (r: Vec<i64>)
    ensures
        r@ == v@.filter(|c: i64| keep@.contains(c)),
{
    broadcast use vstd::seq_lib::group_seq_properties;

    let n = v.len();
    let mut r: Vec<i64> = Vec::new();
    proof {
        reveal(Seq::filter);
        assert(v@.take(0) =~= Seq::<i64>::empty());
    }
    let mut k: usize = 0;
    while k < n
        invariant
            n == v@.len(),
            k <= n,
            r@ == v@.take(k as int).filter(|c: i64| keep@.contains(c)),
        decreases n - k,
    {
        proof {
            v@.lemma_take_succ_push(k as int);
            v@.take(k as int).lemma_filter_push(v@[k as int], |c: i64| keep@.contains(c));
        }
        if contains_i64(keep, v[k]) {
            r.push(v[k]);
        }
        k += 1;
    }
    proof {
        assert(v@.take(n as int) =~= v@);
    }
    r
}

fn contains_i64(v: &Vec<i64>, x: i64) -> (r: bool)
    ensures
        r == v@.contains(x),
{
    let n = v.len();
    let mut k: usize = 0;
    while k < n
        invariant
            n == v@.len(),
            k <= n,
            forall|j: int| 0 <= j < k ==> v@[j] != x,
        decreases n - k,
    {
        if v[k] == x {
            return true;
        }
        k += 1;
    }
    false
}

} // verus!
