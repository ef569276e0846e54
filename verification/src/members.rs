//! In-memory model of the group membership persistence: one row per
//! (group, member) with the member's profile and discipline list. Carries
//! the operations the group feed applies after a diff.

use vstd::prelude::*;

use crate::models::{GamemodeUpdate, OsuGamemode, OsuGroup, OsuUser, OsuUsers};
use crate::groups::lookup_modes;

verus! {

/// One membership: the group, the member's profile row, the disciplines.
#[derive(Debug, Clone)]
pub struct MemberRow {
    pub group: OsuGroup,
    pub user: OsuUsers,
    pub modes: Vec<OsuGamemode>,
}

/// First row index for the given group and member, if any.
pub open spec fn lookup_member(s: Seq<MemberRow>, g: OsuGroup, user_id: i32) -> Option<int>
    decreases s.len(),
{
    if s.len() == 0 {
        None
    } else if s[0].group == g && s[0].user.id == user_id {
        Some(0int)
    } else {
        match lookup_member(s.drop_first(), g, user_id) {
            Some(i) => Some(i + 1),
            None => None,
        }
    }
}

/// A membership of the given group and member is on file.
pub open spec fn has_member(s: Seq<MemberRow>, g: OsuGroup, user_id: i32) -> bool {
    exists|i: int|
        0 <= i < s.len() && (#[trigger] s[i]).group == g && s[i].user.id == user_id
}

proof fn lemma_lookup_member(s: Seq<MemberRow>, g: OsuGroup, user_id: i32)
    ensures
        match lookup_member(s, g, user_id) {
            Some(i) => {
                &&& 0 <= i < s.len()
                &&& s[i].group == g
                &&& s[i].user.id == user_id
                &&& forall|j: int|
                    0 <= j < i ==> !((#[trigger] s[j]).group == g && s[j].user.id == user_id)
            },
            None => !has_member(s, g, user_id),
        },
    decreases s.len(),
{
    if s.len() > 0 && !(s[0].group == g && s[0].user.id == user_id) {
        lemma_lookup_member(s.drop_first(), g, user_id);
        if lookup_member(s.drop_first(), g, user_id) is None {
            assert forall|i: int|
                0 <= i < s.len() implies !((#[trigger] s[i]).group == g && s[i].user.id
                == user_id) by {
                if i > 0 {
                    assert(s.drop_first()[i - 1] == s[i]);
                    assert(!has_member(s.drop_first(), g, user_id));
                }
            }
        } else {
            let i = lookup_member(s.drop_first(), g, user_id).unwrap();
            assert(s.drop_first()[i] == s[i + 1]);
            assert forall|j: int|
                0 <= j < i + 1 implies !((#[trigger] s[j]).group == g && s[j].user.id
                == user_id) by {
                if j > 0 {
                    assert(s.drop_first()[j - 1] == s[j]);
                }
            }
        }
    }
}

/// The group membership store.
pub struct GroupStore {
    members: Vec<MemberRow>,
}

impl GroupStore {
    /// The membership rows, insertion order.
    pub closed spec fn rows(self) -> Seq<MemberRow> {
        self.members@
    }

    /// At most one row per group and member.
    pub open spec fn wf(self) -> bool {
        forall|i: int, j: int|
            0 <= i < self.rows().len() && 0 <= j < self.rows().len() && i != j ==> !((
            #[trigger] self.rows()[i]).group == (#[trigger] self.rows()[j]).group
                && self.rows()[i].user.id == self.rows()[j].user.id)
    }

    pub fn new() -> (s: Self)
        ensures
            s.wf(),
            s.rows() == Seq::<MemberRow>::empty(),
    {
        GroupStore { members: Vec::new() }
    }

    /// All members of one group, each as a record whose membership list
    /// names exactly that group with the stored disciplines.
    pub fn fetch_all_group_members(&self, group: OsuGroup) -> (r: Vec<OsuUser>)
        ensures
            ({
                let rows = self.rows().filter(|row: MemberRow| row.group == group);
                &&& r@.len() == rows.len()
                &&& forall|i: int|
                    0 <= i < rows.len() ==> {
                        let u = #[trigger] r@[i];
                        &&& u.id == rows[i].user.id
                        &&& u.username@ == rows[i].user.username@
                        &&& u.avatar_url@ == rows[i].user.avatar_url@
                        &&& u.member_of@.len() == 1
                        &&& u.member_of@[0].0 == group
                        &&& u.member_of@[0].1@ == rows[i].modes@
                    }
            }),
    {
        broadcast use vstd::seq_lib::group_seq_properties;

        let ghost pred = |row: MemberRow| row.group == group;
        let n = self.members.len();
        let mut r: Vec<OsuUser> = Vec::new();
        proof {
            reveal(Seq::filter);
            assert(self.rows().take(0) =~= Seq::<MemberRow>::empty());
        }
        let mut k: usize = 0;
        while k < n
            invariant
                n == self.rows().len(),
                k <= n,
                ({
                    let rows = self.rows().take(k as int).filter(
                        |row: MemberRow| row.group == group,
                    );
                    &&& r@.len() == rows.len()
                    &&& forall|i: int|
                        0 <= i < rows.len() ==> {
                            let u = #[trigger] r@[i];
                            &&& u.id == rows[i].user.id
                            &&& u.username@ == rows[i].user.username@
                            &&& u.avatar_url@ == rows[i].user.avatar_url@
                            &&& u.member_of@.len() == 1
                            &&& u.member_of@[0].0 == group
                            &&& u.member_of@[0].1@ == rows[i].modes@
                        }
                }),
            decreases n - k,
        {
            proof {
                self.rows().lemma_take_succ_push(k as int);
                self.rows().take(k as int).lemma_filter_push(
                    self.rows()[k as int],
                    |row: MemberRow| row.group == group,
                );
            }
            let row = &self.members[k];
            if row.group == group {
                let mut member_of: Vec<(OsuGroup, Vec<OsuGamemode>)> = Vec::new();
                member_of.push((group, copy_modes(&row.modes)));
                let u = OsuUser {
                    id: row.user.id,
                    username: clone_string(&row.user.username),
                    avatar_url: clone_string(&row.user.avatar_url),
                    member_of,
                };
                r.push(u);
            }
            k += 1;
        }
        proof {
            assert(self.rows().take(n as int) =~= self.rows());
        }
        r
    }

    /// Files a member under a group: the profile row and the disciplines
    /// the record lists for that group. A membership already on file is
    /// left alone.
    pub fn insert_group_member(&mut self, user: &OsuUser, group: OsuGroup)
        requires
            old(self).wf(),
        ensures
            final(self).wf(),
            has_member(old(self).rows(), group, user.id) ==> final(self).rows() == old(
                self,
            ).rows(),
            !has_member(old(self).rows(), group, user.id) ==> {
                &&& final(self).rows().len() == old(self).rows().len() + 1
                &&& forall|i: int|
                    0 <= i < old(self).rows().len() ==> final(self).rows()[i] == old(
                        self,
                    ).rows()[i]
                &&& ({
                    let row = final(self).rows().last();
                    &&& row.group == group
                    &&& row.user.id == user.id
                    &&& row.user.username@ == user.username@
                    &&& row.user.avatar_url@ == user.avatar_url@
                    &&& row.modes@ == match lookup_modes(user.member_of@, group) {
                        Some(m) => m,
                        None => Seq::<OsuGamemode>::empty(),
                    }
                })
            },
    {
        if self.contains_member(group, user.id) {
            return ;
        }
        let modes = match find_modes_local(&user.member_of, group) {
            Some(m) => copy_modes(m),
            None => Vec::new(),
        };
        let row = MemberRow {
            group,
            user: OsuUsers {
                id: user.id,
                username: clone_string(&user.username),
                avatar_url: clone_string(&user.avatar_url),
            },
            modes,
        };
        let ghost r0 = self.members@;
        self.members.push(row);
        proof {
            assert forall|i: int, j: int|
                0 <= i < self.members@.len() && 0 <= j < self.members@.len() && i != j implies !((
            #[trigger] self.members@[i]).group == (#[trigger] self.members@[j]).group
                && self.members@[i].user.id == self.members@[j].user.id) by {
                if i < r0.len() && j < r0.len() {
                    assert(self.members@[i] == r0[i]);
                    assert(self.members@[j] == r0[j]);
                } else if i < r0.len() {
                    assert(self.members@[i] == r0[i]);
                    if self.members@[i].group == group && self.members@[i].user.id == user.id {
                        assert(has_member(r0, group, user.id));
                    }
                } else if j < r0.len() {
                    assert(self.members@[j] == r0[j]);
                    if self.members@[j].group == group && self.members@[j].user.id == user.id {
                        assert(has_member(r0, group, user.id));
                    }
                }
            }
        }
    }

    /// Drops a member's row of one group; dropping a membership that is not
    /// on file changes nothing.
    pub fn delete_group_member(&mut self, user_id: i32, group: OsuGroup)
        requires
            old(self).wf(),
        ensures
            final(self).wf(),
            !has_member(old(self).rows(), group, user_id) ==> final(self).rows() == old(
                self,
            ).rows(),
            has_member(old(self).rows(), group, user_id) ==> exists|i: int|
                {
                    &&& #[trigger] lookup_member(old(self).rows(), group, user_id) == Some(i)
                    &&& final(self).rows() == old(self).rows().remove(i)
                },
    {
        proof {
            lemma_lookup_member(self.rows(), group, user_id);
        }
        let idx = match self.find_member(group, user_id) {
            Some(i) => i,
            None => {
                return ;
            },
        };
        let ghost r0 = self.members@;
        let _ = self.members.remove(idx);
        proof {
            assert forall|i: int, j: int|
                0 <= i < self.members@.len() && 0 <= j < self.members@.len() && i != j implies !((
            #[trigger] self.members@[i]).group == (#[trigger] self.members@[j]).group
                && self.members@[i].user.id == self.members@[j].user.id) by {
                let a = if i < idx {
                    i
                } else {
                    i + 1
                };
                let b = if j < idx {
                    j
                } else {
                    j + 1
                };
                assert(self.members@[i] == r0[a]);
                assert(self.members@[j] == r0[b]);
            }
        }
    }

    /// Applies a discipline change to a member's row of the change's group:
    /// the listed removals leave, the listed additions are appended. A
    /// member without that membership is left alone and reported.
    pub fn update_group_member_gamemodes(&mut self, user_id: i32, diff: &GamemodeUpdate) -> (r:
        bool)
        requires
            old(self).wf(),
        ensures
            final(self).wf(),
            r == has_member(old(self).rows(), diff.group, user_id),
            !r ==> final(self).rows() == old(self).rows(),
            r ==> exists|i: int|
                {
                    &&& #[trigger] lookup_member(old(self).rows(), diff.group, user_id) == Some(i)
                    &&& final(self).rows().len() == old(self).rows().len()
                    &&& forall|j: int|
                        0 <= j < old(self).rows().len() && j != i ==> final(self).rows()[j] == old(
                            self,
                        ).rows()[j]
                    &&& ({
                        let row = final(self).rows()[i];
                        &&& row.group == old(self).rows()[i].group
                        &&& row.user == old(self).rows()[i].user
                        &&& row.modes@ == old(self).rows()[i].modes@.filter(
                            (|m: OsuGamemode| !diff.removed@.contains(m)),
                        ) + diff.added@
                    })
                },
    {
        proof {
            lemma_lookup_member(self.rows(), diff.group, user_id);
        }
        let idx = match self.find_member(diff.group, user_id) {
            Some(i) => i,
            None => {
                return false;
            },
        };
        let old_row = self.members.remove(idx);
        let mut modes = modes_not_in_removed(&old_row.modes, &diff.removed);
        let mut extra = copy_modes(&diff.added);
        modes.append(&mut extra);
        let new_row = MemberRow { group: old_row.group, user: old_row.user, modes };
        self.members.insert(idx, new_row);
        proof {
            let r0 = old(self).rows();
            assert(self.members@ =~= r0.update(
                idx as int,
                MemberRow {
                    group: r0[idx as int].group,
                    user: r0[idx as int].user,
                    modes: new_row.modes,
                },
            ));
            assert(self.members@[idx as int].modes@ == r0[idx as int].modes@.filter(
                (|m: OsuGamemode| !diff.removed@.contains(m)),
            ) + diff.added@);
            assert forall|i: int, j: int|
                0 <= i < self.members@.len() && 0 <= j < self.members@.len() && i != j implies !((
            #[trigger] self.members@[i]).group == (#[trigger] self.members@[j]).group
                && self.members@[i].user.id == self.members@[j].user.id) by {
                assert(self.members@[i].group == r0[i].group && self.members@[i].user.id
                    == r0[i].user.id);
                assert(self.members@[j].group == r0[j].group && self.members@[j].user.id
                    == r0[j].user.id);
            }
        }
        true
    }

    /// Refreshes a member's profile fields on every membership row; a field
    /// given as `None` keeps its stored value.
    pub fn update_osu_user_profile(
        &mut self,
        user_id: i32,
        new_name: Option<String>,
        new_avatar_url: Option<String>,
    )
        requires
            old(self).wf(),
        ensures
            final(self).wf(),
            final(self).rows().len() == old(self).rows().len(),
            forall|i: int|
                0 <= i < old(self).rows().len() ==> {
                    let before = old(self).rows()[i];
                    let after = #[trigger] final(self).rows()[i];
                    &&& after.group == before.group
                    &&& after.modes@ == before.modes@
                    &&& after.user.id == before.user.id
                    &&& (before.user.id != user_id ==> after.user.username@
                        == before.user.username@ && after.user.avatar_url@
                        == before.user.avatar_url@)
                    &&& (before.user.id == user_id ==> after.user.username@ == (match new_name {
                        Some(n) => n@,
                        None => before.user.username@,
                    }) && after.user.avatar_url@ == (match new_avatar_url {
                        Some(a) => a@,
                        None => before.user.avatar_url@,
                    }))
                },
    {
        let ghost r0 = self.members@;
        let n = self.members.len();
        let mut out: Vec<MemberRow> = Vec::new();
        let mut k: usize = 0;
        while k < n
            invariant
                n == r0.len(),
                self.members@ == r0,
                k <= n,
                out@.len() == k,
                forall|i: int|
                    0 <= i < k ==> {
                        let before = r0[i];
                        let after = #[trigger] out@[i];
                        &&& after.group == before.group
                        &&& after.modes@ == before.modes@
                        &&& after.user.id == before.user.id
                        &&& (before.user.id != user_id ==> after.user.username@
                            == before.user.username@ && after.user.avatar_url@
                            == before.user.avatar_url@)
                        &&& (before.user.id == user_id ==> after.user.username@ == (
                        match new_name {
                            Some(n) => n@,
                            None => before.user.username@,
                        }) && after.user.avatar_url@ == (match new_avatar_url {
                            Some(a) => a@,
                            None => before.user.avatar_url@,
                        }))
                    },
            decreases n - k,
        {
            let row = &self.members[k];
            let username = if row.user.id == user_id {
                match &new_name {
                    Some(name) => clone_string(name),
                    None => clone_string(&row.user.username),
                }
            } else {
                clone_string(&row.user.username)
            };
            let avatar_url = if row.user.id == user_id {
                match &new_avatar_url {
                    Some(avatar) => clone_string(avatar),
                    None => clone_string(&row.user.avatar_url),
                }
            } else {
                clone_string(&row.user.avatar_url)
            };
            out.push(
                MemberRow {
                    group: row.group,
                    user: OsuUsers { id: row.user.id, username, avatar_url },
                    modes: copy_modes(&row.modes),
                },
            );
            k += 1;
        }
        self.members = out;
        proof {
            assert forall|i: int, j: int|
                0 <= i < self.members@.len() && 0 <= j < self.members@.len() && i != j implies !((
            #[trigger] self.members@[i]).group == (#[trigger] self.members@[j]).group
                && self.members@[i].user.id == self.members@[j].user.id) by {
                assert(self.members@[i].group == r0[i].group && self.members@[i].user.id
                    == r0[i].user.id);
                assert(self.members@[j].group == r0[j].group && self.members@[j].user.id
                    == r0[j].user.id);
            }
        }
    }

    fn contains_member(&self, group: OsuGroup, user_id: i32) -> (r: bool)
        ensures
            r == has_member(self.rows(), group, user_id),
    {
        let n = self.members.len();
        let mut k: usize = 0;
        while k < n
            invariant
                n == self.rows().len(),
                k <= n,
                forall|j: int|
                    0 <= j < k ==> !((#[trigger] self.rows()[j]).group == group
                        && self.rows()[j].user.id == user_id),
            decreases n - k,
        {
            let row = &self.members[k];
            if row.group == group && row.user.id == user_id {
                return true;
            }
            k += 1;
        }
        false
    }

    fn find_member(&self, group: OsuGroup, user_id: i32) -> (r: Option<usize>)
        ensures
            match r {
                Some(i) => lookup_member(self.rows(), group, user_id) == Some(i as int),
                None => lookup_member(self.rows(), group, user_id) is None,
            },
    {
        proof {
            lemma_lookup_member(self.rows(), group, user_id);
        }
        let n = self.members.len();
        let mut k: usize = 0;
        while k < n
            invariant
                n == self.rows().len(),
                k <= n,
                forall|j: int|
                    0 <= j < k ==> !((#[trigger] self.rows()[j]).group == group
                        && self.rows()[j].user.id == user_id),
            decreases n - k,
        {
            let row = &self.members[k];
            if row.group == group && row.user.id == user_id {
                proof {
                    lemma_lookup_member(self.rows(), group, user_id);
                    lemma_lookup_first(self.rows(), group, user_id, k as int);
                }
                return Some(k);
            }
            k += 1;
        }
        proof {
            lemma_lookup_member(self.rows(), group, user_id);
            if lookup_member(self.rows(), group, user_id) is Some {
                let i = lookup_member(self.rows(), group, user_id).unwrap();
                assert(self.rows()[i].group == group && self.rows()[i].user.id == user_id);
            }
        }
        None
    }
}

/// A first match at a position with nothing matching before it is what the
/// lookup finds.
proof fn lemma_lookup_first(s: Seq<MemberRow>, g: OsuGroup, user_id: i32, k: int)
    requires
        0 <= k < s.len(),
        s[k].group == g && s[k].user.id == user_id,
        forall|j: int| 0 <= j < k ==> !((#[trigger] s[j]).group == g && s[j].user.id == user_id),
    ensures
        lookup_member(s, g, user_id) == Some(k),
    decreases k,
{
    if k == 0 {
    } else {
        assert(s.drop_first()[k - 1] == s[k]);
        assert forall|j: int|
            0 <= j < k - 1 implies !((#[trigger] s.drop_first()[j]).group == g
            && s.drop_first()[j].user.id == user_id) by {
            assert(s.drop_first()[j] == s[j + 1]);
        }
        lemma_lookup_first(s.drop_first(), g, user_id, k - 1);
    }
}

proof fn lemma_filter_index_unique(s: Seq<MemberRow>, pred: spec_fn(MemberRow) -> bool, i: int, j: int)
    requires
        forall|a: int, b: int|
            0 <= a < s.len() && 0 <= b < s.len() && a != b ==> !((#[trigger] s[a]).group == (
            #[trigger] s[b]).group && s[a].user.id == s[b].user.id),
        0 <= i < s.filter(pred).len(),
        0 <= j < s.filter(pred).len(),
        i != j,
    ensures
        !(s.filter(pred)[i].group == s.filter(pred)[j].group && s.filter(pred)[i].user.id
            == s.filter(pred)[j].user.id),
{
    let same = |a: MemberRow, b: MemberRow| a.group == b.group && a.user.id == b.user.id;
    assert forall|a: int, b: int|
        0 <= a < s.len() && 0 <= b < s.len() && a != b implies !same(
        #[trigger] s[a],
        #[trigger] s[b],
    ) by {}
    crate::seq_util::lemma_filter_preserves_distinct_by(s, pred, same);
    assert(!same(s.filter(pred)[i], s.filter(pred)[j]));
}

fn clone_string(s: &String) -> (r: String)
    ensures
        r@ == s@,
{
    s.as_str().to_owned()
}

fn copy_modes(v: &Vec<OsuGamemode>) -> (r: Vec<OsuGamemode>)
    ensures
        r@ == v@,
{
    let n = v.len();
    let mut r: Vec<OsuGamemode> = Vec::new();
    let mut k: usize = 0;
    while k < n
        invariant
            n == v@.len(),
            k <= n,
            r@ == v@.take(k as int),
        decreases n - k,
    {
        broadcast use vstd::seq_lib::group_seq_properties;

        proof {
            v@.lemma_take_succ_push(k as int);
        }
        r.push(v[k]);
        k += 1;
    }
    proof {
        assert(v@.take(n as int) =~= v@);
    }
    r
}

fn find_modes_local<'a>(
    list: &'a Vec<(OsuGroup, Vec<OsuGamemode>)>,
    g: OsuGroup,
) -> (r: Option<&'a Vec<OsuGamemode>>)
    ensures
        match r {
            Some(m) => lookup_modes(list@, g) == Some(m@),
            None => lookup_modes(list@, g) is None,
        },
{
    let n = list.len();
    proof {
        assert(list@.subrange(0, n as int) =~= list@);
    }
    let mut k: usize = 0;
    while k < n
        invariant
            n == list@.len(),
            k <= n,
            lookup_modes(list@, g) == lookup_modes(list@.subrange(k as int, n as int), g),
        decreases n - k,
    {
        proof {
            let cur = list@.subrange(k as int, n as int);
            assert(cur[0] == list@[k as int]);
            assert(cur.drop_first() =~= list@.subrange(k + 1, n as int));
        }
        if list[k].0 == g {
            return Some(&list[k].1);
        }
        k += 1;
    }
    proof {
        assert(list@.subrange(n as int, n as int).len() == 0);
    }
    None
}

fn modes_not_in_removed(a: &Vec<OsuGamemode>, removed: &Vec<OsuGamemode>) -> (r: Vec<OsuGamemode>)
    ensures
        r@ == a@.filter((|m: OsuGamemode| !removed@.contains(m))),
{
    broadcast use vstd::seq_lib::group_seq_properties;

    let n = a.len();
    let mut r: Vec<OsuGamemode> = Vec::new();
    proof {
        reveal(Seq::filter);
        assert(a@.take(0) =~= Seq::<OsuGamemode>::empty());
    }
    let mut k: usize = 0;
    while k < n
        invariant
            n == a@.len(),
            k <= n,
            r@ == a@.take(k as int).filter((|m: OsuGamemode| !removed@.contains(m))),
        decreases n - k,
    {
        proof {
            a@.lemma_take_succ_push(k as int);
            a@.take(k as int).lemma_filter_push(
                a@[k as int],
                (|m: OsuGamemode| !removed@.contains(m)),
            );
        }
        let mut found = false;
        let rn = removed.len();
        let mut t: usize = 0;
        while t < rn
            invariant
                rn == removed@.len(),
                t <= rn,
                n == a@.len(),
                k < n,
                found == exists|j: int| 0 <= j < t && removed@[j] == a@[k as int],
            decreases rn - t,
        {
            if removed[t] == a[k] {
                found = true;
            }
            t += 1;
        }
        proof {
            assert(found == removed@.contains(a@[k as int])) by {
                if found {
                    let j = choose|j: int| 0 <= j < removed@.len() && removed@[j] == a@[k as int];
                }
            }
        }
        if !found {
            r.push(a[k]);
        }
        k += 1;
    }
    proof {
        assert(a@.take(n as int) =~= a@);
    }
    r
}

} // verus!
