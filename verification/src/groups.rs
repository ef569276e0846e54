//! Group feed logic: cutting the member list out of a scraped group page and
//! computing the three-way difference between the remote and the stored
//! member snapshot, including the per-group discipline sub-diff.

use vstd::prelude::*;

use crate::models::{Diff, ExtractError, GamemodeUpdate, OsuGamemode, OsuGroup, OsuUser};
use crate::text::{extract_between, occurs_at, trim_spec};
use vstd::string::StringSliceAdditionalSpecFns;

verus! {

/// Opening marker of the embedded member list on a group page.
pub open spec fn start_tag_bytes() -> Seq<u8> {
    "<script id=\"json-users\" type=\"application/json\">".spec_bytes()
}

/// Closing marker of the embedded member list.
pub open spec fn end_tag_bytes() -> Seq<u8> {
    "</script>".spec_bytes()
}

/// Cuts the JSON member list out of a scraped group page: the bytes between
/// the first opening marker and the next closing marker, trimmed of ASCII
/// whitespace. Tells a page without the opening marker apart from one where
/// the marker is never closed.
pub fn extract_json(html: &[u8]) -> (r: Result<Vec<u8>, ExtractError>)
    ensures
        match r {
            Ok(v) => exists|i: int, e: int|
                {
                    &&& #[trigger] occurs_at(html@, start_tag_bytes(), i)
                    &&& forall|j: int| 0 <= j < i ==> !occurs_at(html@, start_tag_bytes(), j)
                    &&& i + start_tag_bytes().len() <= e
                    &&& #[trigger] occurs_at(html@, end_tag_bytes(), e)
                    &&& forall|j: int|
                        i + start_tag_bytes().len() <= j < e ==> !occurs_at(
                            html@,
                            end_tag_bytes(),
                            j,
                        )
                    &&& v@ == trim_spec(
                        html@.subrange(i + start_tag_bytes().len() as int, e),
                    )
                },
            Err(ExtractError::MissingStartTag) => forall|j: int|
                !occurs_at(html@, start_tag_bytes(), j),
            Err(ExtractError::MissingEndTag) => exists|i: int|
                {
                    &&& #[trigger] occurs_at(html@, start_tag_bytes(), i)
                    &&& forall|j: int|
                        i + start_tag_bytes().len() <= j ==> !occurs_at(html@, end_tag_bytes(), j)
                },
        },
{
    let start_tag: &[u8] = "<script id=\"json-users\" type=\"application/json\">".as_bytes();
    let end_tag: &[u8] = "</script>".as_bytes();
    proof {
        assert(start_tag@ == start_tag_bytes());
        assert(end_tag@ == end_tag_bytes());
    }
    extract_between(html, start_tag, end_tag)
}

/// Some record in `s` carries the identifier `id`.
pub open spec fn contains_id(s: Seq<OsuUser>, id: i32) -> bool {
    exists|i: int| 0 <= i < s.len() && #[trigger] s[i].id == id
}

/// First record in `s` carrying the identifier `id`, if any.
pub open spec fn lookup_user(s: Seq<OsuUser>, id: i32) -> Option<OsuUser>
    decreases s.len(),
{
    if s.len() == 0 {
        None
    } else if s[0].id == id {
        Some(s[0])
    } else {
        lookup_user(s.drop_first(), id)
    }
}

pub proof fn lemma_lookup_contains(s: Seq<OsuUser>, id: i32)
    ensures
        contains_id(s, id) <==> lookup_user(s, id) is Some,
    decreases s.len(),
{
    if s.len() > 0 && s[0].id != id {
        lemma_lookup_contains(s.drop_first(), id);
        assert(contains_id(s, id) ==> contains_id(s.drop_first(), id)) by {
            if contains_id(s, id) {
                let i = choose|i: int| 0 <= i < s.len() && #[trigger] s[i].id == id;
                assert(s.drop_first()[i - 1].id == id);
            }
        }
        assert(contains_id(s.drop_first(), id) ==> contains_id(s, id)) by {
            if contains_id(s.drop_first(), id) {
                let i = choose|i: int|
                    0 <= i < s.drop_first().len() && #[trigger] s.drop_first()[i].id == id;
                assert(s[i + 1].id == id);
            }
        }
    }
}

/// Finds the first record with the given identifier.
fn find_user<'a>(v: &'a Vec<OsuUser>, id: i32) -> (r: Option<&'a OsuUser>)
    ensures
        match r {
            Some(u) => lookup_user(v@, id) == Some(*u),
            None => lookup_user(v@, id) is None,
        },
{
    let n = v.len();
    proof {
        assert(v@.subrange(0, n as int) =~= v@);
    }
    let mut k: usize = 0;
    while k < n
        invariant
            n == v@.len(),
            k <= n,
            lookup_user(v@, id) == lookup_user(v@.subrange(k as int, n as int), id),
        decreases n - k,
    {
        proof {
            let cur = v@.subrange(k as int, n as int);
            assert(cur[0] == v@[k as int]);
            assert(cur.drop_first() =~= v@.subrange(k + 1, n as int));
        }
        if v[k].id == id {
            return Some(&v[k]);
        }
        k += 1;
    }
    proof {
        assert(v@.subrange(n as int, n as int).len() == 0);
    }
    None
}

/// First discipline list recorded for group `g` in a membership list.
pub open spec fn lookup_modes(
    list: Seq<(OsuGroup, Vec<OsuGamemode>)>,
    g: OsuGroup,
) -> Option<Seq<OsuGamemode>>
    decreases list.len(),
{
    if list.len() == 0 {
        None
    } else if list[0].0 == g {
        Some(list[0].1@)
    } else {
        lookup_modes(list.drop_first(), g)
    }
}

fn find_modes<'a>(list: &'a Vec<(OsuGroup, Vec<OsuGamemode>)>, g: OsuGroup) -> (r: Option<
    &'a Vec<OsuGamemode>,
>)
    ensures
        match r {
            Some(m) => lookup_modes(list@, g) == Some(m@),
            None => lookup_modes(list@, g) is None,
        },
{
    let n = list.len();
    proof {
        assert(list@.subrange(0, n as int) =~= list@);
    }
    let mut k: usize = 0;
    while k < n
        invariant
            n == list@.len(),
            k <= n,
            lookup_modes(list@, g) == lookup_modes(list@.subrange(k as int, n as int), g),
        decreases n - k,
    {
        proof {
            let cur = list@.subrange(k as int, n as int);
            assert(cur[0] == list@[k as int]);
            assert(cur.drop_first() =~= list@.subrange(k + 1, n as int));
        }
        if list[k].0 == g {
            return Some(&list[k].1);
        }
        k += 1;
    }
    proof {
        assert(list@.subrange(n as int, n as int).len() == 0);
    }
    None
}

/// Does `v` list the discipline `m`?
fn contains_mode(v: &Vec<OsuGamemode>, m: OsuGamemode) -> (r: bool)
    ensures
        r == v@.contains(m),
{
    let n = v.len();
    let mut k: usize = 0;
    while k < n
        invariant
            n == v@.len(),
            k <= n,
            forall|j: int| 0 <= j < k ==> v@[j] != m,
        decreases n - k,
    {
        if v[k] == m {
            return true;
        }
        k += 1;
    }
    false
}

/// Disciplines of `a` that `b` does not list, in the order `a` lists them.
pub open spec fn mode_diff(a: Seq<OsuGamemode>, b: Seq<OsuGamemode>) -> Seq<OsuGamemode> {
    a.filter(|m: OsuGamemode| !b.contains(m))
}

fn modes_not_in(a: &Vec<OsuGamemode>, b: &Vec<OsuGamemode>) -> (r: Vec<OsuGamemode>)
    ensures
        r@ == mode_diff(a@, b@),
{
    broadcast use vstd::seq_lib::group_seq_properties;

    let ghost pred = |m: OsuGamemode| !b@.contains(m);
    let n = a.len();
    let mut r: Vec<OsuGamemode> = Vec::new();
    proof {
        reveal(Seq::filter);
        assert(a@.take(0) =~= Seq::<OsuGamemode>::empty());
    }
    let mut k: usize = 0;
    while k < n
        invariant
            n == a@.len(),
            k <= n,
            r@ == a@.take(k as int).filter(|m: OsuGamemode| !b@.contains(m)),
        decreases n - k,
    {
        let keep = !contains_mode(b, a[k]);
        proof {
            a@.lemma_take_succ_push(k as int);
            a@.take(k as int).lemma_filter_push(
                a@[k as int],
                |m: OsuGamemode| !b@.contains(m),
            );
        }
        if keep {
            r.push(a[k]);
        }
        k += 1;
    }
    proof {
        assert(a@.take(n as int) =~= a@);
    }
    r
}

/// The change the differ reports for one member present in both snapshots:
/// the first group of the remote membership list that the stored list also
/// carries with a differing discipline set, together with the disciplines
/// gained and lost there.
pub open spec fn first_change(
    api: Seq<(OsuGroup, Vec<OsuGamemode>)>,
    stored: Seq<(OsuGroup, Vec<OsuGamemode>)>,
) -> Option<(Seq<OsuGamemode>, Seq<OsuGamemode>)>
    decreases api.len(),
{
    if api.len() == 0 {
        None
    } else {
        let g = api[0].0;
        let am = api[0].1@;
        match lookup_modes(stored, g) {
            Some(sm) => if mode_diff(am, sm).len() > 0 || mode_diff(sm, am).len() > 0 {
                Some((mode_diff(am, sm), mode_diff(sm, am)))
            } else {
                first_change(api.drop_first(), stored)
            },
            None => first_change(api.drop_first(), stored),
        }
    }
}

fn compute_first_change(
    api: &Vec<(OsuGroup, Vec<OsuGamemode>)>,
    stored: &Vec<(OsuGroup, Vec<OsuGamemode>)>,
) -> (r: Option<(Vec<OsuGamemode>, Vec<OsuGamemode>)>)
    ensures
        match r {
            Some(p) => first_change(api@, stored@) == Some((p.0@, p.1@)),
            None => first_change(api@, stored@) is None,
        },
{
    let n = api.len();
    proof {
        assert(api@.subrange(0, n as int) =~= api@);
    }
    let mut k: usize = 0;
    while k < n
        invariant
            n == api@.len(),
            k <= n,
            first_change(api@, stored@) == first_change(
                api@.subrange(k as int, n as int),
                stored@,
            ),
        decreases n - k,
    {
        proof {
            let cur = api@.subrange(k as int, n as int);
            assert(cur[0] == api@[k as int]);
            assert(cur.drop_first() =~= api@.subrange(k + 1, n as int));
        }
        let pair = &api[k];
        match find_modes(stored, pair.0) {
            Some(sm) => {
                let gained = modes_not_in(&pair.1, sm);
                let lost = modes_not_in(sm, &pair.1);
                if gained.len() > 0 || lost.len() > 0 {
                    return Some((gained, lost));
                }
            },
            None => {},
        }
        k += 1;
    }
    proof {
        assert(api@.subrange(n as int, n as int).len() == 0);
    }
    None
}

/// The remote record's group at position `k` is also on the stored record,
/// with a discipline set differing from the remote one.
pub open spec fn is_changed_at(
    api: Seq<(OsuGroup, Vec<OsuGamemode>)>,
    stored: Seq<(OsuGroup, Vec<OsuGamemode>)>,
    k: int,
) -> bool {
    match lookup_modes(stored, api[k].0) {
        Some(sm) => mode_diff(api[k].1@, sm).len() > 0 || mode_diff(sm, api[k].1@).len() > 0,
        None => false,
    }
}

/// Attribute diff correctness in general: a change is reported for a member
/// exactly when some group its remote record lists is also on its stored
/// record with a differing discipline set — and what is reported is the
/// gained/lost split of the first such group.
pub proof fn lemma_first_change_characterizes(
    api: Seq<(OsuGroup, Vec<OsuGamemode>)>,
    stored: Seq<(OsuGroup, Vec<OsuGamemode>)>,
)
    ensures
        first_change(api, stored) is Some <==> exists|k: int|
            0 <= k < api.len() && #[trigger] is_changed_at(api, stored, k),
        first_change(api, stored) matches Some(ch) ==> exists|k: int|
            {
                &&& 0 <= k < api.len()
                &&& #[trigger] is_changed_at(api, stored, k)
                &&& forall|j: int| 0 <= j < k ==> !is_changed_at(api, stored, j)
                &&& lookup_modes(stored, api[k].0) matches Some(sm) && ch == (
                    mode_diff(api[k].1@, sm),
                    mode_diff(sm, api[k].1@),
                )
            },
    decreases api.len(),
{
    if api.len() == 0 {
        assert(first_change(api, stored) is None);
    } else if is_changed_at(api, stored, 0) {
        let sm = lookup_modes(stored, api[0].0).unwrap();
        assert(first_change(api, stored) == Some(
            (mode_diff(api[0].1@, sm), mode_diff(sm, api[0].1@)),
        ));
    } else {
        let rest = api.drop_first();
        lemma_first_change_characterizes(rest, stored);
        assert(first_change(api, stored) == first_change(rest, stored));
        assert forall|j: int| 1 <= j < api.len() implies (#[trigger] is_changed_at(
            api,
            stored,
            j,
        ) == is_changed_at(rest, stored, j - 1)) by {
            assert(rest[j - 1] == api[j]);
        }
        if first_change(api, stored) is Some {
            let k = choose|k: int|
                {
                    &&& 0 <= k < rest.len()
                    &&& #[trigger] is_changed_at(rest, stored, k)
                    &&& forall|j: int| 0 <= j < k ==> !is_changed_at(rest, stored, j)
                    &&& lookup_modes(stored, rest[k].0) matches Some(sm) && first_change(
                        rest,
                        stored,
                    ) == Some((mode_diff(rest[k].1@, sm), mode_diff(sm, rest[k].1@)))
                };
            assert(rest[k] == api[k + 1]);
            assert(is_changed_at(api, stored, k + 1));
            assert forall|j: int| 0 <= j < k + 1 implies !is_changed_at(api, stored, j) by {
                if j > 0 {
                    assert(!is_changed_at(rest, stored, j - 1));
                }
            }
        } else {
            if exists|k: int| 0 <= k < api.len() && #[trigger] is_changed_at(api, stored, k) {
                let k = choose|k: int|
                    0 <= k < api.len() && #[trigger] is_changed_at(api, stored, k);
                assert(is_changed_at(rest, stored, k - 1));
            }
        }
    }
}

/// Records of `external` whose identifier is absent from `stored`, in
/// `external` order.
pub open spec fn added_of(stored: Seq<OsuUser>, external: Seq<OsuUser>) -> Seq<OsuUser> {
    external.filter(|u: OsuUser| !contains_id(stored, u.id))
}

/// Records of `stored` whose identifier is absent from `external`, in
/// `stored` order.
pub open spec fn removed_of(stored: Seq<OsuUser>, external: Seq<OsuUser>) -> Seq<OsuUser> {
    stored.filter(|u: OsuUser| !contains_id(external, u.id))
}

/// An identifier is found in a snapshot exactly when the snapshot's set
/// holds a record carrying it.
proof fn lemma_contains_id_set(s: Seq<OsuUser>, id: i32)
    ensures
        contains_id(s, id) <==> exists|u: OsuUser| #[trigger] s.to_set().contains(u) && u.id == id,
{
    if contains_id(s, id) {
        let i = choose|i: int| 0 <= i < s.len() && #[trigger] s[i].id == id;
        assert(s.contains(s[i]));
        assert(s.to_set().contains(s[i]));
    }
    if exists|u: OsuUser| #[trigger] s.to_set().contains(u) && u.id == id {
        let u = choose|u: OsuUser| #[trigger] s.to_set().contains(u) && u.id == id;
        let i = choose|i: int| 0 <= i < s.len() && s[i] == u;
        assert(s[i].id == id);
    }
}

/// The diff's two sides depend on the snapshots only as sets: feeding the
/// differ the same records in any order reports the same members added and
/// the same members removed.
pub proof fn lemma_diff_depends_on_sets(
    s1: Seq<OsuUser>,
    e1: Seq<OsuUser>,
    s2: Seq<OsuUser>,
    e2: Seq<OsuUser>,
)
    requires
        s1.to_set() == s2.to_set(),
        e1.to_set() == e2.to_set(),
    ensures
        added_of(s1, e1).to_set() == added_of(s2, e2).to_set(),
        removed_of(s1, e1).to_set() == removed_of(s2, e2).to_set(),
{
    broadcast use vstd::set::group_set_axioms;

    crate::seq_util::lemma_filter_membership(e1, |u: OsuUser| !contains_id(s1, u.id));
    crate::seq_util::lemma_filter_membership(e2, |u: OsuUser| !contains_id(s2, u.id));
    crate::seq_util::lemma_filter_membership(s1, |u: OsuUser| !contains_id(e1, u.id));
    crate::seq_util::lemma_filter_membership(s2, |u: OsuUser| !contains_id(e2, u.id));
    assert forall|x: OsuUser|
        added_of(s1, e1).to_set().contains(x) <==> added_of(s2, e2).to_set().contains(x) by {
        lemma_contains_id_set(s1, x.id);
        lemma_contains_id_set(s2, x.id);
        assert(e1.to_set().contains(x) <==> e1.contains(x));
        assert(e2.to_set().contains(x) <==> e2.contains(x));
        assert(e1.contains(x) <==> e2.contains(x));
    }
    assert(added_of(s1, e1).to_set() =~= added_of(s2, e2).to_set());
    assert forall|x: OsuUser|
        removed_of(s1, e1).to_set().contains(x) <==> removed_of(s2, e2).to_set().contains(x) by {
        lemma_contains_id_set(e1, x.id);
        lemma_contains_id_set(e2, x.id);
        assert(s1.to_set().contains(x) <==> s1.contains(x));
        assert(s2.to_set().contains(x) <==> s2.contains(x));
        assert(s1.contains(x) <==> s2.contains(x));
    }
    assert(removed_of(s1, e1).to_set() =~= removed_of(s2, e2).to_set());
}

/// The updated entry (if any) one remote record contributes: its first
/// reported discipline change against the stored record with the same id.
pub open spec fn entry_of(stored: Seq<OsuUser>, u: OsuUser) -> Seq<
    (OsuUser, (Seq<OsuGamemode>, Seq<OsuGamemode>)),
> {
    match lookup_user(stored, u.id) {
        Some(su) => match first_change(u.member_of@, su.member_of@) {
            Some(ch) => seq![(u, ch)],
            None => Seq::empty(),
        },
        None => Seq::empty(),
    }
}

/// All updated entries, in `external` order.
pub open spec fn updated_pairs(stored: Seq<OsuUser>, external: Seq<OsuUser>) -> Seq<
    (OsuUser, (Seq<OsuGamemode>, Seq<OsuGamemode>)),
> {
    external.flat_map(|u: OsuUser| entry_of(stored, u))
}

proof fn lemma_updated_pairs_push(stored: Seq<OsuUser>, a: Seq<OsuUser>, u: OsuUser)
    ensures
        updated_pairs(stored, a.push(u)) == updated_pairs(stored, a) + entry_of(stored, u),
{
    a.lemma_flat_map_push(|u: OsuUser| entry_of(stored, u), u);
}

proof fn lemma_added_push(stored: Seq<OsuUser>, a: Seq<OsuUser>, u: OsuUser)
    ensures
        added_of(stored, a.push(u)) == if !contains_id(stored, u.id) {
            added_of(stored, a).push(u)
        } else {
            added_of(stored, a)
        },
{
    a.lemma_filter_push(u, |u: OsuUser| !contains_id(stored, u.id));
    if !contains_id(stored, u.id) {
        assert(added_of(stored, a) + seq![u] =~= added_of(stored, a).push(u));
    }
}

proof fn lemma_removed_push(external: Seq<OsuUser>, a: Seq<OsuUser>, u: OsuUser)
    ensures
        removed_of(a.push(u), external) == if !contains_id(external, u.id) {
            removed_of(a, external).push(u)
        } else {
            removed_of(a, external)
        },
{
    a.lemma_filter_push(u, |u: OsuUser| !contains_id(external, u.id));
    if !contains_id(external, u.id) {
        assert(removed_of(a, external) + seq![u] =~= removed_of(a, external).push(u));
    }
}

/// No two records of the snapshot share an identifier — the documented
/// invariant of the snapshots the feeds exchange.
pub open spec fn unique_ids(s: Seq<OsuUser>) -> bool {
    forall|i: int, j: int|
        0 <= i < s.len() && 0 <= j < s.len() && i != j ==> (#[trigger] s[i]).id != (
        #[trigger] s[j]).id
}

/// What the lookup finds is a record of the snapshot carrying the asked id.
proof fn lemma_lookup_user_found(s: Seq<OsuUser>, id: i32)
    ensures
        lookup_user(s, id) matches Some(u) ==> s.contains(u) && u.id == id,
    decreases s.len(),
{
    if s.len() > 0 && !(s[0].id == id) {
        lemma_lookup_user_found(s.drop_first(), id);
        if lookup_user(s.drop_first(), id) is Some {
            let u = lookup_user(s.drop_first(), id).unwrap();
            let i = choose|i: int| 0 <= i < s.drop_first().len() && s.drop_first()[i] == u;
            assert(s[i + 1] == u);
        }
    } else if s.len() > 0 {
        assert(s.contains(s[0]));
    }
}

/// With unique identifiers, the lookup depends on the snapshot only as a
/// set.
proof fn lemma_lookup_user_set(s1: Seq<OsuUser>, s2: Seq<OsuUser>, id: i32)
    requires
        unique_ids(s2),
        s1.to_set() == s2.to_set(),
    ensures
        lookup_user(s1, id) == lookup_user(s2, id),
{
    broadcast use vstd::set::group_set_axioms;

    lemma_lookup_contains(s1, id);
    lemma_lookup_contains(s2, id);
    lemma_lookup_user_found(s1, id);
    lemma_lookup_user_found(s2, id);
    lemma_contains_id_set(s1, id);
    lemma_contains_id_set(s2, id);
    assert(contains_id(s1, id) <==> contains_id(s2, id)) by {
        assert(forall|u: OsuUser|
            #[trigger] s1.to_set().contains(u) == s2.to_set().contains(u));
    }
    if lookup_user(s1, id) is Some {
        let u1 = lookup_user(s1, id).unwrap();
        let u2 = lookup_user(s2, id).unwrap();
        assert(s1.to_set().contains(u1));
        assert(s2.to_set().contains(u1));
        assert(s2.contains(u1));
        let i = choose|i: int| 0 <= i < s2.len() && s2[i] == u1;
        let j = choose|j: int| 0 <= j < s2.len() && s2[j] == u2;
        if i != j {
            assert(s2[i].id != s2[j].id);
        }
    }
}

/// An entry sits among the updated pairs exactly when some remote record
/// contributes it.
proof fn lemma_updated_pairs_membership(stored: Seq<OsuUser>, e: Seq<OsuUser>)
    ensures
        forall|x: (OsuUser, (Seq<OsuGamemode>, Seq<OsuGamemode>))|
            #[trigger] updated_pairs(stored, e).contains(x) <==> exists|i: int|
                0 <= i < e.len() && #[trigger] entry_of(stored, e[i]).contains(x),
    decreases e.len(),
{
    let f = |u: OsuUser| entry_of(stored, u);
    if e.len() == 0 {
        assert(e.flat_map(f) =~= Seq::<
            (OsuUser, (Seq<OsuGamemode>, Seq<OsuGamemode>)),
        >::empty());
    } else {
        let d = e.drop_last();
        lemma_updated_pairs_membership(stored, d);
        d.lemma_flat_map_push(f, e.last());
        assert(d.push(e.last()) =~= e);
        let part1 = updated_pairs(stored, d);
        let part2 = entry_of(stored, e.last());
        assert(updated_pairs(stored, e) == part1 + part2);
        assert forall|x: (OsuUser, (Seq<OsuGamemode>, Seq<OsuGamemode>))|
            #[trigger] updated_pairs(stored, e).contains(x) <==> exists|i: int|
                0 <= i < e.len() && #[trigger] entry_of(stored, e[i]).contains(x) by {
            if updated_pairs(stored, e).contains(x) {
                let idx = choose|idx: int|
                    0 <= idx < updated_pairs(stored, e).len() && updated_pairs(stored, e)[idx]
                        == x;
                if idx < part1.len() {
                    assert(part1[idx] == x);
                    assert(part1.contains(x));
                    let i = choose|i: int|
                        0 <= i < d.len() && #[trigger] entry_of(stored, d[i]).contains(x);
                    assert(d[i] == e[i]);
                    assert(entry_of(stored, e[i]).contains(x));
                } else {
                    assert(part2[idx - part1.len()] == x);
                    assert(part2.contains(x));
                    assert(e[e.len() - 1] == e.last());
                    assert(entry_of(stored, e[e.len() - 1]).contains(x));
                }
            }
            if exists|i: int| 0 <= i < e.len() && #[trigger] entry_of(stored, e[i]).contains(x) {
                let i = choose|i: int|
                    0 <= i < e.len() && #[trigger] entry_of(stored, e[i]).contains(x);
                if i < d.len() {
                    assert(d[i] == e[i]);
                    assert(part1.contains(x));
                    let idx = choose|idx: int| 0 <= idx < part1.len() && part1[idx] == x;
                    assert(updated_pairs(stored, e)[idx] == x);
                } else {
                    assert(e[i] == e.last());
                    let idx = choose|idx: int| 0 <= idx < part2.len() && part2[idx] == x;
                    assert(updated_pairs(stored, e)[part1.len() + idx] == x);
                }
                assert(updated_pairs(stored, e).contains(x));
            }
        }
    }
}

/// With unique identifiers on the stored side, the reported attribute
/// changes too depend on the snapshots only as sets: feeding the differ the
/// same records in any order reports the same set of updated entries.
pub proof fn lemma_updated_depends_on_sets(
    s1: Seq<OsuUser>,
    e1: Seq<OsuUser>,
    s2: Seq<OsuUser>,
    e2: Seq<OsuUser>,
)
    requires
        unique_ids(s1),
        unique_ids(s2),
        s1.to_set() == s2.to_set(),
        e1.to_set() == e2.to_set(),
    ensures
        updated_pairs(s1, e1).to_set() == updated_pairs(s2, e2).to_set(),
{
    broadcast use vstd::set::group_set_axioms;

    lemma_updated_pairs_membership(s1, e1);
    lemma_updated_pairs_membership(s2, e2);
    assert forall|x: (OsuUser, (Seq<OsuGamemode>, Seq<OsuGamemode>))|
        updated_pairs(s1, e1).to_set().contains(x) <==> updated_pairs(
            s2,
            e2,
        ).to_set().contains(x) by {
        assert(updated_pairs(s1, e1).to_set().contains(x) == updated_pairs(s1, e1).contains(x));
        assert(updated_pairs(s2, e2).to_set().contains(x) == updated_pairs(s2, e2).contains(x));
        if updated_pairs(s1, e1).contains(x) {
            let i = choose|i: int|
                0 <= i < e1.len() && #[trigger] entry_of(s1, e1[i]).contains(x);
            let u = e1[i];
            assert(e1.contains(u));
            assert(e2.to_set().contains(u));
            assert(e2.contains(u));
            let j = choose|j: int| 0 <= j < e2.len() && e2[j] == u;
            lemma_lookup_user_set(s2, s1, u.id);
            assert(entry_of(s2, e2[j]) == entry_of(s1, u));
        }
        if updated_pairs(s2, e2).contains(x) {
            let i = choose|i: int|
                0 <= i < e2.len() && #[trigger] entry_of(s2, e2[i]).contains(x);
            let u = e2[i];
            assert(e2.contains(u));
            assert(e1.to_set().contains(u));
            assert(e1.contains(u));
            let j = choose|j: int| 0 <= j < e1.len() && e1[j] == u;
            lemma_lookup_user_set(s1, s2, u.id);
            assert(entry_of(s1, e1[j]) == entry_of(s2, u));
        }
    }
    assert(updated_pairs(s1, e1).to_set() =~= updated_pairs(s2, e2).to_set());
}

/// The executable updated list renders the ghost updated entries under the
/// group the diff was taken for.
pub open spec fn updated_matches(
    ex: Seq<(OsuUser, GamemodeUpdate)>,
    sp: Seq<(OsuUser, (Seq<OsuGamemode>, Seq<OsuGamemode>))>,
    g: OsuGroup,
) -> bool {
    &&& ex.len() == sp.len()
    &&& forall|i: int|
        0 <= i < ex.len() ==> {
            &&& (#[trigger] ex[i]).0 == sp[i].0
            &&& ex[i].1.group == g
            &&& ex[i].1.added@ == sp[i].1.0
            &&& ex[i].1.removed@ == sp[i].1.1
        }
}

/// Three-way difference between the stored and the freshly scraped member
/// snapshot of one group: members only the remote side lists, members only
/// the store lists, and members on both sides whose discipline sets changed.
/// An identifier never lands in both `added` and `removed`.
pub fn get_diff(stored_data: Vec<OsuUser>, external_data: Vec<OsuUser>, for_group: OsuGroup) -> (d:
    Diff)
    ensures
        d.added@ == added_of(stored_data@, external_data@),
        d.removed@ == removed_of(stored_data@, external_data@),
        updated_matches(d.updated@, updated_pairs(stored_data@, external_data@), for_group),
{
    broadcast use vstd::seq_lib::group_seq_properties;

    let ghost st0 = stored_data@;
    let ghost ext0 = external_data@;

    // Identifiers of the remote snapshot, read during the removed pass after
    // the remote records themselves have been moved out.
    let mut external_ids: Vec<i32> = Vec::new();
    let mut k: usize = 0;
    while k < external_data.len()
        invariant
            external_data@ == ext0,
            k <= ext0.len(),
            external_ids@.len() == k,
            forall|j: int| 0 <= j < k ==> external_ids@[j] == ext0[j].id,
        decreases ext0.len() - k,
    {
        external_ids.push(external_data[k].id);
        k += 1;
    }

    let mut external_data = external_data;
    let total_e = external_data.len();
    let mut added: Vec<OsuUser> = Vec::new();
    let mut updated: Vec<(OsuUser, GamemodeUpdate)> = Vec::new();
    proof {
        reveal(Seq::filter);
        assert(ext0.take(0) =~= Seq::<OsuUser>::empty());
        assert(Seq::<OsuUser>::empty().flat_map(|u: OsuUser| entry_of(st0, u)) =~= Seq::<
            (OsuUser, (Seq<OsuGamemode>, Seq<OsuGamemode>)),
        >::empty());
    }
    let mut done: usize = 0;
    while external_data.len() > 0
        invariant
            stored_data@ == st0,
            total_e == ext0.len(),
            done + external_data@.len() == ext0.len(),
            done <= total_e,
            external_data@ == ext0.subrange(done as int, ext0.len() as int),
            added@ == added_of(st0, ext0.take(done as int)),
            updated_matches(updated@, updated_pairs(st0, ext0.take(done as int)), for_group),
        decreases external_data@.len(),
    {
        let u = external_data.remove(0);
        proof {
            assert(u == ext0[done as int]);
            assert(external_data@ =~= ext0.subrange(done + 1, ext0.len() as int));
            ext0.lemma_take_succ_push(done as int);
            lemma_added_push(st0, ext0.take(done as int), u);
            lemma_updated_pairs_push(st0, ext0.take(done as int), u);
            lemma_lookup_contains(st0, u.id);
        }
        match find_user(&stored_data, u.id) {
            Some(su) => {
                let change = compute_first_change(&u.member_of, &su.member_of);
                match change {
                    Some(p) => {
                        let ghost prev_sp = updated_pairs(st0, ext0.take(done as int));
                        proof {
                            assert(entry_of(st0, u) =~= seq![(u, (p.0@, p.1@))]);
                        }
                        updated.push(
                            (
                                u,
                                GamemodeUpdate {
                                    group: for_group,
                                    added: p.0,
                                    removed: p.1,
                                },
                            ),
                        );
                        proof {
                            let sp = updated_pairs(st0, ext0.take(done + 1));
                            assert(sp =~= prev_sp + seq![(u, (p.0@, p.1@))]);
                            assert forall|i: int| 0 <= i < updated@.len() implies {
                                &&& (#[trigger] updated@[i]).0 == sp[i].0
                                &&& updated@[i].1.group == for_group
                                &&& updated@[i].1.added@ == sp[i].1.0
                                &&& updated@[i].1.removed@ == sp[i].1.1
                            } by {
                                if i < updated@.len() - 1 {
                                    assert(sp[i] == prev_sp[i]);
                                }
                            }
                        }
                    },
                    None => {
                        proof {
                            assert(entry_of(st0, u) =~= Seq::<
                                (OsuUser, (Seq<OsuGamemode>, Seq<OsuGamemode>)),
                            >::empty());
                            assert(updated_pairs(st0, ext0.take(done + 1)) =~= updated_pairs(
                                st0,
                                ext0.take(done as int),
                            ));
                        }
                    },
                }
            },
            None => {
                added.push(u);
                proof {
                    assert(entry_of(st0, u) =~= Seq::<
                        (OsuUser, (Seq<OsuGamemode>, Seq<OsuGamemode>)),
                    >::empty());
                    assert(updated_pairs(st0, ext0.take(done + 1)) =~= updated_pairs(
                        st0,
                        ext0.take(done as int),
                    ));
                }
            },
        }
        done += 1;
    }
    proof {
        assert(ext0.take(done as int) =~= ext0);
    }

    let mut stored_data = stored_data;
    let total_s = stored_data.len();
    let mut removed: Vec<OsuUser> = Vec::new();
    proof {
        assert(st0.take(0) =~= Seq::<OsuUser>::empty());
    }
    let mut done_s: usize = 0;
    while stored_data.len() > 0
        invariant
            total_s == st0.len(),
            done_s + stored_data@.len() == st0.len(),
            done_s <= total_s,
            stored_data@ == st0.subrange(done_s as int, st0.len() as int),
            external_ids@.len() == ext0.len(),
            forall|j: int| 0 <= j < ext0.len() ==> external_ids@[j] == ext0[j].id,
            removed@ == removed_of(st0.take(done_s as int), ext0),
        decreases stored_data@.len(),
    {
        let su = stored_data.remove(0);
        proof {
            assert(su == st0[done_s as int]);
            assert(stored_data@ =~= st0.subrange(done_s + 1, st0.len() as int));
            st0.lemma_take_succ_push(done_s as int);
            lemma_removed_push(ext0, st0.take(done_s as int), su);
        }
        let shared = contains_i32(&external_ids, su.id);
        proof {
            assert(external_ids@.contains(su.id) <==> contains_id(ext0, su.id)) by {
                if external_ids@.contains(su.id) {
                    let j = choose|j: int|
                        0 <= j < external_ids@.len() && external_ids@[j] == su.id;
                    assert(ext0[j].id == su.id);
                }
                if contains_id(ext0, su.id) {
                    let j = choose|j: int| 0 <= j < ext0.len() && #[trigger] ext0[j].id == su.id;
                    assert(external_ids@[j] == su.id);
                }
            }
        }
        if !shared {
            removed.push(su);
        }
        done_s += 1;
    }
    proof {
        assert(st0.take(done_s as int) =~= st0);
    }

    Diff { added, removed, updated }
}

/// View of an optional owned string.
pub open spec fn opt_str_view(o: Option<String>) -> Option<Seq<char>> {
    match o {
        Some(s) => Some(s@),
        None => None,
    }
}

/// The profile correction one remote record contributes: the fresh display
/// name and avatar reference where they differ from the stored record with
/// the same identifier.
pub open spec fn profile_entry(local: Seq<OsuUser>, u: OsuUser) -> Seq<
    (i32, Option<Seq<char>>, Option<Seq<char>>),
> {
    match lookup_user(local, u.id) {
        Some(su) => {
            let name = if su.username@ != u.username@ {
                Some(u.username@)
            } else {
                None
            };
            let avatar = if su.avatar_url@ != u.avatar_url@ {
                Some(u.avatar_url@)
            } else {
                None
            };
            if name is Some || avatar is Some {
                seq![(u.id, name, avatar)]
            } else {
                Seq::empty()
            }
        },
        None => Seq::empty(),
    }
}

/// All profile corrections, in `remote` order.
pub open spec fn profile_updates(local: Seq<OsuUser>, remote: Seq<OsuUser>) -> Seq<
    (i32, Option<Seq<char>>, Option<Seq<char>>),
> {
    remote.flat_map(|u: OsuUser| profile_entry(local, u))
}

/// The executable update list renders the ghost profile corrections.
pub open spec fn profiles_match(
    ex: Seq<(i32, Option<String>, Option<String>)>,
    sp: Seq<(i32, Option<Seq<char>>, Option<Seq<char>>)>,
) -> bool {
    &&& ex.len() == sp.len()
    &&& forall|i: int|
        0 <= i < ex.len() ==> {
            &&& (#[trigger] ex[i]).0 == sp[i].0
            &&& opt_str_view(ex[i].1) == sp[i].1
            &&& opt_str_view(ex[i].2) == sp[i].2
        }
}

/// Profile refresh pass, independent of the group diff: for every member
/// present in both snapshots whose display name or avatar reference changed
/// remotely, the identifier with the fresh values.
pub fn update_profiles(local_users: &Vec<OsuUser>, remote_users: &Vec<OsuUser>) -> (r: Vec<
    (i32, Option<String>, Option<String>),
>)
    ensures
        profiles_match(r@, profile_updates(local_users@, remote_users@)),
{
    let ghost lc = local_users@;
    let ghost rm = remote_users@;
    let n = remote_users.len();
    let mut r: Vec<(i32, Option<String>, Option<String>)> = Vec::new();
    proof {
        assert(rm.take(0) =~= Seq::<OsuUser>::empty());
        assert(Seq::<OsuUser>::empty().flat_map(|u: OsuUser| profile_entry(lc, u)) =~= Seq::<
            (i32, Option<Seq<char>>, Option<Seq<char>>),
        >::empty());
    }
    let mut k: usize = 0;
    while k < n
        invariant
            n == rm.len(),
            k <= n,
            local_users@ == lc,
            remote_users@ == rm,
            profiles_match(r@, profile_updates(lc, rm.take(k as int))),
        decreases n - k,
    {
        let u = &remote_users[k];
        let ghost prev_sp = profile_updates(lc, rm.take(k as int));
        proof {
            rm.lemma_take_succ_push(k as int);
            rm.take(k as int).lemma_flat_map_push(|u: OsuUser| profile_entry(lc, u), rm[k as int]);
        }
        match find_user(local_users, u.id) {
            Some(su) => {
                let name_update: Option<String> = if !(su.username == u.username) {
                    Some(u.username.clone())
                } else {
                    None
                };
                let avatar_update: Option<String> = if !(su.avatar_url == u.avatar_url) {
                    Some(u.avatar_url.clone())
                } else {
                    None
                };
                if name_update.is_some() || avatar_update.is_some() {
                    let entry = (u.id, name_update, avatar_update);
                    proof {
                        assert(profile_entry(lc, rm[k as int]) =~= seq![
                            (
                                entry.0,
                                opt_str_view(entry.1),
                                opt_str_view(entry.2),
                            ),
                        ]);
                    }
                    r.push(entry);
                    proof {
                        let sp = profile_updates(lc, rm.take(k + 1));
                        assert forall|i: int| 0 <= i < r@.len() implies {
                            &&& (#[trigger] r@[i]).0 == sp[i].0
                            &&& opt_str_view(r@[i].1) == sp[i].1
                            &&& opt_str_view(r@[i].2) == sp[i].2
                        } by {
                            if i < r@.len() - 1 {
                                assert(sp[i] == prev_sp[i]);
                            } else {
                                assert(sp[i] == profile_entry(lc, rm[k as int])[0]);
                            }
                        }
                    }
                } else {
                    proof {
                        assert(profile_entry(lc, rm[k as int]) =~= Seq::<
                            (i32, Option<Seq<char>>, Option<Seq<char>>),
                        >::empty());
                        assert(profile_updates(lc, rm.take(k + 1)) =~= prev_sp);
                    }
                }
            },
            None => {
                proof {
                    assert(profile_entry(lc, rm[k as int]) =~= Seq::<
                        (i32, Option<Seq<char>>, Option<Seq<char>>),
                    >::empty());
                    assert(profile_updates(lc, rm.take(k + 1)) =~= prev_sp);
                }
            },
        }
        k += 1;
    }
    proof {
        assert(rm.take(n as int) =~= rm);
    }
    r
}

/// An identifier never lands on both sides of the diff: whatever only the
/// remote snapshot lists cannot also be something only the store lists.
pub proof fn lemma_diff_sides_disjoint(stored: Seq<OsuUser>, external: Seq<OsuUser>)
    ensures
        forall|i: int, j: int|
            0 <= i < added_of(stored, external).len() && 0 <= j < removed_of(
                stored,
                external,
            ).len() ==> (#[trigger] added_of(stored, external)[i]).id != (#[trigger] removed_of(
                stored,
                external,
            )[j]).id,
{
    let added = added_of(stored, external);
    let removed = removed_of(stored, external);
    assert forall|i: int, j: int|
        0 <= i < added.len() && 0 <= j < removed.len() implies (#[trigger] added[i]).id != (
    #[trigger] removed[j]).id by {
        assert(added.contains(added[i]));
        assert(removed.contains(removed[j]));
        crate::seq_util::lemma_filter_mem(
            external,
            |u: OsuUser| !contains_id(stored, u.id),
            added[i],
        );
        crate::seq_util::lemma_filter_mem(
            stored,
            |u: OsuUser| !contains_id(external, u.id),
            removed[j],
        );
        let sj = choose|x: int| 0 <= x < stored.len() && #[trigger] stored[x] == removed[j];
        assert(stored[sj].id == removed[j].id);
        if added[i].id == removed[j].id {
            assert(contains_id(stored, added[i].id));
        }
    }
}

/// Attribute diff correctness: for records that both list exactly group `g`,
/// the reported change holds the remote disciplines the store lacks and the
/// stored disciplines the remote side dropped, and no change is reported
/// when both lists agree as sets.
pub proof fn lemma_attribute_diff(
    u: OsuUser,
    su: OsuUser,
    g: OsuGroup,
    remote_modes: Vec<OsuGamemode>,
    local_modes: Vec<OsuGamemode>,
)
    requires
        u.member_of@ == seq![(g, remote_modes)],
        su.member_of@ == seq![(g, local_modes)],
    ensures
        first_change(u.member_of@, su.member_of@) == if mode_diff(remote_modes@, local_modes@).len()
            > 0 || mode_diff(local_modes@, remote_modes@).len() > 0 {
            Some((mode_diff(remote_modes@, local_modes@), mode_diff(local_modes@, remote_modes@)))
        } else {
            None::<(Seq<OsuGamemode>, Seq<OsuGamemode>)>
        },
{
    assert(u.member_of@[0] == (g, remote_modes));
    assert(su.member_of@[0] == (g, local_modes));
    assert(lookup_modes(su.member_of@, g) == Some(local_modes@));
    if !(mode_diff(remote_modes@, local_modes@).len() > 0 || mode_diff(
        local_modes@,
        remote_modes@,
    ).len() > 0) {
        let rest = u.member_of@.drop_first();
        assert(rest =~= Seq::<(OsuGroup, Vec<OsuGamemode>)>::empty());
        assert(first_change(rest, su.member_of@) is None);
        assert(first_change(u.member_of@, su.member_of@) == first_change(rest, su.member_of@));
    } else {
        assert(first_change(u.member_of@, su.member_of@) == Some(
            (mode_diff(remote_modes@, local_modes@), mode_diff(local_modes@, remote_modes@)),
        ));
    }
}

/// Attribute diff correctness at the differ level: for single-group records
/// present on both sides under one id, the diff reports exactly one update,
/// holding the remote disciplines the store lacked and the stored
/// disciplines the remote side dropped — or none when the lists agree as
/// sets.
pub proof fn lemma_single_record_update(
    su: OsuUser,
    u: OsuUser,
    g: OsuGroup,
    remote_modes: Vec<OsuGamemode>,
    local_modes: Vec<OsuGamemode>,
)
    requires
        u.id == su.id,
        u.member_of@ == seq![(g, remote_modes)],
        su.member_of@ == seq![(g, local_modes)],
    ensures
        updated_pairs(seq![su], seq![u]) == if mode_diff(remote_modes@, local_modes@).len() > 0
            || mode_diff(local_modes@, remote_modes@).len() > 0 {
            seq![(u, (mode_diff(remote_modes@, local_modes@), mode_diff(local_modes@, remote_modes@)))]
        } else {
            Seq::<(OsuUser, (Seq<OsuGamemode>, Seq<OsuGamemode>))>::empty()
        },
{
    lemma_attribute_diff(u, su, g, remote_modes, local_modes);
    assert(lookup_user(seq![su], u.id) == Some(su));
    let f = |x: OsuUser| entry_of(seq![su], x);
    assert(Seq::<OsuUser>::empty().push(u) =~= seq![u]);
    Seq::<OsuUser>::empty().lemma_flat_map_push(f, u);
    assert(Seq::<OsuUser>::empty().flat_map(f) =~= Seq::<
        (OsuUser, (Seq<OsuGamemode>, Seq<OsuGamemode>)),
    >::empty());
    assert(Seq::<OsuUser>::empty().flat_map(f) + f(u) =~= f(u));
    assert(updated_pairs(seq![su], seq![u]) == entry_of(seq![su], u));
}

/// An empty local snapshot marks the feed's first cycle for a group: the
/// store is only populated and nothing is announced.
pub fn is_initial_population(local: &Vec<OsuUser>) -> (r: bool)
    ensures
        r == (local@.len() == 0),
{
    local.len() == 0
}

/// Does `v` hold the value `x`?
fn contains_i32(v: &Vec<i32>, x: i32) -> (r: bool)
    ensures
        r == v@.contains(x),
{
    let n = v.len();
    let mut k: usize = 0;
    while k < n
        invariant
            n == v@.len(),
            k <= n,
            forall|j: int| 0 <= j < k ==> v@[j] != x,
        decreases n - k,
    {
        if v[k] == x {
            return true;
        }
        k += 1;
    }
    false
}

} // verus!
