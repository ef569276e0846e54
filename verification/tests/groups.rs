use midnight::groups::{extract_json, get_diff, update_profiles};
use midnight::models::{ExtractError, GamemodeUpdate, OsuGamemode, OsuGroup, OsuUser};

fn user(
    id: i32,
    username: &str,
    avatar_url: &str,
    member_of: Vec<(OsuGroup, Vec<OsuGamemode>)>,
) -> OsuUser {
    OsuUser { id, username: username.to_string(), avatar_url: avatar_url.to_string(), member_of }
}

#[test]
fn diff_calc_username_update() {
    let stored = vec![user(
        100,
        "original_name",
        "placeholder",
        vec![(OsuGroup::BeatmapNominator, vec![OsuGamemode::Osu, OsuGamemode::Taiko])],
    )];
    let api = vec![user(
        100,
        "changed_name",
        "changed_avatar",
        vec![(OsuGroup::BeatmapNominator, vec![OsuGamemode::Osu, OsuGamemode::Taiko])],
    )];

    let diff = get_diff(stored, api, OsuGroup::BeatmapNominator);

    assert!(diff.added.is_empty());
    assert!(diff.removed.is_empty());
    assert!(diff.updated.is_empty());
}

#[test]
fn diff_calc_role_update() {
    let stored = vec![user(
        1,
        "a",
        "b",
        vec![
            (OsuGroup::BeatmapNominator, vec![OsuGamemode::Osu, OsuGamemode::Taiko]),
            (OsuGroup::BeatmapSpotlightCurator, vec![OsuGamemode::Osu, OsuGamemode::Mania]),
        ],
    )];
    let api = vec![user(
        1,
        "a",
        "b",
        vec![(OsuGroup::BeatmapSpotlightCurator, vec![OsuGamemode::Taiko])],
    )];

    let diff = get_diff(stored, api, OsuGroup::BeatmapNominator);

    assert!(diff.added.is_empty());
    assert!(diff.removed.is_empty());
    assert_eq!(
        vec![(
            user(
                1,
                "a",
                "b",
                vec![(OsuGroup::BeatmapSpotlightCurator, vec![OsuGamemode::Taiko])],
            ),
            GamemodeUpdate {
                group: OsuGroup::BeatmapNominator,
                added: vec![OsuGamemode::Taiko],
                removed: vec![OsuGamemode::Osu, OsuGamemode::Mania],
            },
        )],
        diff.updated
    );
}

#[test]
fn diff_calc_gamemode_update() {
    let stored = vec![user(
        1,
        "a",
        "b",
        vec![(OsuGroup::BeatmapNominator, vec![OsuGamemode::Osu, OsuGamemode::Taiko])],
    )];
    let api = vec![user(1, "a", "b", vec![(OsuGroup::BeatmapNominator, vec![OsuGamemode::Osu])])];

    let diff = get_diff(stored, api, OsuGroup::BeatmapNominator);

    assert!(diff.added.is_empty());
    assert!(diff.removed.is_empty());
    assert_eq!(
        vec![(
            user(1, "a", "b", vec![(OsuGroup::BeatmapNominator, vec![OsuGamemode::Osu])]),
            GamemodeUpdate {
                group: OsuGroup::BeatmapNominator,
                added: vec![],
                removed: vec![OsuGamemode::Taiko],
            },
        )],
        diff.updated
    );
}

#[test]
fn update_user_profile() {
    let stored = vec![
        user(500, "old_name", "placeholder", vec![(OsuGroup::BeatmapNominator, vec![
            OsuGamemode::Osu,
        ])]),
        user(501, "dummy_user", "placeholder", vec![(OsuGroup::BeatmapNominator, vec![
            OsuGamemode::Osu,
        ])]),
        user(503, "old_name", "placeholder", vec![(OsuGroup::BeatmapNominator, vec![
            OsuGamemode::Osu,
        ])]),
    ];
    let api = vec![
        user(500, "new_name", "placeholder", vec![(OsuGroup::BeatmapNominator, vec![
            OsuGamemode::Osu,
        ])]),
        user(502, "dummy_user", "placeholder", vec![(OsuGroup::BeatmapNominator, vec![
            OsuGamemode::Osu,
        ])]),
        user(503, "new_name", "new_pfp", vec![(OsuGroup::BeatmapNominator, vec![
            OsuGamemode::Osu,
        ])]),
    ];

    let updated = update_profiles(&stored, &api);
    assert_eq!(
        &(500, Some("new_name".to_string()), None),
        updated.iter().find(|i| i.0 == 500).unwrap()
    );
    assert_eq!(
        &(503, Some("new_name".to_string()), Some("new_pfp".to_string())),
        updated.iter().find(|i| i.0 == 503).unwrap()
    );
    assert!(updated.iter().find(|i| i.0 == 501).is_none());
    assert!(updated.iter().find(|i| i.0 == 502).is_none());
}

#[test]
fn diff_added_and_removed_members() {
    let stored = vec![user(1, "leaver", "a", vec![(OsuGroup::Developer, vec![])])];
    let api = vec![user(2, "joiner", "b", vec![(OsuGroup::Developer, vec![OsuGamemode::Osu])])];

    let diff = get_diff(stored, api, OsuGroup::Developer);

    assert_eq!(diff.added.len(), 1);
    assert_eq!(diff.added[0].id, 2);
    assert_eq!(diff.removed.len(), 1);
    assert_eq!(diff.removed[0].id, 1);
    assert!(diff.updated.is_empty());
}

#[test]
fn attribute_diff_shared_and_distinct_sets() {
    // remote {Osu, Taiko} against local {Taiko, Fruits}: gained Osu, lost Fruits.
    let stored = vec![user(7, "n", "p", vec![(OsuGroup::ProjectLoved, vec![
        OsuGamemode::Taiko,
        OsuGamemode::Fruits,
    ])])];
    let api = vec![user(7, "n", "p", vec![(OsuGroup::ProjectLoved, vec![
        OsuGamemode::Osu,
        OsuGamemode::Taiko,
    ])])];

    let diff = get_diff(stored, api, OsuGroup::ProjectLoved);

    assert_eq!(diff.updated.len(), 1);
    assert_eq!(diff.updated[0].1.added, vec![OsuGamemode::Osu]);
    assert_eq!(diff.updated[0].1.removed, vec![OsuGamemode::Fruits]);
}

#[test]
fn extract_json_cuts_marked_region() {
    let html = b"<html><script id=\"json-users\" type=\"application/json\">\n  [{\"id\": 1}]  \n</script></html>";
    let got = extract_json(html).unwrap();
    assert_eq!(got, b"[{\"id\": 1}]".to_vec());
}

#[test]
fn extract_json_missing_markers() {
    assert_eq!(extract_json(b"<html></html>"), Err(ExtractError::MissingStartTag));
    let unterminated = b"<script id=\"json-users\" type=\"application/json\">[1,2";
    assert_eq!(extract_json(unterminated), Err(ExtractError::MissingEndTag));
}

#[test]
fn group_ids_and_tracked_groups() {
    assert_eq!(OsuGroup::BeatmapNominator.id(), 28);
    assert_eq!(OsuGroup::ProjectLoved.id(), 31);
    assert_eq!(OsuGroup::Alumni.id(), 16);
    let stored_ids = OsuGroup::tracked_groups();
    assert_eq!(stored_ids.len(), 8);
    assert!(!stored_ids.contains(&OsuGroup::Alumni));
    assert!(!stored_ids.contains(&OsuGroup::Ppy));
}

#[test]
fn diff_ignores_snapshot_order() {
    let a = user(1, "a", "pa", vec![(OsuGroup::Developer, vec![OsuGamemode::Osu])]);
    let b = user(2, "b", "pb", vec![(OsuGroup::Developer, vec![OsuGamemode::Taiko])]);
    let c = user(3, "c", "pc", vec![(OsuGroup::Developer, vec![OsuGamemode::Mania])]);
    let d = user(2, "b", "pb", vec![(OsuGroup::Developer, vec![
        OsuGamemode::Taiko,
        OsuGamemode::Fruits,
    ])]);

    let first = get_diff(vec![a.clone(), b.clone()], vec![c.clone(), d.clone()], OsuGroup::Developer);
    let second = get_diff(vec![b, a], vec![d, c], OsuGroup::Developer);

    let ids = |v: &Vec<midnight::models::OsuUser>| {
        let mut ids: Vec<i32> = v.iter().map(|u| u.id).collect();
        ids.sort();
        ids
    };
    assert_eq!(ids(&first.added), ids(&second.added));
    assert_eq!(ids(&first.removed), ids(&second.removed));
    let mut u1: Vec<i32> = first.updated.iter().map(|p| p.0.id).collect();
    let mut u2: Vec<i32> = second.updated.iter().map(|p| p.0.id).collect();
    u1.sort();
    u2.sort();
    assert_eq!(u1, u2);
    assert_eq!(first.updated[0].1, second.updated[0].1);
}
