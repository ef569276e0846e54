use midnight::members::GroupStore;
use midnight::models::{GamemodeUpdate, OsuGamemode, OsuGroup, OsuUser};

fn user(
    id: i32,
    username: &str,
    avatar_url: &str,
    member_of: Vec<(OsuGroup, Vec<OsuGamemode>)>,
) -> OsuUser {
    OsuUser { id, username: username.to_string(), avatar_url: avatar_url.to_string(), member_of }
}

#[test]
fn fetch_per_group() {
    let user1 = user(
        727,
        "sigidayo",
        "https://i.dont.know",
        vec![
            (OsuGroup::BeatmapNominator, vec![OsuGamemode::Osu, OsuGamemode::Taiko]),
            (OsuGroup::ProjectLoved, vec![]),
        ],
    );
    let user2 = user(
        728,
        "notsigidayo",
        "https://i.dont.know2",
        vec![(OsuGroup::BeatmapNominator, vec![OsuGamemode::Mania, OsuGamemode::Taiko])],
    );

    let mut store = GroupStore::new();
    store.insert_group_member(&user1, OsuGroup::BeatmapNominator);
    store.insert_group_member(&user1, OsuGroup::ProjectLoved);
    store.insert_group_member(&user2, OsuGroup::BeatmapNominator);

    let bn_res = store.fetch_all_group_members(OsuGroup::BeatmapNominator);
    let loved_res = store.fetch_all_group_members(OsuGroup::ProjectLoved);

    let bn_expected = vec![
        user(727, "sigidayo", "https://i.dont.know", vec![(OsuGroup::BeatmapNominator, vec![
            OsuGamemode::Osu,
            OsuGamemode::Taiko,
        ])]),
        user(728, "notsigidayo", "https://i.dont.know2", vec![(
            OsuGroup::BeatmapNominator,
            vec![OsuGamemode::Mania, OsuGamemode::Taiko],
        )]),
    ];
    let loved_expected = vec![user(727, "sigidayo", "https://i.dont.know", vec![(
        OsuGroup::ProjectLoved,
        vec![],
    )])];

    assert_eq!(bn_expected, bn_res);
    assert_eq!(loved_expected, loved_res);

    store.delete_group_member(727, OsuGroup::BeatmapNominator);
    let bn_res = store.fetch_all_group_members(OsuGroup::BeatmapNominator);
    let loved_res = store.fetch_all_group_members(OsuGroup::ProjectLoved);
    assert_eq!(bn_res.len(), 1);
    assert_eq!(bn_res[0].id, 728);
    assert_eq!(loved_expected, loved_res);

    store.delete_group_member(727, OsuGroup::ProjectLoved);
    store.delete_group_member(728, OsuGroup::BeatmapNominator);
    assert!(store.fetch_all_group_members(OsuGroup::BeatmapNominator).is_empty());
    assert!(store.fetch_all_group_members(OsuGroup::ProjectLoved).is_empty());
}

#[test]
fn update_gamemodes() {
    let member = user(
        729,
        "sigidayo2",
        "https://i.dont.know3",
        vec![(OsuGroup::BeatmapNominator, vec![OsuGamemode::Osu, OsuGamemode::Taiko])],
    );

    let mut store = GroupStore::new();
    store.insert_group_member(&member, OsuGroup::BeatmapNominator);
    let applied = store.update_group_member_gamemodes(
        729,
        &GamemodeUpdate {
            group: OsuGroup::BeatmapNominator,
            added: vec![OsuGamemode::Fruits],
            removed: vec![OsuGamemode::Taiko],
        },
    );
    assert!(applied);

    let expected = vec![user(729, "sigidayo2", "https://i.dont.know3", vec![(
        OsuGroup::BeatmapNominator,
        vec![OsuGamemode::Osu, OsuGamemode::Fruits],
    )])];
    assert_eq!(expected, store.fetch_all_group_members(OsuGroup::BeatmapNominator));

    // a member without that membership is left alone
    assert!(!store.update_group_member_gamemodes(
        999,
        &GamemodeUpdate {
            group: OsuGroup::BeatmapNominator,
            added: vec![],
            removed: vec![],
        },
    ));
}

#[test]
fn update_user_profile_rows() {
    let old = user(1000, "old_name", "old_avatar_url", vec![]);

    let mut store = GroupStore::new();
    store.insert_group_member(&old, OsuGroup::BeatmapNominator);
    store.update_osu_user_profile(
        1000,
        Some("new_name".to_string()),
        Some("new_avatar_url".to_string()),
    );

    let res = store.fetch_all_group_members(OsuGroup::BeatmapNominator);
    let expected = vec![user(1000, "new_name", "new_avatar_url", vec![(
        OsuGroup::BeatmapNominator,
        vec![],
    )])];
    assert_eq!(expected, res);

    // absent fields keep their stored values
    store.update_osu_user_profile(1000, Some("renamed".to_string()), None);
    let res = store.fetch_all_group_members(OsuGroup::BeatmapNominator);
    assert_eq!(res[0].username, "renamed");
    assert_eq!(res[0].avatar_url, "new_avatar_url");
}

#[test]
fn duplicate_membership_is_ignored() {
    let member = user(5, "m", "a", vec![(OsuGroup::Developer, vec![OsuGamemode::Osu])]);
    let mut store = GroupStore::new();
    store.insert_group_member(&member, OsuGroup::Developer);
    store.insert_group_member(&member, OsuGroup::Developer);
    assert_eq!(store.fetch_all_group_members(OsuGroup::Developer).len(), 1);
}
