use midnight::mapfeed::{
    diff_ids, handle_interaction, parse_beatmapset_link, parse_custom_button_id, populate,
    run_mapfeed_cycle, sort_beatmaps_by_ranked_date, subscription_handler, ButtonState,
    MessageData,
};
use midnight::models::{
    BeatmapStatus, Beatmapset, SubscriptionError, SubscriptionMode, UserAdditionStatus,
};
use midnight::subscriptions::MapfeedStore;

fn beatmapset(id: i32, status: BeatmapStatus) -> Beatmapset {
    Beatmapset {
        id,
        title: format!("title {}", id),
        artist: "artist".to_string(),
        mapper: "mapper".to_string(),
        beatmaps: vec![],
        ranked_status: status,
        current_nominations: vec![],
        ranked_date_unix: None,
        submitted_date_unix: Some(0),
    }
}

#[test]
fn id_diff_end_to_end() {
    // local {1,2,3} against remote {2,3,4}: added {4}, removed {1}.
    let remote = vec![2, 3, 4];
    let local = vec![1, 2, 3];
    let d = diff_ids(&remote, &local);
    assert_eq!(d.added, vec![4]);
    assert_eq!(d.removed, vec![1]);
    assert_eq!(d.common, vec![2, 3]);
}

#[test]
fn id_diff_sides_disjoint() {
    let remote = vec![10, 20, 30, 30];
    let local = vec![20, 40, 40];
    let d = diff_ids(&remote, &local);
    for a in &d.added {
        assert!(!d.removed.contains(a));
    }
    assert_eq!(d.added, vec![10, 30]);
    assert_eq!(d.removed, vec![40]);
    assert_eq!(d.common, vec![20]);
}

#[test]
fn id_diff_idempotent() {
    let remote = vec![2, 3, 4];
    let local = vec![1, 2, 3];
    let first = diff_ids(&remote, &local);
    let second = diff_ids(&remote, &local);
    assert_eq!(first.added, second.added);
    assert_eq!(first.removed, second.removed);
    assert_eq!(first.common, second.common);

    // Applying the diff and re-diffing against the same remote reports nothing.
    let mut applied: Vec<i32> = local.clone();
    applied.retain(|x| !first.removed.contains(x));
    for x in &first.added {
        applied.push(*x);
    }
    let rediff = diff_ids(&remote, &applied);
    assert!(rediff.added.is_empty());
    assert!(rediff.removed.is_empty());
}

#[test]
fn cycle_converges_and_keeps_subscribers() {
    let mut store = MapfeedStore::new();
    store.insert_beatmaps(&vec![1, 2, 3]);
    assert_eq!(store.subscribe_to_beatmap(77, 1), Ok(UserAdditionStatus::UserAdded));
    assert_eq!(store.subscribe_to_beatmap(88, 1), Ok(UserAdditionStatus::UserAdded));
    assert_eq!(store.subscribe_to_beatmap(77, 2), Ok(UserAdditionStatus::UserAdded));

    let new_maps = vec![beatmapset(4, BeatmapStatus::Qualified)];
    let changed_maps = vec![beatmapset(1, BeatmapStatus::Ranked)];
    let msgs = run_mapfeed_cycle(&mut store, new_maps, changed_maps);

    assert_eq!(msgs.len(), 2);
    assert_eq!(msgs[0].beatmapset.id, 4);
    assert!(msgs[0].subscribed_user_ids.is_none());
    assert_eq!(msgs[1].beatmapset.id, 1);
    assert_eq!(msgs[1].subscribed_user_ids, Some(vec![77, 88]));

    let mut stored_ids = store.fetch_all_tracked().unwrap();
    stored_ids.sort();
    assert_eq!(stored_ids, vec![2, 3, 4]);
    // the departed record's edges are gone, others stay
    assert!(store.fetch_all_subscribers_for_beatmap(1).is_none());
    assert_eq!(store.fetch_all_subscribers_for_beatmap(2), Some(vec![77]));
}

#[test]
fn message_controls_only_for_qualified() {
    let with = MessageData {
        beatmapset: beatmapset(5, BeatmapStatus::Qualified),
        subscribed_user_ids: None,
    };
    let without = MessageData {
        beatmapset: beatmapset(6, BeatmapStatus::Ranked),
        subscribed_user_ids: None,
    };
    assert!(with.needs_controls());
    assert!(!without.needs_controls());
}

#[test]
fn button_id_parsing() {
    let b = parse_custom_button_id("727.subscribe").unwrap();
    assert_eq!(b.id, 727);
    assert_eq!(b.state, ButtonState::Subscribe);

    let b = parse_custom_button_id("10.unsubscribe").unwrap();
    assert_eq!(b.id, 10);
    assert_eq!(b.state, ButtonState::Unsubscribe);

    assert!(parse_custom_button_id("no-dot-here").is_none());
    assert!(parse_custom_button_id("abc.subscribe").is_none());
    assert!(parse_custom_button_id("12.delete").is_none());
    assert!(parse_custom_button_id(".subscribe").is_none());
    assert!(parse_custom_button_id("99999999999.subscribe").is_none());
}

#[test]
fn beatmapset_link_parsing() {
    assert_eq!(
        parse_beatmapset_link("https://osu.ppy.sh/beatmapsets/1814183"),
        Ok(1814183)
    );
    assert_eq!(
        parse_beatmapset_link("look at https://osu.ppy.sh/beatmapsets/42 please"),
        Ok(42)
    );
    assert_eq!(
        parse_beatmapset_link("https://example.com/beatmapsets/42"),
        Err(SubscriptionError::InvalidLink)
    );
    assert_eq!(
        parse_beatmapset_link("no link at all"),
        Err(SubscriptionError::InvalidLink)
    );
    assert_eq!(
        parse_beatmapset_link("https://osu.ppy.sh/beatmapsets/99999999999"),
        Err(SubscriptionError::ParseError)
    );
}

#[test]
fn subscription_commands_through_links() {
    let mut store = MapfeedStore::new();
    store.insert_beatmaps(&vec![42]);

    assert_eq!(
        subscription_handler(
            &mut store,
            7,
            "https://osu.ppy.sh/beatmapsets/42",
            SubscriptionMode::Subscribe,
        ),
        Ok(())
    );
    assert_eq!(store.fetch_all_subscribers_for_beatmap(42), Some(vec![7]));

    // an untracked id is refused by the store
    assert_eq!(
        subscription_handler(
            &mut store,
            7,
            "https://osu.ppy.sh/beatmapsets/43",
            SubscriptionMode::Subscribe,
        ),
        Err(SubscriptionError::DatabaseError)
    );

    assert_eq!(
        subscription_handler(
            &mut store,
            7,
            "not a link",
            SubscriptionMode::Subscribe,
        ),
        Err(SubscriptionError::InvalidLink)
    );

    assert_eq!(
        subscription_handler(
            &mut store,
            7,
            "https://osu.ppy.sh/beatmapsets/42",
            SubscriptionMode::Unsubscribe,
        ),
        Ok(())
    );
    assert!(store.fetch_all_subscribers_for_beatmap(42).is_none());
}

#[test]
fn reply_listing_sorted_by_ranked_date() {
    let mut a = beatmapset(1, BeatmapStatus::Qualified);
    a.ranked_date_unix = Some(300);
    let mut b = beatmapset(2, BeatmapStatus::Qualified);
    b.ranked_date_unix = Some(100);
    let mut c = beatmapset(3, BeatmapStatus::Qualified);
    c.ranked_date_unix = None;
    let mut d = beatmapset(4, BeatmapStatus::Qualified);
    d.ranked_date_unix = Some(200);

    let sorted = sort_beatmaps_by_ranked_date(vec![a, b, c, d]);
    let ids: Vec<i32> = sorted.iter().map(|m| m.id).collect();
    assert_eq!(ids, vec![3, 2, 4, 1]);
}

#[test]
fn interactions_are_acknowledged_idempotently() {
    let mut store = MapfeedStore::new();
    store.insert_beatmaps(&vec![727]);

    assert_eq!(
        handle_interaction(&mut store, 9, "727.subscribe"),
        Some("Subscribed successfully")
    );
    assert_eq!(
        handle_interaction(&mut store, 9, "727.subscribe"),
        Some("You are already subscribed to this beatmap!")
    );
    assert_eq!(
        handle_interaction(&mut store, 9, "727.unsubscribe"),
        Some("Unsubscribed successfully")
    );
    assert_eq!(
        handle_interaction(&mut store, 9, "727.unsubscribe"),
        Some("You are not subscribed to this beatmap!")
    );
    // an unreadable identifier or an unknown record gives no reply
    assert_eq!(handle_interaction(&mut store, 9, "garbage"), None);
    assert_eq!(handle_interaction(&mut store, 9, "999.subscribe"), None);
}

#[test]
fn seed_pass_fills_only_an_empty_store() {
    let mut store = MapfeedStore::new();

    assert!(populate(&mut store, &vec![1, 2, 3]));
    let mut stored_ids = store.fetch_all_tracked().unwrap();
    stored_ids.sort();
    assert_eq!(stored_ids, vec![1, 2, 3]);

    // a second pass leaves a populated store alone
    assert!(!populate(&mut store, &vec![7, 8]));
    let mut stored_ids = store.fetch_all_tracked().unwrap();
    stored_ids.sort();
    assert_eq!(stored_ids, vec![1, 2, 3]);
}

#[test]
fn control_listener_lifetime() {
    assert_eq!(midnight::mapfeed::BUTTON_TIMEOUT_SECONDS, 7200);
}
