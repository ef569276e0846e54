use midnight::models::{
    ChannelType, SubscriptionError, SubscriptionMode, UserAdditionStatus, UserDeletionStatus,
};
use midnight::subscriptions::{ChannelStore, MapfeedStore};

#[test]
fn subscribe_is_idempotent() {
    let mut store = MapfeedStore::new();
    store.insert_beatmaps(&vec![10]);

    assert_eq!(store.subscribe_to_beatmap(1, 10), Ok(UserAdditionStatus::UserAdded));
    assert_eq!(store.subscribe_to_beatmap(1, 10), Ok(UserAdditionStatus::UserAlreadyExists));
    assert_eq!(store.fetch_all_subscribers_for_beatmap(10), Some(vec![1]));
}

#[test]
fn unsubscribe_is_idempotent() {
    let mut store = MapfeedStore::new();
    store.insert_beatmaps(&vec![10]);

    assert_eq!(store.unsubscribe_from_beatmap(1, 10), UserDeletionStatus::UserDoesNotExist);
    assert_eq!(store.subscribe_to_beatmap(1, 10), Ok(UserAdditionStatus::UserAdded));
    assert_eq!(store.unsubscribe_from_beatmap(1, 10), UserDeletionStatus::UserRemoved);
    assert_eq!(store.unsubscribe_from_beatmap(1, 10), UserDeletionStatus::UserDoesNotExist);
}

#[test]
fn subscribe_unknown_beatmapset_is_refused() {
    let mut store = MapfeedStore::new();
    assert_eq!(store.subscribe_to_beatmap(1, 999), Err(SubscriptionError::DatabaseError));
}

#[test]
fn insert_ignores_duplicates() {
    let mut store = MapfeedStore::new();
    store.insert_beatmaps(&vec![1, 2]);
    store.insert_beatmaps(&vec![2, 3]);
    let mut stored_ids = store.fetch_all_tracked().unwrap();
    stored_ids.sort();
    assert_eq!(stored_ids, vec![1, 2, 3]);
    assert!(store.is_tracked(2));
    assert!(!store.is_tracked(4));
}

#[test]
fn empty_store_lists_nothing() {
    let store = MapfeedStore::new();
    assert!(store.fetch_all_tracked().is_none());
}

#[test]
fn delete_cascades_subscriber_edges() {
    let mut store = MapfeedStore::new();
    store.insert_beatmaps(&vec![5, 6]);
    assert_eq!(store.subscribe_to_beatmap(1, 5), Ok(UserAdditionStatus::UserAdded));
    assert_eq!(store.subscribe_to_beatmap(1, 6), Ok(UserAdditionStatus::UserAdded));

    store.delete_beatmap(5);

    assert!(!store.is_tracked(5));
    assert!(store.fetch_all_subscribers_for_beatmap(5).is_none());
    assert_eq!(store.fetch_all_subscriptions_for_user(1), Some(vec![6]));
}

#[test]
fn subscriptions_listed_per_user() {
    let mut store = MapfeedStore::new();
    store.insert_beatmaps(&vec![1, 2, 3]);
    assert_eq!(store.subscribe_to_beatmap(7, 1), Ok(UserAdditionStatus::UserAdded));
    assert_eq!(store.subscribe_to_beatmap(7, 3), Ok(UserAdditionStatus::UserAdded));
    assert_eq!(store.subscribe_to_beatmap(8, 2), Ok(UserAdditionStatus::UserAdded));

    assert_eq!(store.fetch_all_subscriptions_for_user(7), Some(vec![1, 3]));
    assert_eq!(store.fetch_all_subscriptions_for_user(8), Some(vec![2]));
    assert!(store.fetch_all_subscriptions_for_user(9).is_none());
}

#[test]
fn channel_subscriptions_by_kind() {
    let mut store = ChannelStore::new();
    assert_eq!(
        store.channel_subscription_handler(100, ChannelType::Mapfeed(SubscriptionMode::Subscribe)),
        Ok(())
    );
    assert_eq!(
        store.channel_subscription_handler(200, ChannelType::Music(SubscriptionMode::Subscribe)),
        Ok(())
    );
    assert_eq!(
        store.channel_subscription_handler(300, ChannelType::Groups(SubscriptionMode::Subscribe)),
        Ok(())
    );

    assert_eq!(
        store.fetch_all_subscribed_channels(ChannelType::Mapfeed(SubscriptionMode::Subscribe)),
        vec![100]
    );
    assert_eq!(
        store.fetch_all_subscribed_channels(ChannelType::Music(SubscriptionMode::Subscribe)),
        vec![200]
    );
    assert_eq!(
        store.fetch_all_subscribed_channels(ChannelType::Groups(SubscriptionMode::Unsubscribe)),
        vec![300]
    );
}

#[test]
fn channel_row_is_unique_per_channel() {
    let mut store = ChannelStore::new();
    assert_eq!(
        store.channel_subscription_handler(100, ChannelType::Mapfeed(SubscriptionMode::Subscribe)),
        Ok(())
    );
    assert_eq!(
        store.channel_subscription_handler(100, ChannelType::Music(SubscriptionMode::Subscribe)),
        Err(SubscriptionError::DatabaseError)
    );

    // unsubscribing the wrong feed leaves the row; the right one drops it
    assert_eq!(
        store
            .channel_subscription_handler(100, ChannelType::Music(SubscriptionMode::Unsubscribe)),
        Ok(())
    );
    assert_eq!(
        store.fetch_all_subscribed_channels(ChannelType::Mapfeed(SubscriptionMode::Subscribe)),
        vec![100]
    );
    assert_eq!(
        store
            .channel_subscription_handler(100, ChannelType::Mapfeed(SubscriptionMode::Unsubscribe)),
        Ok(())
    );
    assert!(store
        .fetch_all_subscribed_channels(ChannelType::Mapfeed(SubscriptionMode::Subscribe))
        .is_empty());
}

#[test]
fn combined_handler_pins_the_edge_set() {
    let mut store = MapfeedStore::new();
    store.insert_beatmaps(&vec![10]);

    // subscribing adds the edge; doing it again is a no-op, not an error
    assert_eq!(
        store.beatmap_subscription_handler(1, 10, SubscriptionMode::Subscribe),
        Ok(())
    );
    assert_eq!(store.fetch_all_subscribers_for_beatmap(10), Some(vec![1]));
    assert_eq!(
        store.beatmap_subscription_handler(1, 10, SubscriptionMode::Subscribe),
        Ok(())
    );
    assert_eq!(store.fetch_all_subscribers_for_beatmap(10), Some(vec![1]));

    // unsubscribing drops it; doing it again is a no-op, not an error
    assert_eq!(
        store.beatmap_subscription_handler(1, 10, SubscriptionMode::Unsubscribe),
        Ok(())
    );
    assert!(store.fetch_all_subscribers_for_beatmap(10).is_none());
    assert_eq!(
        store.beatmap_subscription_handler(1, 10, SubscriptionMode::Unsubscribe),
        Ok(())
    );
    assert!(store.fetch_all_subscribers_for_beatmap(10).is_none());

    // only a subscribe to an unknown beatmapset errs
    assert_eq!(
        store.beatmap_subscription_handler(1, 999, SubscriptionMode::Subscribe),
        Err(SubscriptionError::DatabaseError)
    );
}
