use midnight::feed::{
    FeedAction, FeedEvent, GroupManager, MapfeedManager, GROUP_INTERVAL_SECONDS,
    MAPFEED_BACKOFF_SECONDS, MAPFEED_INTERVAL_SECONDS,
};

#[test]
fn successful_cycle_walks_all_stages() {
    let mut feed = MapfeedManager::start();
    assert_eq!(feed.step(FeedEvent::WokeUp), FeedAction::Fetch);
    assert_eq!(feed.step(FeedEvent::StageOk), FeedAction::Diff);
    assert_eq!(feed.step(FeedEvent::StageOk), FeedAction::Persist);
    assert_eq!(feed.step(FeedEvent::StageOk), FeedAction::Notify);
    assert_eq!(
        feed.step(FeedEvent::StageOk),
        FeedAction::Sleep { seconds: MAPFEED_INTERVAL_SECONDS }
    );
    // the next wake-up starts the next cycle
    assert_eq!(feed.step(FeedEvent::WokeUp), FeedAction::Fetch);
}

#[test]
fn failure_backs_off_and_retries_from_fetch() {
    let mut feed = MapfeedManager::start();
    assert_eq!(feed.step(FeedEvent::WokeUp), FeedAction::Fetch);
    assert_eq!(
        feed.step(FeedEvent::StageFailed),
        FeedAction::Sleep { seconds: MAPFEED_BACKOFF_SECONDS }
    );
    assert_eq!(feed.step(FeedEvent::WokeUp), FeedAction::Fetch);
    assert_eq!(feed.step(FeedEvent::StageOk), FeedAction::Diff);
    assert_eq!(
        feed.step(FeedEvent::StageFailed),
        FeedAction::Sleep { seconds: MAPFEED_BACKOFF_SECONDS }
    );
    assert_eq!(feed.step(FeedEvent::WokeUp), FeedAction::Fetch);
}

#[test]
fn stop_is_honoured_between_cycles() {
    let mut feed = MapfeedManager::start();
    assert_eq!(feed.step(FeedEvent::WokeUp), FeedAction::Fetch);
    feed.stop();
    // the running cycle finishes first
    assert_eq!(feed.step(FeedEvent::StageOk), FeedAction::Diff);
    assert_eq!(feed.step(FeedEvent::StageOk), FeedAction::Persist);
    assert_eq!(feed.step(FeedEvent::StageOk), FeedAction::Notify);
    assert!(matches!(feed.step(FeedEvent::StageOk), FeedAction::Sleep { .. }));
    // only the wake-up between cycles halts the loop
    assert_eq!(feed.step(FeedEvent::WokeUp), FeedAction::Halt);
}

#[test]
fn group_feed_runs_its_own_interval() {
    let mut feed = GroupManager::new();
    assert_eq!(feed.step(FeedEvent::WokeUp), FeedAction::Fetch);
    assert_eq!(feed.step(FeedEvent::StageOk), FeedAction::Diff);
    assert_eq!(feed.step(FeedEvent::StageOk), FeedAction::Persist);
    assert_eq!(feed.step(FeedEvent::StageOk), FeedAction::Notify);
    assert_eq!(
        feed.step(FeedEvent::StageOk),
        FeedAction::Sleep { seconds: GROUP_INTERVAL_SECONDS }
    );
}

#[test]
fn mismatched_events_are_ignored() {
    let mut feed = MapfeedManager::start();
    assert_eq!(feed.step(FeedEvent::StageOk), FeedAction::Ignore);
    assert_eq!(feed.step(FeedEvent::WokeUp), FeedAction::Fetch);
}
