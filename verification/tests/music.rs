use midnight::models::DownloadError;
use midnight::music::{check_link, check_song_size, ChannelCache, Song, MAX_FILE_SIZE};

#[test]
fn song_accessors() {
    let song = Song::new(vec![1, 2, 3]);
    assert_eq!(song.len(), 3);
    assert!(!song.is_empty());
    assert_eq!(song.get(), vec![1, 2, 3]);

    let silent = Song::new(vec![]);
    assert!(silent.is_empty());
    assert_eq!(silent.len(), 0);
}

#[test]
fn song_size_gate() {
    let small = Song::new(vec![0u8; 16]);
    assert!(check_song_size(small).is_ok());

    let exact = Song::new(vec![0u8; MAX_FILE_SIZE]);
    assert!(check_song_size(exact).is_ok());

    let oversized = Song::new(vec![0u8; MAX_FILE_SIZE + 1]);
    assert!(matches!(check_song_size(oversized), Err(DownloadError::FileTooLarge)));
}

#[test]
fn test_www() {
    assert_eq!(
        check_link("https://www.youtube.com/watch?v=HOz-9FzIDf0"),
        Some("HOz-9FzIDf0".to_string())
    );
}

#[test]
fn test_music() {
    assert_eq!(
        check_link("https://music.youtube.com/watch?v=lUQjaC5IaMA&si=uATM_kEIlpWDfwOI"),
        Some("lUQjaC5IaMA".to_string())
    );
}

#[test]
fn test_shortened() {
    assert_eq!(
        check_link("https://youtu.be/xCMqBDWr-bk?si=BnST6uCCjEZ7uJpN"),
        Some("xCMqBDWr-bk".to_string())
    );
}

#[test]
fn unrelated_message_has_no_link() {
    assert!(check_link("just chatting, no links today").is_none());
    assert!(check_link("https://example.com/watch?v=nope").is_none());
}

#[test]
fn cache_populate_and_check() {
    let mut cache = ChannelCache::new();
    cache.populate(&vec![5, 6, 6]);
    assert!(cache.check(5));
    assert!(cache.check(6));
    assert!(!cache.check(7));
}

#[test]
fn cache_refresh_applies_symmetric_difference() {
    let mut cache = ChannelCache::new();
    cache.populate(&vec![1, 2, 3]);

    cache.update_cache(&vec![2, 3, 4]);
    assert!(!cache.check(1));
    assert!(cache.check(2));
    assert!(cache.check(3));
    assert!(cache.check(4));

    cache.update_cache(&vec![]);
    assert!(!cache.check(2));
}
