use tmtbook::media::{
    cache_url, is_same_media, media_candidates, needs_resize, tally, ImagePreset, MediaStat, SyncOutcome,
};

#[test]
fn presets_have_their_widths_and_directories() {
    assert_eq!(ImagePreset::Banner.max_width(), 1600);
    assert_eq!(ImagePreset::Profile.max_width(), 640);
    assert_eq!(ImagePreset::Thumb.max_width(), 240);
    assert_eq!(ImagePreset::Banner.dir_name(), "banners");
    assert_eq!(ImagePreset::Profile.dir_name(), "profiles");
    assert_eq!(ImagePreset::Thumb.dir_name(), "thumbs");
    assert!(needs_resize(2000, ImagePreset::Banner));
    assert!(!needs_resize(1600, ImagePreset::Banner));
}

#[test]
fn cached_images_are_webp_under_their_preset() {
    assert_eq!(cache_url(ImagePreset::Banner, "images/hero.png"), "/cache/banners/images/hero.webp");
    assert_eq!(cache_url(ImagePreset::Profile, "a.b/c"), "/cache/profiles/a.b/c.webp");
    assert_eq!(cache_url(ImagePreset::Thumb, "a/.hidden"), "/cache/thumbs/a/.hidden.webp");
    assert_eq!(cache_url(ImagePreset::Thumb, "dir\\pic.jpg"), "/cache/thumbs/dir/pic.webp");
}

#[test]
fn media_urls_are_looked_for_below_the_prefix_then_as_they_stand() {
    assert_eq!(media_candidates("/vault/images/hero.png", "/vault"), vec!["images/hero.png", "vault/images/hero.png"]);
    assert_eq!(media_candidates("/images/hero.png", "/vault/"), vec!["images/hero.png"]);
    assert!(media_candidates("https://example.com/banner.png", "/vault").is_empty());
    assert!(media_candidates("//cdn/x.png", "/vault").is_empty());
}

#[test]
fn a_link_or_a_newer_copy_of_the_same_size_is_up_to_date() {
    let src = MediaStat { id: Some((1, 2)), len: 10, modified: Some(100) };
    assert!(is_same_media(&src, &MediaStat { id: Some((1, 2)), len: 3, modified: None }));
    assert!(is_same_media(&src, &MediaStat { id: Some((1, 9)), len: 10, modified: Some(100) }));
    assert!(!is_same_media(&src, &MediaStat { id: Some((1, 9)), len: 10, modified: Some(99) }));
    assert!(!is_same_media(&src, &MediaStat { id: None, len: 11, modified: Some(200) }));
}

#[test]
fn sync_outcomes_are_counted() {
    let s = tally(&vec![SyncOutcome::Copied, SyncOutcome::Unchanged, SyncOutcome::Copied, SyncOutcome::Linked]);
    assert_eq!((s.unchanged, s.linked, s.copied), (1, 1, 2));
    assert_eq!(s.total(), 4);
}

// The stats below are what the file system reports for each pair of files.

#[test]
fn a_hardlinked_file_counts_as_unchanged() {
    // One inode under two names.
    let src = MediaStat { id: Some((7, 42)), len: 4, modified: Some(1_000) };
    let dest = MediaStat { id: Some((7, 42)), len: 4, modified: Some(1_000) };
    assert!(is_same_media(&src, &dest));
}

#[test]
fn a_copied_file_counts_as_unchanged() {
    // A copy carries the permissions but not the timestamps, so the
    // destination is newer than its source.
    let src = MediaStat { id: Some((7, 42)), len: 4, modified: Some(1_000) };
    let dest = MediaStat { id: Some((7, 43)), len: 4, modified: Some(2_000) };
    assert!(is_same_media(&src, &dest), "a fresh copy is up to date");
}

#[test]
fn a_copy_of_a_file_that_then_changed_is_stale() {
    // Same size, but the source moved on afterwards.
    let src = MediaStat { id: Some((7, 42)), len: 4, modified: Some(3_000) };
    let dest = MediaStat { id: Some((7, 43)), len: 4, modified: Some(2_000) };
    assert!(!is_same_media(&src, &dest));
}

#[test]
fn a_stale_copy_is_not_unchanged() {
    let src = MediaStat { id: Some((7, 42)), len: 10, modified: Some(3_000) };
    let dest = MediaStat { id: Some((7, 43)), len: 3, modified: Some(2_000) };
    assert!(!is_same_media(&src, &dest));
}

#[test]
fn cache_urls_follow_the_file_name_a_path_ends_in() {
    assert_eq!(cache_url(ImagePreset::Thumb, "a/b.png/"), "/cache/thumbs/a/b.webp");
    assert_eq!(cache_url(ImagePreset::Thumb, "foo.txt/."), "/cache/thumbs/foo.webp");
    assert_eq!(cache_url(ImagePreset::Thumb, "a/.."), "/cache/thumbs/a/..");
    assert_eq!(cache_url(ImagePreset::Thumb, ""), "/cache/thumbs/");
}
