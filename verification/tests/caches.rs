use rfm::raster_cache::{
    cache_dir_under, entry_name, entry_name_for_hash, expired, is_stale_sibling,
    is_stale_sibling_for_hash, part_name, CacheFile, RasterCacheSettings, SizePass,
    KIND_IMAGE, KIND_PDF, KIND_VIDEO, MAX_AGE_NS,
};
use rfm::thumb_cache;

#[test]
fn entry_name_is_hexhash_mtime_kind_jpg() {
    let name = entry_name("/some/pic.png", 1700000000, KIND_IMAGE);
    let (hash, rest) = name.split_at(16);
    assert!(hash.chars().all(|c| c.is_ascii_hexdigit()));
    assert_eq!(rest, "-1700000000-img960.jpg");
    let other = entry_name("/some/pic.png", 1700000001, KIND_IMAGE);
    assert_eq!(other[..17], name[..17]);
    assert_ne!(other, name);
    assert_ne!(entry_name("/other.png", 1700000000, KIND_IMAGE)[..17], name[..17]);
}

#[test]
fn entry_names_differ_by_kind_only() {
    let img = entry_name("/some/clip.mp4", 1700000000, KIND_IMAGE);
    let vid = entry_name("/some/clip.mp4", 1700000000, KIND_VIDEO);
    assert_ne!(img, vid);
    assert_eq!(img[..28], vid[..28], "hash+mtime prefix shared");
}

#[test]
fn entry_name_is_hexhash_dash_mtime_jpg() {
    let name = thumb_cache::entry_name("/some/pic.png", 1700000000);
    let (hash, rest) = name.split_at(16);
    assert!(hash.chars().all(|c| c.is_ascii_hexdigit()));
    assert_eq!(rest, "-1700000000.jpg");
    let other = thumb_cache::entry_name("/some/pic.png", 1700000001);
    assert_eq!(other[..17], name[..17]);
    assert_ne!(other, name);
    assert_ne!(
        thumb_cache::entry_name("/other.png", 1700000000)[..17],
        name[..17]
    );
}

#[test]
fn part_names_are_unique_per_call() {
    // Two writers inside one process carry different tokens (process id
    // and a per-process sequence number), so their temp names differ.
    assert_ne!(part_name("x.jpg", "4242-0"), part_name("x.jpg", "4242-1"));
}

#[test]
fn store_writes_via_part_temp_name_in_same_dir() {
    let name = entry_name("/some/pic.png", 100, KIND_IMAGE);
    let part = part_name(&name, "4242-0");
    assert!(part.starts_with(&name), "part name derives from final name");
    assert!(part.ends_with(".part"), "part suffix distinguishes temp");
    assert_ne!(part, name);
    assert!(!part.contains('/'), "same dir: a bare file name");
}

#[test]
fn kind_pdf_coexists_with_other_kinds() {
    let pdf_entry = entry_name("/some/doc.pdf", 100, KIND_PDF);
    let img_entry = entry_name("/some/doc.pdf", 100, KIND_IMAGE);
    assert_ne!(pdf_entry, img_entry);
    assert!(pdf_entry.ends_with("-pdf-p1-960.jpg"), "{pdf_entry}");
}

#[test]
fn uninitialized_cache_counts_as_opted_out() {
    let settings = RasterCacheSettings::default();
    assert!(settings.dir().is_none());
    assert!(!settings.persistence_enabled());
}

#[test]
fn entry_name_for_a_known_hash_is_exact() {
    assert_eq!(
        entry_name_for_hash(0xab, 7, KIND_VIDEO),
        "00000000000000ab-7-vid120.jpg"
    );
    assert_eq!(
        entry_name_for_hash(u64::MAX, 0, KIND_IMAGE),
        "ffffffffffffffff-0-img960.jpg"
    );
    assert_eq!(
        thumb_cache::entry_name_for_hash(0x1234, 99),
        "0000000000001234-99.jpg"
    );
}

#[test]
fn the_name_carries_the_hash_of_the_path() {
    let h = seahash::hash(b"/some/pic.png");
    assert_eq!(
        entry_name("/some/pic.png", 5, KIND_IMAGE),
        entry_name_for_hash(h, 5, KIND_IMAGE)
    );
}

#[test]
fn store_sweeps_other_mtimes_but_keeps_other_kinds() {
    let src = "/some/pic.png";
    assert!(is_stale_sibling(&entry_name(src, 90, KIND_IMAGE), src, 100));
    assert!(is_stale_sibling(
        &format!("{}.999.part", entry_name(src, 90, KIND_IMAGE)),
        src,
        100
    ));
    assert!(!is_stale_sibling(&entry_name(src, 100, KIND_VIDEO), src, 100));
    assert!(!is_stale_sibling(
        &entry_name("/other/pic.png", 90, KIND_IMAGE),
        src,
        100
    ));
    assert!(is_stale_sibling_for_hash("0000000000000001-5-x.jpg", 1, 6));
    assert!(!is_stale_sibling_for_hash("0000000000000001-5-x.jpg", 1, 5));
    assert!(is_stale_sibling_for_hash("0000000000000001-55-x.jpg", 1, 5));
}

#[test]
fn settings_follow_the_switch_and_the_resolved_dir() {
    let mut on = RasterCacheSettings::uninitialized();
    on.init(true, Some("/c/rfm/thumbnails".to_string()));
    assert_eq!(on.dir().as_deref(), Some("/c/rfm/thumbnails"));
    assert!(on.persistence_enabled());
    let mut unavailable = RasterCacheSettings::uninitialized();
    unavailable.init(true, None);
    assert!(unavailable.dir().is_none());
    assert!(unavailable.persistence_enabled());
    let mut off = RasterCacheSettings::uninitialized();
    off.init(false, Some("/c/rfm/thumbnails".to_string()));
    assert!(off.dir().is_none());
    assert!(!off.persistence_enabled());
}

#[test]
fn settings_keep_the_first_initialization() {
    let mut s = RasterCacheSettings::uninitialized();
    s.init(false, None);
    s.init(true, Some("/c/rfm/thumbnails".to_string()));
    assert!(!s.persistence_enabled());
    assert!(s.dir().is_none());
    let mut t = RasterCacheSettings::default();
    t.init(true, Some("/a".to_string()));
    t.init(false, None);
    assert!(t.persistence_enabled());
    assert_eq!(t.dir().as_deref(), Some("/a"));
}

#[test]
fn cache_dir_is_joined_under_the_cache_home() {
    assert_eq!(cache_dir_under("/home/u/.cache"), "/home/u/.cache/rfm/thumbnails");
    assert_eq!(cache_dir_under("/home/u/.cache/"), "/home/u/.cache/rfm/thumbnails");
    assert_eq!(cache_dir_under(""), "rfm/thumbnails");
}

#[test]
fn prune_expires_by_age_only_in_the_past() {
    let day: u128 = 24 * 3600 * 1_000_000_000;
    let now = 100 * day;
    assert!(expired(now, now - 31 * day, MAX_AGE_NS));
    assert!(!expired(now, now - 29 * day, MAX_AGE_NS));
    assert!(!expired(now, now - 30 * day, MAX_AGE_NS));
    assert!(!expired(now, now + day, MAX_AGE_NS));
}

#[test]
fn prune_enforces_size_cap_oldest_first() {
    let day: u128 = 24 * 3600 * 1_000_000_000;
    let files = vec![
        CacheFile { mtime_ns: 7 * day, len: 1000 },
        CacheFile { mtime_ns: 8 * day, len: 1000 },
        CacheFile { mtime_ns: 9 * day, len: 1000 },
    ];
    let mut pass = SizePass::new(
        vec![files[2], files[0], files[1]],
        2500,
    );
    // Survivors listed newest, oldest, middle: the oldest goes first.
    assert_eq!(pass.next_victim(), Some(1));
    pass.removed(true);
    assert_eq!(pass.next_victim(), None);
}

#[test]
fn a_failed_removal_does_not_lower_the_total() {
    let files = vec![
        CacheFile { mtime_ns: 1, len: 10 },
        CacheFile { mtime_ns: 2, len: 10 },
        CacheFile { mtime_ns: 1, len: 10 },
    ];
    let mut pass = SizePass::new(files, 15);
    assert_eq!(pass.next_victim(), Some(0));
    pass.removed(false);
    assert_eq!(pass.next_victim(), Some(2));
    pass.removed(true);
    assert_eq!(pass.next_victim(), Some(1));
    pass.removed(true);
    assert_eq!(pass.next_victim(), None);
}
