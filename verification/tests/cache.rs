use loudness::cache::{Cache, CacheEntry, ALGORITHM_VERSION};

fn entry(source_id: &str, lufs: f64, version: u32) -> CacheEntry {
    CacheEntry {
        source_id: source_id.to_string(),
        kind: "altsound".to_string(),
        lufs: lufs.to_bits(),
        lra: 5.0f64.to_bits(),
        true_peak_dbtp: (-3.0f64).to_bits(),
        target_lufs: (-23.0f64).to_bits(),
        ceiling_dbtp: (-1.0f64).to_bits(),
        written_db: 2.0f64.to_bits(),
        residual_db: 0.0f64.to_bits(),
        file_count: 12,
        algorithm_version: version,
    }
}

#[test]
fn an_empty_cache_knows_nothing() {
    let cache = Cache::default();
    assert!(cache.entries.is_empty());
    assert!(cache.get("afm_113b").is_none());
}

#[test]
fn get_gives_back_what_put_stored() {
    let mut cache = Cache::default();
    cache.put(entry("afm_113b", -44.0, ALGORITHM_VERSION));
    let found = cache.get("afm_113b").expect("stored entry");
    assert_eq!(f64::from_bits(found.lufs), -44.0);
    assert_eq!(found.file_count, 12);
}

#[test]
fn put_replaces_the_entry_of_the_same_source() {
    let mut cache = Cache::default();
    cache.put(entry("afm_113b", -44.0, ALGORITHM_VERSION));
    cache.put(entry("ww_l5", -23.6, ALGORITHM_VERSION));
    cache.put(entry("afm_113b", -30.0, ALGORITHM_VERSION));
    assert_eq!(cache.entries.len(), 2);
    assert_eq!(f64::from_bits(cache.get("afm_113b").unwrap().lufs), -30.0);
    assert_eq!(f64::from_bits(cache.get("ww_l5").unwrap().lufs), -23.6);
    assert_eq!(cache.entries[0].source_id, "ww_l5");
    assert_eq!(cache.entries[1].source_id, "afm_113b");
}

#[test]
fn entries_from_older_rules_are_not_trusted() {
    let mut cache = Cache::default();
    cache.put(entry("afm_113b", -44.0, ALGORITHM_VERSION + 1));
    assert!(cache.get("afm_113b").is_none());
    assert_eq!(cache.entries.len(), 1);
    cache.put(entry("afm_113b", -40.0, ALGORITHM_VERSION));
    assert_eq!(cache.entries.len(), 1);
    assert_eq!(f64::from_bits(cache.get("afm_113b").unwrap().lufs), -40.0);
}

#[test]
fn get_takes_the_first_current_entry() {
    let cache = Cache {
        entries: vec![
            entry("jm", -10.0, 0),
            entry("jm", -11.0, ALGORITHM_VERSION),
            entry("jm", -12.0, ALGORITHM_VERSION),
        ],
    };
    assert_eq!(f64::from_bits(cache.get("jm").unwrap().lufs), -11.0);
    assert!(cache.get("JM").is_none());
}
