use loudness::stamp::{fingerprint, FileEntry, STAMP_FILE};

fn reference(files: &[(&str, u64, &[u8])]) -> String {
    let mut entries: Vec<(String, u64, [u8; 32])> = files
        .iter()
        .map(|(name, size, bytes)| (name.to_lowercase(), *size, *blake3::hash(bytes).as_bytes()))
        .collect();
    entries.sort();
    let mut hasher = blake3::Hasher::new();
    for (name, size, hash) in entries {
        hasher.update(name.as_bytes());
        hasher.update(&size.to_le_bytes());
        hasher.update(&hash);
    }
    format!("blake3:{}", hasher.finalize().to_hex())
}

fn entries(files: &[(&str, u64, &[u8])]) -> Vec<FileEntry> {
    files.iter().map(|(name, size, bytes)| FileEntry::new(name, *size, bytes)).collect()
}

const PACK: [(&str, u64, &[u8]); 4] = [
    ("Flipper.WAV", 4, b"flip"),
    ("attract.wav", 7, b"attract"),
    ("attract.wav", 3, b"att"),
    ("Ball_Lock.wav", 0, b""),
];

#[test]
fn an_entry_is_the_lowercased_name_the_size_and_the_content_hash() {
    let e = FileEntry::new("Flipper.WAV", 4, b"flip");
    assert_eq!(e.name, "flipper.wav");
    assert_eq!(e.size, 4);
    assert_eq!(&e.hash, blake3::hash(b"flip").as_bytes());
}

#[test]
fn fingerprint_matches_the_sorted_hash_of_names_sizes_and_contents() {
    assert_eq!(fingerprint(entries(&PACK)), reference(&PACK));
    assert!(fingerprint(entries(&PACK)).starts_with("blake3:"));
    assert_eq!(fingerprint(entries(&PACK)).len(), "blake3:".len() + 64);
}

#[test]
fn fingerprint_ignores_the_order_of_the_files() {
    let mut shuffled = PACK;
    shuffled.reverse();
    shuffled.swap(0, 2);
    assert_eq!(fingerprint(entries(&shuffled)), fingerprint(entries(&PACK)));
}

#[test]
fn fingerprint_changes_when_a_single_sound_does() {
    let mut changed = PACK;
    changed[1] = ("attract.wav", 7, b"attracT");
    assert_ne!(fingerprint(entries(&changed)), fingerprint(entries(&PACK)));
}

#[test]
fn fingerprint_of_an_empty_pack_hashes_nothing() {
    let expected = format!("blake3:{}", blake3::hash(b"").to_hex());
    assert_eq!(fingerprint(Vec::new()), expected);
}

#[test]
fn the_mark_has_its_own_file_name() {
    assert_eq!(STAMP_FILE, "loudness.json");
}

#[test]
fn a_fingerprint_is_always_seventy_one_characters() {
    assert_eq!(fingerprint(entries(&PACK[..1])).len(), 71);
}
