use loudness::engine::{signature, RULES_VERSION};

const FIGURES: &str = "-20.73;3.20;1.15;0.56;";

#[test]
fn signature_is_stable_within_a_run() {
    assert_eq!(signature(Some(FIGURES)), signature(Some(FIGURES)));
    assert!(signature(Some(FIGURES)).starts_with("blake3:"));
}

#[test]
fn signature_hashes_the_figures_and_the_rules() {
    let mut hasher = blake3::Hasher::new();
    for figure in ["-20.73;", "3.20;", "1.15;", "0.56;"] {
        hasher.update(figure.as_bytes());
    }
    hasher.update(format!("rules={RULES_VERSION}").as_bytes());
    let expected = format!("blake3:{}", &hasher.finalize().to_hex()[..16]);
    assert_eq!(signature(Some(FIGURES)), expected);
    assert_eq!(signature(Some(FIGURES)).len(), "blake3:".len() + 16);
}

#[test]
fn signature_follows_the_figures() {
    assert_ne!(signature(Some(FIGURES)), signature(Some("-20.74;3.20;1.15;0.56;")));
}

#[test]
fn signature_falls_back_when_the_reference_cannot_be_measured() {
    assert_eq!(signature(None), "unavailable:rules=1");
}
