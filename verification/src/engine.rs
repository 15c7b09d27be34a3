//! Identifying the measuring engine by what it does, not by its version.
//!
//! The engine measures a synthetic reference signal and hashes the figures it
//! reads, rounded to two decimals, together with the version of the gain
//! rules. Same figures and same rules give the same signature, so a pack is
//! only re-measured when the numbers would actually move.

use vstd::prelude::*;
use vstd::string::*;

use crate::digest::{blake3_digest, blake3_hash, digest_hex, lemma_lower_hex_ascii, lower_hex};
use crate::text::{decimal, decimal_spec};

verus! {

/// Version of the gain rules: the target, the ceiling handling, the way the
/// offset is split between the pack and the bus. Bump when a rule changes.
pub const RULES_VERSION: u32 = 1;

/// The tag that binds a signature to the gain rules: `rules=` and the version.
pub open spec fn rules_tag() -> Seq<char> {
    "rules="@ + decimal_spec(RULES_VERSION as nat)
}

/// The signature for the figures read off the reference signal, or the
/// fallback when the reference measurement failed.
///
/// `figures` is what the meter read, each value written with two decimals and
/// followed by `;`. The signature is `blake3:` and the first sixteen hex digits
/// of the BLAKE3 digest of those figures followed by the rules tag.
pub open spec fn signature_spec(figures: Option<Seq<char>>) -> Seq<char> {
    match figures {
        Some(f) => "blake3:"@ + lower_hex(
            blake3_digest(vstd::utf8::encode_utf8(f + rules_tag())),
        ).take(16),
        None => "unavailable:"@ + rules_tag(),
    }
}

/// Signature of the measuring engine, from the figures it read off the
/// reference signal, or `None` when that measurement failed, which would mean
/// the meter is unusable anyway.
pub fn signature(figures: Option<&str>) -> (s: String)
    ensures
        s@ == signature_spec(
            match figures {
                Some(f) => Some(f@),
                None => None,
            },
        ),
        figures is Some ==> s@.len() == 23,
{
    let mut tag = String::from_str("rules=");
    let version = decimal(RULES_VERSION);
    tag.append(version.as_str());
    assert(tag@ == rules_tag());
    match figures {
        Some(f) => {
            let mut text = String::from_str(f);
            text.append(tag.as_str());
            let digest = blake3_hash(text.as_str().as_bytes());
            let hex = digest_hex(&digest);
            proof {
                lemma_lower_hex_ascii(digest@);
            }
            let short = hex.as_str().substring_ascii(0, 16);
            let mut s = String::from_str("blake3:");
            s.append(short);
            proof {
                reveal_strlit("blake3:");
            }
            s
        },
        None => {
            let mut s = String::from_str("unavailable:");
            s.append(tag.as_str());
            s
        },
    }
}

} // verus!
