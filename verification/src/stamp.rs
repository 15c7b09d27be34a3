//! The identity of a pack, as recorded in the mark left beside it.
//!
//! A pack is identified by its media files: the sorted list of
//! `(file name, size, content hash)`, hashed into one string. It holds still
//! when the pack is rezipped, moved or listed in another order, and changes as
//! soon as a single sound does.

use vstd::prelude::*;
use vstd::string::*;

use crate::order::{
    bytes_equal, bytes_le, bytes_le_exec, lemma_bytes_le_antisymmetric, lemma_bytes_le_reflexive,
    lemma_bytes_le_total, lemma_bytes_le_transitive,
};
use crate::sort::{lemma_sort_ignores_order, sort_by_key, sort_keys, SortKey};
use crate::digest::{blake3_digest, blake3_hash, digest_hex, lower_hex};
use crate::text::{to_lowercase, unicode_lowercase};

verus! {


/// Name of the mark, dropped beside the pack's own files.
pub const STAMP_FILE: &'static str = "loudness.json";

/// What a media file contributes to the fingerprint: the UTF-8 bytes of its
/// lowercased name, its size, and the digest of its content.
pub type FileKey = (Seq<u8>, u64, Seq<u8>);

/// The order of `(String, u64, [u8; 32])` tuples: by name, then size, then
/// content digest.
pub open spec fn key_le(a: FileKey, b: FileKey) -> bool {
    if a.0 != b.0 {
        bytes_le(a.0, b.0)
    } else if a.1 != b.1 {
        a.1 < b.1
    } else {
        bytes_le(a.2, b.2)
    }
}

/// `key_le` as a relation.
pub open spec fn key_order() -> spec_fn(FileKey, FileKey) -> bool {
    crate::sort::key_order::<FileEntry>()
}

/// Little-endian bytes of `x`, `n` of them.
pub open spec fn le_bytes(x: nat, n: nat) -> Seq<u8>
    decreases n,
{
    if n == 0 {
        seq![]
    } else {
        seq![(x % 256) as u8] + le_bytes(x / 256, (n - 1) as nat)
    }
}

/// What one file adds to the hashed stream: name bytes, size as eight
/// little-endian bytes, content digest.
pub open spec fn key_bytes(k: FileKey) -> Seq<u8> {
    k.0 + le_bytes(k.1 as nat, 8) + k.2
}

/// The hashed stream for a list of files, in list order.
pub open spec fn preimage(keys: Seq<FileKey>) -> Seq<u8>
    decreases keys.len(),
{
    if keys.len() == 0 {
        seq![]
    } else {
        preimage(keys.drop_last()) + key_bytes(keys.last())
    }
}

/// The fingerprint of a set of files: `blake3:` and the hex digest of the
/// stream built from their keys in sorted order.
pub open spec fn fingerprint_spec(keys: Seq<FileKey>) -> Seq<char> {
    "blake3:"@ + lower_hex(blake3_digest(preimage(keys.sort_by(key_order()))))
}

/// One media file of a pack, reduced to what identifies it.
#[derive(Debug)]
pub struct FileEntry {
    /// File name, lowercased.
    pub name: String,
    /// Size in bytes, as the file system reports it.
    pub size: u64,
    /// BLAKE3 digest of the content.
    pub hash: [u8; 32],
}

impl FileEntry {
    /// The entry as the fingerprint sees it.
    pub open spec fn key(&self) -> FileKey {
        (vstd::utf8::encode_utf8(self.name@), self.size, self.hash@)
    }

    /// Identify one file from its name, its size and its bytes. Hashing the
    /// bytes rather than the decoded audio is deliberate: a file that cannot be
    /// decoded still gets an identity.
    pub fn new(file_name: &str, size: u64, content: &[u8]) -> (e: FileEntry)
        ensures
            e.name@ == unicode_lowercase(file_name@),
            e.size == size,
            e.hash@ == blake3_digest(content@),
    {
        FileEntry { name: to_lowercase(file_name), size, hash: blake3_hash(content) }
    }
}

/// The keys of a list of entries.
pub open spec fn keys_of(entries: Seq<FileEntry>) -> Seq<FileKey> {
    sort_keys(entries)
}

proof fn lemma_key_le_transitive(a: FileKey, b: FileKey, c: FileKey)
    requires
        key_le(a, b),
        key_le(b, c),
    ensures
        key_le(a, c),
{
    if a.0 != b.0 && b.0 != c.0 {
        lemma_bytes_le_transitive(a.0, b.0, c.0);
        if a.0 == c.0 {
            lemma_bytes_le_antisymmetric(a.0, b.0);
        }
    } else if a.0 == b.0 && b.0 == c.0 && a.1 == b.1 && b.1 == c.1 {
        lemma_bytes_le_transitive(a.2, b.2, c.2);
    }
}

proof fn lemma_key_le_total(a: FileKey, b: FileKey)
    ensures
        key_le(a, b) || key_le(b, a),
{
    lemma_bytes_le_total(a.0, b.0);
    lemma_bytes_le_total(a.2, b.2);
}

proof fn lemma_key_le_antisymmetric(a: FileKey, b: FileKey)
    requires
        key_le(a, b),
        key_le(b, a),
    ensures
        a == b,
{
    if a.0 != b.0 {
        lemma_bytes_le_antisymmetric(a.0, b.0);
    } else if a.1 == b.1 {
        lemma_bytes_le_antisymmetric(a.2, b.2);
    }
}

impl SortKey for FileEntry {
    type Key = FileKey;

    open spec fn sort_key(&self) -> FileKey {
        self.key()
    }

    open spec fn key_le(a: FileKey, b: FileKey) -> bool {
        key_le(a, b)
    }

    proof fn lemma_key_le_reflexive(a: FileKey) {
        lemma_bytes_le_reflexive(a.2);
    }

    proof fn lemma_key_le_antisymmetric(a: FileKey, b: FileKey) {
        lemma_key_le_antisymmetric(a, b);
    }

    proof fn lemma_key_le_transitive(a: FileKey, b: FileKey, c: FileKey) {
        lemma_key_le_transitive(a, b, c);
    }

    proof fn lemma_key_le_total(a: FileKey, b: FileKey) {
        lemma_key_le_total(a, b);
    }

    fn key_le_exec(&self, other: &FileEntry) -> (le: bool) {
        let x = self.name.as_str().as_bytes();
        let y = other.name.as_str().as_bytes();
        if !bytes_equal(x, y) {
            bytes_le_exec(x, y)
        } else if self.size != other.size {
            self.size < other.size
        } else {
            bytes_le_exec(&self.hash, &other.hash)
        }
    }
}

/// The fingerprint of a set of files does not depend on the order in which
/// they are listed.
pub proof fn fingerprint_ignores_order(a: Seq<FileKey>, b: Seq<FileKey>)
    requires
        a.to_multiset() == b.to_multiset(),
    ensures
        fingerprint_spec(a) == fingerprint_spec(b),
{
    lemma_sort_ignores_order::<FileEntry>(a, b);
}

fn append_bytes(buf: &mut Vec<u8>, bytes: &[u8])
    ensures
        final(buf)@ == old(buf)@ + bytes@,
{
    let mut i: usize = 0;
    while i < bytes.len()
        invariant
            i <= bytes@.len(),
            buf@ == old(buf)@ + bytes@.take(i as int),
        decreases bytes@.len() - i,
    {
        buf.push(bytes[i]);
        assert(bytes@.take(i + 1) =~= bytes@.take(i as int).push(bytes@[i as int]));
        i = i + 1;
    }
    assert(bytes@.take(bytes@.len() as int) =~= bytes@);
}

fn append_le_u64(buf: &mut Vec<u8>, x: u64)
    ensures
        final(buf)@ == old(buf)@ + le_bytes(x as nat, 8),
{
    let mut v = x;
    let mut i: usize = 0;
    while i < 8
        invariant
            i <= 8,
            buf@ + le_bytes(v as nat, (8 - i) as nat) == old(buf)@ + le_bytes(x as nat, 8),
        decreases 8 - i,
    {
        let ghost prev = buf@;
        let ghost w = v;
        buf.push((v % 256) as u8);
        v = v / 256;
        assert(le_bytes(w as nat, (8 - i) as nat) == seq![(w % 256) as u8] + le_bytes(
            v as nat,
            (8 - (i + 1)) as nat,
        ));
        assert(buf@ + le_bytes(v as nat, (8 - (i + 1)) as nat) =~= prev + le_bytes(
            w as nat,
            (8 - i) as nat,
        ));
        i = i + 1;
    }
    assert(le_bytes(v as nat, 0) =~= Seq::<u8>::empty());
    assert(buf@ + le_bytes(v as nat, 0) =~= buf@);
}

/// Hash a pack's media files into one identity: `blake3:` and the hex digest
/// of every file's name, size and content digest, taken in sorted order.
pub fn fingerprint(entries: Vec<FileEntry>) -> (f: String)
    ensures
        f@ == fingerprint_spec(keys_of(entries@)),
        f@.len() == 71,
{
    let sorted = sort_by_key(entries);
    let ghost ks = keys_of(sorted@);
    let mut buf: Vec<u8> = Vec::new();
    let mut i: usize = 0;
    assert(ks.take(0) =~= Seq::<FileKey>::empty());
    while i < sorted.len()
        invariant
            i <= sorted@.len(),
            ks == keys_of(sorted@),
            buf@ == preimage(ks.take(i as int)),
        decreases sorted@.len() - i,
    {
        let ghost prev = buf@;
        append_bytes(&mut buf, sorted[i].name.as_str().as_bytes());
        append_le_u64(&mut buf, sorted[i].size);
        append_bytes(&mut buf, &sorted[i].hash);
        proof {
            assert(ks.take(i + 1).drop_last() =~= ks.take(i as int));
            assert(ks.take(i + 1).last() == ks[i as int]);
            assert(buf@ =~= prev + key_bytes(ks[i as int]));
        }
        i = i + 1;
    }
    assert(ks.take(sorted@.len() as int) =~= ks);
    let digest = blake3_hash(buf.as_slice());
    let hex = digest_hex(&digest);
    let mut f = String::from_str("blake3:");
    f.append(hex.as_str());
    proof {
        reveal_strlit("blake3:");
    }
    f
}

} // verus!
