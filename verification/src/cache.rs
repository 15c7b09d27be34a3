//! Measurement cache.
//!
//! Deliberately not an "already normalised" flag: storing the figures lets us
//! tell what is still valid when the target moves or a pack changes. An entry
//! is looked up by the source it describes, and only trusted when it was
//! produced under the current rules.

use vstd::prelude::*;

use crate::text::same_text;

verus! {

/// Bumped whenever the measurement or the gain rules change, so old entries
/// are recomputed instead of silently trusted.
pub const ALGORITHM_VERSION: u32 = 1;

/// What was measured for one source, and what was done about it.
///
/// The figures are carried as the bit patterns of their `f64` values
/// (`f64::to_bits`): the cache stores and returns them, it never computes with
/// them.
#[derive(Debug)]
pub struct CacheEntry {
    /// Rom name, pack folder: whatever identifies the source.
    pub source_id: String,
    /// `altsound`, `pup`, `pinmame`, `table`.
    pub kind: String,
    /// Integrated loudness measured, in LUFS.
    pub lufs: u64,
    /// Loudness range, in LU.
    pub lra: u64,
    /// Loudest true peak, in dBTP.
    pub true_peak_dbtp: u64,
    /// Target that was aimed at, in LUFS.
    pub target_lufs: u64,
    /// True peak ceiling that was respected, in dBTP.
    pub ceiling_dbtp: u64,
    /// Offset written into the source itself, in dB.
    pub written_db: u64,
    /// Offset left for the audio bus, in dB.
    pub residual_db: u64,
    /// Files measured, to notice a pack that has grown or shrunk.
    pub file_count: usize,
    /// Rules that produced these numbers.
    pub algorithm_version: u32,
}

/// Every measurement we have kept.
#[derive(Debug)]
pub struct Cache {
    /// One entry per measured source.
    pub entries: Vec<CacheEntry>,
}

/// An entry that may be trusted for `source_id`: same source, current rules.
pub open spec fn is_current(e: CacheEntry, source_id: Seq<char>) -> bool {
    e.source_id@ == source_id && e.algorithm_version == ALGORITHM_VERSION
}

/// The first entry that may be trusted for `source_id`, if any.
pub open spec fn lookup(entries: Seq<CacheEntry>, source_id: Seq<char>) -> Option<CacheEntry>
    decreases entries.len(),
{
    if entries.len() == 0 {
        None
    } else if is_current(entries[0], source_id) {
        Some(entries[0])
    } else {
        lookup(entries.drop_first(), source_id)
    }
}

/// The entries that describe another source than `source_id`, in order.
pub open spec fn without(entries: Seq<CacheEntry>, source_id: Seq<char>) -> Seq<CacheEntry>
    decreases entries.len(),
{
    if entries.len() == 0 {
        seq![]
    } else {
        let rest = without(entries.drop_last(), source_id);
        if entries.last().source_id@ == source_id {
            rest
        } else {
            rest.push(entries.last())
        }
    }
}

/// The entries after `entry` was put in.
pub open spec fn put_spec(entries: Seq<CacheEntry>, entry: CacheEntry) -> Seq<CacheEntry> {
    without(entries, entry.source_id@).push(entry)
}

/// No two entries describe the same source.
pub open spec fn one_entry_per_source(entries: Seq<CacheEntry>) -> bool {
    forall|i: int, j: int|
        0 <= i < j < entries.len() ==> (#[trigger] entries[i]).source_id@ != (
        #[trigger] entries[j]).source_id@
}

impl Default for Cache {
    /// An empty cache.
    fn default() -> (c: Self)
        ensures
            c.entries@ == Seq::<CacheEntry>::empty(),
    {
        Cache { entries: Vec::new() }
    }
}

impl Cache {
    /// Entry for a source, if it was measured under the current rules.
    pub fn get(&self, source_id: &str) -> (found: Option<&CacheEntry>)
        ensures
            match found {
                Some(e) => lookup(self.entries@, source_id@) == Some(*e),
                None => lookup(self.entries@, source_id@) is None,
            },
    {
        let mut i: usize = 0;
        assert(self.entries@.skip(0) =~= self.entries@);
        while i < self.entries.len()
            invariant
                i <= self.entries@.len(),
                lookup(self.entries@, source_id@) == lookup(
                    self.entries@.skip(i as int),
                    source_id@,
                ),
            decreases self.entries@.len() - i,
        {
            let e = &self.entries[i];
            assert(self.entries@.skip(i as int)[0] == self.entries@[i as int]);
            if same_text(e.source_id.as_str(), source_id) && e.algorithm_version
                == ALGORITHM_VERSION {
                return Some(e);
            }
            assert(self.entries@.skip(i as int).drop_first() =~= self.entries@.skip(i + 1));
            i = i + 1;
        }
        None
    }

    /// Add an entry, replacing any previous one for the same source.
    pub fn put(&mut self, entry: CacheEntry)
        ensures
            final(self).entries@ == put_spec(old(self).entries@, entry),
    {
        let mut rest: Vec<CacheEntry> = Vec::new();
        std::mem::swap(&mut rest, &mut self.entries);
        let ghost all = rest@;
        let mut kept: Vec<CacheEntry> = Vec::new();
        let ghost mut i: int = 0;
        assert(all.take(0) =~= Seq::<CacheEntry>::empty());
        assert(all.skip(0) =~= all);
        while rest.len() > 0
            invariant
                0 <= i <= all.len(),
                rest@ == all.skip(i),
                kept@ == without(all.take(i), entry.source_id@),
            decreases rest@.len(),
        {
            let e = rest.remove(0);
            proof {
                assert(e == all[i]);
                assert(all.take(i + 1).drop_last() =~= all.take(i));
                assert(all.take(i + 1).last() == all[i]);
                assert(rest@ =~= all.skip(i + 1));
            }
            if e.source_id != entry.source_id {
                kept.push(e);
            }
            proof {
                i = i + 1;
            }
        }
        assert(all.take(i) =~= all);
        kept.push(entry);
        self.entries = kept;
    }
}

proof fn lemma_lookup_push(s: Seq<CacheEntry>, x: CacheEntry, id: Seq<char>)
    ensures
        lookup(s.push(x), id) == (match lookup(s, id) {
            Some(e) => Some(e),
            None => if is_current(x, id) {
                Some(x)
            } else {
                None
            },
        }),
    decreases s.len(),
{
    let t = s.push(x);
    if s.len() > 0 {
        assert(t[0] == s[0]);
        assert(t.drop_first() =~= s.drop_first().push(x));
        lemma_lookup_push(s.drop_first(), x, id);
    } else {
        assert(t[0] == x);
        assert(t.drop_first() =~= Seq::<CacheEntry>::empty());
        assert(lookup(t.drop_first(), id) is None);
    }
}

proof fn lemma_lookup_without_other(s: Seq<CacheEntry>, id: Seq<char>, other: Seq<char>)
    requires
        other != id,
    ensures
        lookup(without(s, id), other) == lookup(s, other),
    decreases s.len(),
{
    if s.len() == 0 {
    } else {
        let p = s.drop_last();
        let x = s.last();
        assert(s =~= p.push(x));
        lemma_lookup_without_other(p, id, other);
        lemma_lookup_push(p, x, other);
        if x.source_id@ != id {
            lemma_lookup_push(without(p, id), x, other);
        }
    }
}

proof fn lemma_without_excludes(s: Seq<CacheEntry>, id: Seq<char>)
    ensures
        forall|k: int| 0 <= k < without(s, id).len() ==> (#[trigger] without(s, id)[k]).source_id@
            != id,
        forall|k: int|
            0 <= k < without(s, id).len() ==> s.contains(#[trigger] without(s, id)[k]),
    decreases s.len(),
{
    if s.len() > 0 {
        let p = s.drop_last();
        lemma_without_excludes(p, id);
        assert forall|k: int| 0 <= k < without(s, id).len() implies s.contains(
            #[trigger] without(s, id)[k],
        ) by {
            if k < without(p, id).len() {
                let y = without(p, id)[k];
                assert(p.contains(y));
                let m = choose|m: int| 0 <= m < p.len() && p[m] == y;
                assert(s[m] == y);
            } else {
                assert(s[s.len() - 1] == s.last());
            }
        }
    }
}

proof fn lemma_lookup_none(s: Seq<CacheEntry>, id: Seq<char>)
    requires
        forall|k: int| 0 <= k < s.len() ==> (#[trigger] s[k]).source_id@ != id,
    ensures
        lookup(s, id) is None,
    decreases s.len(),
{
    if s.len() > 0 {
        assert forall|k: int| 0 <= k < s.drop_first().len() implies (
        #[trigger] s.drop_first()[k]).source_id@ != id by {
            assert(s.drop_first()[k] == s[k + 1]);
        }
        lemma_lookup_none(s.drop_first(), id);
    }
}

/// What a read gives back of a write: right after `put(entry)`, looking up
/// its source finds `entry` itself when it was made under the current rules,
/// and nothing otherwise (the older entries for that source are gone).
pub proof fn get_after_put(entries: Seq<CacheEntry>, entry: CacheEntry)
    ensures
        lookup(put_spec(entries, entry), entry.source_id@) == (if entry.algorithm_version
            == ALGORITHM_VERSION {
            Some(entry)
        } else {
            None
        }),
{
    let id = entry.source_id@;
    lemma_without_excludes(entries, id);
    lemma_lookup_none(without(entries, id), id);
    lemma_lookup_push(without(entries, id), entry, id);
}

/// Putting an entry leaves what is found for every other source unchanged.
pub proof fn put_keeps_other_sources(
    entries: Seq<CacheEntry>,
    entry: CacheEntry,
    other: Seq<char>,
)
    requires
        other != entry.source_id@,
    ensures
        lookup(put_spec(entries, entry), other) == lookup(entries, other),
{
    lemma_lookup_without_other(entries, entry.source_id@, other);
    lemma_lookup_push(without(entries, entry.source_id@), entry, other);
}

/// The cache never holds two entries for one source: putting keeps that so.
pub proof fn put_keeps_one_entry_per_source(entries: Seq<CacheEntry>, entry: CacheEntry)
    requires
        one_entry_per_source(entries),
    ensures
        one_entry_per_source(put_spec(entries, entry)),
{
    lemma_without_unique(entries, entry.source_id@);
    lemma_without_excludes(entries, entry.source_id@);
    let w = without(entries, entry.source_id@);
    let t = w.push(entry);
    assert forall|i: int, j: int| 0 <= i < j < t.len() implies (#[trigger] t[i]).source_id@ != (
    #[trigger] t[j]).source_id@ by {
        if j == w.len() {
            assert(t[i] == w[i]);
        } else {
            assert(t[i] == w[i] && t[j] == w[j]);
        }
    }
}

proof fn lemma_without_unique(s: Seq<CacheEntry>, id: Seq<char>)
    requires
        one_entry_per_source(s),
    ensures
        one_entry_per_source(without(s, id)),
    decreases s.len(),
{
    if s.len() > 0 {
        let p = s.drop_last();
        let x = s.last();
        assert(one_entry_per_source(p)) by {
            assert forall|i: int, j: int| 0 <= i < j < p.len() implies (#[trigger] p[i]).source_id@
                != (#[trigger] p[j]).source_id@ by {
                assert(p[i] == s[i] && p[j] == s[j]);
            }
        }
        lemma_without_unique(p, id);
        lemma_without_excludes(p, id);
        if x.source_id@ != id {
            let w = without(p, id);
            let t = w.push(x);
            assert forall|i: int, j: int| 0 <= i < j < t.len() implies (#[trigger] t[i]).source_id@
                != (#[trigger] t[j]).source_id@ by {
                if j == w.len() {
                    assert(t[i] == w[i]);
                    assert(p.contains(w[i]));
                    let m = choose|m: int| 0 <= m < p.len() && p[m] == w[i];
                    assert(s[m] == p[m]);
                    assert(s[s.len() - 1] == x);
                } else {
                    assert(t[i] == w[i] && t[j] == w[j]);
                }
            }
        }
    }
}

} // verus!
