//! Choosing files by name: media files of a PUP folder, the csv of an
//! AltSound folder.
//!
//! Names are taken as the bytes the file system gives, and extensions follow
//! `Path::extension`: what comes after the last `.`, unless that dot opens the
//! name.

use vstd::prelude::*;

use crate::order::{
    bytes_le, bytes_le_exec, lemma_bytes_le_antisymmetric, lemma_bytes_le_reflexive,
    lemma_bytes_le_total, lemma_bytes_le_transitive,
};
use crate::sort::{key_order, sort_by_key, sort_keys, SortKey};
use crate::text::{bytes_eq_ignore_ascii_case, bytes_eq_ignore_ascii_case_exec};

verus! {

broadcast use crate::order::lemma_bytes_deep_view;

/// Position of the last `.` in a name.
pub open spec fn last_dot(name: Seq<u8>) -> Option<int>
    decreases name.len(),
{
    if name.len() == 0 {
        None
    } else if name.last() == 46 {
        Some(name.len() - 1)
    } else {
        last_dot(name.drop_last())
    }
}

/// The extension of a file name, as `Path::extension` reads it.
pub open spec fn extension_of(name: Seq<u8>) -> Option<Seq<u8>> {
    if name == seq![46u8, 46u8] {
        None
    } else {
        match last_dot(name) {
            Some(p) => if p > 0 {
                Some(name.subrange(p + 1, name.len() as int))
            } else {
                None
            },
            None => None,
        }
    }
}

/// The name has extension `ext`, ignoring ASCII case.
pub open spec fn has_extension_spec(name: Seq<u8>, ext: Seq<char>) -> bool {
    extension_of(name) matches Some(e) && bytes_eq_ignore_ascii_case(e, vstd::utf8::encode_utf8(ext))
}

/// The name has one of the extensions a PUP clip can have.
pub open spec fn is_media_name(name: Seq<u8>) -> bool {
    ||| has_extension_spec(name, "mp4"@)
    ||| has_extension_spec(name, "mkv"@)
    ||| has_extension_spec(name, "avi"@)
    ||| has_extension_spec(name, "webm"@)
    ||| has_extension_spec(name, "mp3"@)
    ||| has_extension_spec(name, "wav"@)
    ||| has_extension_spec(name, "m4a"@)
    ||| has_extension_spec(name, "ogg"@)
}

/// Where `last_dot` points: a `.` with none after it; `None` when the name
/// holds no `.` at all.
proof fn lemma_last_dot(name: Seq<u8>)
    ensures
        match last_dot(name) {
            Some(p) => {
                &&& 0 <= p < name.len()
                &&& name[p] == 46
                &&& forall|k: int| p < k < name.len() ==> #[trigger] name[k] != 46
            },
            None => forall|k: int| 0 <= k < name.len() ==> #[trigger] name[k] != 46,
        },
    decreases name.len(),
{
    if name.len() > 0 && name.last() != 46 {
        let rest = name.drop_last();
        lemma_last_dot(rest);
        assert forall|k: int| 0 <= k < rest.len() implies #[trigger] name[k] == rest[k] by {}
    }
}

/// The extension of a name is what follows its last `.`, unless that dot
/// opens the name: a name has none when no `.` stands after its first byte,
/// and `..` has none either.
pub proof fn extension_follows_the_last_dot(name: Seq<u8>)
    ensures
        extension_of(name) is None <==> (name == seq![46u8, 46u8] || forall|k: int|
            1 <= k < name.len() ==> #[trigger] name[k] != 46),
        extension_of(name) matches Some(e) ==> {
            &&& e.len() + 2 <= name.len()
            &&& name[name.len() - e.len() - 1] == 46
            &&& e == name.subrange(name.len() - e.len(), name.len() as int)
            &&& forall|k: int| 0 <= k < e.len() ==> #[trigger] e[k] != 46
        },
{
    lemma_last_dot(name);
    if name != seq![46u8, 46u8] {
        if let Some(p) = last_dot(name) {
            if p > 0 {
                let e = name.subrange(p + 1, name.len() as int);
                assert(name[p] == 46);
                assert forall|k: int| 0 <= k < e.len() implies #[trigger] e[k] != 46 by {
                    assert(e[k] == name[p + 1 + k]);
                }
            }
        }
    }
}

/// A stem, a `.` and a suffix without dots make a name whose extension is that
/// suffix, whatever dots the stem holds.
pub proof fn extension_of_stem_dot_suffix(stem: Seq<u8>, suffix: Seq<u8>)
    requires
        stem.len() > 0,
        forall|k: int| 0 <= k < suffix.len() ==> #[trigger] suffix[k] != 46,
        !(stem == seq![46u8] && suffix.len() == 0),
    ensures
        extension_of(stem + seq![46u8] + suffix) == Some(suffix),
{
    let name = stem + seq![46u8] + suffix;
    let p = stem.len() as int;
    assert(name[p] == 46);
    assert forall|k: int| p < k < name.len() implies #[trigger] name[k] != 46 by {
        assert(name[k] == suffix[k - p - 1]);
    }
    lemma_last_dot(name);
    if name == seq![46u8, 46u8] {
        assert(stem =~= seq![46u8]);
    }
    match last_dot(name) {
        Some(q) => {
            assert(q == p);
        },
        None => {
            assert(name[p] != 46);
        },
    }
    assert(name.subrange(p + 1, name.len() as int) =~= suffix);
}

/// A file extension a PUP clip can have, ignoring ASCII case.
pub open spec fn is_media_extension(ext: Seq<u8>) -> bool {
    ||| bytes_eq_ignore_ascii_case(ext, vstd::utf8::encode_utf8("mp4"@))
    ||| bytes_eq_ignore_ascii_case(ext, vstd::utf8::encode_utf8("mkv"@))
    ||| bytes_eq_ignore_ascii_case(ext, vstd::utf8::encode_utf8("avi"@))
    ||| bytes_eq_ignore_ascii_case(ext, vstd::utf8::encode_utf8("webm"@))
    ||| bytes_eq_ignore_ascii_case(ext, vstd::utf8::encode_utf8("mp3"@))
    ||| bytes_eq_ignore_ascii_case(ext, vstd::utf8::encode_utf8("wav"@))
    ||| bytes_eq_ignore_ascii_case(ext, vstd::utf8::encode_utf8("m4a"@))
    ||| bytes_eq_ignore_ascii_case(ext, vstd::utf8::encode_utf8("ogg"@))
}

/// Whether a name is a media file is decided by what follows its last dot
/// alone: `intro.v2.mp4` is a clip as much as `intro.mp4` is.
pub proof fn media_name_by_its_last_suffix(stem: Seq<u8>, suffix: Seq<u8>)
    requires
        stem.len() > 0,
        forall|k: int| 0 <= k < suffix.len() ==> #[trigger] suffix[k] != 46,
        !(stem == seq![46u8] && suffix.len() == 0),
    ensures
        is_media_name(stem + seq![46u8] + suffix) == is_media_extension(suffix),
{
    extension_of_stem_dot_suffix(stem, suffix);
}

/// Which names to keep.
#[derive(Debug, Clone, Copy, PartialEq, Eq, Structural)]
pub enum NameFilter {
    /// Files a PUP clip can be.
    Media,
    /// Files with a `csv` extension.
    Csv,
}

/// Whether `filter` keeps `name`.
pub open spec fn keeps(filter: NameFilter, name: Seq<u8>) -> bool {
    match filter {
        NameFilter::Media => is_media_name(name),
        NameFilter::Csv => has_extension_spec(name, "csv"@),
    }
}

/// The names `filter` keeps, in order.
pub open spec fn selected(names: Seq<Seq<u8>>, filter: NameFilter) -> Seq<Seq<u8>>
    decreases names.len(),
{
    if names.len() == 0 {
        seq![]
    } else {
        let rest = selected(names.drop_last(), filter);
        if keeps(filter, names.last()) {
            rest.push(names.last())
        } else {
            rest
        }
    }
}

/// Outcome of looking for the one csv of a folder.
#[derive(Debug, Clone, Copy, PartialEq, Eq, Structural)]
pub enum CsvSearch {
    /// No file with a `csv` extension.
    NoCsv,
    /// Several of them: the user has to name one.
    SeveralCsv,
}

/// The extension of a file name, as `Path::extension` reads it.
pub(crate) fn extension(name: &[u8]) -> (ext: Option<&[u8]>)
    ensures
        match ext {
            Some(e) => extension_of(name@) == Some(e@),
            None => extension_of(name@) is None,
        },
{
    if name.len() == 2 && name[0] == 46 && name[1] == 46 {
        assert(name@ =~= seq![46u8, 46u8]);
        return None;
    }
    assert(name@ != seq![46u8, 46u8]);
    let mut i: usize = name.len();
    assert(name@.take(i as int) =~= name@);
    while i > 0
        invariant
            i <= name@.len(),
            name@ != seq![46u8, 46u8],
            last_dot(name@) == last_dot(name@.take(i as int)),
        decreases i,
    {
        assert(name@.take(i as int).last() == name@[i - 1]);
        if name[i - 1] == 46 {
            assert(last_dot(name@) == Some(i - 1));
            if i - 1 == 0 {
                return None;
            }
            let ext = &name[i..name.len()];
            assert(ext@ == name@.subrange(i as int, name@.len() as int));
            assert(last_dot(name@) matches Some(p) && p == i - 1 && p > 0);
            assert(name@ != seq![46u8, 46u8]);
            assert(extension_of(name@) == Some(name@.subrange((i - 1) + 1, name@.len() as int)));
            return Some(ext);
        }
        assert(name@.take(i as int).drop_last() =~= name@.take(i - 1));
        i = i - 1;
    }
    None
}

/// Whether a file name has extension `ext`, ignoring ASCII case.
pub(crate) fn has_extension(name: &[u8], ext: &str) -> (has: bool)
    ensures
        has == has_extension_spec(name@, ext@),
{
    match extension(name) {
        Some(e) => bytes_eq_ignore_ascii_case_exec(e, ext.as_bytes()),
        None => false,
    }
}

fn is_media(name: &[u8]) -> (media: bool)
    ensures
        media == is_media_name(name@),
{
    has_extension(name, "mp4") || has_extension(name, "mkv") || has_extension(name, "avi")
        || has_extension(name, "webm") || has_extension(name, "mp3") || has_extension(name, "wav")
        || has_extension(name, "m4a") || has_extension(name, "ogg")
}

impl SortKey for Vec<u8> {
    type Key = Seq<u8>;

    open spec fn sort_key(&self) -> Seq<u8> {
        self@
    }

    open spec fn key_le(a: Seq<u8>, b: Seq<u8>) -> bool {
        bytes_le(a, b)
    }

    proof fn lemma_key_le_reflexive(a: Seq<u8>) {
        lemma_bytes_le_reflexive(a);
    }

    proof fn lemma_key_le_antisymmetric(a: Seq<u8>, b: Seq<u8>) {
        lemma_bytes_le_antisymmetric(a, b);
    }

    proof fn lemma_key_le_transitive(a: Seq<u8>, b: Seq<u8>, c: Seq<u8>) {
        lemma_bytes_le_transitive(a, b, c);
    }

    proof fn lemma_key_le_total(a: Seq<u8>, b: Seq<u8>) {
        lemma_bytes_le_total(a, b);
    }

    fn key_le_exec(&self, other: &Vec<u8>) -> (le: bool) {
        bytes_le_exec(self.as_slice(), other.as_slice())
    }
}

/// The keys of byte strings are their bytes.
proof fn lemma_sort_keys_bytes(v: Seq<Vec<u8>>)
    ensures
        sort_keys(v) == Seq::new(v.len(), |i: int| v[i]@),
{
    assert(sort_keys(v) =~= Seq::new(v.len(), |i: int| v[i]@));
}

fn keeps_exec(filter: NameFilter, name: &[u8]) -> (keep: bool)
    ensures
        keep == keeps(filter, name@),
{
    match filter {
        NameFilter::Media => is_media(name),
        NameFilter::Csv => has_extension(name, "csv"),
    }
}

/// The names `filter` keeps, in order.
pub(crate) fn select(names: Vec<Vec<u8>>, filter: NameFilter) -> (kept: Vec<Vec<u8>>)
    ensures
        kept.deep_view() == selected(names.deep_view(), filter),
{
    let ghost all = names.deep_view();
    let mut rest = names;
    let mut found: Vec<Vec<u8>> = Vec::new();
    let ghost mut i: int = 0;
    assert(all.take(0) =~= Seq::<Seq<u8>>::empty());
    assert(found.deep_view() =~= Seq::<Seq<u8>>::empty());
    while rest.len() > 0
        invariant
            0 <= i <= all.len(),
            rest.deep_view() == all.skip(i as int),
            found.deep_view() == selected(all.take(i as int), filter),
        decreases rest@.len(),
    {
        let ghost before = rest@;
        let ghost before_dv = rest.deep_view();
        assert(rest.deep_view().len() == before.len());
        assert(rest.deep_view()[0] == before[0]@);
        let name = rest.remove(0);
        proof {
            assert(name@ == all[i as int]);
            assert(all.take(i + 1).drop_last() =~= all.take(i as int));
            assert(all.take(i + 1).last() == all[i as int]);
            assert forall|k: int| 0 <= k < rest@.len() implies #[trigger] rest.deep_view()[k] == all.skip(
                i + 1,
            )[k] by {
                assert(rest@[k] == before[k + 1]);
                assert(before_dv[k + 1] == before[k + 1]@);
            }
            assert(rest.deep_view() =~= all.skip(i + 1));
        }
        let ghost prev = found.deep_view();
        if keeps_exec(filter, name.as_slice()) {
            let ghost v = name@;
            found.push(name);
            assert(found.deep_view() =~= prev.push(v));
        }
        proof {
            i = i + 1;
        }
    }
    assert(all.take(i as int) =~= all);
    found
}

/// Media files among the entries of a folder, sorted so a run is
/// reproducible.
pub fn media_files(names: Vec<Vec<u8>>) -> (media: Vec<Vec<u8>>)
    ensures
        media.deep_view() == selected(names.deep_view(), NameFilter::Media).sort_by(
            key_order::<Vec<u8>>(),
        ),
{
    let found = select(names, NameFilter::Media);
    let sorted = sort_by_key(found);
    proof {
        lemma_sort_keys_bytes(found@);
        lemma_sort_keys_bytes(sorted@);
        assert(sort_keys(found@) =~= found.deep_view());
        assert(sort_keys(sorted@) =~= sorted.deep_view());
    }
    sorted
}

/// The one csv of a folder, among the names of its entries.
pub fn locate_csv(names: Vec<Vec<u8>>) -> (found: Result<Vec<u8>, CsvSearch>)
    ensures
        ({
            let csv = selected(names.deep_view(), NameFilter::Csv);
            match found {
                Ok(n) => csv.len() == 1 && n@ == csv[0],
                Err(CsvSearch::NoCsv) => csv.len() == 0,
                Err(CsvSearch::SeveralCsv) => csv.len() > 1,
            }
        }),
{
    let mut found = select(names, NameFilter::Csv);
    if found.len() == 0 {
        Err(CsvSearch::NoCsv)
    } else if found.len() == 1 {
        let ghost v = found.deep_view();
        let only = found.pop().unwrap();
        assert(v[0] == only@);
        Ok(only)
    } else {
        Err(CsvSearch::SeveralCsv)
    }
}

} // verus!
