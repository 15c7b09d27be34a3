//! PUP packs: reading the trigger and playlist tables.
//!
//! `triggers.pup` holds a `Volume` per played file and `playlists.pup` one per
//! folder, both percentages that the player applies as `volume / 100`. So
//! correcting a pack means writing numbers into columns that already exist.

use vstd::prelude::*;
use vstd::hash_map::StringHashMap;
use vstd::string::*;

use crate::table::{csv_data_rows, field_text, read_data_rows};
use crate::text::{
    is_blank, is_trim_of, to_lowercase, trim, trim_is_empty_iff_blank, trim_keeps_the_inner_text,
    trim_spec, unicode_lowercase,
};

verus! {

/// `ID,Active,Descript,Trigger,ScreenNum,PlayList,PlayFile,Volume,...`
pub const TRIGGER_PLAYLIST: usize = 5;

/// See `TRIGGER_PLAYLIST`.
pub const TRIGGER_PLAYFILE: usize = 6;

/// See `TRIGGER_PLAYLIST`.
pub const TRIGGER_VOLUME: usize = 7;

/// `ScreenNum,Folder,Des,AlphaSort,RestSeconds,Volume,Priority`
pub const PLAYLIST_FOLDER: usize = 1;

/// See `PLAYLIST_FOLDER`.
pub const PLAYLIST_VOLUME: usize = 5;

/// One line of `triggers.pup` that plays something.
#[derive(Debug, Clone)]
pub struct Trigger {
    /// Row in the file, so a correction can be written back in place.
    pub row: usize,
    /// Folder the clip lives in, which is also the playlist name.
    pub playlist: String,
    /// File played, relative to the playlist folder. `None` when the trigger
    /// plays the whole folder.
    pub play_file: Option<String>,
    /// Declared volume as written, trimmed; `None` when the field is absent or
    /// empty. It reads as a percentage, and as 100 when absent or not a number.
    pub volume: Option<String>,
}

/// One line of `playlists.pup`.
#[derive(Debug, Clone)]
pub struct Playlist {
    /// Row in the file.
    pub row: usize,
    /// Folder name, matching what triggers refer to.
    pub folder: String,
    /// Declared volume as written, trimmed; `None` when absent or empty.
    pub volume: Option<String>,
}

/// A parsed PUP pack.
pub struct PupPack {
    /// Every trigger that names a playlist, in file order.
    pub triggers: Vec<Trigger>,
    /// Playlists, by folder name in lowercase.
    pub playlists: StringHashMap<Playlist>,
}

/// The declared percentage in field `col`: trimmed, `None` when empty.
pub open spec fn declared(row: Seq<Seq<char>>, col: int) -> Option<Seq<char>> {
    if field_text(row, col).len() > 0 {
        Some(field_text(row, col))
    } else {
        None
    }
}

/// The folder a playlist row defines, if it names one.
pub open spec fn folder_of(row: Seq<Seq<char>>) -> Option<Seq<char>> {
    declared(row, PLAYLIST_FOLDER as int)
}

/// Row `r` defines the playlist known under `key`.
pub open spec fn defines(rows: Seq<Seq<Seq<char>>>, r: int, key: Seq<char>) -> bool {
    &&& 0 <= r < rows.len()
    &&& folder_of(rows[r]) matches Some(f)
    &&& unicode_lowercase(f) == key
}

/// What `playlist` holds when it was read from row `r`.
pub open spec fn playlist_from(rows: Seq<Seq<Seq<char>>>, r: int, playlist: Playlist) -> bool {
    &&& playlist.row == r
    &&& Some(playlist.folder@) == folder_of(rows[r])
    &&& playlist.volume.deep_view() == declared(rows[r], PLAYLIST_VOLUME as int)
}

/// `playlists` holds, for every folder defined among `rows`, the last row
/// that defines it, and nothing else.
pub open spec fn playlists_from(rows: Seq<Seq<Seq<char>>>, playlists: Map<Seq<char>, Playlist>) -> bool {
    &&& forall|key: Seq<char>|
        #[trigger] playlists.contains_key(key) <==> exists|r: int| defines(rows, r, key)
    &&& forall|key: Seq<char>|
        #[trigger] playlists.contains_key(key) ==> {
            let p = playlists[key];
            &&& defines(rows, p.row as int, key)
            &&& playlist_from(rows, p.row as int, p)
            &&& forall|q: int| p.row < q < rows.len() ==> !defines(rows, q, key)
        }
}

/// A trigger row names a playlist; the others are comments or separators.
pub open spec fn is_trigger_row(row: Seq<Seq<char>>) -> bool {
    field_text(row, TRIGGER_PLAYLIST as int).len() > 0
}

/// Positions of the trigger rows, in order.
pub open spec fn trigger_rows(rows: Seq<Seq<Seq<char>>>) -> Seq<int>
    decreases rows.len(),
{
    if rows.len() == 0 {
        seq![]
    } else {
        let rest = trigger_rows(rows.drop_last());
        if is_trigger_row(rows.last()) {
            rest.push(rows.len() - 1)
        } else {
            rest
        }
    }
}

/// What `trigger` holds when it was read from row `r`.
pub open spec fn trigger_from(rows: Seq<Seq<Seq<char>>>, r: int, trigger: Trigger) -> bool {
    &&& trigger.row == r
    &&& trigger.playlist@ == field_text(rows[r], TRIGGER_PLAYLIST as int)
    &&& trigger.play_file.deep_view() == declared(rows[r], TRIGGER_PLAYFILE as int)
    &&& trigger.volume.deep_view() == declared(rows[r], TRIGGER_VOLUME as int)
}

/// `triggers` are the trigger rows among `rows`, in order.
pub open spec fn triggers_from(rows: Seq<Seq<Seq<char>>>, triggers: Seq<Trigger>) -> bool {
    &&& triggers.len() == trigger_rows(rows).len()
    &&& forall|k: int|
        0 <= k < triggers.len() ==> trigger_from(rows, trigger_rows(rows)[k], #[trigger] triggers[k])
}

/// `value` is what field `col` of `row` says: that field with the white
/// space at its ends cut away and every other character, case included, kept
/// as written; `None` when the row has no such field or it is blank.
pub open spec fn field_as_written(row: Seq<Seq<char>>, col: int, value: Option<Seq<char>>) -> bool {
    match value {
        Some(f) => {
            &&& 0 <= col < row.len()
            &&& f.len() > 0
            &&& is_trim_of(f, row[col])
        },
        None => !(0 <= col < row.len()) || is_blank(row[col]),
    }
}

/// A declared value is its field as written, only trimmed, and is missing
/// exactly when the field is absent or blank.
pub proof fn declared_is_the_field_as_written(row: Seq<Seq<char>>, col: int)
    ensures
        field_as_written(row, col, declared(row, col)),
{
    if 0 <= col < row.len() {
        trim_keeps_the_inner_text(row[col]);
        trim_is_empty_iff_blank(row[col]);
    }
}

/// Every trigger read from `rows` sits on one of them, and its playlist, clip
/// and volume are the `PlayList`, `PlayFile` and `Volume` fields of that row
/// as written.
pub open spec fn triggers_as_written(rows: Seq<Seq<Seq<char>>>, triggers: Seq<Trigger>) -> bool {
    forall|k: int|
        0 <= k < triggers.len() ==> {
            let row = rows[(#[trigger] triggers[k]).row as int];
            &&& 0 <= triggers[k].row < rows.len()
            &&& field_as_written(row, TRIGGER_PLAYLIST as int, Some(triggers[k].playlist@))
            &&& field_as_written(row, TRIGGER_PLAYFILE as int, triggers[k].play_file.deep_view())
            &&& field_as_written(row, TRIGGER_VOLUME as int, triggers[k].volume.deep_view())
        }
}

/// A trigger's playlist, clip and volume are the fields of its row, trimmed
/// and otherwise as written; the clip or the volume is `None` when its field
/// is absent or blank.
pub proof fn triggers_are_read_as_written(rows: Seq<Seq<Seq<char>>>, triggers: Seq<Trigger>)
    requires
        triggers_from(rows, triggers),
    ensures
        triggers_as_written(rows, triggers),
{
    lemma_trigger_rows_bound(rows);
    assert forall|k: int| 0 <= k < triggers.len() implies {
        let row = rows[(#[trigger] triggers[k]).row as int];
        &&& 0 <= triggers[k].row < rows.len()
        &&& field_as_written(row, TRIGGER_PLAYLIST as int, Some(triggers[k].playlist@))
        &&& field_as_written(row, TRIGGER_PLAYFILE as int, triggers[k].play_file.deep_view())
        &&& field_as_written(row, TRIGGER_VOLUME as int, triggers[k].volume.deep_view())
    } by {
        let r = trigger_rows(rows)[k];
        assert(trigger_from(rows, r, triggers[k]));
        let row = rows[r];
        declared_is_the_field_as_written(row, TRIGGER_PLAYLIST as int);
        declared_is_the_field_as_written(row, TRIGGER_PLAYFILE as int);
        declared_is_the_field_as_written(row, TRIGGER_VOLUME as int);
    }
}

/// Every playlist read from `rows` sits on one of them, and its folder and
/// volume are the `Folder` and `Volume` fields of that row as written.
pub open spec fn playlists_as_written(rows: Seq<Seq<Seq<char>>>, playlists: Map<Seq<char>, Playlist>) -> bool {
    forall|key: Seq<char>|
        #[trigger] playlists.contains_key(key) ==> {
            let p = playlists[key];
            &&& 0 <= p.row < rows.len()
            &&& field_as_written(rows[p.row as int], PLAYLIST_FOLDER as int, Some(p.folder@))
            &&& field_as_written(rows[p.row as int], PLAYLIST_VOLUME as int, p.volume.deep_view())
        }
}

/// A playlist's folder and volume are the fields of its row, trimmed and
/// otherwise as written.
pub proof fn playlists_are_read_as_written(rows: Seq<Seq<Seq<char>>>, playlists: Map<Seq<char>, Playlist>)
    requires
        playlists_from(rows, playlists),
    ensures
        playlists_as_written(rows, playlists),
{
    assert forall|key: Seq<char>| #[trigger] playlists.contains_key(key) implies {
        let p = playlists[key];
        &&& 0 <= p.row < rows.len()
        &&& field_as_written(rows[p.row as int], PLAYLIST_FOLDER as int, Some(p.folder@))
        &&& field_as_written(rows[p.row as int], PLAYLIST_VOLUME as int, p.volume.deep_view())
    } by {
        let p = playlists[key];
        assert(defines(rows, p.row as int, key));
        declared_is_the_field_as_written(rows[p.row as int], PLAYLIST_FOLDER as int);
        declared_is_the_field_as_written(rows[p.row as int], PLAYLIST_VOLUME as int);
    }
}

/// Field `col` of a row, trimmed.
fn field(record: &Vec<String>, col: usize) -> (text: &str)
    ensures
        text@ == field_text(record.deep_view(), col as int),
{
    if col < record.len() {
        assert(record.deep_view()[col as int] == record@[col as int]@);
        trim(record[col].as_str())
    } else {
        proof {
            reveal_strlit("");
        }
        ""
    }
}

/// The declared value of field `col`.
fn declared_value(record: &Vec<String>, col: usize) -> (value: Option<String>)
    ensures
        value.deep_view() == declared(record.deep_view(), col as int),
{
    let text = field(record, col);
    if text.is_empty() {
        None
    } else {
        Some(text.to_owned())
    }
}

proof fn lemma_trigger_rows_bound(rows: Seq<Seq<Seq<char>>>)
    ensures
        forall|k: int| 0 <= k < trigger_rows(rows).len() ==> 0 <= #[trigger] trigger_rows(rows)[k]
            < rows.len() && is_trigger_row(rows[trigger_rows(rows)[k]]),
    decreases rows.len(),
{
    if rows.len() > 0 {
        let before = rows.drop_last();
        let rest = trigger_rows(before);
        lemma_trigger_rows_bound(before);
        assert forall|k: int| 0 <= k < trigger_rows(rows).len() implies 0 <= #[trigger] trigger_rows(
            rows,
        )[k] < rows.len() && is_trigger_row(rows[trigger_rows(rows)[k]]) by {
            if k < rest.len() {
                assert(trigger_rows(rows)[k] == rest[k]);
                assert(rows[rest[k]] == before[rest[k]]);
            }
        }
    }
}

fn read_playlists(rows: &Vec<Vec<String>>) -> (playlists: StringHashMap<Playlist>)
    ensures
        playlists_from(rows.deep_view(), playlists@),
{
    let ghost all = rows.deep_view();
    let mut playlists: StringHashMap<Playlist> = StringHashMap::new();
    let mut i: usize = 0;
    while i < rows.len()
        invariant
            i <= rows@.len(),
            all == rows.deep_view(),
            forall|key: Seq<char>|
                #[trigger] playlists@.contains_key(key) <==> exists|r: int|
                    r < i && defines(all, r, key),
            forall|key: Seq<char>|
                #[trigger] playlists@.contains_key(key) ==> {
                    let p = playlists@[key];
                    &&& p.row < i
                    &&& defines(all, p.row as int, key)
                    &&& playlist_from(all, p.row as int, p)
                    &&& forall|q: int| p.row < q < i ==> !defines(all, q, key)
                },
        decreases rows@.len() - i,
    {
        let record = &rows[i];
        assert(all[i as int] == record.deep_view());
        let folder = field(record, PLAYLIST_FOLDER);
        if !folder.is_empty() {
            let key = to_lowercase(folder);
            let ghost k = key@;
            let entry = Playlist {
                row: i,
                folder: folder.to_owned(),
                volume: declared_value(record, PLAYLIST_VOLUME),
            };
            let ghost before = playlists@;
            playlists.insert(key, entry);
            proof {
                assert(defines(all, i as int, k));
                assert forall|key2: Seq<char>| #[trigger] playlists@.contains_key(key2) <==> exists|
                    r: int,
                | r < i + 1 && defines(all, r, key2) by {
                    if key2 != k && exists|r: int| r < i + 1 && defines(all, r, key2) {
                        let r = choose|r: int| r < i + 1 && defines(all, r, key2);
                        assert(r < i);
                    }
                }
                assert forall|key2: Seq<char>| #[trigger] playlists@.contains_key(key2) implies {
                    let p = playlists@[key2];
                    &&& p.row < i + 1
                    &&& defines(all, p.row as int, key2)
                    &&& playlist_from(all, p.row as int, p)
                    &&& forall|q: int| p.row < q < i + 1 ==> !defines(all, q, key2)
                } by {
                    if key2 != k {
                        assert(before.contains_key(key2));
                        assert(!defines(all, i as int, key2));
                    }
                }
            }
        } else {
            proof {
                assert forall|key2: Seq<char>| #[trigger] playlists@.contains_key(key2) <==> exists|
                    r: int,
                | r < i + 1 && defines(all, r, key2) by {
                    assert(!defines(all, i as int, key2));
                }
                assert forall|key2: Seq<char>| #[trigger] playlists@.contains_key(key2) implies
                    forall|q: int| playlists@[key2].row < q < i + 1 ==> !defines(all, q, key2) by {
                    assert(!defines(all, i as int, key2));
                }
            }
        }
        i = i + 1;
    }
    playlists
}

fn read_triggers(rows: &Vec<Vec<String>>) -> (triggers: Vec<Trigger>)
    ensures
        triggers_from(rows.deep_view(), triggers@),
{
    let ghost all = rows.deep_view();
    let mut triggers: Vec<Trigger> = Vec::new();
    let mut i: usize = 0;
    assert(all.take(0) =~= Seq::<Seq<Seq<char>>>::empty());
    while i < rows.len()
        invariant
            i <= rows@.len(),
            all == rows.deep_view(),
            triggers_from(all.take(i as int), triggers@),
            forall|k: int| 0 <= k < triggers@.len() ==> trigger_from(all, trigger_rows(all.take(i as int))[k], #[trigger] triggers@[k]),
        decreases rows@.len() - i,
    {
        let record = &rows[i];
        let ghost prefix = all.take(i + 1);
        proof {
            assert(all[i as int] == record.deep_view());
            assert(prefix.drop_last() =~= all.take(i as int));
            assert(prefix.last() == all[i as int]);
            lemma_trigger_rows_bound(all.take(i as int));
        }
        let playlist = field(record, TRIGGER_PLAYLIST);
        if !playlist.is_empty() {
            let trigger = Trigger {
                row: i,
                playlist: playlist.to_owned(),
                play_file: declared_value(record, TRIGGER_PLAYFILE),
                volume: declared_value(record, TRIGGER_VOLUME),
            };
            triggers.push(trigger);
        }
        proof {
            let tr = trigger_rows(prefix);
            assert forall|k: int| 0 <= k < triggers@.len() implies trigger_from(
                all,
                tr[k],
                #[trigger] triggers@[k],
            ) by {
                if k < trigger_rows(all.take(i as int)).len() {
                    assert(tr[k] == trigger_rows(all.take(i as int))[k]);
                }
            }
            assert forall|k: int| 0 <= k < triggers@.len() implies trigger_from(
                prefix,
                tr[k],
                #[trigger] triggers@[k],
            ) by {
                lemma_trigger_rows_bound(prefix);
                assert(prefix[tr[k]] == all[tr[k]]);
            }
        }
        i = i + 1;
    }
    assert(all.take(rows@.len() as int) =~= all);
    triggers
}

impl PupPack {
    /// Read a pack from the bytes of `playlists.pup`, when the pack has one,
    /// and of `triggers.pup`. A trigger row that names no playlist is a
    /// comment or a separator and is skipped; when a folder is defined twice,
    /// the later row wins.
    pub fn load(playlists: Option<&[u8]>, triggers: &[u8]) -> (pack: Result<PupPack, csv::Error>)
        ensures
            pack is Ok <==> (match playlists {
                Some(p) => csv_data_rows(p@) is Some,
                None => true,
            }) && csv_data_rows(triggers@) is Some,
            pack matches Ok(pk) ==> {
                &&& triggers_from(csv_data_rows(triggers@).unwrap(), pk.triggers@)
                &&& triggers_as_written(csv_data_rows(triggers@).unwrap(), pk.triggers@)
                &&& match playlists {
                    Some(p) => playlists_from(csv_data_rows(p@).unwrap(), pk.playlists@)
                        && playlists_as_written(csv_data_rows(p@).unwrap(), pk.playlists@),
                    None => pk.playlists@ == Map::<Seq<char>, Playlist>::empty(),
                }
            },
    {
        let playlist_rows = match playlists {
            Some(bytes) => match read_data_rows(bytes) {
                Ok(r) => Some(r),
                Err(e) => return Err(e),
            },
            None => None,
        };
        let rows = match read_data_rows(triggers) {
            Ok(r) => r,
            Err(e) => return Err(e),
        };
        Ok(Self::from_rows(playlist_rows, rows))
    }

    /// Build a pack from tables already read: the rows of `playlists.pup`,
    /// when the pack has one, and of `triggers.pup`, header excluded.
    pub fn from_rows(playlists: Option<Vec<Vec<String>>>, triggers: Vec<Vec<String>>) -> (pack: PupPack)
        ensures
            triggers_from(triggers.deep_view(), pack.triggers@),
            triggers_as_written(triggers.deep_view(), pack.triggers@),
            match playlists {
                Some(p) => playlists_from(p.deep_view(), pack.playlists@) && playlists_as_written(
                    p.deep_view(),
                    pack.playlists@,
                ),
                None => pack.playlists@ == Map::<Seq<char>, Playlist>::empty(),
            },
    {
        let playlist_map = match &playlists {
            Some(rows) => read_playlists(rows),
            None => StringHashMap::new(),
        };
        let read = read_triggers(&triggers);
        proof {
            triggers_are_read_as_written(triggers.deep_view(), read@);
            match &playlists {
                Some(rows) => playlists_are_read_as_written(rows.deep_view(), playlist_map@),
                None => {},
            }
        }
        PupPack { triggers: read, playlists: playlist_map }
    }

    /// The playlist a trigger's folder name refers to, matched in lowercase.
    pub fn playlist_for(&self, name: &str) -> (found: Option<&Playlist>)
        ensures
            match found {
                Some(p) => self.playlists@.contains_key(unicode_lowercase(name@)) && *p
                    == self.playlists@[unicode_lowercase(name@)],
                None => !self.playlists@.contains_key(unicode_lowercase(name@)),
            },
    {
        let key = to_lowercase(name);
        self.playlists.get(key.as_str())
    }
}

} // verus!
