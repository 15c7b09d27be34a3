//! AltSound packs: the csv that lists every sound, with its `GAIN` column.
//!
//! Nothing is re-encoded. The csv already carries a gain per entry, so
//! normalising a pack is a matter of rewriting that column. The table is kept
//! whole, so columns this crate knows nothing about survive a rewrite.

use vstd::prelude::*;
use vstd::string::*;

use crate::table::{
    csv_data_rows, csv_document, csv_header_row, field_text, field_text_is_the_field_trimmed,
    read_data_rows, read_header_row, write_document,
};
use crate::text::{
    bytes_eq_ignore_ascii_case, eq_ignore_ascii_case, is_trim_of, trim, trim_keeps_the_inner_text,
    trim_spec,
};

verus! {

/// Whether a header cell names the column `name`: trimmed, and equal up to
/// ASCII case.
pub open spec fn names_column(cell: Seq<char>, name: Seq<char>) -> bool {
    bytes_eq_ignore_ascii_case(vstd::utf8::encode_utf8(trim_spec(cell)), vstd::utf8::encode_utf8(name))
}

/// `i` is the first header cell that names the column `name`.
pub open spec fn first_column(header: Seq<Seq<char>>, name: Seq<char>, i: int) -> bool {
    &&& 0 <= i < header.len()
    &&& names_column(header[i], name)
    &&& forall|k: int| 0 <= k < i ==> !names_column(#[trigger] header[k], name)
}

/// Some header cell names the column `name`.
pub open spec fn has_column(header: Seq<Seq<char>>, name: Seq<char>) -> bool {
    exists|i: int| 0 <= i < header.len() && names_column(#[trigger] header[i], name)
}

/// A csv document that reads as an AltSound pack: a header with a `GAIN` and a
/// `FNAME` column, and at least one row.
pub open spec fn is_pack_document(bytes: Seq<u8>) -> bool {
    &&& csv_header_row(bytes) matches Some(h)
    &&& has_column(h, "GAIN"@)
    &&& has_column(h, "FNAME"@)
    &&& csv_data_rows(bytes) matches Some(r)
    &&& r.len() > 0
}

/// The trimmed names in column `col`, in row order, skipping rows too short to
/// have one.
pub open spec fn listed_names(rows: Seq<Seq<Seq<char>>>, col: int) -> Seq<Seq<char>>
    decreases rows.len(),
{
    if rows.len() == 0 {
        seq![]
    } else {
        let rest = listed_names(rows.drop_last(), col);
        if 0 <= col < rows.last().len() {
            rest.push(trim_spec(rows.last()[col]))
        } else {
            rest
        }
    }
}

/// Whether a row is long enough to have field `col`.
pub open spec fn has_field(col: int) -> spec_fn(Seq<Seq<char>>) -> bool {
    |row: Seq<Seq<char>>| 0 <= col < row.len()
}

/// The listed names are the fields in column `col` of the rows that have one,
/// in row order, each with the white space at its ends cut away and every
/// other character, case included, kept as written.
pub proof fn listed_names_are_trimmed_fields(rows: Seq<Seq<Seq<char>>>, col: int)
    ensures
        listed_names(rows, col).len() == rows.filter(has_field(col)).len(),
        forall|k: int|
            0 <= k < listed_names(rows, col).len() ==> is_trim_of(
                #[trigger] listed_names(rows, col)[k],
                rows.filter(has_field(col))[k][col],
            ),
    decreases rows.len(),
{
    reveal(Seq::filter);
    if rows.len() > 0 {
        let before = rows.drop_last();
        listed_names_are_trimmed_fields(before, col);
        let rest = listed_names(before, col);
        let kept = before.filter(has_field(col));
        let names = listed_names(rows, col);
        let all = rows.filter(has_field(col));
        if 0 <= col < rows.last().len() {
            assert(has_field(col)(rows.last()));
            assert(all == kept.push(rows.last()));
            assert(names == rest.push(trim_spec(rows.last()[col])));
            trim_keeps_the_inner_text(rows.last()[col]);
            assert forall|k: int| 0 <= k < names.len() implies is_trim_of(
                #[trigger] names[k],
                all[k][col],
            ) by {
                if k < rest.len() {
                    assert(names[k] == rest[k]);
                    assert(all[k] == kept[k]);
                }
            }
        } else {
            assert(!has_field(col)(rows.last()));
            assert(all == kept);
        }
    }
}

/// Why a csv could not be read as an AltSound pack.
#[derive(Debug)]
pub enum AltsoundError {
    /// The csv itself could not be read.
    Csv(csv::Error),
    /// The header has no column by this name.
    MissingColumn(String),
    /// The csv lists no sound.
    NoSound,
}

/// A parsed AltSound csv, kept whole so unknown columns survive a rewrite.
pub struct AltsoundPack {
    headers: Vec<String>,
    records: Vec<Vec<String>>,
    gain_column: usize,
    fname_column: usize,
}

impl AltsoundPack {
    /// The header row.
    pub closed spec fn header_row(&self) -> Seq<Seq<char>> {
        self.headers.deep_view()
    }

    /// The rows after the header, field by field.
    pub closed spec fn rows(&self) -> Seq<Seq<Seq<char>>> {
        self.records.deep_view()
    }

    /// Position of the `GAIN` column.
    pub closed spec fn gain_col(&self) -> int {
        self.gain_column as int
    }

    /// Position of the `FNAME` column.
    pub closed spec fn fname_col(&self) -> int {
        self.fname_column as int
    }

    /// Both columns are in the header, and there is at least one row.
    pub closed spec fn wf(&self) -> bool {
        &&& self.gain_column < self.headers@.len()
        &&& self.fname_column < self.headers@.len()
        &&& self.records@.len() > 0
    }

    /// Read an AltSound csv (`altsound-<game>.csv`, or any csv with `GAIN` and
    /// `FNAME` columns). The columns are looked up before the rows are read, so
    /// a missing column is reported even when a later row is unreadable.
    pub fn load(bytes: &[u8]) -> (pack: Result<AltsoundPack, AltsoundError>)
        ensures
            pack is Ok <==> is_pack_document(bytes@),
            pack matches Ok(p) ==> {
                &&& p.wf()
                &&& csv_header_row(bytes@) == Some(p.header_row())
                &&& csv_data_rows(bytes@) == Some(p.rows())
                &&& first_column(p.header_row(), "GAIN"@, p.gain_col())
                &&& first_column(p.header_row(), "FNAME"@, p.fname_col())
            },
            csv_header_row(bytes@) is None ==> (pack matches Err(AltsoundError::Csv(_))),
            csv_header_row(bytes@) matches Some(h) ==> {
                &&& !has_column(h, "GAIN"@) ==> (pack matches Err(AltsoundError::MissingColumn(n))
                    && n@ == "GAIN"@)
                &&& has_column(h, "GAIN"@) && !has_column(h, "FNAME"@) ==> (pack matches Err(
                    AltsoundError::MissingColumn(n),
                ) && n@ == "FNAME"@)
                &&& has_column(h, "GAIN"@) && has_column(h, "FNAME"@) && csv_data_rows(bytes@) is None
                    ==> (pack matches Err(AltsoundError::Csv(_)))
                &&& has_column(h, "GAIN"@) && has_column(h, "FNAME"@) && csv_data_rows(bytes@)
                    == Some(Seq::<Seq<Seq<char>>>::empty()) ==> (pack matches Err(
                    AltsoundError::NoSound,
                ))
            },
    {
        let headers = match read_header_row(bytes) {
            Ok(h) => h,
            Err(e) => return Err(AltsoundError::Csv(e)),
        };
        if find_column(&headers, "GAIN").is_none() {
            return Err(AltsoundError::MissingColumn(String::from_str("GAIN")));
        }
        if find_column(&headers, "FNAME").is_none() {
            return Err(AltsoundError::MissingColumn(String::from_str("FNAME")));
        }
        let records = match read_data_rows(bytes) {
            Ok(r) => r,
            Err(e) => return Err(AltsoundError::Csv(e)),
        };
        Self::from_table(headers, records)
    }

    /// Build a pack from a csv already read: its header row and the rows
    /// after it. The `GAIN` and `FNAME` columns are the first header cells
    /// naming them, trimmed and ignoring ASCII case.
    pub fn from_table(header: Vec<String>, rows: Vec<Vec<String>>) -> (pack: Result<
        AltsoundPack,
        AltsoundError,
    >)
        ensures
            pack is Ok <==> has_column(header.deep_view(), "GAIN"@) && has_column(
                header.deep_view(),
                "FNAME"@,
            ) && rows@.len() > 0,
            pack matches Ok(p) ==> {
                &&& p.wf()
                &&& p.header_row() == header.deep_view()
                &&& p.rows() == rows.deep_view()
                &&& first_column(p.header_row(), "GAIN"@, p.gain_col())
                &&& first_column(p.header_row(), "FNAME"@, p.fname_col())
            },
            !has_column(header.deep_view(), "GAIN"@) ==> (pack matches Err(
                AltsoundError::MissingColumn(n),
            ) && n@ == "GAIN"@),
            has_column(header.deep_view(), "GAIN"@) && !has_column(header.deep_view(), "FNAME"@)
                ==> (pack matches Err(AltsoundError::MissingColumn(n)) && n@ == "FNAME"@),
            has_column(header.deep_view(), "GAIN"@) && has_column(header.deep_view(), "FNAME"@)
                && rows@.len() == 0 ==> (pack matches Err(AltsoundError::NoSound)),
    {
        let gain_column = match find_column(&header, "GAIN") {
            Some(i) => i,
            None => return Err(AltsoundError::MissingColumn(String::from_str("GAIN"))),
        };
        let fname_column = match find_column(&header, "FNAME") {
            Some(i) => i,
            None => return Err(AltsoundError::MissingColumn(String::from_str("FNAME"))),
        };
        if rows.len() == 0 {
            return Err(AltsoundError::NoSound);
        }
        Ok(AltsoundPack { headers: header, records: rows, gain_column, fname_column })
    }

    /// Names of the sounds the pack refers to, trimmed, in csv order; a row
    /// too short to have a name is skipped. They are relative to the folder
    /// holding the csv.
    pub fn sound_files(&self) -> (names: Vec<String>)
        ensures
            names.deep_view() == listed_names(self.rows(), self.fname_col()),
            names@.len() == self.rows().filter(has_field(self.fname_col())).len(),
            forall|k: int|
                0 <= k < names@.len() ==> is_trim_of(
                    (#[trigger] names@[k])@,
                    self.rows().filter(has_field(self.fname_col()))[k][self.fname_col()],
                ),
    {
        let mut names: Vec<String> = Vec::new();
        let mut i: usize = 0;
        assert(self.rows().take(0) =~= Seq::<Seq<Seq<char>>>::empty());
        assert(names.deep_view() =~= Seq::<Seq<char>>::empty());
        while i < self.records.len()
            invariant
                i <= self.records@.len(),
                names.deep_view() == listed_names(self.rows().take(i as int), self.fname_col()),
            decreases self.records@.len() - i,
        {
            let ghost prev = names.deep_view();
            let record = &self.records[i];
            proof {
                assert(self.rows().take(i + 1).drop_last() =~= self.rows().take(i as int));
                assert(self.rows().take(i + 1).last() == self.rows()[i as int]);
                assert(self.rows()[i as int] == record.deep_view());
            }
            if self.fname_column < record.len() {
                let name = trim(record[self.fname_column].as_str()).to_owned();
                names.push(name);
                assert(names.deep_view() =~= prev.push(trim_spec(record.deep_view()[self.fname_column as int])));
            }
            i = i + 1;
        }
        assert(self.rows().take(self.records@.len() as int) =~= self.rows());
        proof {
            listed_names_are_trimmed_fields(self.rows(), self.fname_col());
            assert forall|k: int| 0 <= k < names@.len() implies (#[trigger] names@[k])@
                == names.deep_view()[k] by {}
        }
        names
    }

    /// The gain of every row as written, trimmed, in row order; empty when a
    /// row is too short to have one. Turning them into numbers is up to the
    /// caller.
    pub fn gain_fields(&self) -> (gains: Vec<String>)
        ensures
            gains.deep_view() == self.rows().map_values(
                |r: Seq<Seq<char>>| field_text(r, self.gain_col()),
            ),
            gains@.len() == self.rows().len(),
            forall|k: int|
                0 <= k < gains@.len() ==> {
                    &&& self.gain_col() < self.rows()[k].len() ==> is_trim_of(
                        (#[trigger] gains@[k])@,
                        self.rows()[k][self.gain_col()],
                    )
                    &&& self.gain_col() >= self.rows()[k].len() ==> gains@[k]@.len() == 0
                },
    {
        let mut gains: Vec<String> = Vec::new();
        let mut i: usize = 0;
        while i < self.records.len()
            invariant
                i <= self.records@.len(),
                gains.deep_view() == self.rows().take(i as int).map_values(
                    |r: Seq<Seq<char>>| field_text(r, self.gain_col()),
                ),
            decreases self.records@.len() - i,
        {
            let ghost prev = gains.deep_view();
            let ghost f = |r: Seq<Seq<char>>| field_text(r, self.gain_col());
            let record = &self.records[i];
            assert(self.rows()[i as int] == record.deep_view());
            if self.gain_column < record.len() {
                assert(record.deep_view()[self.gain_column as int] == record[self.gain_column as int]@);
                gains.push(trim(record[self.gain_column].as_str()).to_owned());
            } else {
                gains.push(String::new());
            }
            assert(gains.deep_view() =~= prev.push(f(self.rows()[i as int])));
            assert(self.rows().take(i + 1).map_values(f) =~= self.rows().take(i as int).map_values(
                f,
            ).push(f(self.rows()[i as int])));
            i = i + 1;
        }
        assert(self.rows().take(self.records@.len() as int) =~= self.rows());
        proof {
            assert forall|k: int| 0 <= k < gains@.len() implies {
                &&& self.gain_col() < self.rows()[k].len() ==> is_trim_of(
                    (#[trigger] gains@[k])@,
                    self.rows()[k][self.gain_col()],
                )
                &&& self.gain_col() >= self.rows()[k].len() ==> gains@[k]@.len() == 0
            } by {
                assert(gains@[k]@ == gains.deep_view()[k]);
                field_text_is_the_field_trimmed(self.rows()[k], self.gain_col());
            }
        }
        gains
    }

    /// Write one gain per row into the `GAIN` column, as given. Every other
    /// field, the header and the row count stay as they were; a row too short
    /// to have a gain is left alone.
    pub fn write_gains(&mut self, gains: &[String])
        requires
            gains@.len() == old(self).rows().len(),
        ensures
            final(self).header_row() == old(self).header_row(),
            final(self).gain_col() == old(self).gain_col(),
            final(self).fname_col() == old(self).fname_col(),
            final(self).wf() == old(self).wf(),
            final(self).rows().len() == old(self).rows().len(),
            forall|i: int|
                0 <= i < old(self).rows().len() ==> #[trigger] final(self).rows()[i] == (if 0
                    <= old(self).gain_col() < old(self).rows()[i].len() {
                    old(self).rows()[i].update(old(self).gain_col(), gains@[i]@)
                } else {
                    old(self).rows()[i]
                }),
    {
        let ghost before = self.rows();
        let col = self.gain_column;
        let mut i: usize = 0;
        while i < self.records.len()
            invariant
                self.headers == old(self).headers,
                self.gain_column == col,
                col == old(self).gain_column,
                self.fname_column == old(self).fname_column,
                before == old(self).rows(),
                gains@.len() == before.len(),
                self.rows().len() == before.len(),
                i <= before.len(),
                forall|k: int|
                    0 <= k < i ==> #[trigger] self.rows()[k] == (if 0 <= col < before[k].len() {
                        before[k].update(col as int, gains@[k]@)
                    } else {
                        before[k]
                    }),
                forall|k: int| i <= k < before.len() ==> #[trigger] self.rows()[k] == before[k],
            decreases before.len() - i,
        {
            let ghost recs = self.records@;
            assert(self.rows()[i as int] == before[i as int]);
            assert(self.rows() == self.records.deep_view());
            assert(self.records.deep_view()[i as int] == recs[i as int].deep_view());
            assert(before[i as int] == recs[i as int].deep_view());
            let ghost old_rows = self.rows();
            if col < self.records[i].len() {
                let value = gains[i].clone();
                self.records[i].set(col, value);
                proof {
                    let r = self.records@[i as int];
                    assert(self.records@ == recs.update(i as int, r));
                    assert(r@ == recs[i as int]@.update(col as int, gains@[i as int]));
                    assert(r.deep_view() =~= before[i as int].update(col as int, gains@[i as int]@));
                    assert forall|k: int| 0 <= k < before.len() && k != i implies #[trigger] self.rows()[k]
                        == old_rows[k] by {
                        assert(self.records@[k] == recs[k]);
                        assert(self.rows()[k] == self.records@[k].deep_view());
                        assert(old_rows[k] == recs[k].deep_view());
                    }
                    assert(self.rows().len() == before.len());
                    assert(self.rows()[i as int] == r.deep_view());
                }
            }
            i = i + 1;
        }
    }

    /// The csv as it should be written back: the header, then every row.
    /// Keeping a backup of the file it replaces is up to the caller.
    pub fn save(&self) -> (bytes: Result<Vec<u8>, csv::Error>)
        ensures
            match bytes {
                Ok(b) => csv_document(self.header_row(), self.rows()) == Some(b@),
                Err(_) => csv_document(self.header_row(), self.rows()) is None,
            },
    {
        write_document(self.headers.as_slice(), self.records.as_slice())
    }
}

/// Whether a gain measured from `measured` of the `listed` sounds may be
/// written into the pack: a gain measured on part of a pack does not describe
/// it, so that takes the user saying so.
pub fn gain_may_be_written(measured: usize, listed: usize, allow_missing: bool) -> (may: bool)
    ensures
        may == (measured >= listed || allow_missing),
{
    measured >= listed || allow_missing
}

/// Position of the first header cell naming the column `name`.
fn find_column(headers: &Vec<String>, name: &str) -> (col: Option<usize>)
    ensures
        match col {
            Some(i) => first_column(headers.deep_view(), name@, i as int),
            None => !has_column(headers.deep_view(), name@),
        },
{
    let mut i: usize = 0;
    while i < headers.len()
        invariant
            i <= headers@.len(),
            forall|k: int| 0 <= k < i ==> !names_column(#[trigger] headers.deep_view()[k], name@),
        decreases headers@.len() - i,
    {
        let cell = trim(headers[i].as_str());
        if eq_ignore_ascii_case(cell, name) {
            assert(headers.deep_view()[i as int] == headers[i as int]@);
            return Some(i);
        }
        assert(headers.deep_view()[i as int] == headers[i as int]@);
        i = i + 1;
    }
    None
}

} // verus!
