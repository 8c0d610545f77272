//! The metadata log: an append-only text of one record per line.
//!
//! `JsonlStorage` holds the text of the log as it stands in the file. Every
//! question about the log is a function of that text; an append returns the
//! text that it added, which is what has to be written behind the file.

use crate::models::{
    AppError, AppErrorView, ReviewMetadata, ReviewMetadataView, ValidationError,
    ValidationErrorView,
};
use crate::record::{decode_record_chars, decoded, push_record, record_line};
use crate::text::{
    chars_of, decimal, is_blank, lines_of, push_all, push_decimal, push_str, split_lines,
    string_of, trim_range,
};
use vstd::prelude::*;

verus! {

// ---------------------------------------------------------------------------
// Where the data lies
// ---------------------------------------------------------------------------

/// The path of the file `name` in the directory `base`: the two with one
/// `/` between them, or `name` alone where `base` is empty.
pub open spec fn joined(base: Seq<char>, name: Seq<char>) -> Seq<char> {
    if base.len() == 0 {
        name
    } else if base.last() == '/' {
        base + name
    } else {
        base + seq!['/'] + name
    }
}

/// The data directory and the three files in it.
#[derive(Debug, PartialEq, Eq)]
pub struct DataPaths {
    pub data_dir: String,
    /// The metadata log.
    pub reviews_jsonl: String,
    /// The vector index.
    pub reviews_index: String,
    /// The file on which the writers' lock is held.
    pub lock_file: String,
}

/// The path of the file `name` in the directory `base`.
fn join(base: &Vec<char>, name: &str) -> (out: String)
    ensures
        out@ == joined(base@, name@),
{
    let mut buf: Vec<char> = Vec::new();
    push_all(&mut buf, base);
    if base.len() > 0 && base[base.len() - 1] != '/' {
        buf.push('/');
    }
    push_str(&mut buf, name);
    assert(buf@ =~= joined(base@, name@));
    string_of(&buf)
}

impl DataPaths {
    /// The layout of the data directory `data_dir`.
    pub fn new(data_dir: &str) -> (paths: DataPaths)
        ensures
            paths.data_dir@ == data_dir@,
            paths.reviews_jsonl@ == joined(data_dir@, "reviews.jsonl"@),
            paths.reviews_index@ == joined(data_dir@, "reviews.index"@),
            paths.lock_file@ == joined(data_dir@, ".lock"@),
    {
        let base = chars_of(data_dir);
        DataPaths {
            data_dir: string_of(&base),
            reviews_jsonl: join(&base, "reviews.jsonl"),
            reviews_index: join(&base, "reviews.index"),
            lock_file: join(&base, ".lock"),
        }
    }
}

// ---------------------------------------------------------------------------
// The log as a text
// ---------------------------------------------------------------------------

/// The lines that are not blank, in order: the lines that hold records.
pub open spec fn stored_lines(lines: Seq<Seq<char>>) -> Seq<Seq<char>>
    decreases lines.len(),
{
    if lines.len() == 0 {
        Seq::empty()
    } else if is_blank(lines.last()) {
        stored_lines(lines.drop_last())
    } else {
        stored_lines(lines.drop_last()).push(lines.last())
    }
}

/// The lines of a log that hold records. The record at position `p` stands
/// on the line `entries(text)[p]`.
pub open spec fn entries(text: Seq<char>) -> Seq<Seq<char>> {
    stored_lines(lines_of(text))
}

/// The text of records written one behind the other, each on a line of its
/// own.
pub open spec fn batch_text(records: Seq<ReviewMetadataView>) -> Seq<char>
    decreases records.len(),
{
    if records.len() == 0 {
        Seq::empty()
    } else {
        batch_text(records.drop_last()) + record_line(records.last()) + seq!['\n']
    }
}

/// What looking up position `index` gives: nothing behind the last record;
/// else the record on that line, or the failure to read it.
pub open spec fn lookup(text: Seq<char>, index: int) -> Result<
    Option<ReviewMetadataView>,
    AppErrorView,
> {
    if 0 <= index < entries(text).len() {
        match decoded(entries(text)[index]) {
            Ok(record) => Ok(Some(record)),
            Err(message) => Err(AppErrorView::Serialization(message)),
        }
    } else {
        Ok(None)
    }
}

/// The first position at or after `p` whose line holds no record, or the
/// number of entries where every line from `p` on holds one.
pub open spec fn first_failure(entries: Seq<Seq<char>>, p: int) -> int
    decreases entries.len() - p,
{
    if 0 <= p < entries.len() && decoded(entries[p]) is Ok {
        first_failure(entries, p + 1)
    } else {
        p
    }
}

/// The first position at or after `p` that is asked for and whose line
/// holds no record, or the number of entries where there is none.
pub open spec fn first_wanted_failure(entries: Seq<Seq<char>>, indices: Seq<usize>, p: int) -> int
    decreases entries.len() - p,
{
    if 0 <= p < entries.len() && !(indices.contains(p as usize) && decoded(entries[p]) is Err) {
        first_wanted_failure(entries, indices, p + 1)
    } else {
        p
    }
}

/// Whether `e` is the failure to read a record from `line`.
pub open spec fn fails_with(line: Seq<char>, e: AppErrorView) -> bool {
    e is Serialization && decoded(line) == Err::<ReviewMetadataView, Seq<char>>(e->Serialization_0)
}

/// The name under which line `number` is reported.
pub open spec fn line_name(number: nat) -> Seq<char> {
    "line_"@ + decimal(number)
}

/// The faults of the first `n` lines: for each line that is not blank and
/// holds no record, its number, from 1, and why it holds none.
pub open spec fn line_faults(lines: Seq<Seq<char>>, n: int) -> Seq<ValidationErrorView>
    decreases n,
{
    if n <= 0 || n > lines.len() {
        Seq::empty()
    } else {
        let before = line_faults(lines, n - 1);
        if is_blank(lines[n - 1]) {
            before
        } else {
            match decoded(lines[n - 1]) {
                Ok(_) => before,
                Err(reason) => before.push(
                    ValidationErrorView::InvalidValue { field: line_name(n as nat), reason },
                ),
            }
        }
    }
}

/// The number of the first `n` lines that hold a record.
pub open spec fn valid_count(lines: Seq<Seq<char>>, n: int) -> int
    decreases n,
{
    if n <= 0 || n > lines.len() {
        0
    } else if !is_blank(lines[n - 1]) && decoded(lines[n - 1]) is Ok {
        valid_count(lines, n - 1) + 1
    } else {
        valid_count(lines, n - 1)
    }
}

/// What a check of the log found.
#[derive(Debug, PartialEq, Eq)]
pub struct ValidationResult {
    pub is_valid: bool,
    /// All lines, the blank ones too.
    pub total_lines: usize,
    /// The lines that hold a record.
    pub valid_lines: usize,
    /// One fault for each line that is not blank and holds no record.
    pub errors: Vec<ValidationError>,
}

/// The metadata log.
pub struct JsonlStorage {
    file_path: String,
    content: Vec<char>,
}

impl View for JsonlStorage {
    type V = Seq<char>;

    /// The text of the log.
    closed spec fn view(&self) -> Seq<char> {
        self.content@
    }
}

/// The outcome of looking up a position, by its views.
pub open spec fn lookup_outcome(r: Result<Option<ReviewMetadata>, AppError>) -> Result<
    Option<ReviewMetadataView>,
    AppErrorView,
> {
    match r {
        Ok(Some(record)) => Ok(Some(record@)),
        Ok(None) => Ok(None),
        Err(e) => Err(e@),
    }
}

/// The view of a record that may be missing.
pub open spec fn option_view(o: Option<ReviewMetadata>) -> Option<ReviewMetadataView> {
    match o {
        Some(record) => Some(record@),
        None => None,
    }
}

impl JsonlStorage {
    /// The path of the file that holds the log.
    pub closed spec fn path(&self) -> Seq<char> {
        self.file_path@
    }

    /// The log of a file that does not exist yet: an empty one.
    pub fn new(file_path: &str) -> (log: JsonlStorage)
        ensures
            log@ == Seq::<char>::empty(),
            log.path() == file_path@,
    {
        JsonlStorage { file_path: file_path.to_owned(), content: Vec::new() }
    }

    /// The log of a file with the text `content`.
    pub fn open(file_path: &str, content: &str) -> (log: JsonlStorage)
        ensures
            log@ == content@,
            log.path() == file_path@,
    {
        JsonlStorage { file_path: file_path.to_owned(), content: chars_of(content) }
    }

    /// The path of the file that holds the log.
    pub fn file_path(&self) -> (path: &String)
        ensures
            path@ == self.path(),
    {
        &self.file_path
    }

    /// The text of the log.
    pub fn content(&self) -> (text: String)
        ensures
            text@ == self@,
    {
        string_of(&self.content)
    }

    /// The lines that hold records.
    fn entries(&self) -> (out: Vec<Vec<char>>)
        ensures
            out.deep_view() == entries(self@),
    {
        let lines = split_lines(&self.content);
        let ghost all = lines.deep_view();
        let mut out: Vec<Vec<char>> = Vec::new();
        let mut i: usize = 0;
        assert(all.take(0) =~= Seq::<Seq<char>>::empty());
        while i < lines.len()
            invariant
                i <= lines.len(),
                all == lines.deep_view(),
                out.deep_view() == stored_lines(all.take(i as int)),
            decreases lines.len() - i,
        {
            let (a, b) = trim_range(&lines[i]);
            proof {
                assert(all.take(i + 1).drop_last() =~= all.take(i as int));
                assert(all.take(i + 1).last() == lines[i as int]@);
            }
            if b > a {
                let ghost before = out.deep_view();
                let ghost before_lines = out@;
                let line = lines[i].clone();
                assert(line@ == lines[i as int]@);
                out.push(line);
                assert(out.deep_view() =~= before.push(lines[i as int]@)) by {
                    assert forall|k: int| 0 <= k < out.len() implies #[trigger] out.deep_view()[k]
                        == before.push(lines[i as int]@)[k] by {
                        if k < out.len() - 1 {
                            assert(out@[k] == before_lines[k]);
                        }
                    }
                }
            }
            i += 1;
        }
        assert(all.take(lines.len() as int) =~= all);
        out
    }

    /// Appends a record to the log, and returns the text that was added:
    /// the record's line and a line feed.
    pub fn append_review(&mut self, review: &ReviewMetadata) -> (written: String)
        ensures
            written@ == record_line(review@) + seq!['\n'],
            final(self)@ == old(self)@ + written@,
            final(self).path() == old(self).path(),
    {
        let mut added: Vec<char> = Vec::new();
        push_record(&mut added, review);
        added.push('\n');
        assert(added@ =~= record_line(review@) + seq!['\n']);
        push_all(&mut self.content, &added);
        string_of(&added)
    }

    /// Appends records to the log in the given order, and returns the text
    /// that was added: each record's line with a line feed.
    pub fn append_reviews(&mut self, reviews: &[ReviewMetadata]) -> (written: String)
        ensures
            written@ == batch_text(reviews.deep_view()),
            final(self)@ == old(self)@ + written@,
            final(self).path() == old(self).path(),
    {
        let ghost records = reviews.deep_view();
        let mut added: Vec<char> = Vec::new();
        let mut i: usize = 0;
        assert(records.take(0) =~= Seq::<ReviewMetadataView>::empty());
        while i < reviews.len()
            invariant
                i <= reviews.len(),
                records == reviews.deep_view(),
                added@ == batch_text(records.take(i as int)),
            decreases reviews.len() - i,
        {
            proof {
                assert(records.take(i + 1).drop_last() =~= records.take(i as int));
                assert(records.take(i + 1).last() == reviews[i as int]@);
            }
            push_record(&mut added, &reviews[i]);
            added.push('\n');
            assert(added@ =~= batch_text(records.take(i + 1)));
            i += 1;
        }
        assert(records.take(reviews.len() as int) =~= records);
        push_all(&mut self.content, &added);
        string_of(&added)
    }

    /// The number of records in the log, which is the position that the
    /// next record gets.
    pub fn count_reviews(&self) -> (count: usize)
        ensures
            count == entries(self@).len(),
    {
        let found = self.entries();
        found.len()
    }

    /// The record at position `index`, or nothing where the log ends before
    /// it. A line that holds no record is a `Serialization` failure.
    pub fn get_review_by_index(&self, index: usize) -> (r: Result<Option<ReviewMetadata>, AppError>)
        ensures
            lookup_outcome(r) == lookup(self@, index as int),
    {
        let found = self.entries();
        if index >= found.len() {
            return Ok(None);
        }
        assert(found.deep_view()[index as int] == found[index as int]@);
        match decode_record_chars(&found[index]) {
            Ok(record) => Ok(Some(record)),
            Err(message) => Err(AppError::Serialization(message)),
        }
    }

    /// Every record of the log, in the order of the positions. The first
    /// line that holds no record is a `Serialization` failure.
    pub fn read_all_reviews(&self) -> (r: Result<Vec<ReviewMetadata>, AppError>)
        ensures
            match r {
                Ok(records) => first_failure(entries(self@), 0) == entries(self@).len()
                    && records.len() == entries(self@).len() && forall|p: int|
                    0 <= p < records.len() ==> decoded(#[trigger] entries(self@)[p]) == Ok::<
                        ReviewMetadataView,
                        Seq<char>,
                    >(records[p]@),
                Err(e) => first_failure(entries(self@), 0) < entries(self@).len() && fails_with(
                    entries(self@)[first_failure(entries(self@), 0)],
                    e@,
                ),
            },
    {
        let found = self.entries();
        let ghost all = found.deep_view();
        let mut records: Vec<ReviewMetadata> = Vec::new();
        let mut p: usize = 0;
        while p < found.len()
            invariant
                p <= found.len(),
                all == found.deep_view(),
                all == entries(self@),
                first_failure(all, 0) == first_failure(all, p as int),
                records.len() == p,
                forall|q: int|
                    0 <= q < p ==> decoded(#[trigger] all[q]) == Ok::<
                        ReviewMetadataView,
                        Seq<char>,
                    >(records[q]@),
            decreases found.len() - p,
        {
            assert(all[p as int] == found[p as int]@);
            match decode_record_chars(&found[p]) {
                Ok(record) => {
                    records.push(record);
                },
                Err(message) => {
                    return Err(AppError::Serialization(message));
                },
            }
            p += 1;
        }
        Ok(records)
    }

    /// For each of `indices`, the record at that position, or nothing where
    /// the log ends before it. Only the lines that are asked for are read;
    /// the first of them that holds no record is a `Serialization` failure.
    pub fn get_reviews_by_indices(&self, indices: &[usize]) -> (r: Result<
        Vec<Option<ReviewMetadata>>,
        AppError,
    >)
        ensures
            match r {
                Ok(records) => first_wanted_failure(entries(self@), indices@, 0) == entries(
                    self@,
                ).len() && records.len() == indices.len() && forall|j: int|
                    0 <= j < indices.len() ==> lookup(self@, indices[j] as int) == Ok::<
                        Option<ReviewMetadataView>,
                        AppErrorView,
                    >(option_view(#[trigger] records[j])),
                Err(e) => first_wanted_failure(entries(self@), indices@, 0) < entries(self@).len()
                    && fails_with(
                    entries(self@)[first_wanted_failure(entries(self@), indices@, 0)],
                    e@,
                ),
            },
    {
        let found = self.entries();
        let ghost all = found.deep_view();
        let n = found.len();
        // Which positions are asked for.
        let mut wanted: Vec<bool> = Vec::new();
        let mut p: usize = 0;
        while p < n
            invariant
                p <= n,
                wanted.len() == p,
                forall|q: int| 0 <= q < p ==> !(#[trigger] wanted[q]),
            decreases n - p,
        {
            wanted.push(false);
            p += 1;
        }
        let mut j: usize = 0;
        while j < indices.len()
            invariant
                j <= indices.len(),
                wanted.len() == n,
                forall|q: int|
                    0 <= q < n ==> (#[trigger] wanted[q] <==> exists|k: int|
                        0 <= k < j && indices[k] == q),
            decreases indices.len() - j,
        {
            let at = indices[j];
            if at < n {
                wanted.set(at, true);
            }
            j += 1;
        }
        assert forall|q: int| 0 <= q < n implies (#[trigger] wanted[q] <==> indices@.contains(
            q as usize,
        )) by {
            if indices@.contains(q as usize) {
                let k = choose|k: int| 0 <= k < indices@.len() && indices@[k] == q as usize;
                assert(indices[k] == q);
            }
        }
        // The records on the lines that are asked for.
        let mut read: Vec<Option<ReviewMetadata>> = Vec::new();
        let mut p: usize = 0;
        while p < n
            invariant
                p <= n == found.len(),
                all == found.deep_view(),
                all == entries(self@),
                wanted.len() == n,
                forall|q: int|
                    0 <= q < n ==> (#[trigger] wanted[q] <==> indices@.contains(q as usize)),
                first_wanted_failure(all, indices@, 0) == first_wanted_failure(
                    all,
                    indices@,
                    p as int,
                ),
                read.len() == p,
                forall|q: int|
                    0 <= q < p && wanted[q] ==> decoded(all[q]) is Ok && (#[trigger] read[q])
                        is Some && decoded(all[q]) == Ok::<ReviewMetadataView, Seq<char>>(
                        read[q]->0@,
                    ),
            decreases n - p,
        {
            assert(all[p as int] == found[p as int]@);
            if wanted[p] {
                match decode_record_chars(&found[p]) {
                    Ok(record) => {
                        read.push(Some(record));
                    },
                    Err(message) => {
                        return Err(AppError::Serialization(message));
                    },
                }
            } else {
                read.push(None);
            }
            p += 1;
        }
        // The answer, index by index.
        let mut out: Vec<Option<ReviewMetadata>> = Vec::new();
        let mut j: usize = 0;
        while j < indices.len()
            invariant
                j <= indices.len(),
                n == found.len(),
                all == found.deep_view(),
                all == entries(self@),
                wanted.len() == n,
                read.len() == n,
                forall|q: int|
                    0 <= q < n ==> (#[trigger] wanted[q] <==> indices@.contains(q as usize)),
                forall|q: int|
                    0 <= q < n && wanted[q] ==> decoded(all[q]) is Ok && (#[trigger] read[q])
                        is Some && decoded(all[q]) == Ok::<ReviewMetadataView, Seq<char>>(
                        read[q]->0@,
                    ),
                out.len() == j,
                forall|k: int|
                    0 <= k < j ==> lookup(self@, indices[k] as int) == Ok::<
                        Option<ReviewMetadataView>,
                        AppErrorView,
                    >(option_view(#[trigger] out[k])),
            decreases indices.len() - j,
        {
            let at = indices[j];
            if at < n {
                assert(indices@.contains(at)) by {
                    assert(indices@[j as int] == at);
                }
                assert(wanted[at as int]);
                match &read[at] {
                    Some(record) => {
                        out.push(Some(record.clone()));
                    },
                    None => {
                        out.push(None);
                    },
                }
            } else {
                out.push(None);
            }
            j += 1;
        }
        Ok(out)
    }

    /// Checks every line of the log: how many lines there are, how many of
    /// them hold a record, and which of the others are at fault. Blank
    /// lines count among the lines and are no fault.
    pub fn validate_file(&self) -> (result: ValidationResult)
        ensures
            result.total_lines == lines_of(self@).len(),
            result.valid_lines == valid_count(lines_of(self@), lines_of(self@).len() as int),
            result.errors.deep_view() == line_faults(lines_of(self@), lines_of(self@).len() as int),
            result.is_valid == (result.errors.len() == 0),
    {
        let lines = split_lines(&self.content);
        let ghost all = lines.deep_view();
        let mut valid_lines: usize = 0;
        let mut errors: Vec<ValidationError> = Vec::new();
        let mut i: usize = 0;
        assert(errors.deep_view() =~= line_faults(all, 0));
        while i < lines.len()
            invariant
                i <= lines.len(),
                all == lines.deep_view(),
                valid_lines == valid_count(all, i as int),
                valid_lines <= i,
                errors.deep_view() == line_faults(all, i as int),
            decreases lines.len() - i,
        {
            assert(all[i as int] == lines[i as int]@);
            let (a, b) = trim_range(&lines[i]);
            if b > a {
                match decode_record_chars(&lines[i]) {
                    Ok(_) => {
                        valid_lines += 1;
                    },
                    Err(reason) => {
                        let mut name: Vec<char> = Vec::new();
                        push_str(&mut name, "line_");
                        push_decimal(&mut name, i as u64 + 1);
                        assert(name@ =~= line_name((i + 1) as nat));
                        let fault = ValidationError::InvalidValue {
                            field: string_of(&name),
                            reason,
                        };
                        let ghost before = errors.deep_view();
                        let ghost before_errors = errors@;
                        let ghost fv = fault@;
                        errors.push(fault);
                        assert(errors.deep_view() =~= before.push(fv)) by {
                            assert forall|k: int| 0 <= k < errors.len() implies #[trigger] errors.deep_view()[k]
                                == before.push(fv)[k] by {
                                if k < errors.len() - 1 {
                                    assert(errors@[k] == before_errors[k]);
                                }
                            }
                        }
                    },
                }
            }
            i += 1;
        }
        ValidationResult {
            is_valid: errors.len() == 0,
            total_lines: lines.len(),
            valid_lines,
            errors,
        }
    }
}

} // verus!
