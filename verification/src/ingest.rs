//! Taking reviews in: one at a time or many at once. A review that passes
//! the rules gets the next position of the log; one that does not gets
//! none, and leaves the positions of the others without a gap.

use crate::json::{JsonItem, JsonItemView};
use crate::models::{
    AppError, AppErrorView, BulkError, BulkErrorView, BulkUploadResult, ReviewData,
    ReviewDataView, ReviewMetadata, ReviewMetadataView, ValidationError, ValidationErrorView,
};
use crate::record::{decode_review_chars, decoded_review, review_from_item, review_of};
use crate::storage::{batch_text, entries, line_name, JsonlStorage};
use crate::text::{
    copy_range, is_blank, lines_of, push_decimal, push_str, split_lines, string_of, trim,
    trim_range,
};
use vstd::prelude::*;

verus! {

// ---------------------------------------------------------------------------
// The payload of a batch
// ---------------------------------------------------------------------------

/// The JSON value that carries a batch: an array of items, one object, a
/// string of lines with one object each, or anything else.
#[derive(Debug, PartialEq, Eq)]
pub enum BulkPayload {
    Array(Vec<JsonItem>),
    Object(JsonItem),
    Text(String),
    Other,
}

/// The view of `BulkPayload`.
pub enum BulkPayloadView {
    Array(Seq<JsonItemView>),
    Object(JsonItemView),
    Text(Seq<char>),
    Other,
}

impl View for BulkPayload {
    type V = BulkPayloadView;

    open spec fn view(&self) -> BulkPayloadView {
        match self {
            BulkPayload::Array(items) => BulkPayloadView::Array(items.deep_view()),
            BulkPayload::Object(item) => BulkPayloadView::Object(item@),
            BulkPayload::Text(text) => BulkPayloadView::Text(text@),
            BulkPayload::Other => BulkPayloadView::Other,
        }
    }
}

/// The reviews that the first `n` items are, or the failure of the first
/// item among them that is no review.
pub open spec fn reviews_of_items(items: Seq<JsonItemView>, n: int) -> Result<
    Seq<ReviewDataView>,
    AppErrorView,
>
    decreases n,
{
    if n <= 0 || n > items.len() {
        Ok(Seq::empty())
    } else {
        match reviews_of_items(items, n - 1) {
            Err(e) => Err(e),
            Ok(before) => match review_of(items[n - 1]) {
                Ok(review) => Ok(before.push(review)),
                Err(message) => Err(AppErrorView::Serialization(message)),
            },
        }
    }
}

/// The failure of line `number` of a string of lines.
pub open spec fn bad_line(number: nat, message: Seq<char>) -> AppErrorView {
    AppErrorView::Validation(
        ValidationErrorView::InvalidValue {
            field: line_name(number),
            reason: "Invalid JSON: "@ + message,
        },
    )
}

/// The reviews on the first `n` lines, blank lines left out, or the failure
/// of the first line among them that is not blank and holds no review.
pub open spec fn reviews_of_lines(lines: Seq<Seq<char>>, n: int) -> Result<
    Seq<ReviewDataView>,
    AppErrorView,
>
    decreases n,
{
    if n <= 0 || n > lines.len() {
        Ok(Seq::empty())
    } else {
        match reviews_of_lines(lines, n - 1) {
            Err(e) => Err(e),
            Ok(before) => if is_blank(lines[n - 1]) {
                Ok(before)
            } else {
                match decoded_review(trim(lines[n - 1])) {
                    Ok(review) => Ok(before.push(review)),
                    Err(message) => Err(bad_line(n as nat, message)),
                }
            },
        }
    }
}

/// The reviews of a payload: the items of an array, the one object, or the
/// lines of a string; for anything else a failure.
pub open spec fn reviews_of_payload(payload: BulkPayloadView) -> Result<
    Seq<ReviewDataView>,
    AppErrorView,
> {
    match payload {
        BulkPayloadView::Array(items) => reviews_of_items(items, items.len() as int),
        BulkPayloadView::Object(item) => match review_of(item) {
            Ok(review) => Ok(seq![review]),
            Err(message) => Err(AppErrorView::Serialization(message)),
        },
        BulkPayloadView::Text(text) => reviews_of_lines(lines_of(text), lines_of(text).len() as int),
        BulkPayloadView::Other => Err(
            AppErrorView::Validation(
                ValidationErrorView::InvalidValue {
                    field: "bulk_data"@,
                    reason: "Expected JSON array, object, or JSONL string"@,
                },
            ),
        ),
    }
}

/// The outcome of reading a payload, by its views.
pub open spec fn reviews_outcome(r: Result<Vec<ReviewData>, AppError>) -> Result<
    Seq<ReviewDataView>,
    AppErrorView,
> {
    match r {
        Ok(reviews) => Ok(reviews.deep_view()),
        Err(e) => Err(e@),
    }
}

/// The views of a vector to which one element was pushed.
proof fn lemma_pushed<T: DeepView>(v: Vec<T>, before: Seq<T>, last: T)
    requires
        v@ == before.push(last),
    ensures
        v.deep_view() == Seq::new(before.len(), |k: int| before[k].deep_view()).push(
            last.deep_view(),
        ),
{
    assert(v.deep_view() =~= Seq::new(before.len(), |k: int| before[k].deep_view()).push(
        last.deep_view(),
    ));
}

/// Reads the reviews of a payload. The first item or line that is no review
/// ends the reading with its failure.
pub fn parse_bulk_data(bulk_data: &BulkPayload) -> (r: Result<Vec<ReviewData>, AppError>)
    ensures
        reviews_outcome(r) == reviews_of_payload(bulk_data@),
{
    let mut reviews: Vec<ReviewData> = Vec::new();
    match bulk_data {
        BulkPayload::Array(items) => {
            let ghost all = items.deep_view();
            let mut i: usize = 0;
            assert(reviews.deep_view() =~= Seq::<ReviewDataView>::empty());
            while i < items.len()
                invariant
                    i <= items.len(),
                    all == items.deep_view(),
                    bulk_data@ == BulkPayloadView::Array(all),
                    reviews_of_items(all, i as int) == Ok::<Seq<ReviewDataView>, AppErrorView>(
                        reviews.deep_view(),
                    ),
                decreases items.len() - i,
            {
                assert(all[i as int] == items[i as int]@);
                match review_from_item(&items[i]) {
                    Ok(review) => {
                        let ghost before = reviews@;
                        let ghost seen = reviews.deep_view();
                        reviews.push(review);
                        proof {
                            lemma_pushed(reviews, before, review);
                            assert(Seq::new(before.len(), |k: int| before[k].deep_view()) =~= seen);
                        }
                    },
                    Err(message) => {
                        proof {
                            assert(reviews_of_items(all, i + 1) == Err::<
                                Seq<ReviewDataView>,
                                AppErrorView,
                            >(AppErrorView::Serialization(message@)));
                            lemma_items_failure(all, i + 1, items.len() as int);
                        }
                        return Err(AppError::Serialization(message));
                    },
                }
                i += 1;
            }
            Ok(reviews)
        },
        BulkPayload::Object(item) => match review_from_item(item) {
            Ok(review) => {
                reviews.push(review);
                assert(reviews.deep_view() =~= seq![review@]);
                Ok(reviews)
            },
            Err(message) => Err(AppError::Serialization(message)),
        },
        BulkPayload::Text(text) => {
            let chars = crate::text::chars_of(text.as_str());
            let lines = split_lines(&chars);
            let ghost all = lines.deep_view();
            let mut i: usize = 0;
            assert(reviews.deep_view() =~= Seq::<ReviewDataView>::empty());
            while i < lines.len()
                invariant
                    i <= lines.len(),
                    all == lines.deep_view(),
                    all == lines_of(text@),
                    bulk_data@ == BulkPayloadView::Text(text@),
                    reviews_of_lines(all, i as int) == Ok::<Seq<ReviewDataView>, AppErrorView>(
                        reviews.deep_view(),
                    ),
                decreases lines.len() - i,
            {
                assert(all[i as int] == lines[i as int]@);
                let (a, b) = trim_range(&lines[i]);
                if b > a {
                    let trimmed = copy_range(&lines[i], a, b);
                    match decode_review_chars(&trimmed) {
                        Ok(review) => {
                            let ghost before = reviews@;
                            let ghost seen = reviews.deep_view();
                            reviews.push(review);
                            proof {
                                lemma_pushed(reviews, before, review);
                                assert(Seq::new(before.len(), |k: int| before[k].deep_view())
                                    =~= seen);
                            }
                        },
                        Err(message) => {
                            let mut name: Vec<char> = Vec::new();
                            push_str(&mut name, "line_");
                            push_decimal(&mut name, i as u64 + 1);
                            assert(name@ =~= line_name((i + 1) as nat));
                            let mut reason: Vec<char> = Vec::new();
                            push_str(&mut reason, "Invalid JSON: ");
                            push_str(&mut reason, message.as_str());
                            assert(reason@ =~= "Invalid JSON: "@ + message@);
                            proof {
                                assert(reviews_of_lines(all, i + 1) == Err::<
                                    Seq<ReviewDataView>,
                                    AppErrorView,
                                >(bad_line((i + 1) as nat, message@)));
                                lemma_lines_failure(all, i + 1, lines.len() as int);
                            }
                            return Err(
                                AppError::Validation(
                                    ValidationError::InvalidValue {
                                        field: string_of(&name),
                                        reason: string_of(&reason),
                                    },
                                ),
                            );
                        },
                    }
                }
                i += 1;
            }
            Ok(reviews)
        },
        BulkPayload::Other => Err(
            AppError::Validation(
                ValidationError::InvalidValue {
                    field: "bulk_data".to_owned(),
                    reason: "Expected JSON array, object, or JSONL string".to_owned(),
                },
            ),
        ),
    }
}

/// A failure among the first items stays the failure of all.
proof fn lemma_items_failure(items: Seq<JsonItemView>, n: int, m: int)
    requires
        0 <= n <= m <= items.len(),
        reviews_of_items(items, n) is Err,
    ensures
        reviews_of_items(items, m) == reviews_of_items(items, n),
    decreases m - n,
{
    if n < m {
        lemma_items_failure(items, n, m - 1);
    }
}

/// A failure among the first lines stays the failure of all.
proof fn lemma_lines_failure(lines: Seq<Seq<char>>, n: int, m: int)
    requires
        0 <= n <= m <= lines.len(),
        reviews_of_lines(lines, n) is Err,
    ensures
        reviews_of_lines(lines, m) == reviews_of_lines(lines, n),
    decreases m - n,
{
    if n < m {
        lemma_lines_failure(lines, n, m - 1);
    }
}

// ---------------------------------------------------------------------------
// One review
// ---------------------------------------------------------------------------

/// The record of a review at `vector_index`: made exactly where the review
/// passes the rules; see `ReviewData::to_metadata`.
pub fn process_single_review(review_data: &ReviewData, vector_index: usize) -> (r: Result<
    ReviewMetadata,
    AppError,
>)
    ensures
        match r {
            Ok(record) => review_data@.is_valid() && record@.records(review_data@, vector_index)
                && record@.well_formed(),
            Err(e) => !review_data@.is_valid() && e@ == review_data@.refusal(),
        },
{
    review_data.to_metadata(vector_index)
}

/// A review that was taken in.
#[derive(Debug, PartialEq, Eq)]
pub struct CreatedReview {
    /// The record that the log now holds.
    pub record: ReviewMetadata,
    /// The text that was added to the log.
    pub written: String,
}

/// Takes one review in: checks it, gives it the next position, and appends
/// its record to the log. A review that passes the rules is always taken
/// in; one that does not leaves the log as it was.
pub fn create_review(storage: &mut JsonlStorage, review_data: &ReviewData) -> (r: Result<
    CreatedReview,
    AppError,
>)
    ensures
        final(storage).path() == old(storage).path(),
        match r {
            Ok(created) => {
                &&& review_data@.is_valid()
                &&& created.record@.vector_index == entries(old(storage)@).len()
                &&& created.record@.records(review_data@, created.record@.vector_index)
                &&& created.record@.well_formed()
                &&& created.written@ == batch_text(seq![created.record@])
                &&& final(storage)@ == old(storage)@ + created.written@
            },
            Err(e) => {
                &&& !review_data@.is_valid()
                &&& e@ == review_data@.refusal()
                &&& final(storage)@ == old(storage)@
            },
        },
{
    let base = storage.count_reviews();
    match process_single_review(review_data, base) {
        Ok(record) => {
            let written = storage.append_review(&record);
            proof {
                assert(seq![record@].drop_last() =~= Seq::<ReviewMetadataView>::empty());
                assert(batch_text(Seq::<ReviewMetadataView>::empty()) =~= Seq::<char>::empty());
                assert(seq![record@].last() == record@);
                assert(batch_text(seq![record@]) =~= written@);
            }
            Ok(CreatedReview { record, written })
        },
        Err(e) => Err(e),
    }
}

// ---------------------------------------------------------------------------
// Many reviews
// ---------------------------------------------------------------------------

/// What became of a batch.
#[derive(Debug, PartialEq, Eq)]
pub struct BulkUploadReport {
    pub result: BulkUploadResult,
    /// The position that the first record of the batch got, or would have
    /// got.
    pub starting_vector_index: usize,
    /// The position of the last record of the batch: one less than the
    /// first where the batch has none.
    pub ending_vector_index: i128,
    /// The records that the log now holds, in the order of the batch.
    pub records: Vec<ReviewMetadata>,
    /// For each record, the place in the batch, from 0, of its review.
    pub sources: Vec<usize>,
    /// The text that was added to the log.
    pub written: String,
}

/// The failure of a batch without reviews.
pub open spec fn empty_batch() -> AppErrorView {
    AppErrorView::Validation(
        ValidationErrorView::InvalidValue {
            field: "reviews"@,
            reason: "No valid reviews found in bulk data"@,
        },
    )
}

/// The failure of a batch whose positions do not fit the machine.
pub open spec fn positions_exhausted() -> AppErrorView {
    AppErrorView::Internal { message: "the log has no position left for the batch"@ }
}

/// The entry that reports that the review at place `at` of the batch was
/// refused.
pub open spec fn refused_entry(reviews: Seq<ReviewDataView>, at: int) -> BulkErrorView {
    BulkErrorView {
        line_number: (at + 1) as usize,
        error: reviews[at].refusal().message(),
        data: Some(reviews[at]),
    }
}

/// The places, from 0, of those of the first `n` reviews that pass the
/// rules, in order.
pub open spec fn passing_places(reviews: Seq<ReviewDataView>, n: int) -> Seq<usize>
    decreases n,
{
    if n <= 0 || n > reviews.len() {
        Seq::empty()
    } else if reviews[n - 1].is_valid() {
        passing_places(reviews, n - 1).push((n - 1) as usize)
    } else {
        passing_places(reviews, n - 1)
    }
}

/// The entries that report those of the first `n` reviews that break a
/// rule, in order.
pub open spec fn refused_entries(reviews: Seq<ReviewDataView>, n: int) -> Seq<BulkErrorView>
    decreases n,
{
    if n <= 0 || n > reviews.len() {
        Seq::empty()
    } else if reviews[n - 1].is_valid() {
        refused_entries(reviews, n - 1)
    } else {
        refused_entries(reviews, n - 1).push(refused_entry(reviews, n - 1))
    }
}

/// Whether `records` are the records of the reviews at the places
/// `sources`, one after the other from position `base` on.
pub open spec fn stored_from(
    reviews: Seq<ReviewDataView>,
    base: int,
    records: Seq<ReviewMetadataView>,
    sources: Seq<usize>,
) -> bool {
    &&& records.len() == sources.len()
    &&& forall|k: int|
        #![trigger sources[k]]
        #![trigger records[k]]
        0 <= k < records.len() ==> {
            &&& 0 <= sources[k] < reviews.len()
            &&& records[k].vector_index == base + k
            &&& records[k].records(reviews[sources[k] as int], records[k].vector_index)
            &&& records[k].well_formed()
        }
}

/// Every review of a batch either passes or is refused: the places of the
/// one kind and the entries of the other are as many as the reviews. The
/// places come in rising order and are places of reviews that pass; the
/// entries come in rising order of their line numbers and report reviews
/// that do not.
pub proof fn lemma_batch_is_accounted_for(reviews: Seq<ReviewDataView>, n: int)
    requires
        0 <= n <= reviews.len(),
        n <= usize::MAX,
    ensures
        passing_places(reviews, n).len() + refused_entries(reviews, n).len() == n,
        forall|k: int|
            0 <= k < passing_places(reviews, n).len() ==> 0 <= (#[trigger] passing_places(
                reviews,
                n,
            )[k]) < n && reviews[passing_places(reviews, n)[k] as int].is_valid(),
        forall|k: int, l: int|
            0 <= k < l < passing_places(reviews, n).len() ==> passing_places(reviews, n)[k]
                < passing_places(reviews, n)[l],
        forall|j: int|
            0 <= j < refused_entries(reviews, n).len() ==> 1 <= (#[trigger] refused_entries(
                reviews,
                n,
            )[j]).line_number <= n && !reviews[refused_entries(reviews, n)[j].line_number
                - 1].is_valid(),
        forall|j: int, l: int|
            0 <= j < l < refused_entries(reviews, n).len() ==> (#[trigger] refused_entries(
                reviews,
                n,
            )[j]).line_number < (#[trigger] refused_entries(reviews, n)[l]).line_number,
    decreases n,
{
    if n > 0 {
        lemma_batch_is_accounted_for(reviews, n - 1);
        let places = passing_places(reviews, n);
        let before = passing_places(reviews, n - 1);
        let entries = refused_entries(reviews, n);
        let earlier = refused_entries(reviews, n - 1);
        assert forall|k: int| 0 <= k < places.len() implies 0 <= (#[trigger] places[k]) < n
            && reviews[places[k] as int].is_valid() by {
            if k < before.len() {
                assert(places[k] == before[k]);
            }
        }
        assert forall|k: int, l: int| 0 <= k < l < places.len() implies places[k] < places[l] by {
            assert(places[k] == before[k]);
            if l < before.len() {
                assert(places[l] == before[l]);
            }
        }
        assert forall|j: int| 0 <= j < entries.len() implies 1 <= (#[trigger] entries[j]).line_number
            <= n && !reviews[entries[j].line_number - 1].is_valid() by {
            if j < earlier.len() {
                assert(entries[j] == earlier[j]);
            }
        }
        assert forall|j: int, l: int| 0 <= j < l < entries.len() implies (#[trigger] entries[j]).line_number
            < (#[trigger] entries[l]).line_number by {
            assert(entries[j] == earlier[j]);
            if l < earlier.len() {
                assert(entries[l] == earlier[l]);
            }
        }
    }
}

/// Takes a batch of reviews in: reads the payload, checks each review, gives
/// every one that passes the next position of the log, in order and without
/// a gap, appends their records, and reports the others, and no others. A
/// payload that cannot be read, or that holds no review, leaves the log as
/// it was.
pub fn bulk_upload(storage: &mut JsonlStorage, bulk_data: &BulkPayload) -> (r: Result<
    BulkUploadReport,
    AppError,
>)
    ensures
        final(storage).path() == old(storage).path(),
        match r {
            Ok(report) => {
                &&& reviews_of_payload(bulk_data@) matches Ok(reviews)
                &&& reviews.len() > 0
                &&& entries(old(storage)@).len() + reviews.len() <= usize::MAX
                &&& report.result.total_processed == reviews.len()
                &&& report.sources@ == passing_places(reviews, reviews.len() as int)
                &&& report.result.failed.deep_view() == refused_entries(
                    reviews,
                    reviews.len() as int,
                )
                &&& report.result.successful == report.sources.len()
                &&& report.result.successful + report.result.failed.len() == reviews.len()
                &&& report.starting_vector_index == entries(old(storage)@).len()
                &&& report.ending_vector_index == report.starting_vector_index
                    + report.result.successful - 1
                &&& stored_from(
                    reviews,
                    report.starting_vector_index as int,
                    report.records.deep_view(),
                    report.sources@,
                )
                &&& report.written@ == batch_text(report.records.deep_view())
                &&& final(storage)@ == old(storage)@ + report.written@
            },
            Err(e) => {
                &&& final(storage)@ == old(storage)@
                &&& match reviews_of_payload(bulk_data@) {
                    Err(failure) => e@ == failure,
                    Ok(reviews) => if reviews.len() == 0 {
                        e@ == empty_batch()
                    } else {
                        entries(old(storage)@).len() + reviews.len() > usize::MAX && e@
                            == positions_exhausted()
                    },
                }
            },
        },
{
    let base = storage.count_reviews();
    let reviews = match parse_bulk_data(bulk_data) {
        Ok(reviews) => reviews,
        Err(e) => {
            return Err(e);
        },
    };
    if reviews.len() == 0 {
        return Err(
            AppError::Validation(
                ValidationError::InvalidValue {
                    field: "reviews".to_owned(),
                    reason: "No valid reviews found in bulk data".to_owned(),
                },
            ),
        );
    }
    if reviews.len() > usize::MAX - base {
        return Err(
            AppError::Internal { message: "the log has no position left for the batch".to_owned() },
        );
    }
    let ghost all = reviews.deep_view();
    let mut records: Vec<ReviewMetadata> = Vec::new();
    let mut sources: Vec<usize> = Vec::new();
    let mut failed: Vec<BulkError> = Vec::new();
    let mut i: usize = 0;
    assert(records.deep_view() =~= Seq::<ReviewMetadataView>::empty());
    assert(failed.deep_view() =~= Seq::<BulkErrorView>::empty());
    while i < reviews.len()
        invariant
            i <= reviews.len(),
            base + reviews.len() <= usize::MAX,
            all == reviews.deep_view(),
            sources@ == passing_places(all, i as int),
            failed.deep_view() == refused_entries(all, i as int),
            sources.len() + failed.len() == i,
            stored_from(all, base as int, records.deep_view(), sources@),
        decreases reviews.len() - i,
    {
        assert(all[i as int] == reviews[i as int]@);
        let ghost old_records = records.deep_view();
        let ghost old_sources = sources@;
        let ghost old_failed = failed.deep_view();
        match process_single_review(&reviews[i], base + records.len()) {
            Ok(record) => {
                let ghost before = records@;
                let ghost rv = record@;
                records.push(record);
                sources.push(i);
                proof {
                    lemma_pushed(records, before, record);
                    assert(Seq::new(before.len(), |k: int| before[k].deep_view()) =~= old_records);
                    assert(records.deep_view() == old_records.push(rv));
                    assert forall|k: int|
                        #![trigger sources@[k]]
                        #![trigger records.deep_view()[k]]
                        0 <= k < records.len() implies {
                        &&& 0 <= sources@[k] < all.len()
                        &&& records.deep_view()[k].vector_index == base + k
                        &&& records.deep_view()[k].records(
                            all[sources@[k] as int],
                            records.deep_view()[k].vector_index,
                        )
                        &&& records.deep_view()[k].well_formed()
                    } by {
                        if k < old_records.len() {
                            assert(sources@[k] == old_sources[k]);
                            assert(records.deep_view()[k] == old_records[k]);
                        }
                    }
                }
            },
            Err(e) => {
                let entry = BulkError {
                    line_number: i + 1,
                    error: e.to_string(),
                    data: Some(reviews[i].clone()),
                };
                let ghost before = failed@;
                let ghost ev = entry@;
                failed.push(entry);
                proof {
                    lemma_pushed(failed, before, entry);
                    assert(Seq::new(before.len(), |k: int| before[k].deep_view()) =~= old_failed);
                    assert(failed.deep_view() == old_failed.push(ev));
                    assert(ev == refused_entry(all, i as int));
                }
            },
        }
        i += 1;
    }
    let written = storage.append_reviews(&records);
    let successful = records.len();
    Ok(
        BulkUploadReport {
            result: BulkUploadResult { total_processed: reviews.len(), successful, failed },
            starting_vector_index: base,
            ending_vector_index: base as i128 + successful as i128 - 1,
            records,
            sources,
            written,
        },
    )
}

} // verus!
