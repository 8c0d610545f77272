//! The data of the review index: what a user sends, what the log keeps, and
//! what goes wrong. Each type has a view over `Seq<char>` and integers, and
//! the contracts are stated over the views.

use crate::stamp::{fresh_id, is_utc_instant, utc_now};
use crate::text::{
    chars_of, decimal, is_blank, push_decimal, push_str, string_of, trim, trim_range,
};
use vstd::prelude::*;

verus! {

// ---------------------------------------------------------------------------
// Validation failures
// ---------------------------------------------------------------------------

/// Why an input was refused.
#[derive(Debug, PartialEq, Eq)]
pub enum ValidationError {
    MissingField { field: String },
    InvalidValue { field: String, reason: String },
    TooShort { field: String, min_length: usize },
    TooLong { field: String, max_length: usize },
    InvalidRating,
}

/// The view of `ValidationError`.
pub enum ValidationErrorView {
    MissingField { field: Seq<char> },
    InvalidValue { field: Seq<char>, reason: Seq<char> },
    TooShort { field: Seq<char>, min_length: usize },
    TooLong { field: Seq<char>, max_length: usize },
    InvalidRating,
}

impl ValidationErrorView {
    /// The sentence that tells a user of the failure.
    pub open spec fn message(self) -> Seq<char> {
        match self {
            ValidationErrorView::MissingField { field } => "Missing required field: "@ + field,
            ValidationErrorView::InvalidValue { field, reason } => "Invalid field value: "@ + field
                + " - "@ + reason,
            ValidationErrorView::TooShort { field, min_length } => "Field too short: "@ + field
                + " must be at least "@ + decimal(min_length as nat) + " characters"@,
            ValidationErrorView::TooLong { field, max_length } => "Field too long: "@ + field
                + " must be at most "@ + decimal(max_length as nat) + " characters"@,
            ValidationErrorView::InvalidRating => "Invalid rating: must be between 1 and 5"@,
        }
    }
}

impl View for ValidationError {
    type V = ValidationErrorView;

    open spec fn view(&self) -> ValidationErrorView {
        match self {
            ValidationError::MissingField { field } => ValidationErrorView::MissingField {
                field: field@,
            },
            ValidationError::InvalidValue { field, reason } => ValidationErrorView::InvalidValue {
                field: field@,
                reason: reason@,
            },
            ValidationError::TooShort { field, min_length } => ValidationErrorView::TooShort {
                field: field@,
                min_length: *min_length,
            },
            ValidationError::TooLong { field, max_length } => ValidationErrorView::TooLong {
                field: field@,
                max_length: *max_length,
            },
            ValidationError::InvalidRating => ValidationErrorView::InvalidRating,
        }
    }
}

impl DeepView for ValidationError {
    type V = ValidationErrorView;

    open spec fn deep_view(&self) -> ValidationErrorView {
        self@
    }
}

impl Clone for ValidationError {
    fn clone(&self) -> (out: Self)
        ensures
            out == *self,
    {
        match self {
            ValidationError::MissingField { field } => ValidationError::MissingField {
                field: field.clone(),
            },
            ValidationError::InvalidValue { field, reason } => ValidationError::InvalidValue {
                field: field.clone(),
                reason: reason.clone(),
            },
            ValidationError::TooShort { field, min_length } => ValidationError::TooShort {
                field: field.clone(),
                min_length: *min_length,
            },
            ValidationError::TooLong { field, max_length } => ValidationError::TooLong {
                field: field.clone(),
                max_length: *max_length,
            },
            ValidationError::InvalidRating => ValidationError::InvalidRating,
        }
    }
}

impl ValidationError {
    /// The sentence that tells a user of the failure.
    pub fn to_string(&self) -> (out: String)
        ensures
            out@ == self@.message(),
    {
        let mut buf: Vec<char> = Vec::new();
        match self {
            ValidationError::MissingField { field } => {
                push_str(&mut buf, "Missing required field: ");
                push_str(&mut buf, field.as_str());
            },
            ValidationError::InvalidValue { field, reason } => {
                push_str(&mut buf, "Invalid field value: ");
                push_str(&mut buf, field.as_str());
                push_str(&mut buf, " - ");
                push_str(&mut buf, reason.as_str());
            },
            ValidationError::TooShort { field, min_length } => {
                push_str(&mut buf, "Field too short: ");
                push_str(&mut buf, field.as_str());
                push_str(&mut buf, " must be at least ");
                push_decimal(&mut buf, *min_length as u64);
                push_str(&mut buf, " characters");
            },
            ValidationError::TooLong { field, max_length } => {
                push_str(&mut buf, "Field too long: ");
                push_str(&mut buf, field.as_str());
                push_str(&mut buf, " must be at most ");
                push_decimal(&mut buf, *max_length as u64);
                push_str(&mut buf, " characters");
            },
            ValidationError::InvalidRating => {
                push_str(&mut buf, "Invalid rating: must be between 1 and 5");
            },
        }
        assert(buf@ =~= self@.message());
        string_of(&buf)
    }
}

// ---------------------------------------------------------------------------
// Failures of the index
// ---------------------------------------------------------------------------

/// What can go wrong in the index. The text in `FileOperation`,
/// `Serialization` and `Uuid` is the message of the failure underneath.
#[derive(Debug, PartialEq, Eq)]
pub enum AppError {
    Validation(ValidationError),
    FileOperation(String),
    Serialization(String),
    Uuid(String),
    Embedding { message: String },
    VectorSearch { message: String },
    Concurrency { message: String },
    Internal { message: String },
}

/// The view of `AppError`.
pub enum AppErrorView {
    Validation(ValidationErrorView),
    FileOperation(Seq<char>),
    Serialization(Seq<char>),
    Uuid(Seq<char>),
    Embedding { message: Seq<char> },
    VectorSearch { message: Seq<char> },
    Concurrency { message: Seq<char> },
    Internal { message: Seq<char> },
}

impl AppErrorView {
    /// The sentence that tells a user of the failure.
    pub open spec fn message(self) -> Seq<char> {
        match self {
            AppErrorView::Validation(inner) => "Validation error: "@ + inner.message(),
            AppErrorView::FileOperation(inner) => "File operation error: "@ + inner,
            AppErrorView::Serialization(inner) => "Serialization error: "@ + inner,
            AppErrorView::Uuid(inner) => "UUID generation error: "@ + inner,
            AppErrorView::Embedding { message } => "Embedding generation error: "@ + message,
            AppErrorView::VectorSearch { message } => "Vector search error: "@ + message,
            AppErrorView::Concurrency { message } => "Concurrency error: "@ + message,
            AppErrorView::Internal { message } => "Internal server error: "@ + message,
        }
    }

    /// The tag by which a failure of this kind is known on the wire.
    pub open spec fn kind_tag(self) -> Seq<char> {
        match self {
            AppErrorView::Validation(_) => "validation_error"@,
            AppErrorView::FileOperation(_) => "file_operation_error"@,
            AppErrorView::Serialization(_) => "serialization_error"@,
            AppErrorView::Uuid(_) => "unknown_error"@,
            AppErrorView::Embedding { .. } => "embedding_error"@,
            AppErrorView::VectorSearch { .. } => "vector_search_error"@,
            AppErrorView::Concurrency { .. } => "concurrency_error"@,
            AppErrorView::Internal { .. } => "internal_error"@,
        }
    }

    /// What the user is told: the failure's own words, but for a failure of a
    /// file or of the encoding, whose words go into the details.
    pub open spec fn public_message(self) -> Seq<char> {
        match self {
            AppErrorView::Validation(inner) => inner.message(),
            AppErrorView::FileOperation(_) => "File operation failed"@,
            AppErrorView::Serialization(_) => "Data serialization failed"@,
            AppErrorView::Uuid(_) => self.message(),
            AppErrorView::Embedding { message } => message,
            AppErrorView::VectorSearch { message } => message,
            AppErrorView::Concurrency { message } => message,
            AppErrorView::Internal { message } => message,
        }
    }

    /// The details that go with the message, if any.
    pub open spec fn details(self) -> Option<ErrorDetailView> {
        match self {
            AppErrorView::FileOperation(inner) => Some(
                ErrorDetailView { key: "io_error"@, value: inner },
            ),
            AppErrorView::Serialization(inner) => Some(
                ErrorDetailView { key: "serde_error"@, value: inner },
            ),
            _ => None,
        }
    }
}

impl View for AppError {
    type V = AppErrorView;

    open spec fn view(&self) -> AppErrorView {
        match self {
            AppError::Validation(inner) => AppErrorView::Validation(inner@),
            AppError::FileOperation(inner) => AppErrorView::FileOperation(inner@),
            AppError::Serialization(inner) => AppErrorView::Serialization(inner@),
            AppError::Uuid(inner) => AppErrorView::Uuid(inner@),
            AppError::Embedding { message } => AppErrorView::Embedding { message: message@ },
            AppError::VectorSearch { message } => AppErrorView::VectorSearch { message: message@ },
            AppError::Concurrency { message } => AppErrorView::Concurrency { message: message@ },
            AppError::Internal { message } => AppErrorView::Internal { message: message@ },
        }
    }
}

impl Clone for AppError {
    fn clone(&self) -> (out: Self)
        ensures
            out == *self,
    {
        match self {
            AppError::Validation(inner) => AppError::Validation(inner.clone()),
            AppError::FileOperation(inner) => AppError::FileOperation(inner.clone()),
            AppError::Serialization(inner) => AppError::Serialization(inner.clone()),
            AppError::Uuid(inner) => AppError::Uuid(inner.clone()),
            AppError::Embedding { message } => AppError::Embedding { message: message.clone() },
            AppError::VectorSearch { message } => AppError::VectorSearch {
                message: message.clone(),
            },
            AppError::Concurrency { message } => AppError::Concurrency {
                message: message.clone(),
            },
            AppError::Internal { message } => AppError::Internal { message: message.clone() },
        }
    }
}

impl AppError {
    /// The sentence that tells a user of the failure.
    pub fn to_string(&self) -> (out: String)
        ensures
            out@ == self@.message(),
    {
        let mut buf: Vec<char> = Vec::new();
        match self {
            AppError::Validation(inner) => {
                push_str(&mut buf, "Validation error: ");
                let inner_text = inner.to_string();
                push_str(&mut buf, inner_text.as_str());
            },
            AppError::FileOperation(inner) => {
                push_str(&mut buf, "File operation error: ");
                push_str(&mut buf, inner.as_str());
            },
            AppError::Serialization(inner) => {
                push_str(&mut buf, "Serialization error: ");
                push_str(&mut buf, inner.as_str());
            },
            AppError::Uuid(inner) => {
                push_str(&mut buf, "UUID generation error: ");
                push_str(&mut buf, inner.as_str());
            },
            AppError::Embedding { message } => {
                push_str(&mut buf, "Embedding generation error: ");
                push_str(&mut buf, message.as_str());
            },
            AppError::VectorSearch { message } => {
                push_str(&mut buf, "Vector search error: ");
                push_str(&mut buf, message.as_str());
            },
            AppError::Concurrency { message } => {
                push_str(&mut buf, "Concurrency error: ");
                push_str(&mut buf, message.as_str());
            },
            AppError::Internal { message } => {
                push_str(&mut buf, "Internal server error: ");
                push_str(&mut buf, message.as_str());
            },
        }
        assert(buf@ =~= self@.message());
        string_of(&buf)
    }
}

// ---------------------------------------------------------------------------
// The failure as a user sees it
// ---------------------------------------------------------------------------

/// One named detail of a failure.
#[derive(Debug, PartialEq, Eq)]
pub struct ErrorDetail {
    pub key: String,
    pub value: String,
}

/// The view of `ErrorDetail`.
pub struct ErrorDetailView {
    pub key: Seq<char>,
    pub value: Seq<char>,
}

impl View for ErrorDetail {
    type V = ErrorDetailView;

    open spec fn view(&self) -> ErrorDetailView {
        ErrorDetailView { key: self.key@, value: self.value@ }
    }
}

/// A failure as it is shown to the user.
#[derive(Debug, PartialEq, Eq)]
pub struct ErrorResponse {
    pub error: String,
    pub message: String,
    pub details: Option<ErrorDetail>,
    pub timestamp: String,
}

/// The view of `ErrorResponse`.
pub struct ErrorResponseView {
    pub error: Seq<char>,
    pub message: Seq<char>,
    pub details: Option<ErrorDetailView>,
    pub timestamp: Seq<char>,
}

impl View for ErrorResponse {
    type V = ErrorResponseView;

    open spec fn view(&self) -> ErrorResponseView {
        ErrorResponseView {
            error: self.error@,
            message: self.message@,
            details: match self.details {
                Some(d) => Some(d@),
                None => None,
            },
            timestamp: self.timestamp@,
        }
    }
}

impl ErrorResponse {
    /// The response that reports `error`, as of `timestamp`.
    pub fn at(error: &AppError, timestamp: String) -> (out: ErrorResponse)
        ensures
            out@ == (ErrorResponseView {
                error: error@.kind_tag(),
                message: error@.public_message(),
                details: error@.details(),
                timestamp: timestamp@,
            }),
    {
        let (tag, message, details): (&str, String, Option<ErrorDetail>) = match error {
            AppError::Validation(inner) => ("validation_error", inner.to_string(), None),
            AppError::FileOperation(inner) => (
                "file_operation_error",
                "File operation failed".to_owned(),
                Some(ErrorDetail { key: "io_error".to_owned(), value: inner.clone() }),
            ),
            AppError::Serialization(inner) => (
                "serialization_error",
                "Data serialization failed".to_owned(),
                Some(ErrorDetail { key: "serde_error".to_owned(), value: inner.clone() }),
            ),
            AppError::Uuid(_) => ("unknown_error", error.to_string(), None),
            AppError::Embedding { message } => ("embedding_error", message.clone(), None),
            AppError::VectorSearch { message } => ("vector_search_error", message.clone(), None),
            AppError::Concurrency { message } => ("concurrency_error", message.clone(), None),
            AppError::Internal { message } => ("internal_error", message.clone(), None),
        };
        ErrorResponse { error: tag.to_owned(), message, details, timestamp }
    }

    /// The response that reports `error`, as of now. The time is the
    /// machine's: all but the timestamp is fixed by `error`, and the
    /// timestamp is an instant.
    pub fn from(error: AppError) -> (out: ErrorResponse)
        ensures
            out@.error == error@.kind_tag(),
            out@.message == error@.public_message(),
            out@.details == error@.details(),
            is_utc_instant(out@.timestamp),
    {
        ErrorResponse::at(&error, utc_now())
    }
}

// ---------------------------------------------------------------------------
// Reviews
// ---------------------------------------------------------------------------

/// A review as a user sends it.
#[derive(Debug, PartialEq, Eq)]
pub struct ReviewData {
    pub title: String,
    pub body: String,
    pub product_id: String,
    pub rating: u8,
}

/// The view of `ReviewData`.
pub struct ReviewDataView {
    pub title: Seq<char>,
    pub body: Seq<char>,
    pub product_id: Seq<char>,
    pub rating: u8,
}

impl View for ReviewData {
    type V = ReviewDataView;

    open spec fn view(&self) -> ReviewDataView {
        ReviewDataView {
            title: self.title@,
            body: self.body@,
            product_id: self.product_id@,
            rating: self.rating,
        }
    }
}

impl DeepView for ReviewData {
    type V = ReviewDataView;

    open spec fn deep_view(&self) -> ReviewDataView {
        self@
    }
}

impl Clone for ReviewData {
    fn clone(&self) -> (out: Self)
        ensures
            out == *self,
    {
        ReviewData {
            title: self.title.clone(),
            body: self.body.clone(),
            product_id: self.product_id.clone(),
            rating: self.rating,
        }
    }
}

/// A review as the log keeps it.
#[derive(Debug, PartialEq, Eq)]
pub struct ReviewMetadata {
    pub id: String,
    pub title: String,
    pub body: String,
    pub product_id: String,
    pub rating: u8,
    /// The instant at which the record was made, in RFC 3339.
    pub timestamp: String,
    /// The record's position in the log, and its slot among the vectors.
    pub vector_index: usize,
}

/// The view of `ReviewMetadata`.
pub struct ReviewMetadataView {
    pub id: Seq<char>,
    pub title: Seq<char>,
    pub body: Seq<char>,
    pub product_id: Seq<char>,
    pub rating: u8,
    pub timestamp: Seq<char>,
    pub vector_index: usize,
}

impl ReviewMetadataView {
    /// Whether the record says of `review` what `review` says, and stands at
    /// `vector_index`.
    pub open spec fn records(self, review: ReviewDataView, vector_index: usize) -> bool {
        &&& self.title == review.title
        &&& self.body == review.body
        &&& self.product_id == review.product_id
        &&& self.rating == review.rating
        &&& self.vector_index == vector_index
    }

    /// Whether the timestamp is an instant.
    pub open spec fn well_formed(self) -> bool {
        is_utc_instant(self.timestamp)
    }
}

impl View for ReviewMetadata {
    type V = ReviewMetadataView;

    open spec fn view(&self) -> ReviewMetadataView {
        ReviewMetadataView {
            id: self.id@,
            title: self.title@,
            body: self.body@,
            product_id: self.product_id@,
            rating: self.rating,
            timestamp: self.timestamp@,
            vector_index: self.vector_index,
        }
    }
}

impl DeepView for ReviewMetadata {
    type V = ReviewMetadataView;

    open spec fn deep_view(&self) -> ReviewMetadataView {
        self@
    }
}

impl Clone for ReviewMetadata {
    fn clone(&self) -> (out: Self)
        ensures
            out == *self,
    {
        ReviewMetadata {
            id: self.id.clone(),
            title: self.title.clone(),
            body: self.body.clone(),
            product_id: self.product_id.clone(),
            rating: self.rating,
            timestamp: self.timestamp.clone(),
            vector_index: self.vector_index,
        }
    }
}

impl ReviewDataView {
    /// The first rule that the review breaks, if it breaks one. The rules, in
    /// order: title, body and product are not blank; the trimmed title has 3
    /// to 200 characters; the trimmed body has 10 to 2000; the product has at
    /// most 100; the rating is 1 to 5.
    pub open spec fn fault(self) -> Option<ValidationErrorView> {
        if is_blank(self.title) {
            Some(ValidationErrorView::MissingField { field: "title"@ })
        } else if is_blank(self.body) {
            Some(ValidationErrorView::MissingField { field: "body"@ })
        } else if is_blank(self.product_id) {
            Some(ValidationErrorView::MissingField { field: "product_id"@ })
        } else if trim(self.title).len() < 3 {
            Some(ValidationErrorView::TooShort { field: "title"@, min_length: 3 })
        } else if trim(self.title).len() > 200 {
            Some(ValidationErrorView::TooLong { field: "title"@, max_length: 200 })
        } else if trim(self.body).len() < 10 {
            Some(ValidationErrorView::TooShort { field: "body"@, min_length: 10 })
        } else if trim(self.body).len() > 2000 {
            Some(ValidationErrorView::TooLong { field: "body"@, max_length: 2000 })
        } else if self.product_id.len() > 100 {
            Some(ValidationErrorView::TooLong { field: "product_id"@, max_length: 100 })
        } else if self.rating < 1 || self.rating > 5 {
            Some(ValidationErrorView::InvalidRating)
        } else {
            None
        }
    }

    /// Whether the review breaks no rule.
    pub open spec fn is_valid(self) -> bool {
        self.fault() is None
    }

    /// The failure with which no record is made of a review that breaks a
    /// rule: that rule.
    pub open spec fn refusal(self) -> AppErrorView
        recommends
            !self.is_valid(),
    {
        AppErrorView::Validation(self.fault()->0)
    }
}

/// The outcome of a check, by its views.
pub open spec fn check_outcome(r: Result<(), ValidationError>) -> Option<ValidationErrorView> {
    match r {
        Ok(_) => None,
        Err(e) => Some(e@),
    }
}

impl ReviewData {
    /// Checks the review against the rules, and names the first one broken.
    pub fn validate(&self) -> (r: Result<(), ValidationError>)
        ensures
            check_outcome(r) == self@.fault(),
    {
        let title = chars_of(self.title.as_str());
        let body = chars_of(self.body.as_str());
        let product_id = chars_of(self.product_id.as_str());
        let (t0, t1) = trim_range(&title);
        let (b0, b1) = trim_range(&body);
        let (p0, p1) = trim_range(&product_id);
        if t1 - t0 == 0 {
            return Err(ValidationError::MissingField { field: "title".to_owned() });
        }
        if b1 - b0 == 0 {
            return Err(ValidationError::MissingField { field: "body".to_owned() });
        }
        if p1 - p0 == 0 {
            return Err(ValidationError::MissingField { field: "product_id".to_owned() });
        }
        if t1 - t0 < 3 {
            return Err(ValidationError::TooShort { field: "title".to_owned(), min_length: 3 });
        }
        if t1 - t0 > 200 {
            return Err(ValidationError::TooLong { field: "title".to_owned(), max_length: 200 });
        }
        if b1 - b0 < 10 {
            return Err(ValidationError::TooShort { field: "body".to_owned(), min_length: 10 });
        }
        if b1 - b0 > 2000 {
            return Err(ValidationError::TooLong { field: "body".to_owned(), max_length: 2000 });
        }
        if product_id.len() > 100 {
            return Err(
                ValidationError::TooLong { field: "product_id".to_owned(), max_length: 100 },
            );
        }
        if self.rating < 1 || self.rating > 5 {
            return Err(ValidationError::InvalidRating);
        }
        Ok(())
    }

    /// The record of this review with the given identifier and timestamp, at
    /// `vector_index`.
    pub fn stamped(&self, id: String, timestamp: String, vector_index: usize) -> (out:
        ReviewMetadata)
        ensures
            out@.records(self@, vector_index),
            out@.id == id@,
            out@.timestamp == timestamp@,
    {
        ReviewMetadata {
            id,
            title: self.title.clone(),
            body: self.body.clone(),
            product_id: self.product_id.clone(),
            rating: self.rating,
            timestamp,
            vector_index,
        }
    }

    /// The record of this review at `vector_index`, with a fresh identifier
    /// and the current time: made exactly where the review breaks no rule.
    /// A review that breaks one gives that rule's failure. The identifier
    /// and the time come from outside: the record holds them whatever they
    /// are.
    pub fn to_metadata(&self, vector_index: usize) -> (r: Result<ReviewMetadata, AppError>)
        ensures
            match r {
                Ok(record) => self@.is_valid() && record@.records(self@, vector_index)
                    && record@.well_formed(),
                Err(e) => !self@.is_valid() && e@ == self@.refusal(),
            },
    {
        match self.validate() {
            Err(e) => Err(AppError::Validation(e)),
            Ok(_) => Ok(self.stamped(fresh_id(), utc_now(), vector_index)),
        }
    }
}

// ---------------------------------------------------------------------------
// Search
// ---------------------------------------------------------------------------

/// A query and the number of results asked for.
#[derive(Debug, PartialEq, Eq)]
pub struct SearchRequest {
    pub query: String,
    /// 1 to 100; 10 where none is given.
    pub limit: Option<usize>,
}

/// The view of `SearchRequest`.
pub struct SearchRequestView {
    pub query: Seq<char>,
    pub limit: Option<usize>,
}

impl View for SearchRequest {
    type V = SearchRequestView;

    open spec fn view(&self) -> SearchRequestView {
        SearchRequestView { query: self.query@, limit: self.limit }
    }
}

impl SearchRequestView {
    /// The first rule that the request breaks, if it breaks one. The rules,
    /// in order: the query is not blank; trimmed, it has at most 500
    /// characters; the limit, if given, is 1 to 100.
    pub open spec fn fault(self) -> Option<ValidationErrorView> {
        if is_blank(self.query) {
            Some(ValidationErrorView::MissingField { field: "query"@ })
        } else if trim(self.query).len() > 500 {
            Some(ValidationErrorView::TooLong { field: "query"@, max_length: 500 })
        } else if self.limit matches Some(limit) && (limit == 0 || limit > 100) {
            Some(
                ValidationErrorView::InvalidValue {
                    field: "limit"@,
                    reason: "must be between 1 and 100"@,
                },
            )
        } else {
            None
        }
    }

    /// Whether the request breaks no rule.
    pub open spec fn is_valid(self) -> bool {
        self.fault() is None
    }

    /// The number of results asked for.
    pub open spec fn limit_or_default(self) -> usize {
        match self.limit {
            Some(limit) => limit,
            None => 10,
        }
    }
}

impl SearchRequest {
    /// Checks the request against the rules, and names the first one broken.
    pub fn validate(&self) -> (r: Result<(), ValidationError>)
        ensures
            check_outcome(r) == self@.fault(),
    {
        let query = chars_of(self.query.as_str());
        let (q0, q1) = trim_range(&query);
        if q1 - q0 == 0 {
            return Err(ValidationError::MissingField { field: "query".to_owned() });
        }
        if q1 - q0 > 500 {
            return Err(ValidationError::TooLong { field: "query".to_owned(), max_length: 500 });
        }
        if let Some(limit) = self.limit {
            if limit == 0 || limit > 100 {
                return Err(
                    ValidationError::InvalidValue {
                        field: "limit".to_owned(),
                        reason: "must be between 1 and 100".to_owned(),
                    },
                );
            }
        }
        Ok(())
    }

    /// The number of results asked for: the limit, or 10 where none is given.
    pub fn get_limit(&self) -> (limit: usize)
        ensures
            limit == self@.limit_or_default(),
    {
        match self.limit {
            Some(limit) => limit,
            None => 10,
        }
    }
}

/// How well a review answers a query: a fraction from 0 to 1.
#[derive(Debug, Clone, Copy, PartialEq, Eq)]
pub struct Similarity {
    pub numerator: u128,
    /// Never 0.
    pub denominator: u128,
}

/// A review with its score against a query.
#[derive(Debug, PartialEq, Eq)]
pub struct SearchResult {
    pub review: ReviewMetadata,
    pub similarity_score: Similarity,
}

/// The view of `SearchResult`.
pub struct SearchResultView {
    pub review: ReviewMetadataView,
    pub similarity_score: Similarity,
}

impl View for SearchResult {
    type V = SearchResultView;

    open spec fn view(&self) -> SearchResultView {
        SearchResultView { review: self.review@, similarity_score: self.similarity_score }
    }
}

impl DeepView for SearchResult {
    type V = SearchResultView;

    open spec fn deep_view(&self) -> SearchResultView {
        self@
    }
}

// ---------------------------------------------------------------------------
// Bulk insertion
// ---------------------------------------------------------------------------

/// One review of a batch that was refused.
#[derive(Debug, PartialEq, Eq)]
pub struct BulkError {
    /// The review's place in the batch, from 1.
    pub line_number: usize,
    pub error: String,
    /// The review as it was sent.
    pub data: Option<ReviewData>,
}

/// The view of `BulkError`.
pub struct BulkErrorView {
    pub line_number: usize,
    pub error: Seq<char>,
    pub data: Option<ReviewDataView>,
}

impl View for BulkError {
    type V = BulkErrorView;

    open spec fn view(&self) -> BulkErrorView {
        BulkErrorView {
            line_number: self.line_number,
            error: self.error@,
            data: match self.data {
                Some(d) => Some(d@),
                None => None,
            },
        }
    }
}

impl DeepView for BulkError {
    type V = BulkErrorView;

    open spec fn deep_view(&self) -> BulkErrorView {
        self@
    }
}

/// The account of a batch.
#[derive(Debug, PartialEq, Eq)]
pub struct BulkUploadResult {
    pub total_processed: usize,
    pub successful: usize,
    pub failed: Vec<BulkError>,
}

} // verus!
