//! Answering a query: the request is checked, the log is read, and the
//! scorer picks the best reviews.

use crate::models::{AppError, AppErrorView, ReviewMetadataView, SearchRequest, SearchResult};
use crate::record::decoded;
use crate::search::{perform_text_search, search_hits};
use crate::storage::{entries, fails_with, first_failure, JsonlStorage};
use vstd::prelude::*;

verus! {

/// The answer to a query.
#[derive(Debug, PartialEq, Eq)]
pub struct SearchResponse {
    pub query: String,
    pub results: Vec<SearchResult>,
    pub total_results: usize,
    pub limit: usize,
    /// The scorer that ranked the results.
    pub search_type: String,
}

/// The records on the lines of a log, where every line holds one.
pub open spec fn records_on(entries: Seq<Seq<char>>) -> Seq<ReviewMetadataView> {
    Seq::new(entries.len(), |p: int| decoded(entries[p])->Ok_0)
}

/// Answers a query against the log: the best reviews, at most as many as
/// the request asks for, or 10. A request that breaks a rule is refused
/// with that rule; a log with a line that holds no record fails with that
/// line's failure.
pub fn search_reviews(storage: &JsonlStorage, request: &SearchRequest) -> (r: Result<
    SearchResponse,
    AppError,
>)
    ensures
        match r {
            Ok(response) => {
                &&& request@.is_valid()
                &&& first_failure(entries(storage@), 0) == entries(storage@).len()
                &&& response.query@ == request@.query
                &&& response.results.deep_view() == search_hits(
                    request@.query,
                    records_on(entries(storage@)),
                    request@.limit_or_default(),
                )
                &&& response.total_results == response.results.len()
                &&& response.limit == request@.limit_or_default()
                &&& response.search_type@ == "text_similarity"@
            },
            Err(e) => match request@.fault() {
                Some(fault) => e@ == AppErrorView::Validation(fault),
                None => first_failure(entries(storage@), 0) < entries(storage@).len()
                    && fails_with(entries(storage@)[first_failure(entries(storage@), 0)], e@),
            },
        },
{
    match request.validate() {
        Err(e) => {
            return Err(AppError::Validation(e));
        },
        Ok(_) => {},
    }
    let records = match storage.read_all_reviews() {
        Ok(records) => records,
        Err(e) => {
            return Err(e);
        },
    };
    proof {
        let lines = entries(storage@);
        assert(records.deep_view() =~= records_on(lines)) by {
            assert forall|p: int| 0 <= p < records.len() implies #[trigger] records.deep_view()[p]
                == records_on(lines)[p] by {
                assert(decoded(lines[p]) == Ok::<ReviewMetadataView, Seq<char>>(records[p]@));
            }
        }
    }
    let limit = request.get_limit();
    let results = perform_text_search(request.query.as_str(), &records, limit);
    let total_results = results.len();
    Ok(
        SearchResponse {
            query: request.query.clone(),
            results,
            total_results,
            limit,
            search_type: "text_similarity".to_owned(),
        },
    )
}

} // verus!
