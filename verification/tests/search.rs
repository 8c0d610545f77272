use review_index::ingest::{bulk_upload, BulkPayload};
use review_index::json::{JsonItem, JsonMember, JsonValue};
use review_index::models::{
    AppError, ReviewMetadata, SearchRequest, Similarity, ValidationError,
};
use review_index::query::search_reviews;
use review_index::search::{
    calculate_text_similarity, perform_text_search, rank_scores, score_lowered,
};
use review_index::storage::JsonlStorage;

fn item(title: &str, body: &str, product_id: &str, rating: u64) -> JsonItem {
    JsonItem::Object(vec![
        JsonMember { name: "title".to_string(), value: JsonValue::Text(title.to_string()) },
        JsonMember { name: "body".to_string(), value: JsonValue::Text(body.to_string()) },
        JsonMember {
            name: "product_id".to_string(),
            value: JsonValue::Text(product_id.to_string()),
        },
        JsonMember { name: "rating".to_string(), value: JsonValue::Unsigned(rating) },
    ])
}

fn record(title: &str, body: &str, rating: u8, vector_index: usize) -> ReviewMetadata {
    ReviewMetadata {
        id: format!("id_{}", vector_index),
        title: title.to_string(),
        body: body.to_string(),
        product_id: "p".to_string(),
        rating,
        timestamp: "2024-05-01T10:00:00Z".to_string(),
        vector_index,
    }
}

fn chars(s: &str) -> Vec<char> {
    s.chars().collect()
}

fn score(query: &str, review: &ReviewMetadata) -> Similarity {
    let lower = query.to_lowercase();
    let words: Vec<Vec<char>> = lower.split_whitespace().map(chars).collect();
    calculate_text_similarity(&chars(&lower), &words, review)
}

fn as_float(s: Similarity) -> f64 {
    s.numerator as f64 / s.denominator as f64
}

#[test]
fn test_search_reviews_endpoint() {
    let mut storage = JsonlStorage::new("search_test/reviews.jsonl");
    let reviews_to_add = BulkPayload::Array(vec![
        item(
            "Amazing smartphone",
            "This phone has excellent camera quality and fast performance. Great value for money.",
            "phone_001",
            5,
        ),
        item(
            "Good laptop",
            "Decent performance for work. Battery life could be better but overall satisfied.",
            "laptop_001",
            4,
        ),
        item(
            "Poor quality headphones",
            "Sound quality is terrible and they broke after one week. Not recommended.",
            "headphones_001",
            1,
        ),
    ]);
    assert!(bulk_upload(&mut storage, &reviews_to_add).is_ok());

    let request = SearchRequest { query: "camera quality".to_string(), limit: Some(10) };
    let response = search_reviews(&storage, &request).unwrap();
    assert_eq!(response.query, "camera quality");
    assert_eq!(response.search_type, "text_similarity");
    assert_eq!(response.limit, 10);
    assert_eq!(response.total_results, response.results.len());

    let results = &response.results;
    assert!(results.len() > 0, "Should find at least one matching review");
    let top_result = &results[0];
    assert!(top_result.review.title.contains("smartphone"));
    assert!(as_float(top_result.similarity_score) > 0.0);

    // The exact scores: 1, then 17/20, then 2/20.
    assert_eq!(results.len(), 3);
    assert_eq!(results[0].similarity_score, Similarity { numerator: 20, denominator: 20 });
    assert_eq!(results[1].review.title, "Poor quality headphones");
    assert_eq!(results[1].similarity_score, Similarity { numerator: 17, denominator: 20 });
    assert_eq!(results[2].review.title, "Good laptop");
    assert_eq!(results[2].similarity_score, Similarity { numerator: 2, denominator: 20 });
}

#[test]
fn test_search_reviews_validation_error() {
    let storage = JsonlStorage::new("search_validation/reviews.jsonl");
    let request = SearchRequest { query: "".to_string(), limit: Some(10) };
    let error = search_reviews(&storage, &request).unwrap_err();
    assert_eq!(
        error,
        AppError::Validation(ValidationError::MissingField { field: "query".to_string() })
    );
    let response = review_index::models::ErrorResponse::from(error);
    assert_eq!(response.error, "validation_error");
    assert!(response.message.contains("query"));
}

#[test]
fn test_search_reviews_no_results() {
    let storage = JsonlStorage::new("search_no_results/reviews.jsonl");
    let request = SearchRequest { query: "nonexistent product".to_string(), limit: Some(10) };
    let response = search_reviews(&storage, &request).unwrap();
    assert_eq!(response.total_results, 0);
    assert_eq!(response.results.len(), 0);
}

#[test]
fn test_search_reviews_ranking() {
    let mut storage = JsonlStorage::new("search_ranking/reviews.jsonl");
    let reviews_to_add = BulkPayload::Array(vec![
        item(
            "Fast performance laptop",
            "This laptop delivers amazing speed and efficiency.",
            "laptop_002",
            5,
        ),
        item("Good computer", "Has fast performance and great build quality.", "computer_001", 4),
        item("Slow device", "This device is quite slow and not recommended.", "device_001", 2),
    ]);
    assert!(bulk_upload(&mut storage, &reviews_to_add).is_ok());

    let request = SearchRequest { query: "fast performance".to_string(), limit: Some(10) };
    let response = search_reviews(&storage, &request).unwrap();
    let results = &response.results;
    assert!(results.len() >= 2, "Should find at least 2 matching reviews");
    let first_score = as_float(results[0].similarity_score);
    let second_score = as_float(results[1].similarity_score);
    assert!(first_score >= second_score, "Results should be ranked by similarity score");
    assert!(results[0].review.title.contains("Fast performance"));
    assert_eq!(results.len(), 2);
}

#[test]
fn the_score_is_the_sum_of_its_parts() {
    // One word, found in the body only, rating 3: 0.5 + 0.5 * 1 = 1, cut to 1.
    assert_eq!(
        score("camera", &record("Phone", "a camera", 3, 0)),
        Similarity { numerator: 10, denominator: 10 }
    );
    // Two words, one found in the title, the phrase not found, rating 3:
    // 0.8 + 0.5 * 1/2 = 1.05, cut to 1.
    assert_eq!(
        score("good zebra", &record("Good", "thing", 3, 0)),
        Similarity { numerator: 20, denominator: 20 }
    );
    // Three words, one found in the body, rating 2: 0.5 + 0.5/3 - 0.1, in 30ths: 15 + 5 - 3.
    assert_eq!(
        score("alpha beta gamma", &record("Title", "with beta inside", 2, 0)),
        Similarity { numerator: 17, denominator: 30 }
    );
    // Nothing found: only the rating counts, a tenth for each point above 3.
    assert_eq!(
        score("zebra", &record("Title", "body", 5, 0)),
        Similarity { numerator: 2, denominator: 10 }
    );
    assert_eq!(
        score("zebra", &record("Title", "body", 4, 0)),
        Similarity { numerator: 1, denominator: 10 }
    );
    assert_eq!(
        score("zebra", &record("Title", "body", 3, 0)),
        Similarity { numerator: 0, denominator: 10 }
    );
    assert_eq!(
        score("zebra", &record("Title", "body", 1, 0)),
        Similarity { numerator: 0, denominator: 10 }
    );
    // A stored rating may be any byte: the score is still cut to 1.
    assert_eq!(
        score("zebra", &record("Title", "body", 255, 0)),
        Similarity { numerator: 10, denominator: 10 }
    );
    // Found in the body, rating 1: 0.5 + 0.5 - 0.2.
    assert_eq!(
        score("body other", &record("Title", "body", 1, 0)),
        Similarity { numerator: 10 + 5 - 4, denominator: 20 }
    );
}

#[test]
fn letter_case_does_not_count() {
    assert_eq!(
        score("CAMERA Quality", &record("camera QUALITY", "x", 3, 0)),
        score("camera quality", &record("Camera Quality", "X", 3, 0))
    );
    let hits = perform_text_search("\u{c9}T\u{c9}", &vec![record("\u{e9}t\u{e9}", "b", 3, 0)], 5);
    assert_eq!(hits.len(), 1);
    assert_eq!(hits[0].similarity_score, Similarity { numerator: 10, denominator: 10 });
}

#[test]
fn the_whole_query_is_sought_as_it_was_given() {
    // The query with its spaces is no part of the text; its word is.
    let review = record("Title", "the zebra", 1, 0);
    assert_eq!(score(" zebra  ", &review), Similarity { numerator: 8, denominator: 10 });
    assert_eq!(score("zebra", &review), Similarity { numerator: 10, denominator: 10 });
}

#[test]
fn a_query_without_words_finds_nothing() {
    let corpus = vec![record("Title", "body", 5, 0)];
    assert!(perform_text_search("", &corpus, 10).is_empty());
    assert!(perform_text_search("  \t ", &corpus, 10).is_empty());
}

#[test]
fn the_best_come_first_and_equal_scores_keep_their_order() {
    let corpus = vec![
        record("nothing", "at all", 3, 0),     // 0: dropped
        record("nothing", "at all", 4, 1),     // 1/10
        record("zebra", "x", 3, 2),            // 1
        record("nothing", "at all", 5, 3),     // 2/10
        record("plain", "a zebra", 1, 4),      // 0.5 + 0.5 + 1 - 0.2 -> 1
        record("nothing", "at all", 4, 5),     // 1/10
        record("nothing", "at all", 5, 6),     // 2/10
    ];
    let hits = perform_text_search("zebra", &corpus, 10);
    let order: Vec<usize> = hits.iter().map(|h| h.review.vector_index).collect();
    assert_eq!(order, vec![2, 4, 3, 6, 1, 5]);
    let numerators: Vec<u128> = hits.iter().map(|h| h.similarity_score.numerator).collect();
    assert_eq!(numerators, vec![10, 10, 2, 2, 1, 1]);
    for hit in &hits {
        assert_eq!(hit.similarity_score.denominator, 10);
        assert_eq!(hit.review, corpus[hit.review.vector_index]);
    }
}

#[test]
fn the_limit_cuts_the_results() {
    let corpus: Vec<ReviewMetadata> =
        (0..20).map(|i| record("nothing", "at all", if i % 2 == 0 { 4 } else { 5 }, i)).collect();
    let all = perform_text_search("zebra", &corpus, 100);
    assert_eq!(all.len(), 20);
    for limit in [0usize, 1, 3, 10, 19, 20, 21] {
        let hits = perform_text_search("zebra", &corpus, limit);
        assert_eq!(hits.len(), limit.min(20));
        assert_eq!(hits[..], all[..limit.min(20)]);
    }
    let top: Vec<usize> = all.iter().take(3).map(|h| h.review.vector_index).collect();
    assert_eq!(top, vec![1, 3, 5]);
}

#[test]
fn the_same_corpus_and_query_give_the_same_results() {
    let corpus: Vec<ReviewMetadata> = (0..30)
        .map(|i| record(&format!("fast item {}", i % 4), "with performance", (i % 5) as u8 + 1, i))
        .collect();
    let first = perform_text_search("Fast performance item", &corpus, 7);
    let second = perform_text_search("Fast performance item", &corpus, 7);
    assert_eq!(first, second);
    assert_eq!(first.len(), 7);
}

#[test]
fn a_search_takes_ten_results_where_no_limit_is_given() {
    let mut storage = JsonlStorage::new("log");
    let records: Vec<ReviewMetadata> =
        (0..15).map(|i| record("zebra", "body", 3, i)).collect();
    storage.append_reviews(&records);
    let response =
        search_reviews(&storage, &SearchRequest { query: "zebra".to_string(), limit: None })
            .unwrap();
    assert_eq!(response.limit, 10);
    assert_eq!(response.total_results, 10);
    assert_eq!(response.results[9].review.vector_index, 9);
    let refused =
        search_reviews(&storage, &SearchRequest { query: "zebra".to_string(), limit: Some(101) });
    assert!(matches!(refused, Err(AppError::Validation(ValidationError::InvalidValue { .. }))));
}

#[test]
fn a_search_fails_on_a_log_with_a_faulty_line() {
    let storage = JsonlStorage::open("log", "{\"id\":\"a\"}\n");
    let failure =
        search_reviews(&storage, &SearchRequest { query: "zebra".to_string(), limit: None });
    assert_eq!(failure, Err(AppError::Serialization("missing field `title`".to_string())));
}

fn lowered(query: &str, title: &str, body: &str, rating: u8) -> Similarity {
    let words: Vec<Vec<char>> = query.split_whitespace().map(chars).collect();
    score_lowered(&chars(query), &words, &chars(title), &chars(body), rating)
}

#[test]
fn texts_in_lower_case_are_scored_as_they_stand() {
    // The whole query in the body, both words found there: 1 + 0.5 + 0.5 + 0.5 + 0.2, cut to 1.
    assert_eq!(
        lowered("camera quality", "amazing smartphone", "excellent camera quality", 5),
        Similarity { numerator: 20, denominator: 20 }
    );
    // One of two words, in the title, rating 1: 0.8 + 0.25 - 0.2, in 20ths.
    assert_eq!(
        lowered("camera quality", "poor quality headphones", "sound is terrible", 1),
        Similarity { numerator: 16 + 5 - 4, denominator: 20 }
    );
    // Nothing found, rating 4.
    assert_eq!(
        lowered("camera quality", "good laptop", "decent performance", 4),
        Similarity { numerator: 2, denominator: 20 }
    );
    // No lower case is made here: a capital in the text is another letter.
    assert_eq!(
        lowered("zebra", "Zebra", "body", 3),
        Similarity { numerator: 0, denominator: 10 }
    );
    // The title and the body are apart: a word across both is found in the
    // text only with the space between.
    assert_eq!(lowered("ab", "a", "b", 3), Similarity { numerator: 0, denominator: 10 });
    assert_eq!(lowered("a b", "a", "b", 3), Similarity { numerator: 20, denominator: 20 });
}

#[test]
fn scores_are_ranked_by_height_and_then_by_place() {
    assert_eq!(rank_scores(&vec![0, 5, 5, 2], 10), vec![1, 2, 3]);
    assert_eq!(rank_scores(&vec![1, 9, 0, 9, 3, 1, 10], 10), vec![6, 1, 3, 4, 0, 5]);
    assert_eq!(rank_scores(&vec![1, 9, 0, 9, 3, 1, 10], 3), vec![6, 1, 3]);
    assert_eq!(rank_scores(&vec![1, 9, 0, 9, 3, 1, 10], 0), Vec::<usize>::new());
    assert_eq!(rank_scores(&vec![0, 0], 5), Vec::<usize>::new());
    assert_eq!(rank_scores(&vec![], 5), Vec::<usize>::new());
    assert_eq!(rank_scores(&vec![7, 7, 7, 7], 2), vec![0, 1]);
}
