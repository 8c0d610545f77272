use review_index::ingest::{
    bulk_upload, create_review, parse_bulk_data, process_single_review, BulkPayload,
};
use review_index::json::{JsonItem, JsonMember, JsonValue};
use review_index::models::{AppError, ReviewData, ValidationError};
use review_index::record::encode_record;
use review_index::storage::JsonlStorage;

fn review(title: &str, body: &str, product_id: &str, rating: u8) -> ReviewData {
    ReviewData {
        title: title.to_string(),
        body: body.to_string(),
        product_id: product_id.to_string(),
        rating,
    }
}

fn item(title: &str, body: &str, product_id: &str, rating: u64) -> JsonItem {
    JsonItem::Object(vec![
        JsonMember { name: "title".to_string(), value: JsonValue::Text(title.to_string()) },
        JsonMember { name: "body".to_string(), value: JsonValue::Text(body.to_string()) },
        JsonMember {
            name: "product_id".to_string(),
            value: JsonValue::Text(product_id.to_string()),
        },
        JsonMember { name: "rating".to_string(), value: JsonValue::Unsigned(rating) },
    ])
}

#[test]
fn test_create_review_endpoint() {
    let mut storage = JsonlStorage::new("create_review/reviews.jsonl");
    let review_data = review(
        "Great product!",
        "This product exceeded my expectations. Great quality and fast delivery.",
        "prod_123",
        5,
    );
    let created = create_review(&mut storage, &review_data).unwrap();
    assert!(!created.record.id.is_empty());
    assert_eq!(created.record.vector_index, 0);
    assert_eq!(storage.count_reviews(), 1);
    assert_eq!(created.written, format!("{}\n", encode_record(&created.record)));
    assert_eq!(storage.content(), created.written);
    assert_eq!(storage.get_review_by_index(0), Ok(Some(created.record)));
}

#[test]
fn test_create_review_validation_error() {
    let mut storage = JsonlStorage::new("validation_error/reviews.jsonl");
    let invalid = review("", "This product exceeded my expectations.", "prod_123", 5);
    let error = create_review(&mut storage, &invalid).unwrap_err();
    assert!(matches!(error, AppError::Validation(_)));
    let response = review_index::models::ErrorResponse::from(error);
    assert_eq!(response.error, "validation_error");
    assert!(response.message.contains("title"));
    assert_eq!(storage.count_reviews(), 0);
}

#[test]
fn test_create_review_invalid_rating() {
    let mut storage = JsonlStorage::new("invalid_rating/reviews.jsonl");
    let invalid = review("Great product!", "This product exceeded my expectations.", "prod_123", 6);
    let error = create_review(&mut storage, &invalid).unwrap_err();
    assert_eq!(error, AppError::Validation(ValidationError::InvalidRating));
    let response = review_index::models::ErrorResponse::from(error);
    assert_eq!(response.error, "validation_error");
    assert!(response.message.contains("rating"));
}

#[test]
fn test_bulk_upload_json_array() {
    let mut storage = JsonlStorage::new("bulk_json/reviews.jsonl");
    let bulk_data = BulkPayload::Array(vec![
        item("Great product 1", "This is the first review in bulk upload.", "prod_001", 5),
        item("Good product 2", "This is the second review in bulk upload.", "prod_002", 4),
        item("Average product 3", "This is the third review in bulk upload.", "prod_003", 3),
    ]);
    let report = bulk_upload(&mut storage, &bulk_data).unwrap();
    assert_eq!(report.result.total_processed, 3);
    assert_eq!(report.result.successful, 3);
    assert_eq!(report.result.failed.len(), 0);
    assert_eq!(report.starting_vector_index, 0);
    assert_eq!(report.ending_vector_index, 2);
    assert_eq!(report.sources, vec![0, 1, 2]);
    assert_eq!(storage.count_reviews(), 3);
    assert_eq!(storage.content(), report.written);
    assert_eq!(storage.read_all_reviews(), Ok(report.records));
}

#[test]
fn test_bulk_upload_with_validation_errors() {
    let mut storage = JsonlStorage::new("reviews.jsonl");
    let bulk_data = BulkPayload::Array(vec![
        item("Valid review", "This is a valid review.", "prod_001", 5),
        item("", "This review has empty title.", "prod_002", 4),
        item("Another valid review", "This is another valid review.", "prod_003", 3),
        item("Invalid rating review", "This review has invalid rating.", "prod_004", 6),
    ]);
    let report = bulk_upload(&mut storage, &bulk_data).unwrap();
    assert_eq!(report.result.total_processed, 4);
    assert_eq!(report.result.successful, 2);
    assert_eq!(report.result.failed.len(), 2);

    let failed = &report.result.failed;
    assert!(failed[0].error.contains("title"));
    assert!(failed[1].error.contains("rating"));
    assert_eq!(failed[0].line_number, 2);
    assert_eq!(failed[1].line_number, 4);
    assert_eq!(failed[0].error, "Validation error: Missing required field: title");
    assert_eq!(failed[1].error, "Validation error: Invalid rating: must be between 1 and 5");
    assert_eq!(failed[0].data, Some(review("", "This review has empty title.", "prod_002", 4)));

    // The two that passed stand at the positions 0 and 1, without a gap.
    assert_eq!(report.starting_vector_index, 0);
    assert_eq!(report.ending_vector_index, 1);
    assert_eq!(report.sources, vec![0, 2]);
    assert_eq!(report.records[0].vector_index, 0);
    assert_eq!(report.records[0].title, "Valid review");
    assert_eq!(report.records[1].vector_index, 1);
    assert_eq!(report.records[1].title, "Another valid review");
    assert_eq!(storage.count_reviews(), 2);
    assert_eq!(storage.get_review_by_index(1).unwrap().unwrap().title, "Another valid review");
}

#[test]
fn test_bulk_upload_jsonl_format() {
    let mut storage = JsonlStorage::new("reviews.jsonl");
    let jsonl_data = "{\"title\": \"JSONL Review 1\", \"body\": \"First review in JSONL format.\", \"product_id\": \"jsonl_001\", \"rating\": 5}\n{\"title\": \"JSONL Review 2\", \"body\": \"Second review in JSONL format.\", \"product_id\": \"jsonl_002\", \"rating\": 4}";
    let report = bulk_upload(&mut storage, &BulkPayload::Text(jsonl_data.to_string())).unwrap();
    assert_eq!(report.result.total_processed, 2);
    assert_eq!(report.result.successful, 2);
    assert_eq!(report.result.failed.len(), 0);
    assert_eq!(report.records[1].title, "JSONL Review 2");
}

#[test]
fn test_bulk_upload_empty_data() {
    let mut storage = JsonlStorage::new("reviews.jsonl");
    let error = bulk_upload(&mut storage, &BulkPayload::Array(vec![])).unwrap_err();
    let response = review_index::models::ErrorResponse::from(error);
    assert_eq!(response.error, "validation_error");
    assert!(response.message.contains("No valid reviews found"));
    assert_eq!(storage.count_reviews(), 0);
    assert_eq!(storage.content(), "");
}

#[test]
fn a_batch_starts_at_the_next_position_of_the_log() {
    let mut storage = JsonlStorage::new("reviews.jsonl");
    for n in 0..3 {
        let created =
            create_review(&mut storage, &review("A title", "A body of some length.", "p", 3))
                .unwrap();
        assert_eq!(created.record.vector_index, n);
    }
    let bulk_data = BulkPayload::Array(vec![
        item("x", "too short a title", "p", 3),
        item("First", "The body of the first.", "p", 1),
        item("Second", "The body of the second.", "p", 2),
    ]);
    let report = bulk_upload(&mut storage, &bulk_data).unwrap();
    assert_eq!(report.starting_vector_index, 3);
    assert_eq!(report.ending_vector_index, 4);
    assert_eq!(report.result.successful, 2);
    assert_eq!(report.result.failed.len(), 1);
    assert_eq!(
        report.ending_vector_index - report.starting_vector_index as i128 + 1,
        report.result.successful as i128
    );
    assert_eq!(storage.count_reviews(), 5);
    for position in 0..5 {
        assert_eq!(
            storage.get_review_by_index(position).unwrap().unwrap().vector_index,
            position
        );
    }
    assert_eq!(
        storage.get_reviews_by_indices(&vec![4]).unwrap()[0].as_ref().unwrap().title,
        "Second"
    );
}

#[test]
fn a_batch_in_which_nothing_passes_stores_nothing() {
    let mut storage = JsonlStorage::new("reviews.jsonl");
    let bulk_data = BulkPayload::Array(vec![item("", "b", "p", 3), item("t", "", "p", 3)]);
    let report = bulk_upload(&mut storage, &bulk_data).unwrap();
    assert_eq!(report.result.total_processed, 2);
    assert_eq!(report.result.successful, 0);
    assert_eq!(report.result.failed.len(), 2);
    assert_eq!(report.starting_vector_index, 0);
    assert_eq!(report.ending_vector_index, -1);
    assert_eq!(report.written, "");
    assert_eq!(storage.content(), "");
}

#[test]
fn a_rejected_review_leaves_the_log_as_it_was() {
    let mut storage = JsonlStorage::new("reviews.jsonl");
    create_review(&mut storage, &review("A title", "A body of some length.", "p", 3)).unwrap();
    let before = storage.content();
    let error = create_review(&mut storage, &review("A title", "short", "p", 3)).unwrap_err();
    assert_eq!(
        error,
        AppError::Validation(ValidationError::TooShort { field: "body".to_string(), min_length: 10 })
    );
    assert_eq!(storage.count_reviews(), 1);
    assert_eq!(storage.content(), before);
}

#[test]
fn payloads_are_read_by_their_shape() {
    let one = item("Only one", "The body of the only one.", "p", 2);
    assert_eq!(
        parse_bulk_data(&BulkPayload::Object(one)),
        Ok(vec![review("Only one", "The body of the only one.", "p", 2)])
    );
    assert_eq!(
        parse_bulk_data(&BulkPayload::Other),
        Err(AppError::Validation(ValidationError::InvalidValue {
            field: "bulk_data".to_string(),
            reason: "Expected JSON array, object, or JSONL string".to_string(),
        }))
    );
    assert_eq!(parse_bulk_data(&BulkPayload::Text(" \n\n".to_string())), Ok(vec![]));
    // No check of the rules happens here.
    assert_eq!(
        parse_bulk_data(&BulkPayload::Array(vec![item("", "", "", 200)])),
        Ok(vec![review("", "", "", 200)])
    );
}

#[test]
fn an_item_that_is_no_review_ends_the_reading() {
    let payload = BulkPayload::Array(vec![
        item("Fine", "The body of a fine one.", "p", 2),
        JsonItem::Other,
        JsonItem::Object(vec![]),
    ]);
    assert_eq!(
        parse_bulk_data(&payload),
        Err(AppError::Serialization("expected a JSON object".to_string()))
    );
    let payload = BulkPayload::Array(vec![item("Fine", "The body.", "p", 256)]);
    assert_eq!(
        parse_bulk_data(&payload),
        Err(AppError::Serialization("field `rating` is not an integer from 0 to 255".to_string()))
    );
    let mut storage = JsonlStorage::new("reviews.jsonl");
    assert!(matches!(
        bulk_upload(&mut storage, &BulkPayload::Object(JsonItem::Other)),
        Err(AppError::Serialization(_))
    ));
    assert_eq!(storage.content(), "");
}

#[test]
fn a_line_that_is_no_review_ends_the_reading_with_its_number() {
    let text = "\n  {\"title\":\"t\",\"body\":\"b\",\"product_id\":\"p\",\"rating\":3}  \r\n\nnot json\n{}";
    let by_serde = serde_json::from_str::<serde_json::Value>("not json").unwrap_err().to_string();
    assert_eq!(
        parse_bulk_data(&BulkPayload::Text(text.to_string())),
        Err(AppError::Validation(ValidationError::InvalidValue {
            field: "line_4".to_string(),
            reason: format!("Invalid JSON: {}", by_serde),
        }))
    );
    let text = "{\"title\":\"t\",\"body\":\"b\",\"product_id\":\"p\",\"rating\":3}\n{\"title\":\"t\"}";
    assert_eq!(
        parse_bulk_data(&BulkPayload::Text(text.to_string())),
        Err(AppError::Validation(ValidationError::InvalidValue {
            field: "line_2".to_string(),
            reason: "Invalid JSON: missing field `body`".to_string(),
        }))
    );
}

#[test]
fn one_review_is_made_into_a_record_at_its_position() {
    let input = review("A title", "A body of some length.", "p", 3);
    let record = process_single_review(&input, 41).unwrap();
    assert_eq!(record.vector_index, 41);
    assert_eq!(record.title, "A title");
    assert_eq!(
        process_single_review(&review("A title", "A body of some length.", " ", 3), 41),
        Err(AppError::Validation(ValidationError::MissingField {
            field: "product_id".to_string()
        }))
    );
}
