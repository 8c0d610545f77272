use review_index::models::{
    AppError, ErrorDetail, ErrorResponse, ReviewData, SearchRequest, ValidationError,
};

fn review(title: &str, body: &str, product_id: &str, rating: u8) -> ReviewData {
    ReviewData {
        title: title.to_string(),
        body: body.to_string(),
        product_id: product_id.to_string(),
        rating,
    }
}

#[test]
fn test_review_data_validation() {
    let valid_review = review(
        "Great product",
        "This is a great product that I really enjoyed using.",
        "prod_123",
        5,
    );
    assert!(valid_review.validate().is_ok());

    let invalid_review = review("", "This is a great product.", "prod_123", 5);
    assert!(invalid_review.validate().is_err());

    let invalid_rating = review("Great product", "This is a great product.", "prod_123", 6);
    assert!(invalid_rating.validate().is_err());
}

#[test]
fn test_search_request_validation() {
    let valid_search = SearchRequest { query: "great product".to_string(), limit: Some(10) };
    assert!(valid_search.validate().is_ok());

    let invalid_search = SearchRequest { query: "".to_string(), limit: Some(10) };
    assert!(invalid_search.validate().is_err());

    let invalid_limit = SearchRequest { query: "great product".to_string(), limit: Some(0) };
    assert!(invalid_limit.validate().is_err());
}

#[test]
fn title_of_three_characters_is_accepted_and_of_two_refused() {
    assert_eq!(review("abc", "a body of ten or more", "p", 3).validate(), Ok(()));
    assert_eq!(
        review("ab", "a body of ten or more", "p", 3).validate(),
        Err(ValidationError::TooShort { field: "title".to_string(), min_length: 3 })
    );
}

#[test]
fn title_is_measured_without_the_white_space_around_it() {
    assert_eq!(
        review("  ab \t", "a body of ten or more", "p", 3).validate(),
        Err(ValidationError::TooShort { field: "title".to_string(), min_length: 3 })
    );
    let padded = format!("   {}   ", "t".repeat(200));
    assert_eq!(review(&padded, "a body of ten or more", "p", 3).validate(), Ok(()));
}

#[test]
fn title_is_measured_in_characters_not_in_bytes() {
    // Two characters of three bytes each.
    assert_eq!(
        review("\u{4e2d}\u{6587}", "a body of ten or more", "p", 3).validate(),
        Err(ValidationError::TooShort { field: "title".to_string(), min_length: 3 })
    );
    let long = "\u{e9}".repeat(200);
    assert_eq!(review(&long, "a body of ten or more", "p", 3).validate(), Ok(()));
}

#[test]
fn title_of_201_characters_is_too_long() {
    assert_eq!(review(&"t".repeat(200), "a body of ten or more", "p", 3).validate(), Ok(()));
    assert_eq!(
        review(&"t".repeat(201), "a body of ten or more", "p", 3).validate(),
        Err(ValidationError::TooLong { field: "title".to_string(), max_length: 200 })
    );
}

#[test]
fn body_of_2000_characters_is_accepted_and_of_2001_refused() {
    assert_eq!(review("title", &"b".repeat(2000), "p", 3).validate(), Ok(()));
    assert_eq!(
        review("title", &"b".repeat(2001), "p", 3).validate(),
        Err(ValidationError::TooLong { field: "body".to_string(), max_length: 2000 })
    );
}

#[test]
fn body_of_nine_characters_is_too_short() {
    assert_eq!(review("title", "123456789", "p", 3).validate(),
        Err(ValidationError::TooShort { field: "body".to_string(), min_length: 10 }));
    assert_eq!(review("title", "1234567890", "p", 3).validate(), Ok(()));
}

#[test]
fn product_of_101_characters_is_too_long() {
    assert_eq!(review("title", "a body of ten or more", &"p".repeat(100), 3).validate(), Ok(()));
    assert_eq!(
        review("title", "a body of ten or more", &"p".repeat(101), 3).validate(),
        Err(ValidationError::TooLong { field: "product_id".to_string(), max_length: 100 })
    );
}

#[test]
fn ratings_from_one_to_five_are_accepted() {
    for rating in [1u8, 2, 3, 4, 5] {
        assert_eq!(review("title", "a body of ten or more", "p", rating).validate(), Ok(()));
    }
    for rating in [0u8, 6, 255] {
        assert_eq!(
            review("title", "a body of ten or more", "p", rating).validate(),
            Err(ValidationError::InvalidRating)
        );
    }
}

#[test]
fn blank_fields_are_missing_and_the_first_fault_wins() {
    assert_eq!(
        review(" \n", "", "", 9).validate(),
        Err(ValidationError::MissingField { field: "title".to_string() })
    );
    assert_eq!(
        review("title", " \u{3000} ", "", 9).validate(),
        Err(ValidationError::MissingField { field: "body".to_string() })
    );
    assert_eq!(
        review("title", "a body of ten or more", "\t", 9).validate(),
        Err(ValidationError::MissingField { field: "product_id".to_string() })
    );
    assert_eq!(
        review("ab", "short", "p", 9).validate(),
        Err(ValidationError::TooShort { field: "title".to_string(), min_length: 3 })
    );
}

#[test]
fn limits_from_one_to_a_hundred_are_accepted() {
    let request = |limit| SearchRequest { query: "q".to_string(), limit };
    assert_eq!(request(Some(1)).validate(), Ok(()));
    assert_eq!(request(Some(100)).validate(), Ok(()));
    assert_eq!(request(None).validate(), Ok(()));
    let refused = Err(ValidationError::InvalidValue {
        field: "limit".to_string(),
        reason: "must be between 1 and 100".to_string(),
    });
    assert_eq!(request(Some(0)).validate(), refused);
    assert_eq!(request(Some(101)).validate(), refused);
}

#[test]
fn query_of_500_characters_is_accepted_and_of_501_refused() {
    let request = |query: String| SearchRequest { query, limit: None };
    assert_eq!(request("q".repeat(500)).validate(), Ok(()));
    assert_eq!(request(format!("  {}  ", "q".repeat(500))).validate(), Ok(()));
    assert_eq!(
        request("q".repeat(501)).validate(),
        Err(ValidationError::TooLong { field: "query".to_string(), max_length: 500 })
    );
    assert_eq!(
        request("   ".to_string()).validate(),
        Err(ValidationError::MissingField { field: "query".to_string() })
    );
}

#[test]
fn the_limit_is_ten_where_none_is_given() {
    assert_eq!(SearchRequest { query: "q".to_string(), limit: None }.get_limit(), 10);
    assert_eq!(SearchRequest { query: "q".to_string(), limit: Some(42) }.get_limit(), 42);
}

#[test]
fn validation_errors_speak() {
    assert_eq!(
        ValidationError::MissingField { field: "title".to_string() }.to_string(),
        "Missing required field: title"
    );
    assert_eq!(
        ValidationError::InvalidValue { field: "limit".to_string(), reason: "odd".to_string() }
            .to_string(),
        "Invalid field value: limit - odd"
    );
    assert_eq!(
        ValidationError::TooShort { field: "body".to_string(), min_length: 10 }.to_string(),
        "Field too short: body must be at least 10 characters"
    );
    assert_eq!(
        ValidationError::TooLong { field: "body".to_string(), max_length: 2000 }.to_string(),
        "Field too long: body must be at most 2000 characters"
    );
    assert_eq!(
        ValidationError::InvalidRating.to_string(),
        "Invalid rating: must be between 1 and 5"
    );
}

#[test]
fn app_errors_speak() {
    assert_eq!(
        AppError::Validation(ValidationError::InvalidRating).to_string(),
        "Validation error: Invalid rating: must be between 1 and 5"
    );
    assert_eq!(AppError::FileOperation("gone".to_string()).to_string(), "File operation error: gone");
    assert_eq!(AppError::Serialization("bad".to_string()).to_string(), "Serialization error: bad");
    assert_eq!(AppError::Uuid("u".to_string()).to_string(), "UUID generation error: u");
    assert_eq!(
        AppError::Embedding { message: "e".to_string() }.to_string(),
        "Embedding generation error: e"
    );
    assert_eq!(
        AppError::VectorSearch { message: "v".to_string() }.to_string(),
        "Vector search error: v"
    );
    assert_eq!(
        AppError::Concurrency { message: "c".to_string() }.to_string(),
        "Concurrency error: c"
    );
    assert_eq!(
        AppError::Internal { message: "i".to_string() }.to_string(),
        "Internal server error: i"
    );
}

#[test]
fn error_responses_carry_tag_message_and_details() {
    let at = "2024-05-01T10:00:00Z".to_string();
    let response = ErrorResponse::at(
        &AppError::Validation(ValidationError::MissingField { field: "title".to_string() }),
        at.clone(),
    );
    assert_eq!(response.error, "validation_error");
    assert_eq!(response.message, "Missing required field: title");
    assert_eq!(response.details, None);
    assert_eq!(response.timestamp, at);

    let response = ErrorResponse::at(&AppError::FileOperation("disk full".to_string()), at.clone());
    assert_eq!(response.error, "file_operation_error");
    assert_eq!(response.message, "File operation failed");
    assert_eq!(
        response.details,
        Some(ErrorDetail { key: "io_error".to_string(), value: "disk full".to_string() })
    );

    let response = ErrorResponse::at(&AppError::Serialization("eof".to_string()), at.clone());
    assert_eq!(response.error, "serialization_error");
    assert_eq!(response.message, "Data serialization failed");
    assert_eq!(
        response.details,
        Some(ErrorDetail { key: "serde_error".to_string(), value: "eof".to_string() })
    );

    let response = ErrorResponse::at(&AppError::Uuid("u".to_string()), at.clone());
    assert_eq!(response.error, "unknown_error");
    assert_eq!(response.message, "UUID generation error: u");

    for (error, tag) in [
        (AppError::Embedding { message: "m".to_string() }, "embedding_error"),
        (AppError::VectorSearch { message: "m".to_string() }, "vector_search_error"),
        (AppError::Concurrency { message: "m".to_string() }, "concurrency_error"),
        (AppError::Internal { message: "m".to_string() }, "internal_error"),
    ] {
        let response = ErrorResponse::at(&error, at.clone());
        assert_eq!(response.error, tag);
        assert_eq!(response.message, "m");
        assert_eq!(response.details, None);
    }
}

#[test]
fn error_responses_are_stamped_with_the_time() {
    let before = chrono::Utc::now();
    let response = ErrorResponse::from(AppError::Concurrency { message: "busy".to_string() });
    let stamped = response.timestamp.parse::<chrono::DateTime<chrono::Utc>>().unwrap();
    assert!(before <= stamped && stamped <= chrono::Utc::now());
    assert_eq!(response.error, "concurrency_error");
    assert_eq!(response.message, "busy");
    assert!(response.timestamp.parse::<chrono::DateTime<chrono::Utc>>().is_ok());
    assert!(response.timestamp.ends_with('Z'));
}

#[test]
fn a_record_gets_a_fresh_identifier_and_the_time() {
    let input = review("Test Review", "This is a test review.", "test_prod", 4);
    let first = input.to_metadata(7).unwrap();
    let second = input.to_metadata(7).unwrap();
    assert_eq!(first.title, "Test Review");
    assert_eq!(first.body, "This is a test review.");
    assert_eq!(first.product_id, "test_prod");
    assert_eq!(first.rating, 4);
    assert_eq!(first.vector_index, 7);
    assert_eq!(first.id.len(), 36);
    assert!(uuid::Uuid::parse_str(&first.id).is_ok());
    assert_ne!(first.id, second.id);
    assert!(first.timestamp.parse::<chrono::DateTime<chrono::Utc>>().is_ok());
    assert!(first.timestamp.ends_with('Z'));
}

#[test]
fn a_review_that_passes_always_gets_its_record() {
    for n in 0..200 {
        let input = review("A title", "A body of some length.", "p", (n % 5) as u8 + 1);
        let record = input.to_metadata(n).unwrap();
        assert_eq!(record.vector_index, n);
        assert!(record.timestamp.parse::<chrono::DateTime<chrono::Utc>>().is_ok());
    }
}

#[test]
fn no_record_is_made_of_a_review_that_breaks_a_rule() {
    assert_eq!(
        review("Test Review", "This is a test review.", "test_prod", 6).to_metadata(0),
        Err(AppError::Validation(ValidationError::InvalidRating))
    );
}

#[test]
fn a_record_takes_the_identifier_and_the_time_that_it_is_given() {
    let input = review("Test Review", "This is a test review.", "test_prod", 4);
    let record = input.stamped("the-id".to_string(), "2024-05-01T10:00:00Z".to_string(), 3);
    assert_eq!(record.id, "the-id");
    assert_eq!(record.timestamp, "2024-05-01T10:00:00Z");
    assert_eq!(record.vector_index, 3);
    assert_eq!(record.title, input.title);
}
