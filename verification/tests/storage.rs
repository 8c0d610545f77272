use review_index::models::{AppError, ReviewData, ReviewMetadata, ValidationError};
use review_index::record::encode_record;
use review_index::storage::{DataPaths, JsonlStorage};
use std::io::{Read, Write};

fn create_test_review(id: &str, vector_index: usize) -> ReviewMetadata {
    ReviewMetadata {
        id: id.to_string(),
        title: "Test Review".to_string(),
        body: "This is a test review body.".to_string(),
        product_id: "test_product".to_string(),
        rating: 5,
        timestamp: chrono::Utc::now().to_rfc3339(),
        vector_index,
    }
}

#[test]
fn test_jsonl_storage_operations() {
    let temp_dir = tempfile::TempDir::new().unwrap();
    let jsonl_path = temp_dir.path().join("test_reviews.jsonl");
    let mut storage = JsonlStorage::new(jsonl_path.to_str().unwrap());

    let review1 = create_test_review("rev_001", 0);
    storage.append_review(&review1);

    let reviews = vec![create_test_review("rev_002", 1), create_test_review("rev_003", 2)];
    storage.append_reviews(&reviews);

    assert_eq!(storage.count_reviews(), 3);

    let retrieved = storage.get_review_by_index(0).unwrap().unwrap();
    assert_eq!(retrieved.id, "rev_001");

    let retrieved_multiple = storage.get_reviews_by_indices(&vec![0, 2]).unwrap();
    assert_eq!(retrieved_multiple.len(), 2);
    assert_eq!(retrieved_multiple[0].as_ref().unwrap().id, "rev_001");
    assert_eq!(retrieved_multiple[1].as_ref().unwrap().id, "rev_003");

    let validation = storage.validate_file();
    assert!(validation.is_valid);
    assert_eq!(validation.valid_lines, 3);
}

#[test]
fn test_data_paths() {
    let temp_dir = tempfile::TempDir::new().unwrap();
    let paths = DataPaths::new(temp_dir.path().to_str().unwrap());

    assert!(std::path::Path::new(&paths.data_dir).exists());

    let jsonl_exists = std::path::Path::new(&paths.reviews_jsonl).exists();
    let index_exists = std::path::Path::new(&paths.reviews_index).exists();
    assert!(!jsonl_exists);
    assert!(!index_exists);
}

#[test]
fn test_requirement_4_2_vector_storage_structure() {
    let temp_dir = tempfile::TempDir::new().unwrap();
    let data_paths = DataPaths::new(temp_dir.path().to_str().unwrap());

    assert!(data_paths.reviews_index.ends_with("reviews.index"));
    assert!(data_paths.reviews_jsonl.ends_with("reviews.jsonl"));
    assert!(data_paths.lock_file.ends_with(".lock"));
}

#[test]
fn test_requirement_4_3_jsonl_format() {
    let mut storage = JsonlStorage::new("test_reviews.jsonl");

    let review_data = ReviewData {
        title: "Test Review".to_string(),
        body: "This is a test review for JSONL format verification.".to_string(),
        product_id: "test_prod".to_string(),
        rating: 4,
    };

    let metadata = review_data.to_metadata(0).unwrap();
    storage.append_review(&metadata);

    let content = storage.content();
    let lines: Vec<&str> = content.trim().split('\n').collect();
    assert_eq!(lines.len(), 1, "Should have exactly one line for one review");

    let parsed: serde_json::Value = serde_json::from_str(lines[0]).unwrap();
    assert_eq!(parsed["title"].as_str().unwrap(), "Test Review");
}

#[test]
fn test_requirement_4_4_zero_based_index_correlation() {
    let mut storage = JsonlStorage::new("test_reviews.jsonl");

    let reviews = vec![
        ReviewData {
            title: "Review 0".to_string(),
            body: "First review".to_string(),
            product_id: "prod_0".to_string(),
            rating: 5,
        }
        .to_metadata(0)
        .unwrap(),
        ReviewData {
            title: "Review 1".to_string(),
            body: "Second review".to_string(),
            product_id: "prod_1".to_string(),
            rating: 4,
        }
        .to_metadata(1)
        .unwrap(),
        ReviewData {
            title: "Review 2".to_string(),
            body: "Third review".to_string(),
            product_id: "prod_2".to_string(),
            rating: 3,
        }
        .to_metadata(2)
        .unwrap(),
    ];

    storage.append_reviews(&reviews);

    for i in 0..3 {
        let retrieved = storage.get_review_by_index(i).unwrap().unwrap();
        assert_eq!(retrieved.vector_index, i, "Vector index should match JSONL line position");
        assert_eq!(retrieved.title, format!("Review {}", i));
    }

    let indices = vec![0, 2];
    let batch = storage.get_reviews_by_indices(&indices).unwrap();
    assert_eq!(batch.len(), 2);
    assert_eq!(batch[0].as_ref().unwrap().vector_index, 0);
    assert_eq!(batch[1].as_ref().unwrap().vector_index, 2);
}

#[test]
fn the_three_files_lie_in_the_data_directory() {
    let paths = DataPaths::new("data");
    assert_eq!(paths.data_dir, "data");
    assert_eq!(paths.reviews_jsonl, "data/reviews.jsonl");
    assert_eq!(paths.reviews_index, "data/reviews.index");
    assert_eq!(paths.lock_file, "data/.lock");
    let paths = DataPaths::new("/var/data/");
    assert_eq!(paths.reviews_jsonl, "/var/data/reviews.jsonl");
    assert_eq!(paths.lock_file, "/var/data/.lock");
    let paths = DataPaths::new("");
    assert_eq!(paths.reviews_index, "reviews.index");
    for dir in ["backend/data", "x/", ""] {
        let by_std = std::path::Path::new(dir).join("reviews.jsonl");
        assert_eq!(DataPaths::new(dir).reviews_jsonl, by_std.to_str().unwrap());
    }
}

#[test]
fn a_log_without_a_file_is_empty() {
    let storage = JsonlStorage::new("non_existent_file.jsonl");
    assert_eq!(storage.file_path(), "non_existent_file.jsonl");
    assert_eq!(storage.content(), "");
    assert_eq!(storage.count_reviews(), 0);
    assert_eq!(storage.get_review_by_index(0), Ok(None));
    assert_eq!(storage.get_reviews_by_indices(&vec![0, 5]), Ok(vec![None, None]));
    assert_eq!(storage.read_all_reviews(), Ok(vec![]));
    let check = storage.validate_file();
    assert!(check.is_valid);
    assert_eq!(check.total_lines, 0);
    assert_eq!(check.valid_lines, 0);
    assert!(check.errors.is_empty());
}

#[test]
fn an_append_returns_the_text_that_it_added() {
    let mut storage = JsonlStorage::open("log", "");
    let first = create_test_review("a", 0);
    let second = create_test_review("b", 1);
    let third = create_test_review("c", 2);
    let written = storage.append_review(&first);
    assert_eq!(written, format!("{}\n", encode_record(&first)));
    assert_eq!(storage.content(), written);
    let batch = storage.append_reviews(&vec![second.clone(), third.clone()]);
    assert_eq!(batch, format!("{}\n{}\n", encode_record(&second), encode_record(&third)));
    assert_eq!(storage.content(), format!("{}{}", written, batch));
    assert_eq!(storage.append_reviews(&vec![]), "");
    assert_eq!(storage.count_reviews(), 3);
    assert_eq!(storage.read_all_reviews(), Ok(vec![first, second, third]));
}

#[test]
fn a_log_that_went_through_a_file_is_the_same_log() {
    let mut file = tempfile::NamedTempFile::new().unwrap();
    let mut storage = JsonlStorage::new(file.path().to_str().unwrap());
    let records: Vec<ReviewMetadata> =
        (0..4).map(|i| create_test_review(&format!("rev_{}", i), i)).collect();
    file.write_all(storage.append_review(&records[0]).as_bytes()).unwrap();
    file.write_all(storage.append_reviews(&records[1..].to_vec()).as_bytes()).unwrap();
    file.flush().unwrap();

    let mut content = String::new();
    file.reopen().unwrap().read_to_string(&mut content).unwrap();
    let reopened = JsonlStorage::open(file.path().to_str().unwrap(), &content);
    assert_eq!(reopened.content(), storage.content());
    assert_eq!(reopened.count_reviews(), 4);
    assert_eq!(reopened.read_all_reviews(), Ok(records.clone()));
    for (i, record) in records.iter().enumerate() {
        assert_eq!(reopened.get_review_by_index(i), Ok(Some(record.clone())));
    }
}

#[test]
fn positions_count_the_lines_that_are_not_blank() {
    let a = create_test_review("a", 0);
    let b = create_test_review("b", 1);
    let content =
        format!("\n  \n{}\r\n\n\t\n{}", encode_record(&a), encode_record(&b));
    let storage = JsonlStorage::open("log", &content);
    assert_eq!(storage.count_reviews(), 2);
    assert_eq!(storage.get_review_by_index(0), Ok(Some(a.clone())));
    assert_eq!(storage.get_review_by_index(1), Ok(Some(b.clone())));
    assert_eq!(storage.get_review_by_index(2), Ok(None));
    assert_eq!(
        storage.get_reviews_by_indices(&vec![1, 7, 0, 1]),
        Ok(vec![Some(b.clone()), None, Some(a.clone()), Some(b.clone())])
    );
    let check = storage.validate_file();
    assert!(check.is_valid);
    assert_eq!(check.total_lines, 6);
    assert_eq!(check.valid_lines, 2);
}

#[test]
fn a_line_that_holds_no_record_is_a_fault_with_its_number() {
    let a = create_test_review("a", 0);
    let c = create_test_review("c", 2);
    let content = format!("{}\n\nnot json\n{}\n{{\"id\":1}}\n", encode_record(&a), encode_record(&c));
    let storage = JsonlStorage::open("log", &content);
    assert_eq!(storage.count_reviews(), 4);

    let check = storage.validate_file();
    assert!(!check.is_valid);
    assert_eq!(check.total_lines, 5);
    assert_eq!(check.valid_lines, 2);
    let parse_failure =
        serde_json::from_str::<serde_json::Value>("not json").unwrap_err().to_string();
    assert_eq!(
        check.errors,
        vec![
            ValidationError::InvalidValue {
                field: "line_3".to_string(),
                reason: parse_failure.clone(),
            },
            ValidationError::InvalidValue {
                field: "line_5".to_string(),
                reason: "field `id` is not a string".to_string(),
            },
        ]
    );

    assert_eq!(storage.get_review_by_index(0), Ok(Some(a.clone())));
    assert_eq!(
        storage.get_review_by_index(1),
        Err(AppError::Serialization(parse_failure.clone()))
    );
    assert_eq!(storage.get_review_by_index(2), Ok(Some(c.clone())));
    assert_eq!(
        storage.read_all_reviews(),
        Err(AppError::Serialization(parse_failure.clone()))
    );
    // Only the lines that are asked for are read.
    assert_eq!(
        storage.get_reviews_by_indices(&vec![2, 0, 9]),
        Ok(vec![Some(c.clone()), Some(a.clone()), None])
    );
    // The first faulty line in the order of the log is the failure.
    assert_eq!(
        storage.get_reviews_by_indices(&vec![3, 0, 1]),
        Err(AppError::Serialization(parse_failure))
    );
    assert_eq!(
        storage.get_reviews_by_indices(&vec![3]),
        Err(AppError::Serialization("field `id` is not a string".to_string()))
    );
}

#[test]
fn a_log_written_by_appends_has_no_fault() {
    let mut storage = JsonlStorage::new("log");
    for i in 0..5 {
        storage.append_review(&create_test_review(&format!("single \"{}\"\n", i), 2 * i));
        storage.append_reviews(&vec![create_test_review("batch\r", 2 * i + 1)]);
    }
    let check = storage.validate_file();
    assert!(check.is_valid);
    assert_eq!(check.total_lines, 10);
    assert_eq!(check.valid_lines, 10);
    assert!(check.errors.is_empty());
    for i in 0..10 {
        assert_eq!(storage.get_review_by_index(i).unwrap().unwrap().vector_index, i);
    }
}

#[test]
fn a_record_behind_an_unfinished_line_is_lost_with_it() {
    let a = create_test_review("a", 0);
    let mut storage = JsonlStorage::open("log", "{\"id\":\"torn");
    storage.append_review(&a);
    assert_eq!(storage.count_reviews(), 1);
    assert!(storage.get_review_by_index(0).is_err());
    let check = storage.validate_file();
    assert!(!check.is_valid);
    assert_eq!(check.errors.len(), 1);
}
