pub mod ingest;
pub mod json;
pub mod laws;
pub mod models;
pub mod query;
pub mod record;
pub mod search;
pub mod stamp;
pub mod storage;
pub mod text;
