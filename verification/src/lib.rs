//! The logic of a help-center synchronisation backend: the help-center API's
//! requests and records, the parsing of the language model's metadata
//! answers, the job and worker decisions, and the settings of the vector
//! store, each with its contract proved.
pub mod text;
pub mod models;
pub mod api_client;
pub mod fetcher;
pub mod process_article;
pub mod metadata;
pub mod job;
pub mod worker;
pub mod checkpoint;
pub mod vector_db;
pub mod embedding;
pub mod health;
pub mod section_order;
