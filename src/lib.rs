//! A breadth-first web crawler: a verified frontier scheduler that bounds
//! concurrency and pages and admits each URL once, with link extraction and
//! page naming around it.
pub mod crawler;
pub mod error;
pub mod frontier;
pub mod links;
pub mod site_run;
pub mod storage;
pub mod web_url;
