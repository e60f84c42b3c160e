//! Shared logic of the TFT quiz backend: what the crawler, the aggregators, the quiz
//! generators and the HTTP server decide, each decision with its contract.

pub mod aggregate;
pub mod analyzer;
pub mod cart;
pub mod combo_quiz;
pub mod comp;
pub mod config;
pub mod crawl;
pub mod db;
pub mod deck_cluster;
pub mod deck_quiz;
pub mod draw;
pub mod error;
pub mod generator;
pub mod item_quiz;
pub mod items;
pub mod json;
pub mod meta;
pub mod order;
pub mod puzzle;
pub mod riot;
pub mod scheduler;
pub mod seqs;
pub mod server;
pub mod table;
pub mod tally;
pub mod text;
pub mod time;
pub mod trait_quiz;

pub use config::Config;
pub use error::AppError;
