//! The logic of a file indexer: scanning, classification, duplicate detection,
//! organisation, search and backups.

pub mod backup;
pub mod cli;
pub mod config;
pub mod db;
pub mod dedup;
pub mod error;
pub mod folding;
pub mod laws;
pub mod models;
pub mod order;
pub mod organizer;
pub mod paths;
pub mod rows;
pub mod scanner;
pub mod search;
pub mod sizes;
pub mod text;
pub mod time;
pub mod web;
