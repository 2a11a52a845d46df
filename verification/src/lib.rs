//! A quotation dictionary: quotes with their sources and tags, an append-only
//! history of memo versions per quote, and media assets referenced from memos.

pub mod blob;
pub mod cli;
pub mod db;
pub mod error;
pub mod gui;
pub mod history;
pub mod laws;
pub mod models;
pub mod search;
pub mod sort;
pub mod tags;
pub mod text;
pub mod time;
