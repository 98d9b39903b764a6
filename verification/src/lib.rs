//! Memorable passwords composed from word lists, with a persisted record of
//! fingerprints that keeps a password from being issued twice.

pub mod history;
pub mod password_generator;
pub mod storage_manager;
pub mod unique_password;
pub mod word_catalog;
