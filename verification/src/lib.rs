//! A focused, breadth-first web crawler core: URL identity, link admission,
//! the level-synchronised frontier and the change-aware store protocol.
//!
//! The library decides and never waits: it performs no network or disk I/O.
//! `crawler::Crawler` is driven by a program that fetches and stores as it
//! is told and reports back what happened.

pub mod config;
pub mod crawler;
pub mod database;
pub mod document;
pub mod html_parser;
pub mod laws;
pub mod policy;
pub mod run;
pub mod state;
pub mod text;
pub mod validity;
pub mod web_url;
