//! Scoring, aggregation and validation logic of a golf-pool scoreboard.
pub mod score;
pub mod text;
pub mod json;
pub mod aggregate;
pub mod espn;
pub mod admin;
pub mod db;
pub mod mvu;
pub mod config;
pub mod cache;
pub mod prefill;
pub mod clock;
