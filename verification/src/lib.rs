//! Beam: the decision logic of a self-hosted file sharing service.

pub mod text;
pub mod batch;
pub mod seqs;
pub mod paths;
pub mod sanitize;
pub mod table;
pub mod lockout;
pub mod auth;
pub mod netaddr;
pub mod ratelimit;
pub mod content;
pub mod upload;
pub mod size;
pub mod listing;
pub mod config;
pub mod render;
pub mod ids;
pub mod ops;
pub mod client;
pub mod uri;
pub mod transfer;
pub mod board;
pub mod browser;
pub mod containment;
