//! Sidebar: a message bus for coding agents that work on one machine.

pub mod cli;
pub mod clock;
pub mod daemon;
pub mod http;
pub mod laws_http;
pub mod laws_pieces;
pub mod laws_requests;
pub mod laws_shown;
pub mod laws_steps;
pub mod laws_words;
pub mod limits;
pub mod markdown;
pub mod mcp;
pub mod mentions;
pub mod paths;
pub mod pieces;
pub mod proto;
pub mod repl;
pub mod report;
pub mod schedule;
pub mod screen;
pub mod style;
pub mod supervise;
pub mod text;
pub mod types;
pub mod web;
pub mod wire;
