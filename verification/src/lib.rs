//! Browsing model for AI agent chat histories stored as JSON lines.
pub mod app;
pub mod json;
pub mod message;
pub mod navigation;
pub mod parser;
pub mod text;
pub mod ui;
