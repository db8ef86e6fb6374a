//! The rules of a note indexing service: configuration, document intake, search,
//! the Telegram conversation, webhook screening and the background service.

pub mod access;
pub mod audit;
pub mod bot;
pub mod commands;
pub mod config;
pub mod config_text;
pub mod delivery;
pub mod discovery;
pub mod doctor;
pub mod documents;
pub mod embedding;
pub mod listing;
pub mod markdown;
pub mod messages;
pub mod network;
pub mod numbers;
pub mod paths;
pub mod prompts;
pub mod retry;
pub mod score;
pub mod search;
pub mod service;
pub mod sessions;
pub mod splitting;
pub mod text;
pub mod toml_tree;
pub mod ui;
pub mod updates;
pub mod validation;
pub mod webhook;
