//! Notice ingestion and notification core: parsing of department notice
//! boards, classification, deadline extraction, the notice store and the
//! direct-message matching engine.

pub mod text;
pub mod category;
pub mod config;
pub mod parser;
pub mod store;
pub mod dm_engine;
pub mod deadline;
pub mod notifier;
pub mod crawl;
pub mod commands;
