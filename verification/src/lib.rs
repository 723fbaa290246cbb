pub mod assoc;
pub mod binding;
pub mod content;
pub mod content_store;
pub mod error;
pub mod event_log;
pub mod events;
pub mod identity;
pub mod json;
pub mod laws;
pub mod numerals;
pub mod outside;
pub mod records;
pub mod registry;
pub mod repository_store;
pub mod rows;
pub mod schema;
pub mod selection;
pub mod statement;
pub mod store;
pub mod table;
pub mod work;
pub mod work_queue;
