//! Verified core of the bbn blog tool and of the bejson reader.

pub mod text;
pub mod json_grammar;
pub mod json;
pub mod json_laws;
pub mod query;
pub mod query_laws;
pub mod date;
pub mod entry_id;
pub mod timestamp;
pub mod checked_timestamp;
pub mod config;
pub mod hatena_blog;
pub mod entry;
pub mod date_like;
pub mod date_range;
pub mod post;
pub mod repository;
pub mod names;
pub mod listing;
pub mod site;
pub mod content_diff;
pub mod hatena_sync;
pub mod command;
