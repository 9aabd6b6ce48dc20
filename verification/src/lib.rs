//! Core of a read-mostly nutrition data service: slugs, a normalized food
//! store, ranked search and a response cache policy.

pub mod api;
pub mod cache;
pub mod config;
pub mod error;
pub mod food;
pub mod like;
pub mod model;
pub mod order;
pub mod row;
pub mod search;
pub mod security;
pub mod status;
pub mod store;
pub mod strings;
pub mod table;
pub mod text;
