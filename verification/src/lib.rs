//! The decision logic of a gallery synchronization bot.

pub mod active;
pub mod album;
pub mod answer;
pub mod buffer;
pub mod collect;
pub mod fetch;
pub mod handler;
pub mod links;
pub mod markdown;
pub mod message;
pub mod node;
pub mod pages;
pub mod request;
pub mod sync;
pub mod telegraph;
pub mod text;
pub mod upload;
