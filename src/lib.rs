//! Log-tail and event pipeline of a desktop companion for a social VR client:
//! line assembly over an append-only log, the line grammar, the instance state
//! machine with its join/moderation store, and the small policies around it.

pub mod bytes;
pub mod assembler;
pub mod scan;
pub mod grammar;
pub mod api;
pub mod stamp;
pub mod order;
pub mod store;
pub mod modlog;
pub mod location;
pub mod engine;
pub mod avatar;
pub mod tracker;
pub mod notify;
pub mod search;
pub mod batch;
pub mod media;
pub mod details;
pub mod sort;
