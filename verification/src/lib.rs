//! Core logic of a feed-reconciliation bot: snapshot diffing, subscription
//! bookkeeping, token lifecycle, bounded fetching and the text handling
//! around them, with machine-checked contracts.

pub mod controls;
pub mod feed;
pub mod groups;
pub mod mapfeed;
pub mod math;
pub mod members;
pub mod models;
pub mod music;
pub mod osu;
pub mod patterns;
pub mod seq_util;
pub mod subscriptions;
pub mod text;
