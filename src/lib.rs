//! Incremental delivery of feed items to a notification endpoint.
//!
//! The library decides which items of a feed are new against a stored
//! per-feed watermark, in which order they go out, how they are cleaned for
//! display, how they are cut into batches, and how the watermark advances as
//! batches are confirmed.
pub mod cycle;
pub mod feed;
pub mod plan;
pub mod sanitize;
pub mod select;
pub mod store;
pub mod timestamp;
