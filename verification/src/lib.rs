//! Sampling and aggregation core of a terminal resource dashboard.
//!
//! The caller queries the host; this library turns what the queries gave
//! into one snapshot per cycle and the snapshot into text.
//!
//! - `sys`: what the platform's utilities print, read as metrics.
//! - `collector`: the snapshot of one cycle, best effort: a query that
//!   failed leaves its part of the snapshot at its default.
//! - `top`: the processes that use the processor most.
//! - `metrics`: percentages of byte counters.
//! - `models`: the data.
//! - `ui`: the dashboard as text.
//! - `text`, `decimal`: lines, fields, white space and numbers in sequences
//!   of characters.

pub mod collector;
pub mod decimal;
pub mod metrics;
pub mod models;
pub mod sys;
pub mod text;
pub mod top;
pub mod ui;
