//! The core of a small computation service: parsing and summing integer
//! lists, validating echo requests, planning and collecting a bounded
//! fan-out of tasks, the error taxonomy, and per-endpoint request counters.

pub mod compute;
pub mod counters;
pub mod echo;
pub mod error;
pub mod hits;
pub mod number;
pub mod service;
pub mod sum;
pub mod text;
pub mod uptime;
