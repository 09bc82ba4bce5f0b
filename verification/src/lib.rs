//! The request-handling logic of an HTTP API gateway: per-user token-bucket
//! rate limiting by plan, authentication decisions, proxying rules, admin
//! request shaping and calendar-date rendering.

pub mod admin;
pub mod auth;
pub mod calendar;
pub mod errors;
pub mod proxy;
pub mod rate_limit;
pub mod service;
pub mod supabase;
pub mod text;
