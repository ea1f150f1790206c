//! Core rules of a small message board: sign-in codes, client sessions,
//! live-update routing, post records and their presentation.

pub mod text;
pub mod auth;
pub mod numbers;
pub mod client_id;
pub mod sessions;
pub mod events;
pub mod age;
pub mod posts;
