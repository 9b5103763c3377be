pub mod text;
pub mod api;
pub mod validate;
pub mod stripe;
pub mod ratelimit;
pub mod orders;
pub mod export;
pub mod time;
pub mod catalog;
pub mod config;
pub mod server;
pub mod client;
