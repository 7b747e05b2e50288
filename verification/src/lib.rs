pub mod cli;
pub mod config;
pub mod errors;
pub mod ip;
pub mod logging;
pub mod mailer;
pub mod rate_limiter;
pub mod routes;
pub mod strs;
