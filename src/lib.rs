//! An automated moderation engine for Mastodon-compatible servers: a typed
//! pattern language over posts and accounts, its optimizer and compiler,
//! the rule engine that turns matches into reports and restrictions, and
//! the signature checks of the webhook intake.
pub mod config;
pub mod engine;
pub mod interop;
pub mod pattern;
pub mod websub;
