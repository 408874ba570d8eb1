//! Decision engine of a chat responder: per-guild phrase catalog and
//! settings, the context window taken from recent messages, selection of the
//! best-scored phrase, and the cooldown rules that bound how often it speaks.
pub mod config;
pub mod context;
pub mod dispatch;
pub mod files;
pub mod guild;
pub mod oracle;
pub mod persist;
