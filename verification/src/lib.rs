//! Core of a chat-bot music service: a credential cache with lazy refresh
//! and durable persistence, a per-room playback queue with lifecycle
//! notifications and idle reclamation, and the pure data model shared by
//! the command layer.

pub mod credentials;
pub mod guild;
pub mod metadata;
pub mod moderation;
pub mod playback;
pub mod record;
pub mod settings;
pub mod util;
