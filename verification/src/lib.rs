//! A bridge between the KOOK bot API and the OneBot 11 protocol: CQ-code
//! message encoding and parsing, message-id bookkeeping, JSON request and
//! event shapes, and the decisions of the HTTP and WebSocket front ends.

pub mod text;
pub mod cqcode;
pub mod msgid;
pub mod json;
pub mod config;
pub mod onebot_http;
pub mod onebot_http_rev;
pub mod kook_api;
pub mod kook_events;
pub mod sender_cache;
pub mod onebot_api;
pub mod bot;
pub mod registry;
