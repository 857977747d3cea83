//! Shell hooks of two dialects: parsing of their configuration, the payloads
//! they are fed, and the strictest-wins merge of what they answer.
//!
//! Hooks are a compatibility layer: every step degrades to "no hook" and none
//! of them can bring down the turn that called it.

pub mod codec;
pub mod config;
pub mod events;
pub mod merge;
pub mod payloads;
pub mod service;
