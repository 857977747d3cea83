//! `@` references: completion triggers, mention texts, the session URI codec,
//! candidate ranking and snapshots of referenced sessions.

pub mod rank;
pub mod session;
pub mod snapshot;
pub mod spans;
pub mod token;
pub mod workspace;
