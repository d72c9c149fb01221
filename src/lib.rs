//! Orchestration logic for a group of animus daemons: the command
//! vocabulary, the readiness gate, the tract census used by auto-link,
//! the group broadcaster and the group membership file format.

pub mod broadcast;
pub mod census;
pub mod codec;
pub mod gate;
pub mod membership;
pub mod naming;
pub mod protocol;
pub mod records;
