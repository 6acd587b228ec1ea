//! Verified core logic of the Codex++ companion: release selection and
//! version ordering for the updater, local project assignment repair,
//! Linux desktop entries, loopback port fallback and the Anthropic
//! Messages protocol conversion.

pub mod anthropic;
pub mod codec;
pub mod desktop;
pub mod json;
pub mod ports;
pub mod repair;
pub mod sse;
pub mod text;
pub mod update;
