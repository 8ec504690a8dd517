//! Verified core of a syscall-trace profiler: typed syscall records are
//! folded into high-level program actions, matched against a catalog of
//! sandboxing options, and rendered as service-manager directives.

pub mod cl;
pub mod profile;
pub mod sets;
pub mod summarize;
pub mod systemd;
pub mod trace;
