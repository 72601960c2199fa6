//! Admission control for scarce hardware resources shared by independent
//! processes on one host: a command-line template engine, the admission
//! scheduler's claim decision, the release monitor's bookkeeping, the
//! supervisor's event loop, and the cross-process lock-file protocol.

pub mod idlist;
pub mod lockproto;
pub mod monitor;
pub mod schedule;
pub mod supervise;
pub mod template;
