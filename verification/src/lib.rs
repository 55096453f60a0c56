//! Verified core of the sword eBPF observability tool and its load generator.
//!
//! The library holds the logic that the kernel probes and the user-space
//! loader share: the wire records exchanged with the probes, the request-id
//! scanner, the latency arithmetic, the probe state machines, the target
//! discovery rules, the metric labels and the load-generator data.

pub mod bpf_map;
pub mod common;
pub mod loader;
pub mod metrics;
pub mod mouse;
pub mod text;
pub mod phone;
pub mod sched;
pub mod syscalls;
pub mod targets;
pub mod tcp;
