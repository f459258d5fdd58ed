//! Core of a network-endpoint health monitor.
//!
//! The crate holds the verified logic of the monitor: parsing of
//! operator-entered `host:port` targets, the browser-driven
//! functional-time measurement protocol (a wait/poll/timeout state
//! machine), the per-tick check scheduler, and the classification of
//! IANA-style port-registry records.  The surrounding process — socket
//! probes, the browser-automation transport, the result store and the
//! operator prompt — lives outside and talks to this crate in plain
//! values.

pub mod address;
pub mod application;
pub mod measure;
pub mod registry;
pub mod scan;
pub mod schedule;
pub mod status;
