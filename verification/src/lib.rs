//! A stateless, single-port TCP SYN scanner core.
//!
//! The library holds the verified logic of the scanner: the full-cycle
//! address generator, the cookie authenticator that tags every probe's
//! source port, the byte-exact probe frame encoder, the response filter,
//! the shared counters and the pause/termination coordination model.
//! The thin process shell around it (raw sockets, threads, files) feeds
//! these functions plain values and carries their results to the kernel.

pub mod control;
pub mod cookie;
pub mod emitter;
pub mod frame;
pub mod harvester;
pub mod lcg;
pub mod logger;
pub mod netinfo;
pub mod output;
mod rng;
pub mod stats;
