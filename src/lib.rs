//! Gateway core for inverters that speak a checksum-framed, human-readable
//! command protocol: frame checksums, transport blocks, response assembly and
//! decoding, the per-device polling decisions, the shared telemetry store and
//! the bucketed power history.
pub mod checksum;
pub mod frame;
pub mod text;
pub mod decode;
pub mod power;
pub mod store;
pub mod history;
pub mod clock;
pub mod poll;
