//! Verified core of a Thread sensor node.
//!
//! The node joins a Thread network as a listener: it is configured from an
//! Active Operational Dataset, derives the network's key material, opens the
//! IEEE 802.15.4 frames that its radio receives, and samples an SHT41
//! temperature and humidity sensor. This crate holds what the node decides and
//! what it computes on integers and bytes; the radio, the I2C bus, the timers,
//! the log and the conversion of readings to degrees and percent belong to the
//! firmware around it.

pub mod bytes;
pub mod crc;
pub mod dataset;
pub mod dataset_laws;
pub mod hex;
pub mod keys;
pub mod mac;
pub mod payload;
pub mod receive;
pub mod receiver;
pub mod sht41;
