//! Core of a local network-monitoring metrics exporter.
//!
//! The library holds the verified heart of the exporter: decoding captured
//! Ethernet frames far enough to attribute each packet to a logical flow,
//! classifying each endpoint as a local address or as the remote internet,
//! and maintaining monotonically increasing per-flow packet and byte
//! counters that can be snapshotted consistently. Around that core stand
//! the collectors' verified readings: the neighbor table's lines, the
//! DHCP lease file, the dynamic-DNS update decision, and the scan
//! options' timing and network ranges.

pub mod arp;
pub mod capture;
pub mod classify;
pub mod ddns;
pub mod dnsmasq;
pub mod net;
pub mod net_parse;
pub mod packet;
pub mod registry;
pub mod scan_args;
pub mod table;
pub mod text;
