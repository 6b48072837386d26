//! Parsers for the lease database and host configuration of an ISC-style
//! DHCP server, and a MAC-prefix vendor table with longest-prefix lookup.

pub mod dhcp_parsers;
pub mod macaddr;
pub mod model;
pub mod text;
pub mod vendor_macs;
