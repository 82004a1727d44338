//! Decoding of Ethernet, VLAN, IPv4, TCP and UDP fields from captured frames,
//! a reader that walks the records of a capture file held in memory, and the
//! totals of a batch of such files.
pub mod capture;
pub mod endian;
pub mod packetref;
pub mod scan;
pub mod text;
