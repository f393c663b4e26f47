//! Library for building a network-device interface inventory over SNMP.
//!
//! The heart of the crate is the decoding of SNMP wire values into an owned
//! value type, the termination logic of GETNEXT subtree walks, and the
//! collector that joins per-column walk results into `Interface` records by
//! table-row index. Socket I/O, storage and the HTTP layer live outside the
//! library and only hand plain values in and out.

pub mod discovery;
pub mod interfaces;
pub mod models;
pub mod oid_strings;
pub mod settings;
pub mod snmp;
