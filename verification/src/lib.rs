//! Flow aggregation and IPFIX (RFC 7011) encoding for a lightweight network
//! flow exporter.

pub mod addr;
pub mod agent;
pub mod bytes;
pub mod capture;
pub mod cli;
pub mod device;
pub mod direction;
pub mod exporter;
pub mod flow;
pub mod flow_map;
pub mod gc;
pub mod ipfix;
pub mod logger;
pub mod protocol;
pub mod text;
