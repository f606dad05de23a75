//! IPFIX messages (RFC 7011).

pub mod encode;
pub mod laws;
pub mod template;

use vstd::prelude::*;

verus! {

pub const VERSION: u16 = 0x000A;

pub const TEMPLATE_SET_ID: u16 = 2;

pub const TEMPLATE_ID_V4: u16 = 256;

pub const TEMPLATE_ID_V6: u16 = 257;

/// Message header (section 3.1): version(2) + length(2) + export time(4) +
/// sequence(4) + observation domain(4).
pub const MSG_HEADER_LEN: u16 = 16;

/// Set header (section 3.3): set id(2) + length(2).
pub const SET_HEADER_LEN: u16 = 4;

/// The bytes of one IPv4 data record as the encoder writes it:
/// 4 + 4 + 2 + 2 + 1 + 6 + 6 + 1 + 8 + 8 + 8 + 8.
pub const RECORD_SIZE_V4: u16 = 58;

/// The bytes of one IPv6 data record as the encoder writes it:
/// 16 + 16 + 2 + 2 + 1 + 6 + 6 + 1 + 8 + 8 + 8 + 8.
pub const RECORD_SIZE_V6: u16 = 82;

} // verus!
