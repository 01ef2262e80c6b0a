//! Builder for binary system description tables: a fixed 36-byte header
//! followed by a body, with a length field and a one-byte checksum that are
//! kept consistent by every operation.

pub mod checksum;
pub mod encoding;
pub mod sdt;

pub use sdt::{GenericAddress, Sdt};

use vstd::prelude::*;

verus! {

/// The creator identifier stamped into the header of every table.
pub const CREATOR_ID: [u8; 4] = [0x52, 0x56, 0x41, 0x54];

/// The creator revision stamped into the header of every table.
pub const CREATOR_REVISION: [u8; 4] = [0x00, 0x00, 0x00, 0x01];

} // verus!
