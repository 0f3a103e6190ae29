use vstd::prelude::*;

/// encrypting and decrypting packet contents
pub mod encryping_tool;

verus! {

/// The bytes that encryption adds to the data: a 12-byte nonce and a 16-byte authentication tag.
pub const EXTRA_DATA_SIZE: usize = 28;

} // verus!
