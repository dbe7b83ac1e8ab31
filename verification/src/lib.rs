//! Verified codec for a CRI-style resource container: a self-describing
//! columnar binary table format, a packed-archive container built from
//! three such tables, and the back-to-front LZ77-style compression codec
//! used for payloads inside the archive.
#![verifier::loop_isolation(false)]

use vstd::prelude::*;

pub mod bits;
pub mod cpk;
pub mod cpk_write;
pub mod crilayla;
pub mod bytes;
pub mod error;
pub mod names;
pub mod utf;
pub mod utf_read;
pub mod utf_write;

verus! {

} // verus!
