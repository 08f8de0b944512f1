//! Wire-protocol core of a tangle node.
//!
//! Three components police the boundary between untrusted network input and
//! the node's internal state: validation of a message's parent references,
//! binary packet codecs with a generic type-length-value envelope, and the
//! time-windowed milestone signing-key ranges.

pub mod error;
pub mod key_range;
pub mod message_id;
pub mod packets;
pub mod parents;
