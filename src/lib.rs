//! Client side of a length-prefixed remote console protocol: frame codec,
//! response correlation and the login/command session state machine.
//! The transport is left to the caller: the session hands out frames to write
//! and takes the packets that were read back.

pub mod codec;
pub mod correlator;
pub mod session;
