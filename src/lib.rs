//! Window bootstrap for a compositor-based display server: discovery and
//! binding of the server's globals, the surface configure handshake, the
//! framebuffer configuration choice and the frame loop's decisions, each as
//! a verified state machine. The protocol and graphics calls themselves are
//! made by the caller, which hands back what the server answered.
use vstd::prelude::*;

pub mod config;
pub mod error;
pub mod registry;
pub mod session;

verus! {

} // verus!
