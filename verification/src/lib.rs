//! Verified core of a network-controlled door lock: the lock's state machine,
//! HTTP Basic authentication, the compact text replies, and the checks and
//! bookkeeping behind over-the-air firmware updates.

pub mod auth;
pub mod digest;
pub mod door;
pub mod error;
pub mod flash;
pub mod http;
pub mod image;
pub mod network;
pub mod text;
pub mod system;
