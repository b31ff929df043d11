//! Wi-Fi and network-share bookkeeping.

pub mod connect;
pub mod events;
pub mod netsh;
pub mod profile;
pub mod radio;
pub mod sequence;
pub mod share;
pub mod wifi;
