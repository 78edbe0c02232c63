//! Verified core of a device power-state synchronizer.
//!
//! The library maintains the authoritative on/off state of a set of remote
//! devices. It reconciles two inputs — user commands and device-reported
//! status — in a single serialized state actor, and republishes every new
//! full snapshot of the registry through a latest-wins distributor.
//! All transport (HTTP ingress, the publish/subscribe bus) lives outside
//! this crate; the library only decides, and hands its caller the messages
//! to send.

pub mod codec;
pub mod distributor;
pub mod laws;
pub mod models;
pub mod registry;
pub mod state;
