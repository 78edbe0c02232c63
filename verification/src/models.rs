use vstd::prelude::*;

verus! {

/// The state of one device as the registry knows it. `Pending` means a
/// transition was requested but the device has not yet confirmed it.
#[derive(Clone, Copy, Debug, PartialEq, Eq, Structural)]
pub enum LightState {
    On,
    Off,
    Pending,
}

/// A user-requested transition: drive the device fully on or fully off.
#[derive(Clone, Copy, Debug, PartialEq, Eq, Structural)]
pub enum PowerAction {
    On,
    Off,
}

/// A command from an ingress adapter: apply `cmd` to the device named `id`.
#[derive(Clone, Debug)]
pub struct LightCommand {
    pub id: String,
    pub cmd: PowerAction,
}

} // verus!
