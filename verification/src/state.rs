use crate::codec::{encode_command, spec_action_payload, spec_command_topic, PublishRequest, Qos};
use crate::distributor::{Distributor, Observer};
use crate::models::{LightCommand, LightState};
use crate::registry::Registry;
use vstd::prelude::*;

verus! {

/// The two message kinds the actor accepts, sharing one inbound queue so the
/// actor has a single serialization point: a user command, or a status update
/// decoded from the bus.
#[derive(Debug)]
pub enum Message {
    User(LightCommand),
    MqttUpdate(String, LightState),
}

/// A message, in the registry's mathematical world: identifiers as character
/// sequences. The laws below are stated over these.
pub enum Event {
    Command(Seq<char>),
    Status(Seq<char>, LightState),
}

/// The event a message denotes.
pub open spec fn msg_event(msg: Message) -> Event {
    match msg {
        Message::User(c) => Event::Command(c.id@),
        Message::MqttUpdate(id, st) => Event::Status(id@, st),
    }
}

/// A command marks a known device `Pending`; a command for an unknown device
/// is rejected and changes nothing.
pub open spec fn apply_command(
    m: Map<Seq<char>, LightState>,
    id: Seq<char>,
) -> Map<Seq<char>, LightState> {
    if m.contains_key(id) {
        m.insert(id, LightState::Pending)
    } else {
        m
    }
}

/// A status update upserts unconditionally: a device self-registers by
/// reporting status, and a reported state overwrites anything, `Pending`
/// included.
pub open spec fn apply_status(
    m: Map<Seq<char>, LightState>,
    id: Seq<char>,
    st: LightState,
) -> Map<Seq<char>, LightState> {
    m.insert(id, st)
}

/// One step of the actor's state machine.
pub open spec fn apply_event(
    m: Map<Seq<char>, LightState>,
    e: Event,
) -> Map<Seq<char>, LightState> {
    match e {
        Event::Command(id) => apply_command(m, id),
        Event::Status(id, st) => apply_status(m, id, st),
    }
}

/// The registry after the actor has processed `es` in order, starting
/// from `m`.
pub open spec fn apply_events(
    m: Map<Seq<char>, LightState>,
    es: Seq<Event>,
) -> Map<Seq<char>, LightState>
    decreases es.len(),
{
    if es.len() == 0 {
        m
    } else {
        apply_events(apply_event(m, es[0]), es.drop_first())
    }
}

/// The state actor's state: the registry it alone may write, and the
/// distributor through which every new snapshot becomes visible. The caller
/// owns the inbound queue and the bus connection; the actor only decides.
pub struct LightActor {
    registry: Registry,
    distributor: Distributor,
}

impl LightActor {
    /// The registry's current mapping.
    pub closed spec fn registry_map(&self) -> Map<Seq<char>, LightState> {
        self.registry@
    }

    /// How many snapshots have been broadcast.
    pub closed spec fn version(&self) -> u64 {
        self.distributor.spec_version()
    }

    /// The actor's invariant: the registry is well formed, and the snapshot
    /// the distributor shows is never out of step with the registry — there
    /// is no observable window where the two disagree.
    pub closed spec fn wf(&self) -> bool {
        &&& self.registry.wf()
        &&& self.distributor.wf()
        &&& self.distributor.spec_latest() == self.registry@
    }

    /// An actor over `initial`, with the initial snapshot already visible.
    pub fn new(initial: Registry) -> (a: LightActor)
        requires
            initial.wf(),
        ensures
            a.wf(),
            a.registry_map() == initial@,
            a.version() == 0,
    {
        let snap = initial.snapshot();
        LightActor { registry: initial, distributor: Distributor::new(snap) }
    }

    /// Process one inbound message: apply it to the registry, broadcast the
    /// new full snapshot, and return the outbound publish the bus owes the
    /// device — exactly when the message is a command for a known device.
    pub fn handle_message(&mut self, msg: Message) -> (out: Option<PublishRequest>)
        requires
            old(self).wf(),
            old(self).version() < u64::MAX,
        ensures
            final(self).wf(),
            final(self).registry_map() == apply_event(old(self).registry_map(), msg_event(msg)),
            final(self).version() == old(self).version() + 1,
            (msg matches Message::User(c) ==> {
                if old(self).registry_map().contains_key(c.id@) {
                    out matches Some(p) && p.topic@ == spec_command_topic(c.id@)
                        && p.payload@ == spec_action_payload(c.cmd)
                        && p.qos == Qos::AtLeastOnce && !p.retained
                } else {
                    out is None
                }
            }),
            (msg matches Message::MqttUpdate(id, st) ==> out is None),
    {
        let out: Option<PublishRequest> = match msg {
            Message::User(command) => {
                if self.registry.set_if_present(&command.id, LightState::Pending) {
                    Some(encode_command(&command.id, command.cmd))
                } else {
                    None
                }
            },
            Message::MqttUpdate(id, new_state) => {
                self.registry.upsert(id, new_state);
                None
            },
        };
        let snap = self.registry.snapshot();
        self.distributor.publish(snap);
        out
    }

    /// Submit one user command for immediate processing: whether it was
    /// accepted (the device is known), and the publish the bus owes if so.
    pub fn submit_command(&mut self, cmd: LightCommand) -> (r: (bool, Option<PublishRequest>))
        requires
            old(self).wf(),
            old(self).version() < u64::MAX,
        ensures
            final(self).wf(),
            r.0 == old(self).registry_map().contains_key(cmd.id@),
            final(self).registry_map() == apply_command(old(self).registry_map(), cmd.id@),
            final(self).version() == old(self).version() + 1,
            r.0 ==> (r.1 matches Some(p) && p.topic@ == spec_command_topic(cmd.id@)
                && p.payload@ == spec_action_payload(cmd.cmd)
                && p.qos == Qos::AtLeastOnce && !p.retained),
            !r.0 ==> r.1 is None,
    {
        let known = self.registry.contains(&cmd.id);
        let out = self.handle_message(Message::User(cmd));
        (known, out)
    }

    /// How many snapshots have been broadcast so far. Processing a message
    /// needs room for one more.
    pub fn broadcast_count(&self) -> (v: u64)
        ensures
            v == self.version(),
    {
        self.distributor.current_version()
    }

    /// The current registry snapshot.
    pub fn get_snapshot(&self) -> (r: Registry)
        requires
            self.wf(),
        ensures
            r.wf(),
            r@ == self.registry_map(),
    {
        self.registry.snapshot()
    }

    /// A new observer of snapshot changes, starting at the snapshot current
    /// now. Poll it against `distributor()`; dropping it deregisters it.
    pub fn subscribe_to_changes(&self) -> (o: Observer)
        ensures
            o.spec_seen() == self.version(),
    {
        self.distributor.observe()
    }

    /// The distributor that broadcasts this actor's snapshots. While the
    /// actor is well formed, its latest value is the registry itself.
    pub fn distributor(&self) -> (d: &Distributor)
        requires
            self.wf(),
        ensures
            d.wf(),
            d.spec_latest() == self.registry_map(),
            d.spec_version() == self.version(),
    {
        &self.distributor
    }
}

} // verus!
