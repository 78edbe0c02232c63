use light_actor::models::{LightCommand, LightState, PowerAction};
use light_actor::registry::Registry;
use light_actor::state::{LightActor, Message};

fn id(s: &str) -> String {
    String::from(s)
}

#[test]
fn status_then_command_then_status() {
    let mut actor = LightActor::new(Registry::new());

    let out = actor.handle_message(Message::MqttUpdate(id("node-0"), LightState::Off));
    assert!(out.is_none());
    let snap = actor.get_snapshot();
    assert_eq!(snap.len(), 1);
    assert_eq!(snap.get(&id("node-0")), Some(LightState::Off));

    let (accepted, publish) =
        actor.submit_command(LightCommand { id: id("node-0"), cmd: PowerAction::On });
    assert!(accepted);
    let publish = publish.expect("an accepted command owes the bus a publish");
    assert_eq!(publish.topic, "cmd/node-0/power");
    assert_eq!(publish.payload, "ON");
    assert_eq!(actor.get_snapshot().get(&id("node-0")), Some(LightState::Pending));

    let out = actor.handle_message(Message::MqttUpdate(id("node-0"), LightState::On));
    assert!(out.is_none());
    assert_eq!(actor.get_snapshot().get(&id("node-0")), Some(LightState::On));
}

#[test]
fn command_for_unknown_device_is_rejected() {
    let mut reg = Registry::new();
    reg.upsert(id("node-0"), LightState::Off);
    let mut actor = LightActor::new(reg);

    let (accepted, publish) =
        actor.submit_command(LightCommand { id: id("node-5"), cmd: PowerAction::On });
    assert!(!accepted);
    assert!(publish.is_none());

    let snap = actor.get_snapshot();
    assert_eq!(snap.len(), 1);
    assert_eq!(snap.get(&id("node-0")), Some(LightState::Off));
    assert!(!snap.contains(&id("node-5")));
}

#[test]
fn command_on_empty_registry_adds_nothing() {
    let mut actor = LightActor::new(Registry::new());
    let (accepted, publish) =
        actor.submit_command(LightCommand { id: id("ghost"), cmd: PowerAction::On });
    assert!(!accepted);
    assert!(publish.is_none());
    let snap = actor.get_snapshot();
    assert_eq!(snap.len(), 0);
    assert!(!snap.contains(&id("ghost")));
}

#[test]
fn commands_alone_never_create_devices() {
    let mut actor = LightActor::new(Registry::new());
    for name in ["a", "b", "c"] {
        let _ = actor.submit_command(LightCommand { id: id(name), cmd: PowerAction::Off });
        let _ = actor.submit_command(LightCommand { id: id(name), cmd: PowerAction::On });
    }
    assert_eq!(actor.get_snapshot().len(), 0);
}

#[test]
fn replaying_a_status_update_is_idempotent() {
    let mut actor = LightActor::new(Registry::new());
    actor.handle_message(Message::MqttUpdate(id("node-3"), LightState::On));
    let once = actor.get_snapshot();
    actor.handle_message(Message::MqttUpdate(id("node-3"), LightState::On));
    let twice = actor.get_snapshot();
    assert_eq!(once.len(), twice.len());
    assert_eq!(once.get(&id("node-3")), twice.get(&id("node-3")));
}

#[test]
fn pending_persists_until_a_status_update_for_that_device() {
    let mut actor = LightActor::new(Registry::new());
    actor.handle_message(Message::MqttUpdate(id("x"), LightState::Off));
    actor.handle_message(Message::MqttUpdate(id("y"), LightState::Off));

    let (accepted, _) = actor.submit_command(LightCommand { id: id("x"), cmd: PowerAction::On });
    assert!(accepted);

    actor.handle_message(Message::MqttUpdate(id("y"), LightState::On));
    let _ = actor.submit_command(LightCommand { id: id("ghost"), cmd: PowerAction::Off });
    assert_eq!(actor.get_snapshot().get(&id("x")), Some(LightState::Pending));

    actor.handle_message(Message::MqttUpdate(id("x"), LightState::On));
    assert_eq!(actor.get_snapshot().get(&id("x")), Some(LightState::On));
}

#[test]
fn status_update_self_registers_a_device() {
    let mut actor = LightActor::new(Registry::new());
    actor.handle_message(Message::MqttUpdate(id("fresh"), LightState::On));
    let snap = actor.get_snapshot();
    assert!(snap.contains(&id("fresh")));
    assert_eq!(snap.get(&id("fresh")), Some(LightState::On));
}

#[test]
fn registry_to_pairs_lists_every_device_once() {
    let mut reg = Registry::new();
    reg.upsert(id("a"), LightState::On);
    reg.upsert(id("b"), LightState::Off);
    reg.upsert(id("a"), LightState::Pending);
    let mut pairs = reg.to_pairs();
    pairs.sort_by(|p, q| p.0.cmp(&q.0));
    assert_eq!(pairs.len(), 2);
    assert_eq!(pairs[0], (id("a"), LightState::Pending));
    assert_eq!(pairs[1], (id("b"), LightState::Off));
}

#[test]
fn set_if_present_only_touches_known_devices() {
    let mut reg = Registry::new();
    reg.upsert(id("a"), LightState::Off);
    assert!(reg.set_if_present(&id("a"), LightState::Pending));
    assert_eq!(reg.get(&id("a")), Some(LightState::Pending));
    assert!(!reg.set_if_present(&id("b"), LightState::Pending));
    assert_eq!(reg.len(), 1);
}
