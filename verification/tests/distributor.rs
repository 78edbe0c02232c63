use light_actor::distributor::Distributor;
use light_actor::models::{LightCommand, LightState, PowerAction};
use light_actor::registry::Registry;
use light_actor::state::{LightActor, Message};

fn id(s: &str) -> String {
    String::from(s)
}

#[test]
fn observer_sees_nothing_before_a_change() {
    let actor = LightActor::new(Registry::new());
    let mut obs = actor.subscribe_to_changes();
    assert!(actor.distributor().poll_change(&mut obs).is_none());
}

#[test]
fn observer_wakes_once_per_change_it_waited_for() {
    let mut actor = LightActor::new(Registry::new());
    let mut obs = actor.subscribe_to_changes();
    actor.handle_message(Message::MqttUpdate(id("n"), LightState::On));
    let snap = actor.distributor().poll_change(&mut obs).expect("a change happened");
    assert_eq!(snap.get(&id("n")), Some(LightState::On));
    assert!(actor.distributor().poll_change(&mut obs).is_none());
}

#[test]
fn rapid_updates_deliver_only_the_final_state() {
    let mut actor = LightActor::new(Registry::new());
    let mut obs = actor.subscribe_to_changes();
    let states = [
        LightState::On,
        LightState::Off,
        LightState::On,
        LightState::Off,
        LightState::Pending,
        LightState::Off,
    ];
    for st in states {
        actor.handle_message(Message::MqttUpdate(id("node-9"), st));
    }
    let snap = actor.distributor().poll_change(&mut obs).expect("changes happened");
    assert_eq!(snap.get(&id("node-9")), Some(LightState::Off));
    assert_eq!(snap.len(), 1);
    assert!(actor.distributor().poll_change(&mut obs).is_none());
}

#[test]
fn late_observer_starts_at_the_current_snapshot() {
    let mut actor = LightActor::new(Registry::new());
    actor.handle_message(Message::MqttUpdate(id("n"), LightState::On));
    let mut obs = actor.subscribe_to_changes();
    assert!(actor.distributor().poll_change(&mut obs).is_none());
    let (accepted, _) =
        actor.submit_command(LightCommand { id: id("n"), cmd: PowerAction::Off });
    assert!(accepted);
    let snap = actor.distributor().poll_change(&mut obs).expect("a change happened");
    assert_eq!(snap.get(&id("n")), Some(LightState::Pending));
}

#[test]
fn snapshots_are_independent_copies() {
    let mut reg = Registry::new();
    reg.upsert(id("a"), LightState::On);
    let mut dist = Distributor::new(reg.snapshot());
    let before = dist.get_latest();
    reg.upsert(id("a"), LightState::Off);
    dist.publish(reg.snapshot());
    assert_eq!(before.get(&id("a")), Some(LightState::On));
    assert_eq!(dist.get_latest().get(&id("a")), Some(LightState::Off));
}

#[test]
fn every_broadcast_matches_the_registry_at_that_moment() {
    let mut actor = LightActor::new(Registry::new());
    let mut obs = actor.subscribe_to_changes();
    actor.handle_message(Message::MqttUpdate(id("a"), LightState::Off));
    let snap = actor.distributor().poll_change(&mut obs).expect("a change happened");
    let reg = actor.get_snapshot();
    assert_eq!(snap.len(), reg.len());
    assert_eq!(snap.get(&id("a")), reg.get(&id("a")));
}
