use crate::models::LightState;
use crate::state::{apply_command, apply_event, apply_events, apply_status, Event};
use vstd::prelude::*;

verus! {

/// The devices that some status update among `es` names.
pub open spec fn status_ids(es: Seq<Event>) -> Set<Seq<char>>
    decreases es.len(),
{
    if es.len() == 0 {
        Set::empty()
    } else {
        match es[0] {
            Event::Status(id, _) => status_ids(es.drop_first()).insert(id),
            Event::Command(_) => status_ids(es.drop_first()),
        }
    }
}

/// Whether `e` is a status update for device `x`.
pub open spec fn is_status_for(e: Event, x: Seq<char>) -> bool {
    match e {
        Event::Status(id, _) => id == x,
        Event::Command(_) => false,
    }
}

/// Law: after any sequence of events, the registry holds exactly the devices
/// it started with plus those named by a status update. Commands alone never
/// create a device.
pub proof fn lemma_devices_from_status(m: Map<Seq<char>, LightState>, es: Seq<Event>)
    ensures
        apply_events(m, es).dom() == m.dom().union(status_ids(es)),
    decreases es.len(),
{
    if es.len() == 0 {
        assert(m.dom().union(Set::empty()) =~= m.dom());
    } else {
        let m1 = apply_event(m, es[0]);
        lemma_devices_from_status(m1, es.drop_first());
        match es[0] {
            Event::Command(id) => {
                assert(m1.dom() =~= m.dom());
                assert(m.dom().union(status_ids(es.drop_first()))
                    =~= m.dom().union(status_ids(es)));
            },
            Event::Status(id, st) => {
                assert(m1.dom() =~= m.dom().insert(id));
                assert(m.dom().insert(id).union(status_ids(es.drop_first()))
                    =~= m.dom().union(status_ids(es.drop_first()).insert(id)));
            },
        }
    }
}

/// Law: starting from an empty registry, the final registry contains exactly
/// the devices that appeared in at least one status update.
pub proof fn lemma_commands_never_create(es: Seq<Event>)
    ensures
        apply_events(Map::<Seq<char>, LightState>::empty(), es).dom() == status_ids(es),
{
    lemma_devices_from_status(Map::empty(), es);
    assert(Map::<Seq<char>, LightState>::empty().dom().union(status_ids(es))
        =~= status_ids(es));
}

/// Law: replaying the same status update twice leaves the registry identical
/// to replaying it once.
pub proof fn lemma_status_idempotent(m: Map<Seq<char>, LightState>, id: Seq<char>, st: LightState)
    ensures
        apply_status(apply_status(m, id, st), id, st) == apply_status(m, id, st),
{
    assert(m.insert(id, st).insert(id, st) =~= m.insert(id, st));
}

/// A device marked `Pending` stays `Pending` through any events that include
/// no status update for it.
pub proof fn lemma_pending_persists(m: Map<Seq<char>, LightState>, x: Seq<char>, es: Seq<Event>)
    requires
        m.contains_key(x),
        m[x] == LightState::Pending,
        forall|i: int| 0 <= i < es.len() ==> !is_status_for(es[i], x),
    ensures
        apply_events(m, es).contains_key(x),
        apply_events(m, es)[x] == LightState::Pending,
    decreases es.len(),
{
    if es.len() > 0 {
        let m1 = apply_event(m, es[0]);
        assert(!is_status_for(es[0], x));
        assert(m1.contains_key(x) && m1[x] == LightState::Pending);
        assert(forall|i: int| 0 <= i < es.drop_first().len()
            ==> !is_status_for(#[trigger] es.drop_first()[i], x));
        lemma_pending_persists(m1, x, es.drop_first());
    }
}

/// Law: once a command for a known device `x` is processed, the registry
/// shows `x` as `Pending` after every later event until a status update for
/// `x` arrives. (Every broadcast snapshot equals the registry at that moment,
/// so every snapshot taken in that span reflects `Pending` too.)
pub proof fn lemma_command_then_pending(m: Map<Seq<char>, LightState>, x: Seq<char>, es: Seq<Event>)
    requires
        m.contains_key(x),
        forall|i: int| 0 <= i < es.len() ==> !is_status_for(es[i], x),
    ensures
        apply_events(apply_command(m, x), es).contains_key(x),
        apply_events(apply_command(m, x), es)[x] == LightState::Pending,
{
    lemma_pending_persists(apply_command(m, x), x, es);
}

/// Law: a command for a device the registry does not know changes nothing —
/// not the states, and not the set of known devices.
pub proof fn lemma_unknown_command_ignored(m: Map<Seq<char>, LightState>, id: Seq<char>)
    requires
        !m.contains_key(id),
    ensures
        apply_command(m, id) == m,
{
}

/// Law: any run of successive status updates for one device leaves the
/// registry exactly as the last of them alone would — an observer reading the
/// snapshot after the run sees only the final state, never an intermediate
/// one.
pub proof fn lemma_latest_wins(
    m: Map<Seq<char>, LightState>,
    id: Seq<char>,
    states: Seq<LightState>,
)
    requires
        states.len() > 0,
    ensures
        apply_events(m, states.map_values(|st: LightState| Event::Status(id, st)))
            == m.insert(id, states.last()),
    decreases states.len(),
{
    let es = states.map_values(|st: LightState| Event::Status(id, st));
    let m1 = m.insert(id, states[0]);
    assert(es.len() == states.len());
    assert(es[0] == Event::Status(id, states[0]));
    assert(apply_event(m, es[0]) == m1);
    if states.len() == 1 {
        assert(es.drop_first().len() == 0);
        assert(apply_events(m1, es.drop_first()) == m1);
        assert(apply_events(m, es) == m1);
    } else {
        assert(es.drop_first()
            =~= states.drop_first().map_values(|st: LightState| Event::Status(id, st)));
        lemma_latest_wins(m1, id, states.drop_first());
        assert(m1.insert(id, states.drop_first().last()) =~= m.insert(id, states.last()));
    }
}

} // verus!
