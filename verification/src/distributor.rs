use crate::models::LightState;
use crate::registry::Registry;
use vstd::prelude::*;

verus! {

/// The snapshot distributor: one versioned cell holding the latest full
/// registry snapshot. The actor replaces the value on every broadcast; any
/// number of observers each compare their own cursor against the version and
/// read the latest value — never a stale intermediate one, never a torn one.
pub struct Distributor {
    latest: Registry,
    version: u64,
}

/// An observer's cursor: the version of the last snapshot it saw. Dropping
/// the handle is all the deregistration there is.
pub struct Observer {
    seen: u64,
}

impl Observer {
    /// The version of the last snapshot this observer saw.
    pub closed spec fn spec_seen(&self) -> u64 {
        self.seen
    }
}

impl Distributor {
    /// The mapping held by the current snapshot.
    pub closed spec fn spec_latest(&self) -> Map<Seq<char>, LightState> {
        self.latest@
    }

    /// The current version; it grows by one with every publish.
    pub closed spec fn spec_version(&self) -> u64 {
        self.version
    }

    /// The held snapshot is a well-formed registry.
    pub closed spec fn wf(&self) -> bool {
        self.latest.wf()
    }

    /// A distributor whose first visible value is `initial`.
    pub fn new(initial: Registry) -> (d: Distributor)
        requires
            initial.wf(),
        ensures
            d.wf(),
            d.spec_latest() == initial@,
            d.spec_version() == 0,
    {
        Distributor { latest: initial, version: 0 }
    }

    /// Replace the visible snapshot; every waiting observer will now see the
    /// new value, and only it.
    pub fn publish(&mut self, snap: Registry)
        requires
            snap.wf(),
            old(self).spec_version() < u64::MAX,
        ensures
            final(self).wf(),
            final(self).spec_latest() == snap@,
            final(self).spec_version() == old(self).spec_version() + 1,
    {
        self.latest = snap;
        self.version = self.version + 1;
    }

    /// A new observer, starting at the snapshot current now: it will only be
    /// woken by snapshots published after this call.
    pub fn observe(&self) -> (o: Observer)
        ensures
            o.spec_seen() == self.spec_version(),
    {
        Observer { seen: self.version }
    }

    /// One poll of an observer's cursor: if a newer snapshot than the one the
    /// observer last saw exists, return it (the latest, however many
    /// publishes went by) and advance the cursor; otherwise change nothing.
    /// The caller suspends between polls; this decision itself never blocks.
    pub fn poll_change(&self, o: &mut Observer) -> (r: Option<Registry>)
        requires
            self.wf(),
        ensures
            self.spec_version() > old(o).spec_seen() ==> (r matches Some(snap)
                && snap@ == self.spec_latest() && snap.wf()
                && final(o).spec_seen() == self.spec_version()),
            self.spec_version() <= old(o).spec_seen() ==> r is None
                && final(o).spec_seen() == old(o).spec_seen(),
    {
        if self.version > o.seen {
            o.seen = self.version;
            Some(self.latest.snapshot())
        } else {
            None
        }
    }

    /// The current version number.
    pub fn current_version(&self) -> (v: u64)
        ensures
            v == self.spec_version(),
    {
        self.version
    }

    /// The latest snapshot, unconditionally.
    pub fn get_latest(&self) -> (r: Registry)
        requires
            self.wf(),
        ensures
            r.wf(),
            r@ == self.spec_latest(),
    {
        self.latest.snapshot()
    }
}

} // verus!
