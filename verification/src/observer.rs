//! The property observer registry: one subscription per property name,
//! holding the last decoded value and a change counter, shared by every
//! handle watching that property.

use vstd::prelude::*;

use crate::json::ValS;
use crate::json::Value;

verus! {

/// The kind a caller declares for a property when registering: incoming
/// payloads are coerced to it.
#[derive(Clone, Copy, PartialEq, Eq, Structural, Debug)]
pub enum ValueKind {
    Boolean,
    Number,
    Text,
}

pub open spec fn kind_matches(v: ValS, k: ValueKind) -> bool {
    match k {
        ValueKind::Boolean => v is Bool,
        ValueKind::Number => v is Num,
        ValueKind::Text => v is Str,
    }
}

/// What an event's payload becomes under a declared kind: itself when it
/// fits, the registration default when it does not. A mistyped payload
/// never errors the connection.
pub open spec fn coerce_spec(d: ValS, k: ValueKind, dflt: ValS) -> ValS {
    if kind_matches(d, k) {
        d
    } else {
        dflt
    }
}

/// One more accepted event: the version advances until the counter would
/// overflow, where it stays put.
pub open spec fn bump(v: u64) -> u64 {
    if v < u64::MAX {
        (v + 1) as u64
    } else {
        v
    }
}

/// The version after `n` accepted events.
pub open spec fn apply_events(v: u64, n: nat) -> u64
    decreases n,
{
    if n == 0 {
        v
    } else {
        bump(apply_events(v, (n - 1) as nat))
    }
}

proof fn lemma_apply_events_value(v: u64, n: nat)
    requires
        v + n <= u64::MAX,
    ensures
        apply_events(v, n) == v + n,
    decreases n,
{
    if n > 0 {
        lemma_apply_events_value(v, (n - 1) as nat);
    }
}

/// A handle that last checked at version `v` sees a change exactly when
/// at least one event has been accepted since — as long as the version
/// counter has not saturated, which takes more events than a session can
/// carry.
pub proof fn lemma_change_detection(v: u64, n: nat)
    requires
        v + n <= u64::MAX,
    ensures
        (apply_events(v, n) != v) <==> n > 0,
{
    lemma_apply_events_value(v, n);
}

/// One observed property: its subscription id, declared kind, default,
/// last accepted value, and how many events it has accepted.
pub struct Observed {
    pub id: u64,
    pub name: String,
    pub kind: ValueKind,
    pub dflt: Value,
    pub last: Value,
    pub version: u64,
}

/// The registry of observed properties, keyed by observer id and by
/// property name.
pub struct Registry {
    entries: Vec<Observed>,
    next_id: u64,
}

/// One caller's handle on an observed property: which subscription it
/// watches, and the version it saw at its last check. Two handles on one
/// property keep their own `seen` and so detect changes independently.
pub struct ObservedHandle {
    pub id: u64,
    pub seen: u64,
}

/// The subscription `o` is present in both registries with the same
/// version, value, kind, default and name.
pub open spec fn obs_preserved(a: Registry, b: Registry, o: u64) -> bool {
    &&& a.has_obs(o)
    &&& b.has_obs(o)
    &&& b.version_of(o) == a.version_of(o)
    &&& b.value_of(o) == a.value_of(o)
    &&& b.kind_of(o) == a.kind_of(o)
    &&& b.default_of(o) == a.default_of(o)
    &&& b.name_of(o) == a.name_of(o)
}

impl Registry {
    /// Ids and names are unique, defaults match their kinds, the stored
    /// value always matches its kind, and ids stay below the allocator.
    pub closed spec fn wf(&self) -> bool {
        &&& forall|i: int, j: int|
            0 <= i < j < self.entries@.len() ==> (#[trigger] self.entries@[i]).id != (
            #[trigger] self.entries@[j]).id
        &&& forall|i: int, j: int|
            0 <= i < j < self.entries@.len() ==> (#[trigger] self.entries@[i]).name@ != (
            #[trigger] self.entries@[j]).name@
        &&& forall|i: int|
            0 <= i < self.entries@.len() ==> (#[trigger] self.entries@[i]).id < self.next_id
        &&& forall|i: int|
            0 <= i < self.entries@.len() ==> kind_matches(
                (#[trigger] self.entries@[i]).dflt@,
                self.entries@[i].kind,
            )
        &&& forall|i: int|
            0 <= i < self.entries@.len() ==> kind_matches(
                (#[trigger] self.entries@[i]).last@,
                self.entries@[i].kind,
            )
    }

    /// Whether a subscription exists under the id.
    pub closed spec fn has_obs(&self, id: u64) -> bool {
        exists|i: int| 0 <= i < self.entries@.len() && (#[trigger] self.entries@[i]).id == id
    }

    closed spec fn idx_of(&self, id: u64) -> int {
        choose|i: int| 0 <= i < self.entries@.len() && (#[trigger] self.entries@[i]).id == id
    }

    /// Whether a subscription exists under the property name.
    pub closed spec fn has_name(&self, name: Seq<char>) -> bool {
        exists|i: int| 0 <= i < self.entries@.len() && (#[trigger] self.entries@[i]).name@ == name
    }

    closed spec fn idx_of_name(&self, name: Seq<char>) -> int {
        choose|i: int| 0 <= i < self.entries@.len() && (#[trigger] self.entries@[i]).name@ == name
    }

    /// The id subscribed for the name.
    pub closed spec fn id_of_name(&self, name: Seq<char>) -> u64 {
        self.entries@[self.idx_of_name(name)].id
    }

    /// How many events the subscription has accepted.
    pub closed spec fn version_of(&self, id: u64) -> u64 {
        self.entries@[self.idx_of(id)].version
    }

    /// The last accepted value, or the default while none has arrived.
    pub closed spec fn value_of(&self, id: u64) -> ValS {
        self.entries@[self.idx_of(id)].last@
    }

    pub closed spec fn kind_of(&self, id: u64) -> ValueKind {
        self.entries@[self.idx_of(id)].kind
    }

    pub closed spec fn default_of(&self, id: u64) -> ValS {
        self.entries@[self.idx_of(id)].dflt@
    }

    pub closed spec fn name_of(&self, id: u64) -> Seq<char> {
        self.entries@[self.idx_of(id)].name@
    }

    /// How many subscriptions the registry holds.
    pub closed spec fn count(&self) -> nat {
        self.entries@.len()
    }

    /// The next observer id to be allocated.
    pub closed spec fn next_oid(&self) -> u64 {
        self.next_id
    }

    proof fn lemma_entry_at(&self, j: int)
        requires
            self.wf(),
            0 <= j < self.entries@.len(),
        ensures
            self.has_obs(self.entries@[j].id),
            self.idx_of(self.entries@[j].id) == j,
            self.has_name(self.entries@[j].name@),
            self.idx_of_name(self.entries@[j].name@) == j,
    {
        let id = self.entries@[j].id;
        assert(self.has_obs(id));
        let w = self.idx_of(id);
        assert(0 <= w < self.entries@.len() && self.entries@[w].id == id);
        if w != j {
            if w < j {
                assert(self.entries@[w].id != self.entries@[j].id);
            } else {
                assert(self.entries@[j].id != self.entries@[w].id);
            }
            assert(false);
        }
        let nm = self.entries@[j].name@;
        assert(self.has_name(nm));
        let w2 = self.idx_of_name(nm);
        assert(0 <= w2 < self.entries@.len() && self.entries@[w2].name@ == nm);
        if w2 != j {
            if w2 < j {
                assert(self.entries@[w2].name@ != self.entries@[j].name@);
            } else {
                assert(self.entries@[j].name@ != self.entries@[w2].name@);
            }
            assert(false);
        }
    }

    pub fn new() -> (r: Registry)
        ensures
            r.wf(),
            r.count() == 0,
            forall|id: u64| !(#[trigger] r.has_obs(id)),
            forall|n: Seq<char>| !(#[trigger] r.has_name(n)),
    {
        Registry { entries: Vec::new(), next_id: 1 }
    }

    fn find_by_name(&self, name: &String) -> (r: Option<usize>)
        requires
            self.wf(),
        ensures
            match r {
                Some(i) => i < self.entries@.len() && self.entries@[i as int].name@ == name@
                    && self.has_name(name@) && self.idx_of_name(name@) == i as int,
                None => !self.has_name(name@),
            },
    {
        let mut k: usize = 0;
        while k < self.entries.len()
            invariant
                self.wf(),
                k <= self.entries@.len(),
                forall|i: int| 0 <= i < k ==> (#[trigger] self.entries@[i]).name@ != name@,
            decreases self.entries@.len() - k,
        {
            if self.entries[k].name == *name {
                proof {
                    self.lemma_entry_at(k as int);
                }
                return Some(k);
            }
            k = k + 1;
        }
        None
    }

    fn find_by_id(&self, id: u64) -> (r: Option<usize>)
        requires
            self.wf(),
        ensures
            match r {
                Some(i) => i < self.entries@.len() && self.entries@[i as int].id == id
                    && self.has_obs(id) && self.idx_of(id) == i as int,
                None => !self.has_obs(id),
            },
    {
        let mut k: usize = 0;
        while k < self.entries.len()
            invariant
                self.wf(),
                k <= self.entries@.len(),
                forall|i: int| 0 <= i < k ==> (#[trigger] self.entries@[i]).id != id,
            decreases self.entries@.len() - k,
        {
            if self.entries[k].id == id {
                proof {
                    self.lemma_entry_at(k as int);
                }
                return Some(k);
            }
            k = k + 1;
        }
        None
    }

    /// Starts or joins the observation of a property. A first caller gets
    /// a fresh observer id back, which must go to the player in an
    /// observe command; later callers share the existing subscription.
    /// The handle starts at the subscription's current version, and the
    /// value read before any event is the default given at registration.
    /// `None` only when a fresh id is needed and the id space is spent.
    pub fn observe(&mut self, name: String, kind: ValueKind, default: Value) -> (r: Option<
        (ObservedHandle, Option<u64>),
    >)
        requires
            old(self).wf(),
            kind_matches(default@, kind),
        ensures
            final(self).wf(),
            match r {
                Some((h, fresh)) => {
                    &&& final(self).has_obs(h.id)
                    &&& h.seen == final(self).version_of(h.id)
                    &&& final(self).name_of(h.id) == name@
                    &&& match fresh {
                        Some(oid) => {
                            &&& !old(self).has_name(name@)
                            &&& oid == h.id
                            &&& !old(self).has_obs(oid)
                            &&& final(self).count() == old(self).count() + 1
                            &&& final(self).version_of(oid) == 0
                            &&& final(self).value_of(oid) == default@
                            &&& final(self).default_of(oid) == default@
                            &&& final(self).kind_of(oid) == kind
                            &&& final(self).has_name(name@)
                        },
                        None => {
                            &&& old(self).has_name(name@)
                            &&& h.id == old(self).id_of_name(name@)
                            &&& *final(self) == *old(self)
                        },
                    }
                    &&& fresh is Some ==> forall|o: u64|
                        o != h.id ==> #[trigger] final(self).has_obs(o) == old(self).has_obs(o)
                },
                None => {
                    &&& !old(self).has_name(name@)
                    &&& old(self).next_oid() == u64::MAX
                    &&& *final(self) == *old(self)
                },
            },
            forall|o: u64|
                old(self).has_obs(o) && (r matches Some((h, _)) ==> o != h.id)
                    ==> #[trigger] obs_preserved(*old(self), *final(self), o),
    {
        match self.find_by_name(&name) {
            Some(i) => {
                let id = self.entries[i].id;
                let seen = self.entries[i].version;
                proof {
                    self.lemma_entry_at(i as int);
                    assert forall|o: u64| old(self).has_obs(o) implies #[trigger] obs_preserved(
                        *old(self),
                        *final(self),
                        o,
                    ) by {}
                }
                Some((ObservedHandle { id, seen }, None))
            },
            None => {
                if self.next_id == u64::MAX {
                    return None;
                }
                let id = self.next_id;
                self.next_id = self.next_id + 1;
                let ghost pre = self.entries@;
                let entry = Observed {
                    id,
                    name,
                    kind,
                    dflt: default.clone_value(),
                    last: default,
                    version: 0,
                };
                let n = self.entries.len();
                self.entries.push(entry);
                proof {
                    assert forall|a: int, b: int|
                        0 <= a < b < self.entries@.len() implies (#[trigger] self.entries@[a]).id
                        != (#[trigger] self.entries@[b]).id by {
                        if b < pre.len() {
                            assert(pre[a].id != pre[b].id);
                        } else {
                            assert(self.entries@[a] == pre[a]);
                            assert(pre[a].id < old(self).next_id);
                        }
                    }
                    assert forall|a: int, b: int|
                        0 <= a < b < self.entries@.len() implies (#[trigger] self.entries@[a]).name@
                        != (#[trigger] self.entries@[b]).name@ by {
                        if b < pre.len() {
                            assert(pre[a].name@ != pre[b].name@);
                        } else {
                            assert(self.entries@[a] == pre[a]);
                            assert(!old(self).has_name(self.entries@[b].name@));
                        }
                    }
                    assert forall|a: int|
                        0 <= a < self.entries@.len() implies (#[trigger] self.entries@[a]).id
                        < self.next_id && kind_matches(self.entries@[a].dflt@, self.entries@[a].kind)
                        && kind_matches(self.entries@[a].last@, self.entries@[a].kind) by {
                        if a < pre.len() {
                            assert(self.entries@[a] == pre[a]);
                        }
                    }
                    self.lemma_entry_at(n as int);
                    assert forall|o: u64| o != id implies #[trigger] final(self).has_obs(o) == old(self).has_obs(o) by {
                        if old(self).has_obs(o) {
                            let j = old(self).idx_of(o);
                            assert(0 <= j < pre.len() && pre[j].id == o);
                            assert(self.entries@[j] == pre[j]);
                        } else {
                            if final(self).has_obs(o) {
                                let w = final(self).idx_of(o);
                                assert(0 <= w < self.entries@.len() && self.entries@[w].id == o);
                                assert(w < pre.len());
                                assert(pre[w].id == o);
                            }
                        }
                    }
                    assert forall|o: u64| old(self).has_obs(o) && o != id implies #[trigger] obs_preserved(
                        *old(self),
                        *final(self),
                        o,
                    ) by {
                        let j = old(self).idx_of(o);
                        assert(0 <= j < pre.len() && pre[j].id == o);
                        assert(self.entries@[j] == pre[j]);
                        self.lemma_entry_at(j);
                        old(self).lemma_entry_at(j);
                    }
                    assert(!old(self).has_obs(id)) by {
                        if old(self).has_obs(id) {
                            let j = old(self).idx_of(id);
                            assert(0 <= j < pre.len() && pre[j].id == id);
                        }
                    }
                }
                Some((ObservedHandle { id, seen: 0 }, Some(id)))
            },
        }
    }

    /// Applies one property-change event: the subscription's version
    /// advances and its value becomes the payload coerced to the declared
    /// kind, the default standing in for a payload of the wrong kind.
    /// An unknown id is a protocol warning and changes nothing.
    pub fn on_event(&mut self, id: u64, data: &Value) -> (applied: bool)
        requires
            old(self).wf(),
        ensures
            final(self).wf(),
            applied == old(self).has_obs(id),
            applied ==> final(self).has_obs(id),
            applied ==> final(self).version_of(id) == bump(old(self).version_of(id)),
            applied ==> final(self).value_of(id) == coerce_spec(
                data@,
                old(self).kind_of(id),
                old(self).default_of(id),
            ),
            applied ==> final(self).kind_of(id) == old(self).kind_of(id) && final(self).default_of(id) == old(self).default_of(id) && final(self).name_of(id) == old(self).name_of(id),
            applied ==> final(self).count() == old(self).count(),
            !applied ==> *final(self) == *old(self),
            forall|o: u64| #[trigger] final(self).has_obs(o) == old(self).has_obs(o),
            forall|o: u64|
                o != id && old(self).has_obs(o) ==> #[trigger] obs_preserved(
                    *old(self),
                    *final(self),
                    o,
                ),
    {
        match self.find_by_id(id) {
            None => false,
            Some(i) => {
                proof {
                    old(self).lemma_entry_at(i as int);
                }
                let ghost pre = self.entries@;
                let e = &self.entries[i];
                let new_version: u64 = if e.version < u64::MAX {
                    e.version + 1
                } else {
                    e.version
                };
                let matches_kind: bool = match (&e.kind, data) {
                    (ValueKind::Boolean, Value::Bool(_)) => true,
                    (ValueKind::Number, Value::Num(_)) => true,
                    (ValueKind::Text, Value::Str(_)) => true,
                    _ => false,
                };
                let new_last: Value = if matches_kind {
                    data.clone_value()
                } else {
                    e.dflt.clone_value()
                };
                let new_entry = Observed {
                    id,
                    name: e.name.clone(),
                    kind: e.kind,
                    dflt: e.dflt.clone_value(),
                    last: new_last,
                    version: new_version,
                };
                proof {
                    assert(kind_matches(new_entry.last@, new_entry.kind));
                }
                self.entries[i] = new_entry;
                proof {
                    assert forall|a: int, b: int|
                        0 <= a < b < self.entries@.len() implies (#[trigger] self.entries@[a]).id
                        != (#[trigger] self.entries@[b]).id by {
                        assert(self.entries@[a].id == pre[a].id);
                        assert(self.entries@[b].id == pre[b].id);
                        assert(pre[a].id != pre[b].id);
                    }
                    assert forall|a: int, b: int|
                        0 <= a < b < self.entries@.len() implies (#[trigger] self.entries@[a]).name@
                        != (#[trigger] self.entries@[b]).name@ by {
                        assert(self.entries@[a].name@ == pre[a].name@);
                        assert(self.entries@[b].name@ == pre[b].name@);
                        assert(pre[a].name@ != pre[b].name@);
                    }
                    assert forall|a: int|
                        0 <= a < self.entries@.len() implies (#[trigger] self.entries@[a]).id
                        < self.next_id && kind_matches(self.entries@[a].dflt@, self.entries@[a].kind)
                        && kind_matches(self.entries@[a].last@, self.entries@[a].kind) by {
                        if a != i as int {
                            assert(self.entries@[a] == pre[a]);
                        }
                    }
                    self.lemma_entry_at(i as int);
                    assert forall|o: u64| #[trigger] final(self).has_obs(o) == old(self).has_obs(
                        o,
                    ) by {
                        if old(self).has_obs(o) {
                            let j = old(self).idx_of(o);
                            assert(0 <= j < pre.len() && pre[j].id == o);
                            assert(self.entries@[j].id == o);
                        } else {
                            if final(self).has_obs(o) {
                                let w = final(self).idx_of(o);
                                assert(0 <= w < self.entries@.len() && self.entries@[w].id == o);
                                assert(pre[w].id == o);
                            }
                        }
                    }
                    assert forall|o: u64| o != id && old(self).has_obs(o) implies #[trigger] obs_preserved(
                        *old(self),
                        *final(self),
                        o,
                    ) by {
                        let j = old(self).idx_of(o);
                        assert(0 <= j < pre.len() && pre[j].id == o);
                        assert(j != i as int);
                        assert(self.entries@[j] == pre[j]);
                        self.lemma_entry_at(j);
                        old(self).lemma_entry_at(j);
                    }
                }
                true
            },
        }
    }
}

impl ObservedHandle {
    /// Whether at least one event has been accepted for this property
    /// since this handle last asked. The check moves only this handle's
    /// own mark: other handles on the same property are untouched, as the
    /// registry is not even writable here.
    pub fn has_changed(&mut self, reg: &Registry) -> (r: bool)
        requires
            reg.wf(),
            reg.has_obs(old(self).id),
        ensures
            r == (reg.version_of(old(self).id) != old(self).seen),
            final(self).id == old(self).id,
            final(self).seen == reg.version_of(old(self).id),
    {
        let i = match reg.find_by_id(self.id) {
            Some(i) => i,
            None => {
                proof {
                    assert(false);
                }
                return false;
            },
        };
        let v = reg.entries[i].version;
        let r = v != self.seen;
        self.seen = v;
        r
    }

    /// The latest decoded value of the property, or the registration
    /// default while no event has arrived. Never blocks and never touches
    /// the change mark.
    pub fn current(&self, reg: &Registry) -> (v: Value)
        requires
            reg.wf(),
            reg.has_obs(self.id),
        ensures
            v@ == reg.value_of(self.id),
    {
        let i = match reg.find_by_id(self.id) {
            Some(i) => i,
            None => {
                proof {
                    assert(false);
                }
                return Value::Null;
            },
        };
        reg.entries[i].last.clone_value()
    }
}

} // verus!
