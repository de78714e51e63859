//! The dispatch table: one slot per outstanding request id, completed by
//! the reader when the matching response arrives, emptied by the caller
//! that sent the request.

use vstd::prelude::*;

use crate::codec::RespS;
use crate::codec::Response;

verus! {

/// What has happened to one registered request so far.
pub enum SlotState {
    /// The command was sent; nothing has arrived.
    Pending,
    /// The matching response arrived.
    Answered(Response),
    /// The connection failed or closed while the request was outstanding.
    Disconnected,
}

/// The spec-level shape of a slot.
pub enum SlotS {
    Pending,
    Answered(RespS),
    Disconnected,
}

impl View for SlotState {
    type V = SlotS;

    open spec fn view(&self) -> SlotS {
        match self {
            SlotState::Pending => SlotS::Pending,
            SlotState::Answered(r) => SlotS::Answered(r@),
            SlotState::Disconnected => SlotS::Disconnected,
        }
    }
}

/// What a caller receives when its slot has resolved.
pub enum TakenReply {
    Answered(Response),
    Disconnected,
}

/// The registry from request id to reply slot. The reader side completes
/// slots; the sending side registers, polls and cancels them.
pub struct DispatchTable {
    slots: Vec<(u64, SlotState)>,
}

impl DispatchTable {
    /// Each outstanding id has exactly one slot, and a resolved slot holds
    /// the response bearing its own id.
    pub closed spec fn wf(&self) -> bool {
        &&& forall|i: int, j: int|
            0 <= i < j < self.slots@.len() ==> (#[trigger] self.slots@[i]).0 != (
            #[trigger] self.slots@[j]).0
        &&& forall|i: int|
            0 <= i < self.slots@.len() ==> ((#[trigger] self.slots@[i]).1 matches SlotState::Answered(
                r,
            ) ==> r.request_id == self.slots@[i].0)
    }

    /// Whether a slot exists for the id.
    pub closed spec fn has_req(&self, id: u64) -> bool {
        exists|i: int| 0 <= i < self.slots@.len() && (#[trigger] self.slots@[i]).0 == id
    }

    closed spec fn idx_of(&self, id: u64) -> int {
        choose|i: int| 0 <= i < self.slots@.len() && (#[trigger] self.slots@[i]).0 == id
    }

    /// The slot registered for the id.
    pub closed spec fn slot_of(&self, id: u64) -> SlotS {
        self.slots@[self.idx_of(id)].1@
    }

    /// How many slots the table holds.
    pub closed spec fn count(&self) -> nat {
        self.slots@.len()
    }

    /// The slot under any index holding the id: with well-formedness, the
    /// one slot of that id.
    proof fn lemma_slot_at(&self, j: int)
        requires
            self.wf(),
            0 <= j < self.slots@.len(),
        ensures
            self.has_req(self.slots@[j].0),
            self.idx_of(self.slots@[j].0) == j,
            self.slot_of(self.slots@[j].0) == self.slots@[j].1@,
    {
        let id = self.slots@[j].0;
        assert(self.has_req(id));
        let w = self.idx_of(id);
        assert(0 <= w < self.slots@.len() && self.slots@[w].0 == id);
        if w != j {
            if w < j {
                assert(self.slots@[w].0 != self.slots@[j].0);
            } else {
                assert(self.slots@[j].0 != self.slots@[w].0);
            }
            assert(false);
        }
    }

    /// A resolved answer names its own request id: the well-formed table
    /// can never hand a caller another request's response.
    pub proof fn lemma_answer_matches(&self, id: u64)
        requires
            self.wf(),
            self.has_req(id),
            self.slot_of(id) is Answered,
        ensures
            self.slot_of(id)->Answered_0.request_id == id as int,
    {
        let w = self.idx_of(id);
        assert(0 <= w < self.slots@.len() && self.slots@[w].0 == id);
    }

    pub fn new() -> (r: DispatchTable)
        ensures
            r.wf(),
            r.count() == 0,
            forall|id: u64| !(#[trigger] r.has_req(id)),
    {
        DispatchTable { slots: Vec::new() }
    }

    fn find_idx(&self, id: u64) -> (r: Option<usize>)
        requires
            self.wf(),
        ensures
            match r {
                Some(i) => i < self.slots@.len() && self.slots@[i as int].0 == id && self.has_req(
                    id,
                ) && self.idx_of(id) == i as int,
                None => !self.has_req(id),
            },
    {
        let mut k: usize = 0;
        while k < self.slots.len()
            invariant
                self.wf(),
                k <= self.slots@.len(),
                forall|i: int| 0 <= i < k ==> (#[trigger] self.slots@[i]).0 != id,
            decreases self.slots@.len() - k,
        {
            if self.slots[k].0 == id {
                proof {
                    self.lemma_slot_at(k as int);
                }
                return Some(k);
            }
            k = k + 1;
        }
        None
    }

    /// Whether a slot exists under the id.
    pub fn contains(&self, id: u64) -> (r: bool)
        requires
            self.wf(),
        ensures
            r == self.has_req(id),
    {
        match self.find_idx(id) {
            Some(_) => true,
            None => false,
        }
    }

    /// Makes a pending slot for a fresh id, before the command goes out,
    /// so a response cannot race past its slot.
    #[verifier::rlimit(100)]
    #[verifier::spinoff_prover]
    pub fn register(&mut self, id: u64) -> (ok: bool)
        requires
            old(self).wf(),
        ensures
            final(self).wf(),
            ok == !old(self).has_req(id),
            ok ==> final(self).has_req(id),
            ok ==> final(self).slot_of(id) is Pending,
            ok ==> final(self).count() == old(self).count() + 1,
            ok ==> forall|o: u64|
                o != id ==> #[trigger] final(self).has_req(o) == old(self).has_req(o),
            ok ==> forall|o: u64|
                o != id && old(self).has_req(o) ==> #[trigger] final(self).slot_of(o) == old(self).slot_of(o),
            !ok ==> *final(self) == *old(self),
    {
        match self.find_idx(id) {
            Some(_) => false,
            None => {
                let ghost pre = self.slots@;
                let n = self.slots.len();
                self.slots.push((id, SlotState::Pending));
                proof {
                    assert forall|i: int, j: int|
                        0 <= i < j < self.slots@.len() implies (#[trigger] self.slots@[i]).0 != (
                    #[trigger] self.slots@[j]).0 by {
                        if j < pre.len() {
                            assert(pre[i].0 != pre[j].0);
                        } else {
                            assert(self.slots@[i] == pre[i]);
                        }
                    }
                    assert forall|i: int|
                        0 <= i < self.slots@.len() implies ((#[trigger] self.slots@[i]).1 matches SlotState::Answered(
                        r,
                    ) ==> r.request_id == self.slots@[i].0) by {
                        if i < pre.len() {
                            assert(self.slots@[i] == pre[i]);
                        }
                    }
                    self.lemma_slot_at(n as int);
                    assert forall|o: u64| o != id implies #[trigger] final(self).has_req(o) == old(self).has_req(o) by {
                        if old(self).has_req(o) {
                            let j = old(self).idx_of(o);
                            assert(0 <= j < pre.len() && pre[j].0 == o);
                            assert(self.slots@[j] == pre[j]);
                            self.lemma_slot_at(j);
                        } else {
                            if final(self).has_req(o) {
                                let w = final(self).idx_of(o);
                                assert(0 <= w < self.slots@.len() && self.slots@[w].0 == o);
                                assert(w < pre.len());
                                assert(pre[w].0 == o);
                                assert(old(self).has_req(o));
                            }
                        }
                    }
                    assert forall|o: u64| o != id && old(self).has_req(o) implies #[trigger] final(self).slot_of(o) == old(self).slot_of(o) by {
                        let j = old(self).idx_of(o);
                        assert(0 <= j < pre.len() && pre[j].0 == o);
                        assert(self.slots@[j] == pre[j]);
                        self.lemma_slot_at(j);
                        old(self).lemma_slot_at(j);
                    }
                }
                true
            },
        }
    }

    /// Called by the reader with a decoded response: resolves the matching
    /// pending slot, exactly once. `false` — an unknown or already
    /// resolved id — is a protocol warning and changes nothing.
    #[verifier::rlimit(100)]
    #[verifier::spinoff_prover]
    pub fn complete(&mut self, resp: Response) -> (delivered: bool)
        requires
            old(self).wf(),
        ensures
            final(self).wf(),
            delivered == (old(self).has_req(resp.request_id) && old(self).slot_of(resp.request_id)
                is Pending),
            delivered ==> final(self).has_req(resp.request_id),
            delivered ==> final(self).slot_of(resp.request_id) == SlotS::Answered(resp@),
            delivered ==> final(self).count() == old(self).count(),
            delivered ==> forall|o: u64|
                o != resp.request_id ==> #[trigger] final(self).has_req(o) == old(self).has_req(o),
            delivered ==> forall|o: u64|
                o != resp.request_id && old(self).has_req(o) ==> #[trigger] final(self).slot_of(o)
                    == old(self).slot_of(o),
            !delivered ==> *final(self) == *old(self),
    {
        let id = resp.request_id;
        match self.find_idx(id) {
            None => false,
            Some(i) => {
                match &self.slots[i].1 {
                    SlotState::Pending => {
                        proof {
                            old(self).lemma_slot_at(i as int);
                        }
                        let ghost pre = self.slots@;
                        self.slots[i] = (id, SlotState::Answered(resp));
                        proof {
                            assert forall|a: int, b: int|
                                0 <= a < b < self.slots@.len() implies (#[trigger] self.slots@[a]).0
                                != (#[trigger] self.slots@[b]).0 by {
                                assert(self.slots@[a].0 == pre[a].0);
                                assert(self.slots@[b].0 == pre[b].0);
                                assert(pre[a].0 != pre[b].0);
                            }
                            assert forall|a: int|
                                0 <= a < self.slots@.len() implies ((#[trigger] self.slots@[a]).1 matches SlotState::Answered(
                                r,
                            ) ==> r.request_id == self.slots@[a].0) by {
                                if a != i as int {
                                    assert(self.slots@[a] == pre[a]);
                                }
                            }
                            self.lemma_slot_at(i as int);
                            assert forall|o: u64| o != id implies #[trigger] final(self).has_req(o)
                                == old(self).has_req(o) by {
                                if old(self).has_req(o) {
                                    let j = old(self).idx_of(o);
                                    assert(0 <= j < pre.len() && pre[j].0 == o);
                                    assert(self.slots@[j] == pre[j]);
                                    self.lemma_slot_at(j);
                                } else {
                                    if final(self).has_req(o) {
                                        let w = final(self).idx_of(o);
                                        assert(0 <= w < self.slots@.len() && self.slots@[w].0
                                            == o);
                                        assert(pre[w].0 == o);
                                        assert(old(self).has_req(o));
                                    }
                                }
                            }
                            assert forall|o: u64|
                                o != id && old(self).has_req(o) implies #[trigger] final(self).slot_of(o) == old(self).slot_of(o) by {
                                let j = old(self).idx_of(o);
                                assert(0 <= j < pre.len() && pre[j].0 == o);
                                assert(j != i as int);
                                assert(self.slots@[j] == pre[j]);
                                self.lemma_slot_at(j);
                                old(self).lemma_slot_at(j);
                            }
                        }
                        true
                    },
                    _ => {
                        proof {
                            old(self).lemma_slot_at(i as int);
                        }
                        false
                    },
                }
            },
        }
    }

    /// Marks every pending slot disconnected, leaving no caller waiting
    /// for a response that can no longer come. Answered slots keep their
    /// responses.
    pub fn fail_all(&mut self)
        requires
            old(self).wf(),
        ensures
            final(self).wf(),
            final(self).count() == old(self).count(),
            forall|id: u64| #[trigger] final(self).has_req(id) == old(self).has_req(id),
            forall|id: u64|
                old(self).has_req(id) ==> #[trigger] final(self).slot_of(id) == (if old(self).slot_of(id) is Pending {
                    SlotS::Disconnected
                } else {
                    old(self).slot_of(id)
                }),
    {
        let ghost pre = self.slots@;
        let n = self.slots.len();
        let mut k: usize = 0;
        while k < n
            invariant
                k <= n,
                n == self.slots@.len(),
                self.slots@.len() == pre.len(),
                forall|i: int| 0 <= i < pre.len() ==> (#[trigger] self.slots@[i]).0 == pre[i].0,
                forall|i: int|
                    0 <= i < k ==> (#[trigger] self.slots@[i]).1@ == (if pre[i].1@ is Pending {
                        SlotS::Disconnected
                    } else {
                        pre[i].1@
                    }),
                forall|i: int| k <= i < pre.len() ==> (#[trigger] self.slots@[i]).1 == pre[i].1,
                forall|i: int, j: int|
                    0 <= i < j < pre.len() ==> (#[trigger] pre[i]).0 != (#[trigger] pre[j]).0,
                forall|i: int|
                    0 <= i < pre.len() ==> ((#[trigger] pre[i]).1 matches SlotState::Answered(r)
                        ==> r.request_id == pre[i].0),
            decreases n - k,
        {
            let id = self.slots[k].0;
            match &self.slots[k].1 {
                SlotState::Pending => {
                    self.slots[k] = (id, SlotState::Disconnected);
                },
                _ => {},
            }
            k = k + 1;
        }
        proof {
            assert forall|i: int, j: int|
                0 <= i < j < self.slots@.len() implies (#[trigger] self.slots@[i]).0 != (
            #[trigger] self.slots@[j]).0 by {
                assert(pre[i].0 != pre[j].0);
            }
            assert forall|i: int|
                0 <= i < self.slots@.len() implies ((#[trigger] self.slots@[i]).1 matches SlotState::Answered(
                r,
            ) ==> r.request_id == self.slots@[i].0) by {
                assert(self.slots@[i].1@ == (if pre[i].1@ is Pending {
                    SlotS::Disconnected
                } else {
                    pre[i].1@
                }));
                match self.slots@[i].1 {
                    SlotState::Answered(r) => {
                        assert(pre[i].1@ == SlotS::Answered(r@));
                        match pre[i].1 {
                            SlotState::Answered(r0) => {
                                assert(r0.request_id == pre[i].0);
                                assert(r0@.request_id == r@.request_id);
                            },
                            _ => {
                                assert(false);
                            },
                        }
                    },
                    _ => {},
                }
            }
            assert forall|id: u64| #[trigger] final(self).has_req(id) == old(self).has_req(
                id,
            ) by {
                if old(self).has_req(id) {
                    let w = old(self).idx_of(id);
                    assert(0 <= w < pre.len() && pre[w].0 == id);
                    assert(self.slots@[w].0 == id);
                }
                if final(self).has_req(id) {
                    let w = final(self).idx_of(id);
                    assert(0 <= w < self.slots@.len() && self.slots@[w].0 == id);
                    assert(pre[w].0 == id);
                    assert(old(self).has_req(id));
                }
            }
            assert forall|id: u64| old(self).has_req(id) implies #[trigger] final(self).slot_of(id)
                == (if old(self).slot_of(id) is Pending {
                SlotS::Disconnected
            } else {
                old(self).slot_of(id)
            }) by {
                let w = old(self).idx_of(id);
                assert(0 <= w < pre.len() && pre[w].0 == id);
                assert(self.slots@[w].0 == id);
                self.lemma_slot_at(w);
                old(self).lemma_slot_at(w);
            }
        }
    }

    /// The caller's poll: removes and returns a resolved slot, leaves a
    /// pending one in place. The reply a caller takes for an id is the one
    /// completed for that id, never another caller's.
    pub fn take(&mut self, id: u64) -> (r: Option<TakenReply>)
        requires
            old(self).wf(),
        ensures
            final(self).wf(),
            match r {
                Some(t) => {
                    &&& old(self).has_req(id)
                    &&& !(old(self).slot_of(id) is Pending)
                    &&& !final(self).has_req(id)
                    &&& final(self).count() + 1 == old(self).count()
                    &&& match t {
                        TakenReply::Answered(resp) => old(self).slot_of(id) == SlotS::Answered(
                            resp@,
                        ) && resp.request_id == id,
                        TakenReply::Disconnected => old(self).slot_of(id) is Disconnected,
                    }
                    &&& forall|o: u64|
                        o != id ==> #[trigger] final(self).has_req(o) == old(self).has_req(o)
                    &&& forall|o: u64|
                        o != id && old(self).has_req(o) ==> #[trigger] final(self).slot_of(o)
                            == old(self).slot_of(o)
                },
                None => {
                    &&& *final(self) == *old(self)
                    &&& (!old(self).has_req(id) || old(self).slot_of(id) is Pending)
                },
            },
    {
        match self.find_idx(id) {
            None => None,
            Some(i) => {
                proof {
                    old(self).lemma_slot_at(i as int);
                }
                match &self.slots[i].1 {
                    SlotState::Pending => None,
                    _ => {
                        let ghost pre = self.slots@;
                        let (_gone_id, st) = self.slots.remove(i);
                        proof {
                            self.lemma_lookup_after_remove(pre, i as int, id);
                            assert forall|o: u64| o != id implies #[trigger] final(self).has_req(o)
                                == old(self).has_req(o) by {
                                self.branch_after_remove(pre, i as int, id, o, old(self));
                            }
                            assert forall|o: u64|
                                o != id && old(self).has_req(o) implies #[trigger] final(self).slot_of(o) == old(self).slot_of(o) by {
                                self.branch_after_remove(pre, i as int, id, o, old(self));
                            }
                        }
                        match st {
                            SlotState::Answered(resp) => Some(TakenReply::Answered(resp)),
                            _ => Some(TakenReply::Disconnected),
                        }
                    },
                }
            },
        }
    }

    /// Drops the slot whatever its state: the sender gave up on this id,
    /// and a late response to it will be discarded as unknown.
    pub fn cancel(&mut self, id: u64)
        requires
            old(self).wf(),
        ensures
            final(self).wf(),
            !final(self).has_req(id),
            old(self).has_req(id) ==> final(self).count() + 1 == old(self).count(),
            !old(self).has_req(id) ==> *final(self) == *old(self),
            forall|o: u64|
                o != id ==> #[trigger] final(self).has_req(o) == old(self).has_req(o),
            forall|o: u64|
                o != id && old(self).has_req(o) ==> #[trigger] final(self).slot_of(o) == old(self).slot_of(o),
    {
        match self.find_idx(id) {
            None => {},
            Some(i) => {
                let ghost pre = self.slots@;
                self.slots.remove(i);
                proof {
                    self.lemma_lookup_after_remove(pre, i as int, id);
                    assert forall|o: u64| o != id implies #[trigger] final(self).has_req(o) == old(self).has_req(o) by {
                        self.branch_after_remove(pre, i as int, id, o, old(self));
                    }
                    assert forall|o: u64|
                        o != id && old(self).has_req(o) implies #[trigger] final(self).slot_of(o)
                        == old(self).slot_of(o) by {
                        self.branch_after_remove(pre, i as int, id, o, old(self));
                    }
                }
            },
        }
    }

    /// After removing the slot at `at`, every other id keeps its slot.
    proof fn branch_after_remove(
        &self,
        pre: Seq<(u64, SlotState)>,
        at: int,
        id: u64,
        o: u64,
        before: &DispatchTable,
    )
        requires
            0 <= at < pre.len(),
            pre[at].0 == id,
            before.slots@ == pre,
            before.wf(),
            self.slots@ == pre.remove(at),
            o != id,
        ensures
            self.has_req(o) == before.has_req(o),
            before.has_req(o) ==> self.slot_of(o) == before.slot_of(o),
    {
        self.lemma_lookup_after_remove(pre, at, id);
        if before.has_req(o) {
            let j = before.idx_of(o);
            assert(0 <= j < pre.len() && pre[j].0 == o);
            before.lemma_slot_at(j);
            let j2: int = if j < at {
                j
            } else {
                j - 1
            };
            assert(self.slots@[j2] == pre[j]);
            self.lemma_slot_at(j2);
        } else {
            if self.has_req(o) {
                let w = self.idx_of(o);
                assert(0 <= w < self.slots@.len() && self.slots@[w].0 == o);
                let p: int = if w < at {
                    w
                } else {
                    w + 1
                };
                assert(self.slots@[w] == pre[p]);
                assert(pre[p].0 == o);
                assert(before.has_req(o));
            }
        }
    }

    /// Removing one slot keeps the table well formed and the id gone.
    proof fn lemma_lookup_after_remove(&self, pre: Seq<(u64, SlotState)>, at: int, id: u64)
        requires
            0 <= at < pre.len(),
            pre[at].0 == id,
            self.slots@ == pre.remove(at),
            forall|i: int, j: int|
                0 <= i < j < pre.len() ==> (#[trigger] pre[i]).0 != (#[trigger] pre[j]).0,
            forall|i: int|
                0 <= i < pre.len() ==> ((#[trigger] pre[i]).1 matches SlotState::Answered(r)
                    ==> r.request_id == pre[i].0),
        ensures
            self.wf(),
            !self.has_req(id),
            self.slots@.len() + 1 == pre.len(),
    {
        let s = self.slots@;
        assert forall|i: int| 0 <= i < s.len() implies (#[trigger] s[i]).0 != id by {
            if i < at {
                assert(s[i] == pre[i]);
            } else {
                assert(s[i] == pre[i + 1]);
            }
        }
        assert forall|i: int, j: int| 0 <= i < j < s.len() implies (#[trigger] s[i]).0 != (
        #[trigger] s[j]).0 by {
            let pi: int = if i < at {
                i
            } else {
                i + 1
            };
            let pj: int = if j < at {
                j
            } else {
                j + 1
            };
            assert(s[i] == pre[pi]);
            assert(s[j] == pre[pj]);
            assert(pre[pi].0 != pre[pj].0);
        }
        assert forall|i: int|
            0 <= i < s.len() implies ((#[trigger] s[i]).1 matches SlotState::Answered(r)
            ==> r.request_id == s[i].0) by {
            if i < at {
                assert(s[i] == pre[i]);
            } else {
                assert(s[i] == pre[i + 1]);
            }
        }
    }
}

} // verus!
