//! The call engine: bookkeeping for in-flight calls on a process bus.
//! It tracks open handles, the topic each call listens on, parent and
//! child calls, queued responses and faults, and one parked waker per
//! handle.  The caller owns the executor: the engine hands wakers
//! back and the caller wakes them.

use vstd::prelude::*;
use std::collections::HashMap;
use std::collections::HashSet;

verus! {

broadcast use vstd::std_specs::hash::group_hash_axioms;

/// The faults a bus call can end with.
#[derive(Debug, Clone, Copy, PartialEq, Eq, Structural)]
pub enum BusError {
    SerializationFailed,
    DeserializationFailed,
    InvalidHandle,
    InvalidTopic,
    Aborted,
    Unsupported,
    InternalFailure,
}

/// Identifies one in-flight call.
#[derive(Debug, Clone, Copy, PartialEq, Eq, Structural, Hash)]
pub struct CallHandle {
    pub id: u32,
}

/// The engine's bookkeeping: open handles, the topic of each call,
/// the child calls registered under a parent, and the queued
/// responses and faults awaiting the caller.
pub struct BusEngineState {
    pub handles: HashSet<u32>,
    pub calls: HashMap<u32, u64>,
    pub children: HashMap<u32, Vec<u32>>,
    pub inbox: Vec<(u32, Vec<u8>)>,
    pub faults: Vec<(u32, BusError)>,
}

/// The engine, generic in the waker type the executor parks.
pub struct BusEngine<W> {
    pub state: BusEngineState,
    pub wakers: HashMap<u32, W>,
}

impl<W> BusEngine<W> {
    /// A fresh engine: nothing in flight.
    pub fn new() -> (r: BusEngine<W>)
        ensures
            r.state.handles@ =~= Set::<u32>::empty(),
            r.state.calls@ =~= Map::<u32, u64>::empty(),
            r.state.children@ =~= Map::<u32, Vec<u32>>::empty(),
            r.state.inbox@ =~= Seq::<(u32, Vec<u8>)>::empty(),
            r.state.faults@ =~= Seq::<(u32, BusError)>::empty(),
            r.wakers@ =~= Map::<u32, W>::empty(),
    {
        BusEngine {
            state: BusEngineState {
                handles: HashSet::new(),
                calls: HashMap::new(),
                children: HashMap::new(),
                inbox: Vec::new(),
                faults: Vec::new(),
            },
            wakers: HashMap::new(),
        }
    }

    /// Opens a call on a topic.  A handle already in use is refused.
    pub fn start(&mut self, topic: u64, handle: CallHandle) -> (r: Result<(), BusError>)
        ensures
            match r {
                Ok(()) => {
                    &&& !old(self).state.handles@.contains(handle.id)
                    &&& final(self).state.handles@ == old(self).state.handles@.insert(handle.id)
                    &&& final(self).state.calls@ == old(self).state.calls@.insert(
                        handle.id,
                        topic,
                    )
                    &&& final(self).state.children@ == old(self).state.children@
                    &&& final(self).wakers@ == old(self).wakers@
                },
                Err(e) => {
                    &&& e == BusError::InvalidHandle
                    &&& old(self).state.handles@.contains(handle.id)
                    &&& *final(self) == *old(self)
                },
            },
    {
        if self.state.handles.contains(&handle.id) {
            return Err(BusError::InvalidHandle);
        }
        self.state.handles.insert(handle.id);
        self.state.calls.insert(handle.id, topic);
        Ok(())
    }

    /// Parks the executor's waker for a handle; a later response or
    /// fault hands it back for waking.
    pub fn subscribe(&mut self, handle: &CallHandle, waker: W)
        ensures
            final(self).wakers@ == old(self).wakers@.insert(handle.id, waker),
            final(self).state.handles@ == old(self).state.handles@,
            final(self).state.calls@ == old(self).state.calls@,
            final(self).state.children@ == old(self).state.children@,
            final(self).state.inbox@ == old(self).state.inbox@,
            final(self).state.faults@ == old(self).state.faults@,
    {
        self.wakers.insert(handle.id, waker);
    }

    /// Queues a callback payload for a known call and hands back the
    /// parked waker, if any, for the caller to wake.  A payload for
    /// an unknown handle is dropped as orphaned.
    pub fn finish_callback(&mut self, handle: CallHandle, response: Vec<u8>) -> (r: Option<W>)
        ensures
            final(self).state.handles@ == old(self).state.handles@,
            final(self).state.calls@ == old(self).state.calls@,
            final(self).state.children@ == old(self).state.children@,
            final(self).state.faults@ == old(self).state.faults@,
            final(self).state.inbox@ == (if old(self).state.calls@.contains_key(handle.id) {
                old(self).state.inbox@.push((handle.id, response))
            } else {
                old(self).state.inbox@
            }),
            final(self).wakers@ == old(self).wakers@.remove(handle.id),
            r == (if old(self).wakers@.contains_key(handle.id) {
                Some(old(self).wakers@[handle.id])
            } else {
                None::<W>
            }),
    {
        if self.state.calls.contains_key(&handle.id) {
            self.state.inbox.push((handle.id, response));
        }
        let w = self.wakers.remove(&handle.id);
        proof {
            if !old(self).wakers@.contains_key(handle.id) {
                assert(self.wakers@ =~= old(self).wakers@.remove(handle.id));
            }
        }
        w
    }

    /// Queues the final result of a known call and hands back the
    /// parked waker; unknown handles are orphaned.
    pub fn result(&mut self, handle: CallHandle, response: Vec<u8>) -> (r: Option<W>)
        ensures
            final(self).state.handles@ == old(self).state.handles@,
            final(self).state.calls@ == old(self).state.calls@,
            final(self).state.children@ == old(self).state.children@,
            final(self).state.faults@ == old(self).state.faults@,
            final(self).state.inbox@ == (if old(self).state.calls@.contains_key(handle.id) {
                old(self).state.inbox@.push((handle.id, response))
            } else {
                old(self).state.inbox@
            }),
            final(self).wakers@ == old(self).wakers@.remove(handle.id),
            r == (if old(self).wakers@.contains_key(handle.id) {
                Some(old(self).wakers@[handle.id])
            } else {
                None::<W>
            }),
    {
        self.finish_callback(handle, response)
    }

    /// Queues a fault for a known call and hands back the parked
    /// waker; unknown handles are orphaned.
    pub fn error(&mut self, handle: CallHandle, err: BusError) -> (r: Option<W>)
        ensures
            final(self).state.handles@ == old(self).state.handles@,
            final(self).state.calls@ == old(self).state.calls@,
            final(self).state.children@ == old(self).state.children@,
            final(self).state.inbox@ == old(self).state.inbox@,
            final(self).state.faults@ == (if old(self).state.calls@.contains_key(handle.id) {
                old(self).state.faults@.push((handle.id, err))
            } else {
                old(self).state.faults@
            }),
            final(self).wakers@ == old(self).wakers@.remove(handle.id),
            r == (if old(self).wakers@.contains_key(handle.id) {
                Some(old(self).wakers@[handle.id])
            } else {
                None::<W>
            }),
    {
        if self.state.calls.contains_key(&handle.id) {
            self.state.faults.push((handle.id, err));
        }
        let w = self.wakers.remove(&handle.id);
        proof {
            if !old(self).wakers@.contains_key(handle.id) {
                assert(self.wakers@ =~= old(self).wakers@.remove(handle.id));
            }
        }
        w
    }

    /// Registers a child call under a parent, so that closing the
    /// parent closes the child.
    pub fn add_callback(&mut self, handle: CallHandle, child: CallHandle)
        ensures
            final(self).state.handles@ == old(self).state.handles@,
            final(self).state.calls@ == old(self).state.calls@,
            final(self).wakers@ == old(self).wakers@,
            final(self).state.inbox@ == old(self).state.inbox@,
            final(self).state.faults@ == old(self).state.faults@,
            final(self).state.children@.contains_key(handle.id),
            final(self).state.children@[handle.id]@ == (if old(
                self,
            ).state.children@.contains_key(handle.id) {
                old(self).state.children@[handle.id]@.push(child.id)
            } else {
                seq![child.id]
            }),
            forall|k: u32|
                k != handle.id ==> (#[trigger] final(self).state.children@.contains_key(k)
                    == old(self).state.children@.contains_key(k) && (old(
                    self,
                ).state.children@.contains_key(k) ==> final(self).state.children@[k] == old(
                    self,
                ).state.children@[k])),
    {
        let mut vec: Vec<u32> = match self.state.children.remove(&handle.id) {
            Some(v) => v,
            None => Vec::new(),
        };
        let ghost had = old(self).state.children@.contains_key(handle.id);
        let ghost before = vec@;
        vec.push(child.id);
        self.state.children.insert(handle.id, vec);
        proof {
            if !had {
                assert(before =~= Seq::<u32>::empty());
                assert(before.push(child.id) =~= seq![child.id]);
            }
        }
    }

    /// Closes a call: its handle, call record and parked waker go,
    /// and every child call is closed with it.  Nothing is ever added
    /// by a close.
    pub fn close(&mut self, handle: &CallHandle)
        ensures
            final(self).state.children@.len() <= old(self).state.children@.len(),
            !final(self).state.children@.contains_key(handle.id),
            !final(self).state.handles@.contains(handle.id),
            !final(self).state.calls@.contains_key(handle.id),
            !final(self).wakers@.contains_key(handle.id),
            forall|k: u32|
                #[trigger] final(self).state.handles@.contains(k) ==> old(
                    self,
                ).state.handles@.contains(k),
            forall|k: u32|
                #[trigger] final(self).state.calls@.contains_key(k) ==> old(
                    self,
                ).state.calls@.contains_key(k),
            forall|k: u32|
                #[trigger] final(self).state.children@.contains_key(k) ==> old(
                    self,
                ).state.children@.contains_key(k),
            forall|k: u32|
                #[trigger] final(self).wakers@.contains_key(k) ==> old(
                    self,
                ).wakers@.contains_key(k),
            final(self).state.inbox@ == old(self).state.inbox@,
            final(self).state.faults@ == old(self).state.faults@,
            old(self).state.children@.contains_key(handle.id) ==> (forall|c: u32|
                #[trigger] old(self).state.children@[handle.id]@.contains(c) && c != handle.id
                    ==> !final(self).state.handles@.contains(c)
                    && !final(self).state.calls@.contains_key(c)
                    && !final(self).state.children@.contains_key(c)
                    && !final(self).wakers@.contains_key(c)),
            (!old(self).state.handles@.contains(handle.id) && !old(
                self,
            ).state.calls@.contains_key(handle.id) && !old(self).state.children@.contains_key(
                handle.id,
            ) && !old(self).wakers@.contains_key(handle.id)) ==> {
                &&& final(self).state.handles@ == old(self).state.handles@
                &&& final(self).state.calls@ == old(self).state.calls@
                &&& final(self).state.children@ == old(self).state.children@
                &&& final(self).wakers@ == old(self).wakers@
            },
        decreases old(self).state.children@.len(),
    {
        self.state.handles.remove(&handle.id);
        self.state.calls.remove(&handle.id);
        self.wakers.remove(&handle.id);
        let kids: Option<Vec<u32>> = self.state.children.remove(&handle.id);
        proof {
            if !old(self).state.handles@.contains(handle.id) {
                assert(self.state.handles@ =~= old(self).state.handles@);
            }
            if !old(self).state.calls@.contains_key(handle.id) {
                assert(self.state.calls@ =~= old(self).state.calls@);
            }
            if !old(self).state.children@.contains_key(handle.id) {
                assert(self.state.children@ =~= old(self).state.children@);
            }
            if !old(self).wakers@.contains_key(handle.id) {
                assert(self.wakers@ =~= old(self).wakers@);
            }
        }
        match kids {
            Some(children) => {
                let ghost mid = *self;
                let ghost kid_views = children@;
                let mut i: usize = 0;
                let n = children.len();
                while i < n
                    invariant
                        i <= n,
                        n == children@.len(),
                        children@ == kid_views,
                        kid_views == old(self).state.children@[handle.id]@,
                        old(self).state.children@.contains_key(handle.id),
                        forall|j: int|
                            0 <= j < i && kid_views[j] != handle.id ==> {
                                &&& !self.state.handles@.contains(#[trigger] kid_views[j])
                                &&& !self.state.calls@.contains_key(kid_views[j])
                                &&& !self.state.children@.contains_key(kid_views[j])
                                &&& !self.wakers@.contains_key(kid_views[j])
                            },
                        self.state.children@.len() < old(self).state.children@.len(),
                        !self.state.children@.contains_key(handle.id),
                        !self.state.handles@.contains(handle.id),
                        !self.state.calls@.contains_key(handle.id),
                        !self.wakers@.contains_key(handle.id),
                        forall|k: u32|
                            #[trigger] self.state.handles@.contains(k) ==> old(
                                self,
                            ).state.handles@.contains(k),
                        forall|k: u32|
                            #[trigger] self.state.calls@.contains_key(k) ==> old(
                                self,
                            ).state.calls@.contains_key(k),
                        forall|k: u32|
                            #[trigger] self.state.children@.contains_key(k) ==> old(
                                self,
                            ).state.children@.contains_key(k),
                        forall|k: u32|
                            #[trigger] self.wakers@.contains_key(k) ==> old(
                                self,
                            ).wakers@.contains_key(k),
                        self.state.inbox@ == old(self).state.inbox@,
                        self.state.faults@ == old(self).state.faults@,
                    decreases n - i,
                {
                    let child = CallHandle { id: children[i] };
                    if child.id != handle.id {
                        self.close(&child);
                    }
                    i = i + 1;
                }
                proof {
                    assert forall|c: u32|
                        #[trigger] old(self).state.children@[handle.id]@.contains(c) && c
                            != handle.id implies !self.state.handles@.contains(c)
                        && !self.state.calls@.contains_key(c)
                        && !self.state.children@.contains_key(c)
                        && !self.wakers@.contains_key(c) by {
                        let j = choose|j: int|
                            0 <= j < kid_views.len() && kid_views[j] == c;
                        assert(kid_views[j] != handle.id);
                    }
                }
            },
            None => {},
        }
    }

    /// Hands the queued responses to the caller, emptying the queue.
    pub fn take_inbox(&mut self) -> (r: Vec<(u32, Vec<u8>)>)
        ensures
            r@ == old(self).state.inbox@,
            final(self).state.inbox@ =~= Seq::<(u32, Vec<u8>)>::empty(),
            final(self).state.handles@ == old(self).state.handles@,
            final(self).state.calls@ == old(self).state.calls@,
            final(self).state.children@ == old(self).state.children@,
            final(self).state.faults@ == old(self).state.faults@,
            final(self).wakers@ == old(self).wakers@,
    {
        let mut out: Vec<(u32, Vec<u8>)> = Vec::new();
        core::mem::swap(&mut out, &mut self.state.inbox);
        out
    }

    /// Hands the queued faults to the caller, emptying the queue.
    pub fn take_faults(&mut self) -> (r: Vec<(u32, BusError)>)
        ensures
            r@ == old(self).state.faults@,
            final(self).state.faults@ =~= Seq::<(u32, BusError)>::empty(),
            final(self).state.handles@ == old(self).state.handles@,
            final(self).state.calls@ == old(self).state.calls@,
            final(self).state.children@ == old(self).state.children@,
            final(self).state.inbox@ == old(self).state.inbox@,
            final(self).wakers@ == old(self).wakers@,
    {
        let mut out: Vec<(u32, BusError)> = Vec::new();
        core::mem::swap(&mut out, &mut self.state.faults);
        out
    }
}

} // verus!
