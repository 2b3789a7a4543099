//! The peer registry: one stable handle per participant slot.
//!
//! Handles are assigned in enumeration order (the handle is the index
//! into the registry) and stay stable for the session's lifetime, so a
//! lost peer is marked [`PeerState::Disconnected`] rather than removed.

use vstd::prelude::*;

use crate::PeerState;
use crate::SessionError;

verus! {

/// One participant slot: the peer's transport identifier and its state.
#[derive(Clone, Copy, Debug, PartialEq, Eq, Structural)]
pub struct PeerEntry {
    pub id: u64,
    pub state: PeerState,
}

/// How many entries of `s` are connected.
pub open spec fn spec_connected_count(s: Seq<PeerEntry>) -> nat
    decreases s.len(),
{
    if s.len() == 0 {
        0
    } else {
        spec_connected_count(s.drop_last()) + (if s.last().state is Connected {
            1nat
        } else {
            0nat
        })
    }
}

/// At most every entry is connected.
pub proof fn lemma_connected_count_le(s: Seq<PeerEntry>)
    ensures
        spec_connected_count(s) <= s.len(),
    decreases s.len(),
{
    if s.len() > 0 {
        lemma_connected_count_le(s.drop_last());
    }
}

/// Tracks the known participants, at most `capacity` of them.
pub struct PeerRegistry {
    capacity: usize,
    peers: Vec<PeerEntry>,
}

impl View for PeerRegistry {
    type V = Seq<PeerEntry>;

    closed spec fn view(&self) -> Seq<PeerEntry> {
        self.peers@
    }
}

impl PeerRegistry {
    /// The configured player count.
    pub closed spec fn spec_capacity(&self) -> usize {
        self.capacity
    }

    pub fn new(capacity: usize) -> (r: PeerRegistry)
        ensures
            r.spec_capacity() == capacity,
            r@.len() == 0,
    {
        PeerRegistry { capacity, peers: Vec::new() }
    }

    pub fn capacity(&self) -> (r: usize)
        ensures
            r == self.spec_capacity(),
    {
        self.capacity
    }

    /// Registers a peer and assigns it the next handle, which is its
    /// index in enumeration order. Fails with `CapacityExceeded` when
    /// the configured player count is already reached.
    pub fn add_peer(&mut self, id: u64) -> (r: Result<usize, SessionError>)
        ensures
            final(self).spec_capacity() == old(self).spec_capacity(),
            old(self)@.len() < old(self).spec_capacity() ==> {
                &&& r == Ok::<usize, SessionError>(old(self)@.len() as usize)
                &&& final(self)@ == old(self)@.push(
                    PeerEntry { id, state: PeerState::Connecting },
                )
            },
            old(self)@.len() >= old(self).spec_capacity() ==> {
                &&& r == Err::<usize, SessionError>(SessionError::CapacityExceeded)
                &&& final(self)@ == old(self)@
            },
    {
        if self.peers.len() < self.capacity {
            let handle = self.peers.len();
            self.peers.push(PeerEntry { id, state: PeerState::Connecting });
            Ok(handle)
        } else {
            Err(SessionError::CapacityExceeded)
        }
    }

    /// Marks every entry registered under `id` as disconnected; the
    /// slots themselves stay, so other handles are unaffected. Returns
    /// whether any entry carried that id.
    pub fn remove_peer(&mut self, id: u64) -> (found: bool)
        ensures
            final(self).spec_capacity() == old(self).spec_capacity(),
            final(self)@.len() == old(self)@.len(),
            forall|i: int|
                0 <= i < old(self)@.len() ==> final(self)@[i] == (if old(self)@[i].id == id {
                    PeerEntry { id, state: PeerState::Disconnected }
                } else {
                    old(self)@[i]
                }),
            found <==> exists|i: int| 0 <= i < old(self)@.len() && old(self)@[i].id == id,
    {
        let mut found = false;
        let mut i: usize = 0;
        while i < self.peers.len()
            invariant
                i <= self.peers@.len(),
                self.capacity == old(self).capacity,
                self.peers@.len() == old(self)@.len(),
                forall|j: int|
                    i <= j < old(self)@.len() ==> self.peers@[j] == old(self)@[j],
                forall|j: int|
                    0 <= j < i ==> self.peers@[j] == (if old(self)@[j].id == id {
                        PeerEntry { id, state: PeerState::Disconnected }
                    } else {
                        old(self)@[j]
                    }),
                found <==> exists|j: int| 0 <= j < i && old(self)@[j].id == id,
            decreases self.peers@.len() - i,
        {
            if self.peers[i].id == id {
                self.peers.set(i, PeerEntry { id, state: PeerState::Disconnected });
                found = true;
            }
            i = i + 1;
        }
        found
    }

    /// Moves the slot at `handle` into the given state.
    pub fn set_state(&mut self, handle: usize, state: PeerState)
        requires
            handle < old(self)@.len(),
        ensures
            final(self).spec_capacity() == old(self).spec_capacity(),
            final(self)@ == old(self)@.update(
                handle as int,
                PeerEntry { id: old(self)@[handle as int].id, state },
            ),
    {
        let id = self.peers[handle].id;
        self.peers.set(handle, PeerEntry { id, state });
    }

    /// The participant slots in handle order: the handle of an entry is
    /// its index here.
    pub fn peers(&self) -> (r: &Vec<PeerEntry>)
        ensures
            r@ == self@,
    {
        &self.peers
    }

    /// How many peers are currently connected.
    pub fn connected_count(&self) -> (r: usize)
        ensures
            r == spec_connected_count(self@),
    {
        let mut count: usize = 0;
        let mut i: usize = 0;
        while i < self.peers.len()
            invariant
                i <= self.peers@.len(),
                count == spec_connected_count(self.peers@.take(i as int)),
                count <= i,
            decreases self.peers@.len() - i,
        {
            proof {
                assert(self.peers@.take(i + 1int).drop_last() =~= self.peers@.take(i as int));
                assert(self.peers@.take(i + 1int).last() == self.peers@[i as int]);
            }
            if matches!(self.peers[i].state, PeerState::Connected) {
                count = count + 1;
            }
            i = i + 1;
        }
        proof {
            assert(self.peers@.take(self.peers@.len() as int) =~= self.peers@);
        }
        count
    }
}

} // verus!
