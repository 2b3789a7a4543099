//! The session: input aggregation and the rollback scheduler.
//!
//! A [`Session`] owns one input lane per handle. A lane records the
//! confirmed inputs for a contiguous run of ticks starting at tick 0;
//! everything past that run is predicted (the last confirmed value, or
//! zero before any input is known), and a disconnected handle resolves
//! to zero from its disconnect tick on.
//!
//! The scheduler keeps two snapshots of the deterministic simulation:
//! `base_state` at `base_tick`, the last tick below which every input
//! is known, and `current_state` at `current_tick`, which may run ahead
//! on predictions by at most the prediction window. Whenever a
//! confirmation contradicts a prediction the session rolls back to
//! `base_state` and replays forward with the corrected inputs.

use vstd::bytes::spec_u16_from_le_bytes;
use vstd::bytes::spec_u64_from_le_bytes;
use vstd::prelude::*;

use crate::registry::PeerEntry;
use crate::registry::PeerRegistry;
use crate::registry::spec_connected_count;
use crate::sim::spec_replay;
use crate::sim::spec_step;
use crate::sim::step;
use crate::ConfirmationStatus;
use crate::PeerState;
use crate::Phase;
use crate::transport::InputPacket;
use crate::SessionError;
use crate::SessionEvent;

verus! {

/// A rollback-netcode session: peer registry, input history and the
/// simulation snapshots that the scheduler advances and replays.
pub struct Session {
    registry: PeerRegistry,
    num_players: usize,
    window: usize,
    fps: usize,
    input_delay: usize,
    local_handle: usize,
    phase: Phase,
    /// One lane per handle: the confirmed inputs for ticks `0..len`.
    confirmed: Vec<Vec<u8>>,
    /// `Some(dt)` once the handle is disconnected; every tick from `dt`
    /// on resolves to the default input.
    disconnect_tick: Vec<Option<usize>>,
    init_state: Vec<u64>,
    base_tick: usize,
    base_state: Vec<u64>,
    current_tick: usize,
    current_state: Vec<u64>,
    events: Vec<SessionEvent>,
}

impl Session {
    pub closed spec fn spec_num_players(&self) -> usize {
        self.num_players
    }

    pub closed spec fn spec_window(&self) -> usize {
        self.window
    }

    pub closed spec fn spec_fps(&self) -> usize {
        self.fps
    }

    pub closed spec fn spec_input_delay(&self) -> usize {
        self.input_delay
    }

    pub closed spec fn spec_local(&self) -> usize {
        self.local_handle
    }

    pub closed spec fn spec_phase(&self) -> Phase {
        self.phase
    }

    pub closed spec fn spec_base_tick(&self) -> usize {
        self.base_tick
    }

    pub closed spec fn spec_current_tick(&self) -> usize {
        self.current_tick
    }

    pub closed spec fn spec_init(&self) -> Seq<u64> {
        self.init_state@
    }

    pub closed spec fn spec_state(&self) -> Seq<u64> {
        self.current_state@
    }

    pub closed spec fn spec_events(&self) -> Seq<SessionEvent> {
        self.events@
    }

    pub closed spec fn spec_peers(&self) -> Seq<PeerEntry> {
        self.registry@
    }

    /// The confirmed inputs recorded for `handle`, ticks `0..len`.
    pub closed spec fn spec_confirmed(&self, handle: int) -> Seq<u8> {
        self.confirmed@[handle]@
    }

    pub open spec fn spec_confirmed_len(&self, handle: int) -> int {
        self.spec_confirmed(handle).len() as int
    }

    pub closed spec fn spec_disconnect_tick(&self, handle: int) -> Option<usize> {
        self.disconnect_tick@[handle]
    }

    pub open spec fn spec_is_disconnected(&self, handle: int) -> bool {
        self.spec_disconnect_tick(handle) is Some
    }

    /// Whether `tick` falls in the disconnected range of `handle`.
    pub open spec fn spec_disconnected_at(&self, handle: int, tick: int) -> bool {
        match self.spec_disconnect_tick(handle) {
            Some(dt) => tick >= dt,
            None => false,
        }
    }

    /// Whether the true input of `handle` at `tick` is determined:
    /// either it was confirmed, or the handle is disconnected there
    /// (then it is the fixed default and can never change).
    pub open spec fn spec_known(&self, handle: int, tick: int) -> bool {
        tick < self.spec_confirmed_len(handle) || self.spec_disconnected_at(handle, tick)
    }

    /// The input the session resolves for `(handle, tick)`:
    /// the default for a disconnected range, the confirmed value where
    /// one is recorded, and otherwise the prediction — the last
    /// confirmed value, or the default before any input is known.
    pub open spec fn spec_input(&self, handle: int, tick: int) -> u8 {
        if self.spec_disconnected_at(handle, tick) {
            0
        } else if tick < self.spec_confirmed_len(handle) {
            self.spec_confirmed(handle)[tick]
        } else if self.spec_confirmed_len(handle) > 0 {
            self.spec_confirmed(handle).last()
        } else {
            0
        }
    }

    /// How the input of `(handle, tick)` was obtained.
    pub open spec fn spec_status(&self, handle: int, tick: int) -> ConfirmationStatus {
        if self.spec_disconnected_at(handle, tick) {
            ConfirmationStatus::Disconnected
        } else if tick < self.spec_confirmed_len(handle) {
            ConfirmationStatus::Confirmed
        } else {
            ConfirmationStatus::Predicted
        }
    }

    /// The input vector fed to the simulation at `tick`.
    pub open spec fn spec_input_vec(&self, tick: int) -> Seq<u8> {
        Seq::new(self.spec_num_players() as nat, |h: int| self.spec_input(h, tick))
    }

    /// The per-tick input vectors for ticks `0..tick`.
    pub open spec fn spec_inputs_through(&self, tick: int) -> Seq<Seq<u8>> {
        Seq::new(tick as nat, |t: int| self.spec_input_vec(t))
    }

    /// The simulation state the session's resolved inputs produce at
    /// `tick`.
    pub open spec fn spec_sim_to(&self, tick: int) -> Seq<u64> {
        spec_replay(self.spec_init(), self.spec_inputs_through(tick))
    }

    /// Structural consistency of the lanes and configuration.
    spec fn lanes_ok(&self) -> bool {
        let n = self.num_players as int;
        &&& 1 <= self.num_players
        &&& 1 <= self.window
        &&& 1 <= self.fps
        &&& self.local_handle < self.num_players
        &&& self.registry.spec_capacity() == self.num_players
        &&& self.registry@.len() <= self.num_players
        &&& self.confirmed@.len() == n
        &&& self.disconnect_tick@.len() == n
        &&& self.init_state@.len() == n
        &&& !self.spec_is_disconnected(self.local_handle as int)
        &&& forall|h: int|
            0 <= h < n ==> ((#[trigger] self.disconnect_tick@[h]) matches Some(dt)
                ==> self.confirmed@[h]@.len() == dt)
        &&& (!(self.phase is Idle) ==> self.registry@.len() == self.num_players)
        &&& (self.phase is Idle ==> self.current_tick == 0)
        &&& (self.phase is Idle ==> forall|h: int|
            0 <= h < n ==> (#[trigger] self.disconnect_tick@[h]) is None)
        &&& (self.phase is Idle ==> forall|h: int|
            0 <= h < n ==> (#[trigger] self.confirmed@[h])@.len() == 0)
    }

    /// `lanes_ok` plus everything of the scheduler invariant except the
    /// validity of `current_state`, which rollback re-establishes.
    spec fn mid_wf(&self) -> bool {
        let n = self.num_players as int;
        &&& self.lanes_ok()
        &&& self.base_tick <= self.current_tick
        &&& self.current_tick <= self.base_tick + self.window
        &&& forall|h: int|
            0 <= h < n ==> self.base_tick <= (#[trigger] self.confirmed@[h])@.len()
                || self.disconnect_tick@[h] is Some
        &&& self.base_state@ == self.spec_sim_to(self.base_tick as int)
    }

    /// The session invariant: every constructor establishes it and
    /// every method preserves it.
    pub closed spec fn wf(&self) -> bool {
        &&& self.mid_wf()
        &&& self.current_state@ == self.spec_sim_to(self.current_tick as int)
    }

    /// The invariant, spelled out over the public model: the scheduler
    /// never runs more than the prediction window past the last tick
    /// below which every input is known, and the snapshot it exposes is
    /// exactly the replay of the inputs it resolves.
    pub proof fn lemma_wf_facts(&self)
        requires
            self.wf(),
        ensures
            self.spec_base_tick() <= self.spec_current_tick(),
            self.spec_current_tick() <= self.spec_base_tick() + self.spec_window(),
            forall|h: int, t: int|
                0 <= h < self.spec_num_players() && 0 <= t < self.spec_base_tick()
                    ==> self.spec_known(h, t),
            self.spec_state() == self.spec_sim_to(self.spec_current_tick() as int),
            self.spec_local() < self.spec_num_players(),
            1 <= self.spec_num_players(),
            1 <= self.spec_window(),
    {
        assert forall|h: int, t: int|
            0 <= h < self.spec_num_players() && 0 <= t < self.spec_base_tick() implies self
            .spec_known(h, t) by {
            assert(self.base_tick <= self.confirmed@[h]@.len() || self.disconnect_tick@[h]
                is Some);
        }
    }

    /// Replay is deterministic: any two sessions that start from the
    /// same initial state and resolve the same inputs for every tick
    /// below `t` — however those inputs were interleaved, predicted or
    /// confirmed on the way there — reach the same state at `t`.
    pub proof fn lemma_replay_determinism(a: Session, b: Session, t: int)
        requires
            0 <= t,
            b.spec_init() == a.spec_init(),
            b.spec_num_players() == a.spec_num_players(),
            forall|h: int, tt: int|
                0 <= h < a.spec_num_players() && 0 <= tt < t ==> (#[trigger] b.spec_input(h, tt))
                    == (#[trigger] a.spec_input(h, tt)),
        ensures
            b.spec_sim_to(t) == a.spec_sim_to(t),
    {
        let sb = b.spec_inputs_through(t);
        let sa = a.spec_inputs_through(t);
        assert forall|i: int| 0 <= i < sb.len() implies #[trigger] sb[i] == sa[i] by {
            assert(0 <= i < t);
            Self::lemma_input_vec_eq(a, b, i);
            assert(sb[i] == b.spec_input_vec(i));
            assert(sa[i] == a.spec_input_vec(i));
        }
        assert(sb =~= sa);
    }

    /// Two sessions that resolve the same input for every handle at
    /// tick `i` feed the simulation the same input vector there.
    proof fn lemma_input_vec_eq(a: Session, b: Session, i: int)
        requires
            b.spec_num_players() == a.spec_num_players(),
            forall|h: int|
                0 <= h < a.spec_num_players() ==> (#[trigger] b.spec_input(h, i)) == a.spec_input(
                    h,
                    i,
                ),
        ensures
            b.spec_input_vec(i) == a.spec_input_vec(i),
    {
        assert forall|h: int|
            0 <= h < b.spec_input_vec(i).len() implies #[trigger] b.spec_input_vec(i)[h]
                == a.spec_input_vec(i)[h] by {
            assert(b.spec_input_vec(i)[h] == b.spec_input(h, i));
            assert(a.spec_input_vec(i)[h] == a.spec_input(h, i));
        }
        assert(b.spec_input_vec(i) =~= a.spec_input_vec(i));
    }

    /// A fresh session in `Idle`, waiting for `num_players` peers.
    ///
    /// An invalid configuration (no players, a zero prediction window
    /// or a zero frame rate) is excluded up front rather than reported:
    /// there is no session to attach an error to yet.
    pub fn new(
        num_players: usize,
        window: usize,
        fps: usize,
        input_delay: usize,
        initial_state: Vec<u64>,
    ) -> (r: Session)
        requires
            1 <= num_players,
            1 <= window,
            1 <= fps,
            initial_state@.len() == num_players,
        ensures
            r.wf(),
            r.spec_phase() is Idle,
            r.spec_num_players() == num_players,
            r.spec_window() == window,
            r.spec_fps() == fps,
            r.spec_input_delay() == input_delay,
            r.spec_init() == initial_state@,
            r.spec_state() == initial_state@,
            r.spec_base_tick() == 0,
            r.spec_current_tick() == 0,
            r.spec_events().len() == 0,
            r.spec_peers().len() == 0,
            forall|h: int| 0 <= h < num_players ==> (#[trigger] r.spec_confirmed(h)).len() == 0,
            forall|h: int| 0 <= h < num_players ==> (#[trigger] r.spec_disconnect_tick(h)) is None,
    {
        let mut confirmed: Vec<Vec<u8>> = Vec::new();
        let mut disconnect_tick: Vec<Option<usize>> = Vec::new();
        let mut i: usize = 0;
        while i < num_players
            invariant
                i <= num_players,
                confirmed@.len() == i as int,
                disconnect_tick@.len() == i as int,
                forall|h: int| 0 <= h < i ==> confirmed@[h]@.len() == 0,
                forall|h: int| 0 <= h < i ==> disconnect_tick@[h] is None,
            decreases num_players - i,
        {
            confirmed.push(Vec::new());
            disconnect_tick.push(None);
            i = i + 1;
        }
        let base_state = copy_u64s(&initial_state);
        let current_state = copy_u64s(&initial_state);
        let r = Session {
            registry: PeerRegistry::new(num_players),
            num_players,
            window,
            fps,
            input_delay,
            local_handle: 0,
            phase: Phase::Idle,
            confirmed,
            disconnect_tick,
            init_state: initial_state,
            base_tick: 0,
            base_state,
            current_tick: 0,
            current_state,
            events: Vec::new(),
        };
        proof {
            assert(r.spec_inputs_through(0).len() == 0);
            assert(r.spec_sim_to(0) == r.spec_init());
        }
        r
    }

    /// Registers a peer while idle; the returned handle is the peer's
    /// index in enumeration order. Fails with `CapacityExceeded` once
    /// the configured player count is reached.
    pub fn add_peer(&mut self, id: u64) -> (r: Result<usize, SessionError>)
        requires
            old(self).wf(),
            old(self).spec_phase() is Idle,
        ensures
            final(self).wf(),
            final(self).spec_phase() is Idle,
            old(self).spec_peers().len() < old(self).spec_num_players() ==> {
                &&& r == Ok::<usize, SessionError>(old(self).spec_peers().len() as usize)
                &&& final(self).spec_peers() == old(self).spec_peers().push(
                    PeerEntry { id, state: PeerState::Connecting },
                )
            },
            old(self).spec_peers().len() >= old(self).spec_num_players() ==> {
                &&& r == Err::<usize, SessionError>(SessionError::CapacityExceeded)
                &&& final(self).spec_peers() == old(self).spec_peers()
            },
            unchanged_but_peers(*old(self), *final(self)),
    {
        let r = self.registry.add_peer(id);
        proof {
            Self::lemma_replay_determinism(*old(self), *self, old(self).base_tick as int);
            Self::lemma_replay_determinism(*old(self), *self, old(self).current_tick as int);
        }
        r
    }

    /// Marks the peer at `handle` connected and logs the transition.
    pub fn peer_connected(&mut self, handle: usize)
        requires
            old(self).wf(),
            old(self).spec_phase() is Idle,
            handle < old(self).spec_peers().len(),
        ensures
            final(self).wf(),
            final(self).spec_phase() is Idle,
            final(self).spec_peers() == old(self).spec_peers().update(
                handle as int,
                PeerEntry {
                    id: old(self).spec_peers()[handle as int].id,
                    state: PeerState::Connected,
                },
            ),
            final(self).spec_events() == old(self).spec_events().push(
                SessionEvent::PeerConnected { handle },
            ),
            unchanged_but_peers_events(*old(self), *final(self)),
    {
        self.registry.set_state(handle, PeerState::Connected);
        self.events.push(SessionEvent::PeerConnected { handle });
        proof {
            Self::lemma_replay_determinism(*old(self), *self, old(self).base_tick as int);
            Self::lemma_replay_determinism(*old(self), *self, old(self).current_tick as int);
        }
    }

    /// Starts the steady loop once every configured slot is connected:
    /// `Idle` moves to `Running`, the local handle is fixed, and the
    /// local lane is pre-filled with the default input for the first
    /// `input_delay` ticks (a delayed press cannot land earlier).
    /// Returns whether the session started.
    pub fn try_start(&mut self, local_handle: usize) -> (started: bool)
        requires
            old(self).wf(),
            old(self).spec_phase() is Idle,
            local_handle < old(self).spec_num_players(),
        ensures
            final(self).wf(),
            final(self).spec_num_players() == old(self).spec_num_players(),
            final(self).spec_window() == old(self).spec_window(),
            final(self).spec_fps() == old(self).spec_fps(),
            final(self).spec_input_delay() == old(self).spec_input_delay(),
            final(self).spec_init() == old(self).spec_init(),
            final(self).spec_peers() == old(self).spec_peers(),
            final(self).spec_events() == old(self).spec_events(),
            final(self).spec_state() == old(self).spec_state(),
            forall|h: int|
                0 <= h < old(self).spec_num_players() ==> final(self).spec_disconnect_tick(h)
                    == old(self).spec_disconnect_tick(h),
            started <==> spec_connected_count(old(self).spec_peers())
                == old(self).spec_num_players(),
            !started ==> *final(self) == *old(self),
            started ==> {
                &&& final(self).spec_phase() is Running
                &&& final(self).spec_local() == local_handle
                &&& final(self).spec_current_tick() == 0
                &&& final(self).spec_base_tick() == 0
                &&& final(self).spec_confirmed(local_handle as int) == Seq::new(
                    old(self).spec_input_delay() as nat,
                    |t: int| 0u8,
                )
                &&& forall|h: int|
                    0 <= h < old(self).spec_num_players() && h != local_handle
                        ==> final(self).spec_confirmed(h) == old(self).spec_confirmed(h)
            },
    {
        proof {
            crate::registry::lemma_connected_count_le(self.registry@);
        }
        if self.registry.connected_count() < self.num_players {
            return false;
        }
        self.phase = Phase::Running;
        self.local_handle = local_handle;
        let mut i: usize = 0;
        let ghost pre = *self;
        proof {
            assert(self.confirmed@[local_handle as int]@ =~= Seq::new(0nat, |t: int| 0u8));
        }
        while i < self.input_delay
            invariant
                i <= self.input_delay,
                pre.lanes_ok(),
                pre.phase is Running,
                pre.base_tick == 0,
                pre.current_tick == 0,
                local_handle < pre.num_players,
                *self == (Session { confirmed: self.confirmed, ..pre }),
                self.confirmed@.len() == pre.confirmed@.len(),
                self.confirmed@[local_handle as int]@ == Seq::new(
                    i as nat,
                    |t: int| 0u8,
                ),
                forall|h: int|
                    0 <= h < pre.confirmed@.len() && h != local_handle
                        ==> self.confirmed@[h] == pre.confirmed@[h],
            decreases self.input_delay - i,
        {
            let lane = &mut self.confirmed[local_handle];
            lane.push(0u8);
            proof {
                assert(self.confirmed@[local_handle as int]@ =~= Seq::new(
                    (i + 1) as nat,
                    |t: int| 0u8,
                ));
            }
            i = i + 1;
        }
        proof {
            assert(self.spec_inputs_through(0).len() == 0);
            assert(self.spec_sim_to(0) == self.spec_init());
        }
        true
    }

    /// A tick with an undetermined input keeps that gap across any
    /// change that leaves the lanes alone.
    proof fn lemma_frontier_blocked(a: Session, b: Session, t: int)
        requires
            b.confirmed == a.confirmed,
            b.disconnect_tick == a.disconnect_tick,
            b.num_players == a.num_players,
            !(forall|h: int| 0 <= h < a.spec_num_players() ==> a.spec_known(h, t)),
        ensures
            !(forall|h: int| 0 <= h < b.spec_num_players() ==> b.spec_known(h, t)),
    {
        let h0 = choose|h: int| 0 <= h < a.spec_num_players() && !a.spec_known(h, t);
        assert(!b.spec_known(h0, t));
    }

    /// One simulation step moves the replayed state from `tick` to
    /// `tick + 1`.
    proof fn lemma_sim_unfold(s: Session, t: int)
        requires
            0 <= t,
        ensures
            s.spec_sim_to(t + 1) == spec_step(s.spec_sim_to(t), s.spec_input_vec(t)),
    {
        assert(s.spec_inputs_through(t + 1) =~= s.spec_inputs_through(t).push(
            s.spec_input_vec(t),
        ));
        crate::sim::lemma_replay_snoc(s.spec_init(), s.spec_inputs_through(t), s.spec_input_vec(t));
    }

    /// The replayed state has one counter per player.
    proof fn lemma_sim_len(s: Session, t: int)
        requires
            s.init_state@.len() == s.num_players,
        ensures
            s.spec_sim_to(t).len() == s.num_players,
            s.spec_input_vec(t).len() == s.num_players,
    {
        crate::sim::lemma_replay_len(s.spec_init(), s.spec_inputs_through(t));
    }

    /// Changing fields outside the lanes and the configuration leaves
    /// every resolved input, and with it the replay, untouched.
    proof fn lemma_sim_same_lanes(a: Session, b: Session, t: int)
        requires
            0 <= t,
            b.init_state == a.init_state,
            b.num_players == a.num_players,
            b.confirmed == a.confirmed,
            b.disconnect_tick == a.disconnect_tick,
        ensures
            b.spec_sim_to(t) == a.spec_sim_to(t),
    {
        Self::lemma_replay_determinism(a, b, t);
    }

    /// Appending one confirmed input to the lane of `h0` resolves the
    /// same inputs below `t` as before, provided the lane already
    /// covered `t`, or the appended value equals what prediction was
    /// handing out for the lane's unconfirmed ticks. This is why a
    /// confirmation that matches its prediction needs no rollback.
    proof fn lemma_append_preserves_inputs(a: Session, b: Session, h0: int, bits: u8, t: int)
        requires
            0 <= t,
            0 <= h0 < a.num_players as int,
            b.num_players == a.num_players,
            b.init_state == a.init_state,
            b.disconnect_tick == a.disconnect_tick,
            a.confirmed@.len() == a.num_players as int,
            b.confirmed@.len() == a.confirmed@.len(),
            b.confirmed@[h0]@ == a.confirmed@[h0]@.push(bits),
            forall|j: int|
                0 <= j < a.confirmed@.len() && j != h0 ==> b.confirmed@[j] == a.confirmed@[j],
            !a.spec_is_disconnected(h0),
            t <= a.spec_confirmed_len(h0) || bits == a.spec_input(h0, a.spec_confirmed_len(h0)),
        ensures
            b.spec_sim_to(t) == a.spec_sim_to(t),
    {
        let len0 = a.spec_confirmed_len(h0);
        assert forall|h: int, tt: int|
            0 <= h < a.spec_num_players() && 0 <= tt < t implies (#[trigger] b.spec_input(h, tt))
                == (#[trigger] a.spec_input(h, tt)) by {
            if h == h0 {
                if tt < len0 {
                    assert(b.spec_confirmed(h0)[tt] == a.spec_confirmed(h0)[tt]);
                } else {
                    assert(bits == a.spec_input(h0, len0));
                }
            }
        }
        Self::lemma_replay_determinism(a, b, t);
    }

    /// Marking `h0` disconnected at the end of its confirmed lane
    /// resolves the same inputs below the lane's length as before.
    proof fn lemma_disconnect_preserves_inputs(a: Session, b: Session, h0: int, t: int)
        requires
            0 <= t,
            0 <= h0 < a.num_players as int,
            b.num_players == a.num_players,
            b.init_state == a.init_state,
            b.confirmed == a.confirmed,
            a.disconnect_tick@.len() == a.num_players as int,
            a.disconnect_tick@[h0] is None,
            b.disconnect_tick@.len() == a.disconnect_tick@.len(),
            b.disconnect_tick@ == a.disconnect_tick@.update(
                h0,
                Some(a.spec_confirmed_len(h0) as usize),
            ),
            a.spec_confirmed_len(h0) <= usize::MAX,
            t <= a.spec_confirmed_len(h0),
        ensures
            b.spec_sim_to(t) == a.spec_sim_to(t),
    {
        assert forall|h: int, tt: int|
            0 <= h < a.spec_num_players() && 0 <= tt < t implies (#[trigger] b.spec_input(h, tt))
                == (#[trigger] a.spec_input(h, tt)) by {
            if h == h0 {
                assert(!b.spec_disconnected_at(h0, tt));
                assert(!a.spec_disconnected_at(h0, tt));
            }
        }
        Self::lemma_replay_determinism(a, b, t);
    }

    /// The input vector the simulation consumes at `tick`.
    fn input_vec_at(&self, tick: usize) -> (r: Vec<u8>)
        requires
            self.lanes_ok(),
        ensures
            r@ == self.spec_input_vec(tick as int),
    {
        let mut r: Vec<u8> = Vec::new();
        let mut h: usize = 0;
        while h < self.num_players
            invariant
                h <= self.num_players,
                self.lanes_ok(),
                r@.len() == h as int,
                forall|j: int| 0 <= j < h ==> r@[j] == self.spec_input(j, tick as int),
            decreases self.num_players - h,
        {
            let bits = self.input_at(h, tick);
            r.push(bits);
            h = h + 1;
        }
        proof {
            assert(r@ =~= self.spec_input_vec(tick as int));
        }
        r
    }

    /// Whether the true input of every handle at `tick` is determined.
    fn all_known_at(&self, tick: usize) -> (r: bool)
        requires
            self.lanes_ok(),
        ensures
            r <==> forall|h: int|
                0 <= h < self.spec_num_players() ==> self.spec_known(h, tick as int),
    {
        let mut h: usize = 0;
        while h < self.num_players
            invariant
                h <= self.num_players,
                self.lanes_ok(),
                forall|j: int| 0 <= j < h ==> self.spec_known(j, tick as int),
            decreases self.num_players - h,
        {
            let covered = tick < self.confirmed[h].len();
            let disconnected = self.disconnect_tick[h].is_some();
            if !covered && !disconnected {
                assert(!self.spec_known(h as int, tick as int));
                return false;
            }
            h = h + 1;
        }
        true
    }

    /// Moves `base_tick` forward over every tick whose inputs are all
    /// determined, stepping the base snapshot along; nothing else
    /// changes.
    fn advance_base(&mut self)
        requires
            old(self).mid_wf(),
        ensures
            final(self).mid_wf(),
            *final(self) == (Session {
                base_tick: final(self).base_tick,
                base_state: final(self).base_state,
                ..*old(self)
            }),
            old(self).base_tick <= final(self).base_tick,
            final(self).base_tick == final(self).current_tick || !(forall|h: int|
                0 <= h < final(self).spec_num_players() ==> final(self).spec_known(
                h,
                final(self).base_tick as int,
            )),
    {
        loop
            invariant
                self.mid_wf(),
                *self == (Session {
                    base_tick: self.base_tick,
                    base_state: self.base_state,
                    ..*old(self)
                }),
                old(self).base_tick <= self.base_tick,
            ensures
                self.base_tick == self.current_tick || !(forall|h: int|
                    0 <= h < self.spec_num_players() ==> self.spec_known(
                    h,
                    self.base_tick as int,
                )),
            decreases self.current_tick - self.base_tick,
        {
            if self.base_tick >= self.current_tick {
                break ;
            }
            if !self.all_known_at(self.base_tick) {
                break ;
            }
            let ghost pre = *self;
            let iv = self.input_vec_at(self.base_tick);
            proof {
                Self::lemma_sim_len(*self, self.base_tick as int);
            }
            let ns = step(&self.base_state, &iv);
            proof {
                Self::lemma_sim_unfold(*self, self.base_tick as int);
            }
            self.base_state = ns;
            self.base_tick = self.base_tick + 1;
            proof {
                Self::lemma_sim_same_lanes(pre, *self, self.base_tick as int);
                assert forall|h: int|
                    0 <= h < self.num_players as int implies self.base_tick <= (
                    #[trigger] self.confirmed@[h])@.len() || self.disconnect_tick@[h]
                    is Some by {
                    assert(pre.spec_known(h, pre.base_tick as int));
                }
            }
        }
    }

    /// Rolls back: recomputes the current snapshot by replaying from
    /// the base snapshot with the inputs as resolved now.
    fn resim(&mut self)
        requires
            old(self).mid_wf(),
        ensures
            final(self).wf(),
            *final(self) == (Session { current_state: final(self).current_state, ..*old(self) }),
    {
        let mut st = copy_u64s(&self.base_state);
        let mut t = self.base_tick;
        while t < self.current_tick
            invariant
                self.mid_wf(),
                self.base_tick <= t <= self.current_tick,
                st@ == self.spec_sim_to(t as int),
            decreases self.current_tick - t,
        {
            let iv = self.input_vec_at(t);
            proof {
                Self::lemma_sim_len(*self, t as int);
            }
            let ns = step(&st, &iv);
            proof {
                Self::lemma_sim_unfold(*self, t as int);
            }
            st = ns;
            t = t + 1;
        }
        self.current_state = st;
        proof {
            Self::lemma_sim_same_lanes(*old(self), *self, self.base_tick as int);
            Self::lemma_sim_same_lanes(*old(self), *self, self.current_tick as int);
        }
    }

    /// Leaves `Stalled` for `Running` once the prediction window has
    /// room again.
    fn unstall(&mut self)
        requires
            old(self).wf(),
        ensures
            final(self).wf(),
            *final(self) == (Session { phase: final(self).phase, ..*old(self) }),
            final(self).phase == (if old(self).phase is Stalled && old(self).current_tick
                - old(self).base_tick < old(self).window {
                Phase::Running
            } else {
                old(self).phase
            }),
    {
        let stalled = matches!(self.phase, Phase::Stalled);
        if stalled && self.current_tick - self.base_tick < self.window {
            self.phase = Phase::Running;
            proof {
                Self::lemma_sim_same_lanes(*old(self), *self, self.base_tick as int);
                Self::lemma_sim_same_lanes(*old(self), *self, self.current_tick as int);
            }
        }
    }

    /// Simulates one tick, or stalls: if the scheduler is already a
    /// full prediction window past `base_tick` it refuses to advance
    /// and moves to `Stalled` until confirmations catch up; otherwise
    /// it steps the simulation with the inputs resolved for
    /// `current_tick` (predicting every missing remote input) and runs
    /// in `Running`. Returns whether a tick was simulated.
    pub fn advance(&mut self) -> (advanced: bool)
        requires
            old(self).wf(),
            old(self).spec_phase() is Running || old(self).spec_phase() is Stalled,
            old(self).spec_current_tick() < usize::MAX,
        ensures
            final(self).wf(),
            advanced <==> old(self).spec_current_tick() < old(self).spec_base_tick() + old(
                self,
            ).spec_window(),
            unchanged_core(*old(self), *final(self)),
            unchanged_lanes(*old(self), *final(self)),
            final(self).spec_events() == old(self).spec_events(),
            final(self).spec_base_tick() == old(self).spec_base_tick(),
            !advanced ==> final(self).spec_phase() is Stalled,
            !advanced ==> final(self).spec_current_tick() == old(self).spec_current_tick(),
            !advanced ==> final(self).spec_state() == old(self).spec_state(),
            advanced ==> final(self).spec_current_tick() == old(self).spec_current_tick() + 1,
            advanced ==> final(self).spec_phase() is Running,
            advanced ==> final(self).spec_state() == old(self).spec_sim_to(
                old(self).spec_current_tick() + 1,
            ),
            final(self).spec_current_tick() <= final(self).spec_base_tick()
                + final(self).spec_window(),
    {
        if self.current_tick - self.base_tick >= self.window {
            self.phase = Phase::Stalled;
            proof {
                Self::lemma_sim_same_lanes(*old(self), *self, self.base_tick as int);
                Self::lemma_sim_same_lanes(*old(self), *self, self.current_tick as int);
            }
            return false;
        }
        let iv = self.input_vec_at(self.current_tick);
        proof {
            Self::lemma_sim_len(*self, self.current_tick as int);
        }
        let ns = step(&self.current_state, &iv);
        proof {
            Self::lemma_sim_unfold(*self, self.current_tick as int);
        }
        self.current_state = ns;
        self.current_tick = self.current_tick + 1;
        self.phase = Phase::Running;
        proof {
            Self::lemma_sim_same_lanes(*old(self), *self, self.base_tick as int);
            Self::lemma_sim_same_lanes(*old(self), *self, self.current_tick as int);
        }
        true
    }

    /// Records the local input pressed at local tick `tick`; the input
    /// delay schedules it for simulation tick `tick + input_delay`.
    /// Only the next unrecorded local tick is accepted: anything else
    /// is out of order and rejected with `StaleInput`.
    pub fn submit_local_input(&mut self, tick: usize, bits: u8) -> (r: Result<(), SessionError>)
        requires
            old(self).wf(),
            old(self).spec_phase() is Running || old(self).spec_phase() is Stalled,
        ensures
            final(self).wf(),
            final(self).spec_phase() is Running || final(self).spec_phase() is Stalled,
            r is Ok ==> (final(self).spec_current_tick() < final(self).spec_base_tick() + final(self).spec_window() ==> final(self).spec_phase() is Running),
            r is Ok ==> (final(self).spec_base_tick() == final(self).spec_current_tick() || !(
            forall|h: int|
                0 <= h < final(self).spec_num_players() ==> final(self).spec_known(
                h,
                final(self).spec_base_tick() as int,
            ))),
            r is Ok <==> tick + old(self).spec_input_delay() == old(self).spec_confirmed_len(
                old(self).spec_local() as int,
            ),
            r is Err ==> r == Err::<(), SessionError>(SessionError::StaleInput) && *final(self)
                == *old(self),
            unchanged_core(*old(self), *final(self)),
            r is Ok ==> final(self).spec_confirmed(old(self).spec_local() as int) == old(
                self,
            ).spec_confirmed(old(self).spec_local() as int).push(bits),
            r is Ok ==> forall|h: int|
                0 <= h < old(self).spec_num_players() && h != old(self).spec_local()
                    ==> final(self).spec_confirmed(h) == old(self).spec_confirmed(h),
            final(self).spec_current_tick() == old(self).spec_current_tick(),
            old(self).spec_base_tick() <= final(self).spec_base_tick(),
            final(self).spec_events() == old(self).spec_events(),
            forall|h: int|
                0 <= h < old(self).spec_num_players() ==> final(self).spec_disconnect_tick(h)
                    == old(self).spec_disconnect_tick(h),
    {
        let local = self.local_handle;
        let len = self.confirmed[local].len();
        if self.input_delay > usize::MAX - tick {
            return Err(SessionError::StaleInput);
        }
        if tick + self.input_delay != len {
            return Err(SessionError::StaleInput);
        }
        let predicted = self.input_at(local, len);
        lane_push(&mut self.confirmed, local, bits);
        let ghost pushed = *self;
        proof {
            Self::lemma_append_preserves_inputs(
                *old(self),
                pushed,
                local as int,
                bits,
                self.base_tick as int,
            );
        }
        if bits == predicted || len >= self.current_tick {
            proof {
                Self::lemma_append_preserves_inputs(
                    *old(self),
                    pushed,
                    local as int,
                    bits,
                    self.current_tick as int,
                );
            }
            self.advance_base();
            let ghost after_base = *self;
            proof {
                Self::lemma_sim_same_lanes(pushed, *self, self.current_tick as int);
            }
            self.unstall();
            proof {
                if after_base.base_tick < after_base.current_tick {
                    Self::lemma_frontier_blocked(after_base, *self, after_base.base_tick as int);
                }
            }
        } else {
            self.advance_base();
            let ghost after_base = *self;
            self.resim();
            self.unstall();
            proof {
                if after_base.base_tick < after_base.current_tick {
                    Self::lemma_frontier_blocked(after_base, *self, after_base.base_tick as int);
                }
            }
        }
        Ok(())
    }

    /// Merges one remote confirmation. It is accepted exactly when the
    /// session runs, the handle is a connected remote one and `tick`
    /// is the next unconfirmed tick of its lane (earlier ticks are
    /// immutable, later ones would leave a gap). On a mismatch with
    /// the prediction the scheduler rolls back and replays; either
    /// way the exposed state is the replay of the inputs as resolved
    /// after the confirmation.
    pub fn confirm_remote_input(&mut self, handle: usize, tick: usize, bits: u8) -> (accepted:
        bool)
        requires
            old(self).wf(),
            handle < old(self).spec_num_players(),
        ensures
            final(self).wf(),
            accepted <==> ((old(self).spec_phase() is Running || old(self).spec_phase()
                is Stalled) && handle != old(self).spec_local() && !old(self).spec_is_disconnected(
                handle as int,
            ) && tick == old(self).spec_confirmed_len(handle as int)),
            !accepted ==> *final(self) == *old(self),
            unchanged_core(*old(self), *final(self)),
            accepted ==> (final(self).spec_phase() is Running || final(self).spec_phase()
                is Stalled),
            accepted ==> (final(self).spec_current_tick() < final(self).spec_base_tick() + final(self).spec_window() ==> final(self).spec_phase() is Running),
            accepted ==> (final(self).spec_base_tick() == final(self).spec_current_tick() || !(
            forall|h: int|
                0 <= h < final(self).spec_num_players() ==> final(self).spec_known(
                h,
                final(self).spec_base_tick() as int,
            ))),
            accepted ==> final(self).spec_confirmed(handle as int) == old(self).spec_confirmed(
                handle as int,
            ).push(bits),
            accepted ==> forall|h: int|
                0 <= h < old(self).spec_num_players() && h != handle
                    ==> final(self).spec_confirmed(h) == old(self).spec_confirmed(h),
            final(self).spec_current_tick() == old(self).spec_current_tick(),
            old(self).spec_base_tick() <= final(self).spec_base_tick(),
            final(self).spec_events() == old(self).spec_events(),
            final(self).spec_state() == final(self).spec_sim_to(
                final(self).spec_current_tick() as int,
            ),
            forall|h: int|
                0 <= h < old(self).spec_num_players() ==> final(self).spec_disconnect_tick(h)
                    == old(self).spec_disconnect_tick(h),
    {
        proof {
            self.lemma_wf_facts();
        }
        let running = matches!(self.phase, Phase::Running | Phase::Stalled);
        if !running || handle == self.local_handle {
            return false;
        }
        if self.disconnect_tick[handle].is_some() {
            return false;
        }
        let len = self.confirmed[handle].len();
        if tick != len {
            return false;
        }
        let predicted = self.input_at(handle, len);
        lane_push(&mut self.confirmed, handle, bits);
        let ghost pushed = *self;
        proof {
            Self::lemma_append_preserves_inputs(
                *old(self),
                pushed,
                handle as int,
                bits,
                self.base_tick as int,
            );
        }
        if bits == predicted || len >= self.current_tick {
            proof {
                Self::lemma_append_preserves_inputs(
                    *old(self),
                    pushed,
                    handle as int,
                    bits,
                    self.current_tick as int,
                );
            }
            self.advance_base();
            let ghost after_base = *self;
            proof {
                Self::lemma_sim_same_lanes(pushed, *self, self.current_tick as int);
            }
            self.unstall();
            proof {
                if after_base.base_tick < after_base.current_tick {
                    Self::lemma_frontier_blocked(after_base, *self, after_base.base_tick as int);
                }
            }
        } else {
            self.advance_base();
            let ghost after_base = *self;
            self.resim();
            self.unstall();
            proof {
                if after_base.base_tick < after_base.current_tick {
                    Self::lemma_frontier_blocked(after_base, *self, after_base.base_tick as int);
                }
            }
        }
        true
    }

    /// Marks a remote handle as lost. Its inputs from the end of its
    /// confirmed lane on become the fixed default, so the handle never
    /// again blocks confirmation; the scheduler reconciles at once.
    /// When the last remote peer is gone the session terminates and
    /// surfaces `SessionLost`. Marking an already disconnected handle
    /// changes nothing.
    pub fn mark_disconnected(&mut self, handle: usize)
        requires
            old(self).wf(),
            old(self).spec_phase() is Running || old(self).spec_phase() is Stalled,
            handle < old(self).spec_num_players(),
            handle != old(self).spec_local(),
        ensures
            final(self).wf(),
            unchanged_config(*old(self), *final(self)),
            final(self).spec_current_tick() == old(self).spec_current_tick(),
            old(self).spec_base_tick() <= final(self).spec_base_tick(),
            old(self).spec_is_disconnected(handle as int) ==> *final(self) == *old(self),
            forall|t: int|
                old(self).spec_confirmed_len(handle as int) <= t ==> (#[trigger] final(self).spec_input(handle as int, t)) == 0 && final(self).spec_status(handle as int, t)
                    is Disconnected,
            !old(self).spec_is_disconnected(handle as int) ==> (!(final(self).spec_phase()
                is Terminated) ==> (final(self).spec_current_tick() < final(self).spec_base_tick()
                + final(self).spec_window() ==> final(self).spec_phase() is Running)),
            !old(self).spec_is_disconnected(handle as int) ==> (final(self).spec_base_tick()
                == final(self).spec_current_tick() || !(forall|h: int|
                0 <= h < final(self).spec_num_players() ==> final(self).spec_known(
                h,
                final(self).spec_base_tick() as int,
            ))),
            !old(self).spec_is_disconnected(handle as int) ==> {
                &&& final(self).spec_disconnect_tick(handle as int) matches Some(dt) && dt == old(
                    self,
                ).spec_confirmed_len(handle as int)
                &&& forall|h: int|
                    0 <= h < old(self).spec_num_players() ==> #[trigger] final(self).spec_confirmed(h) == old(self).spec_confirmed(h)
                &&& forall|h: int|
                    0 <= h < old(self).spec_num_players() && h != handle ==> #[trigger] final(self).spec_disconnect_tick(h) == old(self).spec_disconnect_tick(h)
                &&& final(self).spec_peers() == old(self).spec_peers().update(
                    handle as int,
                    PeerEntry {
                        id: old(self).spec_peers()[handle as int].id,
                        state: PeerState::Disconnected,
                    },
                )
                &&& final(self).spec_current_tick() == old(self).spec_current_tick()
                &&& old(self).spec_base_tick() <= final(self).spec_base_tick()
                &&& ((forall|j: int|
                    0 <= j < old(self).spec_num_players() && j != old(self).spec_local()
                        ==> #[trigger] final(self).spec_is_disconnected(j)) ==> final(self).spec_phase() is Terminated && final(self).spec_events() == old(
                    self,
                ).spec_events().push(SessionEvent::PeerDisconnected { handle }).push(
                    SessionEvent::SessionLost,
                ))
                &&& (!(forall|j: int|
                    0 <= j < old(self).spec_num_players() && j != old(self).spec_local()
                        ==> #[trigger] final(self).spec_is_disconnected(j)) ==> !(final(self).spec_phase() is Terminated) && final(self).spec_events() == old(
                    self,
                ).spec_events().push(SessionEvent::PeerDisconnected { handle }))
            },
    {
        proof {
            self.lemma_wf_facts();
        }
        if self.disconnect_tick[handle].is_some() {
            return ;
        }
        let len = self.confirmed[handle].len();
        self.disconnect_tick.set(handle, Some(len));
        self.registry.set_state(handle, PeerState::Disconnected);
        self.events.push(SessionEvent::PeerDisconnected { handle });
        proof {
            Self::lemma_disconnect_preserves_inputs(
                *old(self),
                *self,
                handle as int,
                self.base_tick as int,
            );
        }
        self.advance_base();
        let ghost after_base = *self;
        self.resim();
        self.unstall();
        let mut all_gone = true;
        let mut h: usize = 0;
        while h < self.num_players
            invariant
                h <= self.num_players,
                self.lanes_ok(),
                all_gone <==> (forall|j: int|
                    0 <= j < h && j != self.local_handle as int ==> (
                    #[trigger] self.disconnect_tick@[j]) is Some),
            decreases self.num_players - h,
        {
            if h != self.local_handle {
                if self.disconnect_tick[h].is_none() {
                    all_gone = false;
                }
            }
            h = h + 1;
        }
        if all_gone {
            let ghost before = *self;
            self.phase = Phase::Terminated;
            self.events.push(SessionEvent::SessionLost);
            proof {
                Self::lemma_sim_same_lanes(before, *self, self.base_tick as int);
                Self::lemma_sim_same_lanes(before, *self, self.current_tick as int);
            }
        }
        proof {
            if all_gone {
                assert forall|j: int|
                    0 <= j < self.num_players as int && j != self.local_handle as int implies
                    #[trigger] self.spec_is_disconnected(j) by {
                    assert(self.disconnect_tick@[j] is Some);
                }
            } else {
                let j0 = choose|j: int|
                    0 <= j < self.num_players as int && j != self.local_handle as int && !((
                    #[trigger] self.disconnect_tick@[j]) is Some);
                assert(!self.spec_is_disconnected(j0));
            }
            if after_base.base_tick < after_base.current_tick {
                Self::lemma_frontier_blocked(after_base, *self, after_base.base_tick as int);
            }
        }
    }

    /// Terminates the session; the snapshots and the history keep
    /// their last values.
    pub fn shutdown(&mut self)
        requires
            old(self).wf(),
            !(old(self).spec_phase() is Idle),
        ensures
            final(self).wf(),
            final(self).spec_phase() is Terminated,
            unchanged_core(*old(self), *final(self)),
            unchanged_lanes(*old(self), *final(self)),
            final(self).spec_events() == old(self).spec_events(),
            final(self).spec_base_tick() == old(self).spec_base_tick(),
            final(self).spec_current_tick() == old(self).spec_current_tick(),
            final(self).spec_state() == old(self).spec_state(),
    {
        self.phase = Phase::Terminated;
        proof {
            Self::lemma_sim_same_lanes(*old(self), *self, self.base_tick as int);
            Self::lemma_sim_same_lanes(*old(self), *self, self.current_tick as int);
        }
    }

    /// Hands the pending notifications to the caller and clears the
    /// log.
    pub fn drain_events(&mut self) -> (r: Vec<SessionEvent>)
        requires
            old(self).wf(),
        ensures
            final(self).wf(),
            r@ == old(self).spec_events(),
            final(self).spec_events().len() == 0,
            unchanged_core(*old(self), *final(self)),
            unchanged_lanes(*old(self), *final(self)),
            final(self).spec_phase() == old(self).spec_phase(),
            final(self).spec_base_tick() == old(self).spec_base_tick(),
            final(self).spec_current_tick() == old(self).spec_current_tick(),
            final(self).spec_state() == old(self).spec_state(),
    {
        let mut out: Vec<SessionEvent> = Vec::new();
        let mut i: usize = 0;
        while i < self.events.len()
            invariant
                i <= self.events@.len(),
                out@ == self.events@.take(i as int),
                *self == *old(self),
            decreases self.events@.len() - i,
        {
            let e = self.events[i];
            out.push(e);
            proof {
                assert(self.events@.take(i + 1int) =~= self.events@.take(i as int).push(e));
            }
            i = i + 1;
        }
        proof {
            assert(self.events@.take(self.events@.len() as int) =~= self.events@);
        }
        self.events = Vec::new();
        proof {
            Self::lemma_sim_same_lanes(*old(self), *self, self.base_tick as int);
            Self::lemma_sim_same_lanes(*old(self), *self, self.current_tick as int);
        }
        out
    }

    /// The resolved input and its status for `(handle, tick)`.
    ///
    /// The status is `Confirmed` exactly when the true input for that
    /// tick has been recorded — never earlier — and a disconnected
    /// handle resolves to the default input from its disconnect tick
    /// on, whatever arrives later.
    pub fn get_input(&self, handle: usize, tick: usize) -> (r: (u8, ConfirmationStatus))
        requires
            self.wf(),
            handle < self.spec_num_players(),
        ensures
            r.0 == self.spec_input(handle as int, tick as int),
            r.1 == self.spec_status(handle as int, tick as int),
            r.1 is Confirmed ==> tick < self.spec_confirmed_len(handle as int),
            self.spec_disconnected_at(handle as int, tick as int) ==> r == (
                0u8,
                ConfirmationStatus::Disconnected,
            ),
    {
        let status = match self.disconnect_tick[handle] {
            Some(dt) => {
                if tick >= dt {
                    ConfirmationStatus::Disconnected
                } else {
                    ConfirmationStatus::Confirmed
                }
            },
            None => {
                if tick < self.confirmed[handle].len() {
                    ConfirmationStatus::Confirmed
                } else {
                    ConfirmationStatus::Predicted
                }
            },
        };
        let bits = self.input_at(handle, tick);
        (bits, status)
    }

    /// Recomputes the simulation state at any already simulated tick
    /// by replaying the resolved inputs from the initial state.
    pub fn state_at(&self, tick: usize) -> (r: Vec<u64>)
        requires
            self.wf(),
            tick <= self.spec_current_tick(),
        ensures
            r@ == self.spec_sim_to(tick as int),
    {
        let mut st = copy_u64s(&self.init_state);
        let mut t: usize = 0;
        while t < tick
            invariant
                self.wf(),
                t <= tick,
                st@ == self.spec_sim_to(t as int),
            decreases tick - t,
        {
            proof {
                self.lemma_wf_facts();
            }
            let iv = self.input_vec_at(t);
            proof {
                Self::lemma_sim_len(*self, t as int);
            }
            let ns = step(&st, &iv);
            proof {
                Self::lemma_sim_unfold(*self, t as int);
            }
            st = ns;
            t = t + 1;
        }
        st
    }

    pub fn num_players(&self) -> (r: usize)
        ensures
            r == self.spec_num_players(),
    {
        self.num_players
    }

    pub fn max_prediction_window(&self) -> (r: usize)
        ensures
            r == self.spec_window(),
    {
        self.window
    }

    pub fn fps(&self) -> (r: usize)
        ensures
            r == self.spec_fps(),
    {
        self.fps
    }

    pub fn input_delay(&self) -> (r: usize)
        ensures
            r == self.spec_input_delay(),
    {
        self.input_delay
    }

    pub fn local_handle(&self) -> (r: usize)
        ensures
            r == self.spec_local(),
    {
        self.local_handle
    }

    pub fn phase(&self) -> (r: Phase)
        ensures
            r == self.spec_phase(),
    {
        self.phase
    }

    /// The next tick to simulate: everything below it has been
    /// simulated, confirmed or predicted.
    pub fn current_tick(&self) -> (r: usize)
        ensures
            r == self.spec_current_tick(),
    {
        self.current_tick
    }

    /// The last fully confirmed tick: every input below it is known.
    pub fn confirmed_tick(&self) -> (r: usize)
        ensures
            r == self.spec_base_tick(),
    {
        self.base_tick
    }

    /// The current simulation state, one counter per player.
    pub fn state(&self) -> (r: &Vec<u64>)
        ensures
            r@ == self.spec_state(),
    {
        &self.current_state
    }

    /// How many inputs of `handle` have been confirmed.
    pub fn confirmed_len(&self, handle: usize) -> (r: usize)
        requires
            self.wf(),
            handle < self.spec_num_players(),
        ensures
            r == self.spec_confirmed_len(handle as int),
    {
        self.confirmed[handle].len()
    }

    pub fn is_disconnected(&self, handle: usize) -> (r: bool)
        requires
            self.wf(),
            handle < self.spec_num_players(),
        ensures
            r == self.spec_is_disconnected(handle as int),
    {
        self.disconnect_tick[handle].is_some()
    }

    /// The registered peers in handle order.
    pub fn peers(&self) -> (r: &Vec<PeerEntry>)
        ensures
            r@ == self.spec_peers(),
    {
        self.registry.peers()
    }

    /// Builds the packet to send this tick: the tail of the local
    /// confirmed lane, up to a full prediction window of redundancy.
    pub fn make_packet(&self) -> (r: InputPacket)
        requires
            self.wf(),
        ensures
            r.handle == self.spec_local(),
            r.start_tick + r.bits@.len() == self.spec_confirmed_len(self.spec_local() as int),
            r.bits@.len() == (if self.spec_confirmed_len(self.spec_local() as int)
                <= self.spec_window() {
                self.spec_confirmed_len(self.spec_local() as int)
            } else {
                self.spec_window() as int
            }),
            r.bits@ == self.spec_confirmed(self.spec_local() as int).subrange(
                r.start_tick as int,
                self.spec_confirmed_len(self.spec_local() as int),
            ),
    {
        let local = self.local_handle;
        let len = self.confirmed[local].len();
        let take = if len < self.window {
            len
        } else {
            self.window
        };
        let start = len - take;
        let mut bits: Vec<u8> = Vec::new();
        let mut i: usize = start;
        while i < len
            invariant
                self.wf(),
                local == self.local_handle,
                len == self.spec_confirmed_len(local as int),
                start <= i <= len,
                bits@ == self.spec_confirmed(local as int).subrange(start as int, i as int),
            decreases len - i,
        {
            let b = self.confirmed[local][i];
            bits.push(b);
            proof {
                assert(self.spec_confirmed(local as int).subrange(start as int, i + 1int)
                    =~= self.spec_confirmed(local as int).subrange(start as int, i as int).push(
                    b,
                ));
            }
            i = i + 1;
        }
        InputPacket { handle: local, start_tick: start, bits }
    }

    /// Whether a packet run for `handle` covering ticks
    /// `[start, start + count)` carries something this session can
    /// absorb: the session runs, the handle is a connected remote one,
    /// the run reaches the lane's confirmed frontier without leaving a
    /// gap, and its ticks are countable on this machine.
    pub open spec fn spec_packet_merges(&self, handle: int, start: int, count: int) -> bool {
        &&& self.spec_phase() is Running || self.spec_phase() is Stalled
        &&& 0 <= handle < self.spec_num_players()
        &&& handle != self.spec_local()
        &&& !self.spec_is_disconnected(handle)
        &&& 0 <= start <= self.spec_confirmed_len(handle)
        &&& self.spec_confirmed_len(handle) < start + count
        &&& start + count <= usize::MAX
    }

    /// Decodes a received packet and merges every confirmation it
    /// carries through [`Self::confirm_remote_input`]; already
    /// confirmed ticks in the carried range are skipped, so redundant
    /// resends are harmless. A malformed packet is rejected with
    /// `DecodeError` and changes nothing. Returns how many inputs
    /// were newly confirmed.
    pub fn apply_packet(&mut self, bytes: &Vec<u8>) -> (r: Result<usize, SessionError>)
        requires
            old(self).wf(),
        ensures
            final(self).wf(),
            r is Err <==> !crate::transport::spec_wire_ok(bytes@),
            (old(self).spec_phase() is Running || old(self).spec_phase() is Stalled) ==> (final(self).spec_phase() is Running || final(self).spec_phase() is Stalled),
            r is Err ==> r == Err::<usize, SessionError>(SessionError::DecodeError) && *final(self) == *old(self),
            final(self).spec_current_tick() == old(self).spec_current_tick(),
            old(self).spec_base_tick() <= final(self).spec_base_tick(),
            final(self).spec_events() == old(self).spec_events(),
            final(self).spec_state() == final(self).spec_sim_to(
                final(self).spec_current_tick() as int,
            ),
            forall|h: int|
                0 <= h < old(self).spec_num_players() ==> final(self).spec_disconnect_tick(h)
                    == old(self).spec_disconnect_tick(h),
            r matches Ok(k) ==> ({
                let dh = spec_u16_from_le_bytes(bytes@.subrange(0, 2)) as int;
                let dstart = spec_u64_from_le_bytes(bytes@.subrange(2, 10)) as int;
                let dbits = bytes@.subrange(12, bytes@.len() as int);
                &&& (old(self).spec_packet_merges(dh, dstart, dbits.len() as int) ==> {
                    &&& k == dstart + dbits.len() - old(self).spec_confirmed_len(dh)
                    &&& final(self).spec_confirmed(dh) == old(self).spec_confirmed(dh)
                        + dbits.subrange(
                        old(self).spec_confirmed_len(dh) - dstart,
                        dbits.len() as int,
                    )
                    &&& forall|h: int|
                        0 <= h < old(self).spec_num_players() && h != dh ==> #[trigger] final(self).spec_confirmed(h) == old(self).spec_confirmed(h)
                })
                &&& (!old(self).spec_packet_merges(dh, dstart, dbits.len() as int) ==> {
                    &&& k == 0
                    &&& forall|h: int|
                        0 <= h < old(self).spec_num_players() ==> #[trigger] final(self).spec_confirmed(h) == old(self).spec_confirmed(h)
                })
            }),
    {
        proof {
            self.lemma_wf_facts();
        }
        let p = match crate::transport::decode_packet(bytes) {
            Ok(p) => p,
            Err(e) => {
                return Err(e);
            },
        };
        let running = matches!(self.phase, Phase::Running | Phase::Stalled);
        if !running || p.handle >= self.num_players || p.handle == self.local_handle {
            return Ok(0);
        }
        if self.disconnect_tick[p.handle].is_some() {
            return Ok(0);
        }
        let len0 = self.confirmed[p.handle].len();
        if p.start_tick > len0 {
            // A gap: nothing in the run lands on the frontier.
            return Ok(0);
        }
        if p.bits.len() > usize::MAX - p.start_tick {
            // The run's ticks outrun this machine's counter.
            return Ok(0);
        }
        if p.start_tick + p.bits.len() <= len0 {
            // Everything the run carries is already confirmed.
            return Ok(0);
        }
        let ghost start0 = *self;
        let mut i: usize = len0 - p.start_tick;
        while i < p.bits.len()
            invariant
                self.wf(),
                p.handle < start0.spec_num_players(),
                p.handle != start0.spec_local(),
                !start0.spec_is_disconnected(p.handle as int),
                p.start_tick + p.bits@.len() <= usize::MAX,
                len0 == start0.spec_confirmed_len(p.handle as int),
                p.start_tick <= len0,
                len0 - p.start_tick <= i <= p.bits@.len(),
                self.spec_confirmed_len(p.handle as int) == p.start_tick + i,
                self.spec_confirmed(p.handle as int) == start0.spec_confirmed(p.handle as int)
                    + p.bits@.subrange((len0 - p.start_tick) as int, i as int),
                forall|h: int|
                    0 <= h < start0.spec_num_players() && h != p.handle as int
                        ==> #[trigger] self.spec_confirmed(h) == start0.spec_confirmed(h),
                unchanged_core(start0, *self),
                self.spec_phase() is Running || self.spec_phase() is Stalled,
                self.spec_current_tick() == start0.spec_current_tick(),
                start0.spec_base_tick() <= self.spec_base_tick(),
                self.spec_events() == start0.spec_events(),
                forall|h: int|
                    0 <= h < start0.spec_num_players() ==> self.spec_disconnect_tick(h)
                        == start0.spec_disconnect_tick(h),
            decreases p.bits@.len() - i,
        {
            let accepted = self.confirm_remote_input(p.handle, p.start_tick + i, p.bits[i]);
            proof {
                assert(accepted);
                assert(self.spec_confirmed(p.handle as int) =~= start0.spec_confirmed(
                    p.handle as int,
                ) + p.bits@.subrange((len0 - p.start_tick) as int, i + 1int));
            }
            i = i + 1;
        }
        Ok(p.bits.len() - (len0 - p.start_tick))
    }

    /// The true input of `(handle, tick)`: the default over a
    /// disconnected range, otherwise the confirmed value. Only
    /// meaningful where the input is known.
    pub open spec fn spec_true_input(&self, handle: int, tick: int) -> u8 {
        if self.spec_disconnected_at(handle, tick) {
            0
        } else {
            self.spec_confirmed(handle)[tick]
        }
    }

    /// A `Confirmed` status is only ever reported for a tick whose
    /// true input has been received and recorded in the handle's lane.
    pub proof fn lemma_confirmed_only_after_receipt(&self, handle: int, tick: int)
        ensures
            self.spec_status(handle, tick) is Confirmed ==> tick < self.spec_confirmed_len(
                handle,
            ),
    {
    }

    /// The stall bound: the scheduler never advances past the last
    /// fully confirmed tick plus the prediction window.
    pub proof fn lemma_stall_bound(&self)
        requires
            self.wf(),
        ensures
            self.spec_current_tick() <= self.spec_base_tick() + self.spec_window(),
            forall|h: int, t: int|
                0 <= h < self.spec_num_players() && 0 <= t < self.spec_base_tick()
                    ==> self.spec_known(h, t),
    {
        self.lemma_wf_facts();
    }

    /// Once a handle is disconnected at `tick`, its input there is the
    /// fixed default, it is reported `Disconnected`, and it counts as
    /// known — so it never blocks the confirmation of a tick for the
    /// other handles.
    pub proof fn lemma_disconnected_default(&self, handle: int, tick: int)
        requires
            self.spec_disconnected_at(handle, tick),
        ensures
            self.spec_input(handle, tick) == 0,
            self.spec_status(handle, tick) is Disconnected,
            self.spec_known(handle, tick),
    {
    }

    /// Rollback correctness: once every input below `t` is known, the
    /// replayed state at `t` is a function of the true inputs alone.
    /// Whatever was predicted meanwhile, and however late the
    /// confirmations arrived, leaves no trace: two sessions that agree
    /// on the true inputs below `t` agree on the state at `t`.
    pub proof fn lemma_reconciliation(a: Session, b: Session, t: int)
        requires
            0 <= t,
            b.spec_init() == a.spec_init(),
            b.spec_num_players() == a.spec_num_players(),
            forall|h: int, tt: int|
                0 <= h < a.spec_num_players() && 0 <= tt < t ==> #[trigger] a.spec_known(h, tt),
            forall|h: int, tt: int|
                0 <= h < a.spec_num_players() && 0 <= tt < t ==> #[trigger] b.spec_known(h, tt),
            forall|h: int, tt: int|
                0 <= h < a.spec_num_players() && 0 <= tt < t ==> (#[trigger] a.spec_true_input(
                    h,
                    tt,
                )) == (#[trigger] b.spec_true_input(h, tt)),
        ensures
            b.spec_sim_to(t) == a.spec_sim_to(t),
    {
        assert forall|h: int, tt: int|
            0 <= h < a.spec_num_players() && 0 <= tt < t implies (#[trigger] b.spec_input(h, tt))
                == (#[trigger] a.spec_input(h, tt)) by {
            assert(a.spec_known(h, tt) && b.spec_known(h, tt));
            assert(a.spec_true_input(h, tt) == b.spec_true_input(h, tt));
            assert(a.spec_input(h, tt) == a.spec_true_input(h, tt));
            assert(b.spec_input(h, tt) == b.spec_true_input(h, tt));
        }
        Self::lemma_replay_determinism(a, b, t);
    }

    /// The resolved input alone; the structural part of the invariant
    /// is enough for it.
    fn input_at(&self, handle: usize, tick: usize) -> (r: u8)
        requires
            self.lanes_ok(),
            handle < self.spec_num_players(),
        ensures
            r == self.spec_input(handle as int, tick as int),
    {
        match self.disconnect_tick[handle] {
            Some(dt) => {
                if tick >= dt {
                    return 0;
                }
            },
            None => {},
        }
        let lane = &self.confirmed[handle];
        if tick < lane.len() {
            lane[tick]
        } else if lane.len() > 0 {
            lane[lane.len() - 1]
        } else {
            0
        }
    }
}

/// The configuration, identity and peer registry of `b` equal `a`'s.
pub open spec fn unchanged_core(a: Session, b: Session) -> bool {
    &&& unchanged_config(a, b)
    &&& b.spec_peers() == a.spec_peers()
}

/// The configuration and identity of `b` equal `a`'s; the peer
/// registry may differ.
pub open spec fn unchanged_config(a: Session, b: Session) -> bool {
    &&& b.spec_num_players() == a.spec_num_players()
    &&& b.spec_window() == a.spec_window()
    &&& b.spec_fps() == a.spec_fps()
    &&& b.spec_input_delay() == a.spec_input_delay()
    &&& b.spec_local() == a.spec_local()
    &&& b.spec_init() == a.spec_init()
}

/// The input lanes of `b` equal `a`'s.
pub open spec fn unchanged_lanes(a: Session, b: Session) -> bool {
    &&& forall|h: int|
        0 <= h < a.spec_num_players() ==> #[trigger] b.spec_confirmed(h) == a.spec_confirmed(h)
    &&& forall|h: int|
        0 <= h < a.spec_num_players() ==> #[trigger] b.spec_disconnect_tick(h)
            == a.spec_disconnect_tick(h)
}

/// Everything of `b` but the peer registry equals `a`.
pub open spec fn unchanged_but_peers(a: Session, b: Session) -> bool {
    &&& b.spec_num_players() == a.spec_num_players()
    &&& b.spec_window() == a.spec_window()
    &&& b.spec_fps() == a.spec_fps()
    &&& b.spec_input_delay() == a.spec_input_delay()
    &&& b.spec_local() == a.spec_local()
    &&& b.spec_init() == a.spec_init()
    &&& b.spec_state() == a.spec_state()
    &&& b.spec_base_tick() == a.spec_base_tick()
    &&& b.spec_current_tick() == a.spec_current_tick()
    &&& b.spec_events() == a.spec_events()
    &&& forall|h: int|
        0 <= h < a.spec_num_players() ==> #[trigger] b.spec_confirmed(h) == a.spec_confirmed(h)
    &&& forall|h: int|
        0 <= h < a.spec_num_players() ==> #[trigger] b.spec_disconnect_tick(h)
            == a.spec_disconnect_tick(h)
}

/// Everything of `b` but the peer registry and the event log equals `a`.
pub open spec fn unchanged_but_peers_events(a: Session, b: Session) -> bool {
    &&& b.spec_num_players() == a.spec_num_players()
    &&& b.spec_window() == a.spec_window()
    &&& b.spec_fps() == a.spec_fps()
    &&& b.spec_input_delay() == a.spec_input_delay()
    &&& b.spec_local() == a.spec_local()
    &&& b.spec_init() == a.spec_init()
    &&& b.spec_state() == a.spec_state()
    &&& b.spec_base_tick() == a.spec_base_tick()
    &&& b.spec_current_tick() == a.spec_current_tick()
    &&& forall|h: int|
        0 <= h < a.spec_num_players() ==> #[trigger] b.spec_confirmed(h) == a.spec_confirmed(h)
    &&& forall|h: int|
        0 <= h < a.spec_num_players() ==> #[trigger] b.spec_disconnect_tick(h)
            == a.spec_disconnect_tick(h)
}

/// Appends one confirmed input to the lane of `h`, leaving every
/// other lane untouched.
fn lane_push(lanes: &mut Vec<Vec<u8>>, h: usize, bits: u8)
    requires
        h < old(lanes)@.len(),
    ensures
        final(lanes)@.len() == old(lanes)@.len(),
        final(lanes)@[h as int]@ == old(lanes)@[h as int]@.push(bits),
        forall|j: int|
            0 <= j < old(lanes)@.len() && j != h ==> final(lanes)@[j] == old(lanes)@[j],
{
    let lane = &mut lanes[h];
    lane.push(bits);
}

/// A plain element-wise copy of a state vector.
fn copy_u64s(v: &Vec<u64>) -> (r: Vec<u64>)
    ensures
        r@ == v@,
{
    let mut r: Vec<u64> = Vec::new();
    let mut i: usize = 0;
    while i < v.len()
        invariant
            i <= v@.len(),
            r@ == v@.take(i as int),
        decreases v@.len() - i,
    {
        let x = v[i];
        r.push(x);
        proof {
            assert(v@.take(i + 1int) =~= v@.take(i as int).push(x));
        }
        i = i + 1;
    }
    proof {
        assert(v@.take(v@.len() as int) =~= v@);
    }
    r
}

} // verus!
