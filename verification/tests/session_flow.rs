use rollback_session::registry::PeerRegistry;
use rollback_session::session::Session;
use rollback_session::ConfirmationStatus;
use rollback_session::Phase;
use rollback_session::PeerState;
use rollback_session::SessionError;
use rollback_session::SessionEvent;

/// A started two-player session with the given local handle.
fn started_session(local: usize, window: usize, input_delay: usize) -> Session {
    let mut s = Session::new(2, window, 60, input_delay, vec![0u64, 0u64]);
    assert_eq!(s.add_peer(11), Ok(0));
    assert_eq!(s.add_peer(22), Ok(1));
    s.peer_connected(0);
    s.peer_connected(1);
    assert!(s.try_start(local));
    s
}

#[test]
fn capacity_exceeded_on_third_peer() {
    let mut s = Session::new(2, 12, 60, 2, vec![0u64, 0u64]);
    assert_eq!(s.add_peer(11), Ok(0));
    assert_eq!(s.add_peer(22), Ok(1));
    assert_eq!(s.add_peer(33), Err(SessionError::CapacityExceeded));
}

#[test]
fn start_waits_for_all_peers() {
    let mut s = Session::new(2, 12, 60, 2, vec![0u64, 0u64]);
    assert_eq!(s.add_peer(11), Ok(0));
    assert_eq!(s.add_peer(22), Ok(1));
    s.peer_connected(0);
    assert!(!s.try_start(0));
    assert_eq!(s.phase(), Phase::Idle);
    s.peer_connected(1);
    assert!(s.try_start(0));
    assert_eq!(s.phase(), Phase::Running);
    assert_eq!(s.local_handle(), 0);
}

#[test]
fn peer_events_are_logged_in_order() {
    let mut s = Session::new(2, 12, 60, 2, vec![0u64, 0u64]);
    s.add_peer(11).unwrap();
    s.add_peer(22).unwrap();
    s.peer_connected(0);
    s.peer_connected(1);
    let events = s.drain_events();
    assert_eq!(
        events,
        vec![
            SessionEvent::PeerConnected { handle: 0 },
            SessionEvent::PeerConnected { handle: 1 },
        ]
    );
    assert!(s.drain_events().is_empty());
}

#[test]
fn peers_are_listed_in_handle_order() {
    let mut s = Session::new(2, 12, 60, 2, vec![0u64, 0u64]);
    s.add_peer(11).unwrap();
    s.add_peer(22).unwrap();
    let peers = s.peers();
    assert_eq!(peers.len(), 2);
    assert_eq!(peers[0].id, 11);
    assert_eq!(peers[0].state, PeerState::Connecting);
    assert_eq!(peers[1].id, 22);
}

#[test]
fn registry_remove_peer_marks_its_entry_disconnected() {
    let mut r = PeerRegistry::new(3);
    assert_eq!(r.add_peer(7), Ok(0));
    assert_eq!(r.add_peer(8), Ok(1));
    assert_eq!(r.connected_count(), 0);
    r.set_state(0, PeerState::Connected);
    r.set_state(1, PeerState::Connected);
    assert_eq!(r.connected_count(), 2);
    assert!(r.remove_peer(7));
    assert!(!r.remove_peer(99));
    assert_eq!(r.peers()[0].state, PeerState::Disconnected);
    assert_eq!(r.peers()[1].state, PeerState::Connected);
    assert_eq!(r.connected_count(), 1);
}

#[test]
fn state_at_zero_is_the_initial_state() {
    let mut s = started_session(0, 12, 0);
    assert_eq!(s.state_at(0), vec![0u64, 0u64]);
    s.submit_local_input(0, 1).unwrap();
    assert!(s.advance());
    assert_eq!(s.state_at(0), vec![0u64, 0u64]);
    assert_eq!(&s.state_at(1), s.state());
}

#[test]
fn local_input_rejects_out_of_order_ticks() {
    let mut s = started_session(0, 12, 2);
    // The local lane is pre-filled for the delay, so tick 0 is next.
    assert_eq!(s.submit_local_input(1, 1), Err(SessionError::StaleInput));
    assert_eq!(s.submit_local_input(0, 1), Ok(()));
    // Tick 0 is now recorded and stale.
    assert_eq!(s.submit_local_input(0, 1), Err(SessionError::StaleInput));
    assert_eq!(s.submit_local_input(1, 0), Ok(()));
}

#[test]
fn input_delay_schedules_presses_later() {
    let mut s = started_session(0, 12, 2);
    s.submit_local_input(0, 7).unwrap();
    // The press at local tick 0 lands at simulation tick 2; the two
    // delay ticks before it hold the default.
    assert_eq!(s.get_input(0, 0), (0, ConfirmationStatus::Confirmed));
    assert_eq!(s.get_input(0, 1), (0, ConfirmationStatus::Confirmed));
    assert_eq!(s.get_input(0, 2), (7, ConfirmationStatus::Confirmed));
}

#[test]
fn get_input_predicts_last_confirmed_value() {
    let mut s = started_session(0, 12, 0);
    // Nothing of the remote handle has arrived: predict the default.
    assert_eq!(s.get_input(1, 0), (0, ConfirmationStatus::Predicted));
    assert!(s.confirm_remote_input(1, 0, 9));
    assert_eq!(s.get_input(1, 0), (9, ConfirmationStatus::Confirmed));
    // Beyond the confirmed run the last value is carried forward.
    assert_eq!(s.get_input(1, 5), (9, ConfirmationStatus::Predicted));
}

#[test]
fn confirmations_are_immutable_and_gap_free() {
    let mut s = started_session(0, 12, 0);
    assert!(s.confirm_remote_input(1, 0, 3));
    // A repeat for an already confirmed tick is dropped.
    assert!(!s.confirm_remote_input(1, 0, 4));
    assert_eq!(s.get_input(1, 0), (3, ConfirmationStatus::Confirmed));
    // A tick that would leave a gap is dropped.
    assert!(!s.confirm_remote_input(1, 2, 5));
    // The local lane takes no remote confirmations.
    assert!(!s.confirm_remote_input(0, 0, 5));
}

#[test]
fn scheduler_stalls_at_the_prediction_window() {
    let mut s = started_session(0, 3, 0);
    // No remote input ever arrives: the scheduler predicts three ticks
    // ahead and then refuses to pass confirmed_tick + window.
    for t in 0..3usize {
        s.submit_local_input(t, 0).unwrap();
        assert!(s.advance());
        assert_eq!(s.phase(), Phase::Running);
    }
    assert_eq!(s.current_tick(), 3);
    assert_eq!(s.confirmed_tick(), 0);
    assert!(!s.advance());
    assert_eq!(s.phase(), Phase::Stalled);
    assert_eq!(s.current_tick(), 3);
    // One remote confirmation moves the confirmed frontier and frees
    // the scheduler again.
    assert!(s.confirm_remote_input(1, 0, 0));
    assert_eq!(s.confirmed_tick(), 1);
    assert_eq!(s.phase(), Phase::Running);
    assert!(s.advance());
    assert_eq!(s.current_tick(), 4);
}

#[test]
fn disconnected_handle_stops_blocking_and_defaults() {
    // Three players, so one remote peer survives the other's loss.
    let mut s = Session::new(3, 4, 60, 0, vec![0u64, 0u64, 0u64]);
    s.add_peer(11).unwrap();
    s.add_peer(22).unwrap();
    s.add_peer(33).unwrap();
    s.peer_connected(0);
    s.peer_connected(1);
    s.peer_connected(2);
    assert!(s.try_start(0));
    // Handle 2 keeps confirming, handle 1 stays silent: the silent
    // handle alone holds the confirmed frontier back.
    for t in 0..4usize {
        s.submit_local_input(t, 1).unwrap();
        assert!(s.confirm_remote_input(2, t, 0));
        assert!(s.advance());
    }
    assert!(!s.advance());
    assert_eq!(s.phase(), Phase::Stalled);
    assert_eq!(s.confirmed_tick(), 0);
    // The silent peer drops out: its inputs become the default for
    // good, the frontier catches up and the stall clears.
    s.mark_disconnected(1);
    assert_eq!(s.phase(), Phase::Running);
    assert_eq!(s.confirmed_tick(), 4);
    assert!(s.advance());
    assert_eq!(s.get_input(1, 2), (0, ConfirmationStatus::Disconnected));
    assert_eq!(s.get_input(1, 100), (0, ConfirmationStatus::Disconnected));
    // Confirmations for a disconnected handle are dropped.
    assert!(!s.confirm_remote_input(1, 0, 5));
}

#[test]
fn losing_the_last_remote_peer_terminates() {
    let mut s = started_session(0, 12, 0);
    s.drain_events();
    s.mark_disconnected(1);
    assert_eq!(s.phase(), Phase::Terminated);
    let events = s.drain_events();
    assert_eq!(
        events,
        vec![
            SessionEvent::PeerDisconnected { handle: 1 },
            SessionEvent::SessionLost,
        ]
    );
}

#[test]
fn shutdown_terminates_in_place() {
    let mut s = started_session(0, 12, 0);
    s.submit_local_input(0, 1).unwrap();
    assert!(s.advance());
    let state_before = s.state().clone();
    s.shutdown();
    assert_eq!(s.phase(), Phase::Terminated);
    assert_eq!(s.state(), &state_before);
    assert_eq!(s.current_tick(), 1);
}
