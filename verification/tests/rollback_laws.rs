use rollback_session::session::Session;
use rollback_session::transport::encode_packet;
use rollback_session::ConfirmationStatus;
use rollback_session::Phase;

/// A started two-player session with the given local handle.
fn started_pair_member(local: usize, window: usize, input_delay: usize) -> Session {
    let mut s = Session::new(2, window, 60, input_delay, vec![0u64, 0u64]);
    s.add_peer(11).unwrap();
    s.add_peer(22).unwrap();
    s.peer_connected(0);
    s.peer_connected(1);
    assert!(s.try_start(local));
    s
}

/// Sends each side's confirmed input window to the other.
fn exchange(a: &mut Session, b: &mut Session) {
    let from_a = encode_packet(&a.make_packet());
    let from_b = encode_packet(&b.make_packet());
    b.apply_packet(&from_a).unwrap();
    a.apply_packet(&from_b).unwrap();
}

#[test]
fn replay_is_deterministic_whatever_the_interleaving() {
    // Two observers of the same remote stream, one fed tick by tick,
    // one fed everything at once in a different call pattern, end in
    // the same state.
    let inputs: Vec<u8> = vec![1, 0, 3, 0, 0, 2, 1, 1];
    let mut one = started_pair_member(0, 12, 0);
    let mut two = started_pair_member(0, 12, 0);
    for (t, bits) in inputs.iter().enumerate() {
        one.submit_local_input(t, 0).unwrap();
        assert!(one.confirm_remote_input(1, t, *bits));
        assert!(one.advance());
    }
    for (t, bits) in inputs.iter().enumerate() {
        assert!(two.confirm_remote_input(1, t, *bits));
    }
    for t in 0..inputs.len() {
        two.submit_local_input(t, 0).unwrap();
        assert!(two.advance());
    }
    assert_eq!(one.state(), two.state());
    assert_eq!(one.confirmed_tick(), two.confirmed_tick());
}

#[test]
fn rollback_reconciles_to_the_true_inputs() {
    // The remote peer presses from tick 2 on, but nothing arrives for
    // four ticks: the local side simulates ahead on the prediction
    // that the remote input stays 0.
    let mut s = started_pair_member(0, 12, 0);
    for t in 0..4usize {
        s.submit_local_input(t, 1).unwrap();
        assert!(s.advance());
    }
    let mispredicted = s.state().clone();
    // The late packet confirms inputs that differ from the prediction
    // at ticks 2 and 3: the scheduler must roll back and replay.
    for (t, bits) in [0u8, 0, 5, 5].iter().enumerate() {
        assert!(s.confirm_remote_input(1, t, *bits));
    }
    assert_ne!(s.state(), &mispredicted);
    // An oracle that was handed the true inputs before simulating
    // anything reaches exactly the reconciled state, at every tick.
    let mut oracle = started_pair_member(0, 12, 0);
    for (t, bits) in [0u8, 0, 5, 5].iter().enumerate() {
        assert!(oracle.confirm_remote_input(1, t, *bits));
    }
    for t in 0..4usize {
        oracle.submit_local_input(t, 1).unwrap();
        assert!(oracle.advance());
    }
    assert_eq!(s.state(), oracle.state());
    for t in 0..5usize {
        assert_eq!(s.state_at(t), oracle.state_at(t));
    }
}

#[test]
fn matching_confirmation_leaves_the_state_alone() {
    // A confirmation that equals the predicted value must not change
    // the simulated state.
    let mut s = started_pair_member(0, 12, 0);
    assert!(s.confirm_remote_input(1, 0, 4));
    for t in 0..3usize {
        s.submit_local_input(t, 1).unwrap();
        assert!(s.advance());
    }
    let predicted = s.state().clone();
    // Ticks 1 and 2 were predicted as the last confirmed value, 4.
    assert!(s.confirm_remote_input(1, 1, 4));
    assert!(s.confirm_remote_input(1, 2, 4));
    assert_eq!(s.state(), &predicted);
    assert_eq!(s.confirmed_tick(), 3);
}

#[test]
fn two_peers_converge_through_the_wire() {
    // Peer A (handle 0) presses at local tick 5 with an input delay of
    // 2, so the press lands at simulation tick 7; peer B predicts the
    // default for A until that tick confirms.
    let window = 12;
    let delay = 2;
    let mut a = started_pair_member(0, window, delay);
    let mut b = started_pair_member(1, window, delay);
    for t in 0..5usize {
        a.submit_local_input(t, 0).unwrap();
        b.submit_local_input(t, 0).unwrap();
        exchange(&mut a, &mut b);
        assert!(a.advance());
        assert!(b.advance());
    }
    // Before A's press reaches B, B still predicts 0 for A's tick 7.
    assert_eq!(b.get_input(0, 7), (0, ConfirmationStatus::Predicted));
    a.submit_local_input(5, 1).unwrap();
    b.submit_local_input(5, 0).unwrap();
    exchange(&mut a, &mut b);
    // Tick 7 of A is now confirmed on B's side with the pressed value.
    assert_eq!(b.get_input(0, 7), (1, ConfirmationStatus::Confirmed));
    for t in 6..8usize {
        a.submit_local_input(t, 0).unwrap();
        b.submit_local_input(t, 0).unwrap();
        exchange(&mut a, &mut b);
        assert!(a.advance());
        assert!(b.advance());
    }
    // After confirmation, B's states at ticks 5 through 7 match A's.
    for t in 5..8usize {
        assert_eq!(a.state_at(t), b.state_at(t));
    }
}

#[test]
fn redundant_packets_are_harmless() {
    let mut a = started_pair_member(0, 12, 0);
    let mut b = started_pair_member(1, 12, 0);
    for t in 0..3usize {
        a.submit_local_input(t, 2).unwrap();
        b.submit_local_input(t, 3).unwrap();
    }
    let from_a = encode_packet(&a.make_packet());
    // The same packet delivered three times confirms three inputs
    // once.
    assert_eq!(b.apply_packet(&from_a), Ok(3));
    assert_eq!(b.apply_packet(&from_a), Ok(0));
    assert_eq!(b.apply_packet(&from_a), Ok(0));
    assert_eq!(b.confirmed_len(0), 3);
    assert_eq!(b.get_input(0, 2), (2, ConfirmationStatus::Confirmed));
}

#[test]
fn overlapping_packet_merges_only_the_new_tail() {
    let mut a = started_pair_member(0, 12, 0);
    let mut b = started_pair_member(1, 12, 0);
    for t in 0..2usize {
        a.submit_local_input(t, 4).unwrap();
    }
    // B already holds A's first two inputs.
    assert_eq!(b.apply_packet(&encode_packet(&a.make_packet())), Ok(2));
    for t in 2..5usize {
        a.submit_local_input(t, 6).unwrap();
    }
    // The next packet repeats ticks 0 and 1 and adds 2 through 4:
    // exactly the three new inputs are confirmed.
    assert_eq!(b.apply_packet(&encode_packet(&a.make_packet())), Ok(3));
    assert_eq!(b.confirmed_len(0), 5);
    assert_eq!(b.get_input(0, 1), (4, ConfirmationStatus::Confirmed));
    assert_eq!(b.get_input(0, 4), (6, ConfirmationStatus::Confirmed));
}

#[test]
fn stall_clears_with_the_freeing_confirmation() {
    // The resumption contract at work: a window-1 session stalls after
    // one tick, and the single freeing confirmation both advances the
    // frontier maximally and returns the phase to Running.
    let mut s = started_pair_member(0, 1, 0);
    s.submit_local_input(0, 1).unwrap();
    assert!(s.advance());
    assert!(!s.advance());
    assert_eq!(s.phase(), Phase::Stalled);
    assert!(s.confirm_remote_input(1, 0, 2));
    assert_eq!(s.confirmed_tick(), 1);
    assert_eq!(s.phase(), Phase::Running);
    assert!(s.advance());
}

#[test]
fn garbage_bytes_change_nothing() {
    let mut b = started_pair_member(1, 12, 0);
    let before_tick = b.current_tick();
    assert!(b.apply_packet(&vec![1, 2, 3]).is_err());
    assert_eq!(b.current_tick(), before_tick);
    assert_eq!(b.confirmed_len(0), 0);
}
