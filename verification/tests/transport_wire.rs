use rollback_session::transport::decode_packet;
use rollback_session::transport::encode_packet;
use rollback_session::transport::InputPacket;
use rollback_session::SessionError;

#[test]
fn packet_round_trips_through_the_wire() {
    let p = InputPacket { handle: 1, start_tick: 300, bits: vec![0, 1, 0, 1, 9] };
    let bytes = encode_packet(&p);
    assert_eq!(bytes.len(), 12 + 5);
    let q = decode_packet(&bytes).unwrap();
    assert_eq!(q.handle, 1);
    assert_eq!(q.start_tick, 300);
    assert_eq!(q.bits, vec![0, 1, 0, 1, 9]);
}

#[test]
fn empty_packet_round_trips() {
    let p = InputPacket { handle: 0, start_tick: 0, bits: vec![] };
    let bytes = encode_packet(&p);
    assert_eq!(bytes.len(), 12);
    let q = decode_packet(&bytes).unwrap();
    assert_eq!(q.handle, 0);
    assert_eq!(q.start_tick, 0);
    assert!(q.bits.is_empty());
}

#[test]
fn wire_layout_is_little_endian() {
    let p = InputPacket { handle: 0x0102, start_tick: 0x0304, bits: vec![7] };
    let bytes = encode_packet(&p);
    assert_eq!(
        bytes,
        vec![0x02, 0x01, 0x04, 0x03, 0, 0, 0, 0, 0, 0, 1, 0, 7]
    );
}

#[test]
fn truncated_packet_is_rejected() {
    assert_eq!(decode_packet(&vec![]), Err(SessionError::DecodeError));
    assert_eq!(decode_packet(&vec![0; 11]), Err(SessionError::DecodeError));
}

#[test]
fn length_mismatch_is_rejected() {
    let p = InputPacket { handle: 3, start_tick: 8, bits: vec![1, 2, 3] };
    let mut bytes = encode_packet(&p);
    // One body byte lost in transit: the announced count no longer
    // matches.
    bytes.pop();
    assert_eq!(decode_packet(&bytes), Err(SessionError::DecodeError));
    // One byte of garbage appended.
    bytes.push(0);
    bytes.push(0);
    assert_eq!(decode_packet(&bytes), Err(SessionError::DecodeError));
}
