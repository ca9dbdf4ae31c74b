use bytes::{Bytes, BytesMut};
use limbo_core::network::connection::{
    decode_frame, ConnectionHandler, SERVER_ADDRESS_MAX_LENGTH,
};
use limbo_core::{ErrorKind, PacketBufferError, PacketBufferWrite};

fn greeting(address: &str, port: u16, next_state: i32) -> Vec<u8> {
    let mut payload = BytesMut::new();
    payload.write_var_i32(0);
    payload.write_var_i32(754);
    payload.write_string(&address.to_string());
    payload.write_u16(port);
    payload.write_var_i32(next_state);
    payload.to_vec()
}

fn framed(payload: &[u8]) -> Vec<u8> {
    let mut wire = BytesMut::new();
    wire.write_var_i32(payload.len() as i32);
    wire.write_u8_array(payload);
    wire.to_vec()
}

#[test]
fn frame_fields_are_decoded_in_order() {
    let payload = greeting("localhost", 25565, 1);
    assert_eq!(
        payload,
        vec![
            0x00, 0xf2, 0x05, 0x09, b'l', b'o', b'c', b'a', b'l', b'h', b'o', b's', b't', 0x63,
            0xdd, 0x01,
        ]
    );
    let fields = decode_frame(Bytes::from(payload)).unwrap();
    assert_eq!(fields.packet_id, 0);
    assert_eq!(fields.protocol_version, 754);
    assert_eq!(fields.server_address, "localhost");
    assert_eq!(fields.server_port, 25565);
    assert_eq!(fields.next_state, 1);
    assert_eq!(fields.bytes_left, 0);
}

#[test]
fn frame_fields_count_the_bytes_behind_them() {
    let mut payload = greeting("a", 1, 2);
    payload.extend_from_slice(&[9, 9, 9]);
    let fields = decode_frame(Bytes::from(payload)).unwrap();
    assert_eq!(fields.server_address, "a");
    assert_eq!(fields.server_port, 1);
    assert_eq!(fields.next_state, 2);
    assert_eq!(fields.bytes_left, 3);
}

#[test]
fn first_field_that_fails_decides_the_error() {
    assert_eq!(SERVER_ADDRESS_MAX_LENGTH, 32767);
    let empty = decode_frame(Bytes::new()).unwrap_err();
    assert_eq!(empty, PacketBufferError::NoMoreBytes);
    let long_id = decode_frame(Bytes::from(vec![0x80, 0x80, 0x80, 0x80, 0x80, 0x00])).unwrap_err();
    assert_eq!(long_id.kind(), ErrorKind::VarI32TooLong);
    let no_version = decode_frame(Bytes::from(vec![0x00])).unwrap_err();
    assert_eq!(no_version.kind(), ErrorKind::NoMoreBytes);
    let no_address = decode_frame(Bytes::from(vec![0x00, 0x01, 0x00])).unwrap_err();
    assert_eq!(no_address.kind(), ErrorKind::StringSizeZero);
    let bad_address = decode_frame(Bytes::from(vec![0x00, 0x01, 0x01, 0xff])).unwrap_err();
    assert_eq!(bad_address.kind(), ErrorKind::BadString);
    let no_port = decode_frame(Bytes::from(vec![0x00, 0x01, 0x01, b'a', 0x63])).unwrap_err();
    assert_eq!(no_port.kind(), ErrorKind::NoMoreBytes);
    let no_state = decode_frame(Bytes::from(vec![0x00, 0x01, 0x01, b'a', 0x63, 0xdd])).unwrap_err();
    assert_eq!(no_state.kind(), ErrorKind::NoMoreBytes);
}

#[test]
fn address_beyond_its_limit_is_refused() {
    let mut payload = BytesMut::new();
    payload.write_var_i32(0);
    payload.write_var_i32(754);
    payload.write_var_i32(32767 * 4 + 4);
    let error = decode_frame(payload.freeze()).unwrap_err();
    assert_eq!(error, PacketBufferError::StringTooLong);
}

#[test]
fn new_connection_reads_and_holds_nothing() {
    let handler = ConnectionHandler::new();
    assert!(handler.is_reading());
    assert!(handler.on_outbound());
    assert_eq!(handler.pending_len(), 0);
}

#[test]
fn read_reports_every_whole_frame() {
    let mut handler = ConnectionHandler::new();
    let mut wire = framed(&greeting("localhost", 25565, 1));
    wire.extend(framed(&greeting("example.org", 30000, 2)));
    wire.extend_from_slice(&[0x05, 0x00]);
    let reports = handler.on_read(&wire);
    assert_eq!(reports.len(), 2);
    let first = reports[0].as_ref().unwrap();
    assert_eq!(first.server_address, "localhost");
    assert_eq!(first.server_port, 25565);
    assert_eq!(first.next_state, 1);
    let second = reports[1].as_ref().unwrap();
    assert_eq!(second.server_address, "example.org");
    assert_eq!(second.server_port, 30000);
    assert_eq!(second.next_state, 2);
    assert!(handler.is_reading());
    assert_eq!(handler.pending_len(), 2);
}

#[test]
fn read_waits_for_the_rest_of_a_frame() {
    let mut handler = ConnectionHandler::new();
    let wire = framed(&greeting("localhost", 25565, 1));
    let (head, tail) = wire.split_at(5);
    assert!(handler.on_read(head).is_empty());
    assert!(handler.is_reading());
    assert_eq!(handler.pending_len(), 5);
    let reports = handler.on_read(tail);
    assert_eq!(reports.len(), 1);
    assert_eq!(reports[0].as_ref().unwrap().protocol_version, 754);
    assert_eq!(handler.pending_len(), 0);
}

#[test]
fn frame_that_cannot_be_decoded_is_reported_and_dropped() {
    let mut handler = ConnectionHandler::new();
    let mut wire = framed(&[0x00, 0x01, 0x00]);
    wire.extend(framed(&greeting("ok", 1, 1)));
    let reports = handler.on_read(&wire);
    assert_eq!(reports.len(), 2);
    assert_eq!(reports[0].as_ref().unwrap_err().kind(), ErrorKind::StringSizeZero);
    assert_eq!(reports[1].as_ref().unwrap().server_address, "ok");
    assert!(handler.is_reading());
    assert_eq!(handler.pending_len(), 0);
}

#[test]
fn read_of_no_bytes_closes_the_connection() {
    let mut handler = ConnectionHandler::new();
    assert!(handler.on_read(&[0x03, 0x01]).is_empty());
    assert!(handler.on_read(&[]).is_empty());
    assert!(!handler.is_reading());
    assert!(!handler.on_outbound());
    assert_eq!(handler.pending_len(), 2);
}

#[test]
fn closing_connection_ignores_what_arrives() {
    let mut handler = ConnectionHandler::new();
    handler.on_shutdown();
    assert!(!handler.is_reading());
    let reports = handler.on_read(&framed(&greeting("late", 1, 1)));
    assert!(reports.is_empty());
    assert_eq!(handler.pending_len(), 0);
    assert!(!handler.is_reading());
}

#[test]
fn failed_read_closes_the_connection() {
    let mut handler = ConnectionHandler::new();
    assert!(handler.on_read(&[0x02, 0x01]).is_empty());
    handler.on_read_error();
    assert!(!handler.is_reading());
    assert!(!handler.on_outbound());
    assert_eq!(handler.pending_len(), 2);
    handler.on_shutdown();
    assert!(!handler.is_reading());
}
