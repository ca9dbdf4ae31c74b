use bytes::{BufMut, BytesMut};
use limbo_core::network::frame::{
    parse_frame, FrameAssembler, FRAME_PREFIX_MAX_BYTES, MAX_FRAME_LENGTH,
};

fn buffer_of(bytes: &[u8]) -> BytesMut {
    let mut buffer = BytesMut::new();
    buffer.put_slice(bytes);
    buffer
}

fn on_the_wire(payload: &[u8]) -> Vec<u8> {
    let mut length = payload.len();
    let mut bytes = Vec::new();
    while length >= 128 {
        bytes.push((length % 128) as u8 | 0x80);
        length /= 128;
    }
    bytes.push(length as u8);
    bytes.extend_from_slice(payload);
    bytes
}

#[test]
fn frame_split_over_two_writes_comes_out_after_the_second() {
    let mut assembler = FrameAssembler::new();
    assembler.feed(&[0x03, 0x01]);
    assert!(assembler.next_frame().is_none());
    assert_eq!(assembler.pending_len(), 2);
    assembler.feed(&[0x02, 0x03]);
    let frame = assembler.next_frame().unwrap();
    assert_eq!(&frame[..], &[0x01, 0x02, 0x03]);
    assert_eq!(frame.len(), 3);
    assert!(assembler.next_frame().is_none());
    assert_eq!(assembler.pending_len(), 0);
}

#[test]
fn whole_frame_comes_out_of_the_buffer() {
    let mut buffer = buffer_of(&[0x03, 0x01, 0x02, 0x03]);
    let frame = parse_frame(&mut buffer).unwrap();
    assert_eq!(&frame[..], &[0x01, 0x02, 0x03]);
    assert_eq!(buffer.len(), 0);
}

#[test]
fn bytes_behind_a_frame_stay_in_the_buffer() {
    let mut buffer = buffer_of(&[0x02, 0xaa, 0xbb, 0x05, 0xcc]);
    let frame = parse_frame(&mut buffer).unwrap();
    assert_eq!(&frame[..], &[0xaa, 0xbb]);
    assert_eq!(&buffer[..], &[0x05, 0xcc]);
    assert!(parse_frame(&mut buffer).is_none());
    assert_eq!(&buffer[..], &[0x05, 0xcc]);
}

#[test]
fn empty_buffer_holds_no_frame() {
    let mut buffer = BytesMut::new();
    assert!(parse_frame(&mut buffer).is_none());
    assert_eq!(buffer.len(), 0);
    let mut assembler = FrameAssembler::new();
    assert!(assembler.next_frame().is_none());
    assert!(assembler.take_frames().is_empty());
    assert_eq!(assembler.pending_len(), 0);
}

#[test]
fn frame_of_no_bytes_is_a_frame() {
    let mut buffer = buffer_of(&[0x00, 0x01, 0x07]);
    let frame = parse_frame(&mut buffer).unwrap();
    assert_eq!(frame.len(), 0);
    assert_eq!(&buffer[..], &[0x01, 0x07]);
    let frame = parse_frame(&mut buffer).unwrap();
    assert_eq!(&frame[..], &[0x07]);
    assert_eq!(buffer.len(), 0);
}

#[test]
fn unfinished_length_leaves_the_buffer_untouched() {
    let mut buffer = buffer_of(&[0x80]);
    assert!(parse_frame(&mut buffer).is_none());
    assert_eq!(&buffer[..], &[0x80]);
    let mut buffer = buffer_of(&[0xff, 0xff]);
    assert!(parse_frame(&mut buffer).is_none());
    assert_eq!(&buffer[..], &[0xff, 0xff]);
}

#[test]
fn unfinished_payload_leaves_the_buffer_untouched() {
    let mut buffer = buffer_of(&[0x04, 0x01, 0x02, 0x03]);
    assert!(parse_frame(&mut buffer).is_none());
    assert_eq!(&buffer[..], &[0x04, 0x01, 0x02, 0x03]);
    let mut buffer = buffer_of(&[0x01]);
    assert!(parse_frame(&mut buffer).is_none());
    assert_eq!(&buffer[..], &[0x01]);
}

#[test]
fn length_of_more_than_three_bytes_is_never_a_frame() {
    assert_eq!(FRAME_PREFIX_MAX_BYTES, 3);
    let mut buffer = buffer_of(&[0x80, 0x80, 0x80, 0x00, 0x00]);
    assert!(parse_frame(&mut buffer).is_none());
    assert_eq!(&buffer[..], &[0x80, 0x80, 0x80, 0x00, 0x00]);
    let mut buffer = buffer_of(&[0x81, 0x80, 0x80, 0x01]);
    assert!(parse_frame(&mut buffer).is_none());
    assert_eq!(buffer.len(), 4);
}

#[test]
fn length_may_take_two_or_three_bytes() {
    let payload = vec![0x5a; 300];
    let wire = on_the_wire(&payload);
    assert_eq!(&wire[..2], &[0xac, 0x02]);
    let mut buffer = buffer_of(&wire);
    let frame = parse_frame(&mut buffer).unwrap();
    assert_eq!(&frame[..], &payload[..]);
    assert_eq!(buffer.len(), 0);

    let payload = vec![0xa5; 20000];
    let wire = on_the_wire(&payload);
    assert_eq!(&wire[..3], &[0xa0, 0x9c, 0x01]);
    let mut buffer = buffer_of(&wire[..wire.len() - 1]);
    assert!(parse_frame(&mut buffer).is_none());
    assert_eq!(buffer.len(), wire.len() - 1);
    buffer.put_u8(0xa5);
    let frame = parse_frame(&mut buffer).unwrap();
    assert_eq!(&frame[..], &payload[..]);
    assert_eq!(buffer.len(), 0);
}

#[test]
fn longest_frame_comes_out_whole() {
    assert_eq!(MAX_FRAME_LENGTH, 2097151);
    let payload = vec![0x11; MAX_FRAME_LENGTH];
    let wire = on_the_wire(&payload);
    assert_eq!(&wire[..3], &[0xff, 0xff, 0x7f]);
    let mut buffer = buffer_of(&wire);
    buffer.put_u8(0x42);
    let frame = parse_frame(&mut buffer).unwrap();
    assert_eq!(frame.len(), MAX_FRAME_LENGTH);
    assert_eq!(&buffer[..], &[0x42]);
}

#[test]
fn padded_length_is_read_as_written() {
    let mut buffer = buffer_of(&[0x82, 0x00, 0x0a, 0x0b, 0x0c]);
    let frame = parse_frame(&mut buffer).unwrap();
    assert_eq!(&frame[..], &[0x0a, 0x0b]);
    assert_eq!(&buffer[..], &[0x0c]);
    let mut buffer = buffer_of(&[0x80, 0x80, 0x00, 0x0c]);
    let frame = parse_frame(&mut buffer).unwrap();
    assert_eq!(frame.len(), 0);
    assert_eq!(&buffer[..], &[0x0c]);
}

#[test]
fn frame_fed_byte_by_byte_comes_out_once_and_whole() {
    let payload: Vec<u8> = (0..200).map(|i| i as u8).collect();
    let wire = on_the_wire(&payload);
    let mut assembler = FrameAssembler::new();
    let mut frames = Vec::new();
    for (index, byte) in wire.iter().enumerate() {
        assembler.feed(&[*byte]);
        let taken = assembler.take_frames();
        if index + 1 < wire.len() {
            assert!(taken.is_empty());
            assert_eq!(assembler.pending_len(), index + 1);
        }
        frames.extend(taken);
    }
    assert_eq!(frames.len(), 1);
    assert_eq!(&frames[0][..], &payload[..]);
    assert_eq!(assembler.pending_len(), 0);

    let mut at_once = FrameAssembler::new();
    at_once.feed(&wire);
    let whole = at_once.take_frames();
    assert_eq!(whole.len(), 1);
    assert_eq!(whole[0], frames[0]);
}

#[test]
fn frames_do_not_depend_on_how_the_stream_is_cut() {
    let mut stream = Vec::new();
    stream.extend(on_the_wire(&[1, 2, 3]));
    stream.extend(on_the_wire(&[]));
    stream.extend(on_the_wire(&vec![7; 130]));
    stream.extend(on_the_wire(&[9]));
    stream.extend_from_slice(&[0x05, 0x01]);
    let mut at_once = FrameAssembler::new();
    at_once.feed(&stream);
    let expected = at_once.take_frames();
    assert_eq!(expected.len(), 4);
    assert_eq!(at_once.pending_len(), 2);
    for size in [1, 2, 3, 5, 7, 64, 129, 1000] {
        let mut assembler = FrameAssembler::new();
        let mut frames = Vec::new();
        for chunk in stream.chunks(size) {
            assembler.feed(chunk);
            frames.extend(assembler.take_frames());
        }
        assert_eq!(frames, expected);
        assert_eq!(assembler.pending_len(), 2);
    }
}

#[test]
fn take_frames_takes_every_whole_frame() {
    let mut assembler = FrameAssembler::new();
    assembler.feed(&[0x01, 0xaa, 0x02, 0xbb, 0xcc, 0x00, 0x03, 0xdd]);
    let frames = assembler.take_frames();
    assert_eq!(frames.len(), 3);
    assert_eq!(&frames[0][..], &[0xaa]);
    assert_eq!(&frames[1][..], &[0xbb, 0xcc]);
    assert_eq!(frames[2].len(), 0);
    assert_eq!(assembler.pending_len(), 2);
    assembler.feed(&[0xee, 0xff]);
    let frames = assembler.take_frames();
    assert_eq!(frames.len(), 1);
    assert_eq!(&frames[0][..], &[0xdd, 0xee, 0xff]);
    assert_eq!(assembler.pending_len(), 0);
}

#[test]
fn try_feed_appends_like_feed() {
    let mut assembler = FrameAssembler::new();
    assert!(assembler.try_feed(&[0x02, 0x01]));
    assert_eq!(assembler.pending_len(), 2);
    assert!(assembler.try_feed(&[]));
    assert_eq!(assembler.pending_len(), 2);
    assert!(assembler.try_feed(&[0x02]));
    let frame = assembler.next_frame().unwrap();
    assert_eq!(&frame[..], &[0x01, 0x02]);
}
