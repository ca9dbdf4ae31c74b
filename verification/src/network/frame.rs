//! Cutting a stream of bytes into frames.
//!
//! On the wire every frame is its payload's length as a variable-length
//! integer of at most three bytes, followed by the payload. Bytes arrive in
//! pieces of any size; they are collected in a receive buffer, and a frame
//! leaves the buffer only when all of it is there.

use bytes::{Bytes, BytesMut};
use vstd::prelude::*;
use vstd::slice::slice_subrange;

use crate::packet_buffer::buffers::{
    bytes_contents, bytes_copy_from_slice, bytes_mut_advance, bytes_mut_as_slice,
    bytes_mut_contents, bytes_mut_put_slice, bytes_mut_with_capacity,
};
use crate::packet_buffer::read::PacketBufferRead;
use crate::packet_buffer::wire::{
    continuation_run, group_weight, lemma_continuation_run_at_least, lemma_continuation_run_is,
    lemma_continuation_run_prefix, lemma_continuation_run_shape, lemma_group_weights,
    lemma_read_var_int_of_bytes, lemma_var_int_bytes_len, lemma_var_int_bytes_shape,
    lemma_var_int_value_bound, read_var_int, var_int_bytes, var_int_value, VarIntRead,
};

verus! {

/// Most bytes that the length in front of a frame may take.
pub const FRAME_PREFIX_MAX_BYTES: usize = 3;

/// Longest payload that a length of three bytes can declare.
pub const MAX_FRAME_LENGTH: usize = 2_097_151;

/// Room that a fresh receive buffer is made with.
pub const RECEIVE_BUFFER_CAPACITY: usize = 4096;

/// A payload as it goes over the wire: its length, then its bytes.
pub open spec fn frame_bytes(payload: Seq<u8>) -> Seq<u8> {
    var_int_bytes(payload.len()) + payload
}

/// The first frame in `buffer` and what follows it, if a whole frame is
/// there. There is none while the length is still incomplete, while the
/// payload is, and where three bytes do not end the length.
pub open spec fn next_frame(buffer: Seq<u8>) -> Option<(Seq<u8>, Seq<u8>)> {
    match read_var_int(buffer, FRAME_PREFIX_MAX_BYTES as nat) {
        VarIntRead::Value { value, consumed } => {
            if buffer.len() >= consumed + value {
                Some(
                    (
                        buffer.subrange(consumed as int, (consumed + value) as int),
                        buffer.skip((consumed + value) as int),
                    ),
                )
            } else {
                None
            }
        },
        VarIntRead::TooLong => None,
        VarIntRead::Incomplete => None,
    }
}

/// A frame takes at least the byte of its length out of the buffer.
pub proof fn lemma_next_frame_shrinks(buffer: Seq<u8>)
    ensures
        next_frame(buffer) matches Some((payload, rest)) ==> rest.len() < buffer.len()
            && rest.len() + payload.len() < buffer.len(),
{
}

/// Every whole frame in `buffer`, first to last, and the bytes behind the
/// last of them.
pub open spec fn all_frames(buffer: Seq<u8>) -> (Seq<Seq<u8>>, Seq<u8>)
    decreases buffer.len(),
{
    match next_frame(buffer) {
        Some((payload, rest)) => (seq![payload] + all_frames(rest).0, all_frames(rest).1),
        None => (Seq::empty(), buffer),
    }
}

/// The bytes of `chunks` in one piece.
pub open spec fn joined(chunks: Seq<Seq<u8>>) -> Seq<u8>
    decreases chunks.len(),
{
    if chunks.len() == 0 {
        Seq::empty()
    } else {
        chunks[0] + joined(chunks.skip(1))
    }
}

/// What a connection sees when `chunks` arrive one after the other on top of
/// `buffer` and every whole frame is taken out after each arrival: the
/// frames in the order in which they came out, and the bytes left at the end.
pub open spec fn frames_across(buffer: Seq<u8>, chunks: Seq<Seq<u8>>) -> (Seq<Seq<u8>>, Seq<u8>)
    decreases chunks.len(),
{
    if chunks.len() == 0 {
        (Seq::empty(), buffer)
    } else {
        let now = all_frames(buffer + chunks[0]);
        let later = frames_across(now.1, chunks.skip(1));
        (now.0 + later.0, later.1)
    }
}

/// Takes the first frame out of `buffer` if a whole frame is there, and
/// leaves the buffer as it is if not.
pub fn parse_frame(buffer: &mut BytesMut) -> (frame: Option<Bytes>)
    ensures
        match next_frame(bytes_mut_contents(*old(buffer))) {
            Some((payload, rest)) => frame is Some && bytes_contents(frame->0) == payload
                && bytes_mut_contents(*final(buffer)) == rest,
            None => frame is None && bytes_mut_contents(*final(buffer)) == bytes_mut_contents(
                *old(buffer),
            ),
        },
{
    let data: &[u8] = bytes_mut_as_slice(buffer);
    let ghost held = data@;
    let mut i: usize = 0;
    while i < FRAME_PREFIX_MAX_BYTES
        invariant
            i <= FRAME_PREFIX_MAX_BYTES,
            i <= held.len(),
            data@ == held,
            held == bytes_mut_contents(*buffer),
            held == bytes_mut_contents(*old(buffer)),
            forall|j: int| 0 <= j < i ==> held[j] >= 128,
        decreases FRAME_PREFIX_MAX_BYTES - i,
    {
        if i >= data.len() {
            proof {
                lemma_continuation_run_is(held, i as nat);
            }
            return None;
        }
        let byte: u8 = data[i];
        if byte & 0x80 == 0 {
            let prefix: &[u8] = slice_subrange(data, 0, i + 1);
            proof {
                assert(byte < 128) by (bit_vector)
                    requires
                        byte & 0x80 == 0,
                ;
                lemma_continuation_run_is(held, i as nat);
                assert forall|j: int| 0 <= j < i implies prefix@[j] >= 128 by {
                    assert(prefix@[j] == held[j]);
                }
                assert(prefix@[i as int] == held[i as int]);
                lemma_continuation_run_is(prefix@, i as nat);
                assert(prefix@.take(i + 1) =~= prefix@);
                assert(held.take(i + 1) =~= prefix@);
                lemma_var_int_value_bound(prefix@);
                lemma_group_weights();
                assert(group_weight(prefix@.len()) <= 0x20_0000);
            }
            let mut length_buf: Bytes = bytes_copy_from_slice(prefix);
            let length: i32 = match length_buf.read_var_i32() {
                Ok(length) => length,
                Err(_) => {
                    return None;
                },
            };
            let start: usize = i + 1;
            let wanted: usize = length as usize;
            if data.len() - start >= wanted {
                let payload: Bytes = bytes_copy_from_slice(
                    slice_subrange(data, start, start + wanted),
                );
                bytes_mut_advance(buffer, start + wanted);
                return Some(payload);
            }
            return None;
        }
        proof {
            assert(byte >= 128) by (bit_vector)
                requires
                    byte & 0x80 != 0,
            ;
        }
        i = i + 1;
    }
    proof {
        lemma_continuation_run_at_least(held, FRAME_PREFIX_MAX_BYTES as nat);
    }
    None
}

/// The payloads that `frames` hold, in order.
pub open spec fn payloads(frames: Seq<Bytes>) -> Seq<Seq<u8>> {
    Seq::new(frames.len(), |i: int| bytes_contents(frames[i]))
}

/// The receive buffer of one connection: bytes go in at the end as they
/// arrive, whole frames come out at the front.
pub struct FrameAssembler {
    buffer: BytesMut,
}

impl FrameAssembler {
    /// The bytes that have arrived and have not left in a frame, oldest
    /// first.
    pub closed spec fn pending(&self) -> Seq<u8> {
        bytes_mut_contents(self.buffer)
    }

    /// An empty receive buffer.
    pub fn new() -> (assembler: FrameAssembler)
        ensures
            assembler.pending() == Seq::<u8>::empty(),
    {
        FrameAssembler { buffer: bytes_mut_with_capacity(RECEIVE_BUFFER_CAPACITY) }
    }

    /// The number of bytes that wait in the buffer.
    pub fn pending_len(&self) -> (count: usize)
        ensures
            count == self.pending().len(),
    {
        bytes_mut_as_slice(&self.buffer).len()
    }

    /// Appends bytes that have arrived. Nothing is taken out.
    pub fn feed(&mut self, data: &[u8])
        requires
            old(self).pending().len() + data@.len() <= isize::MAX,
        ensures
            final(self).pending() == old(self).pending() + data@,
    {
        bytes_mut_put_slice(&mut self.buffer, data);
    }

    /// Appends bytes that have arrived, unless the buffer would then hold
    /// more than `isize::MAX` bytes: in that case nothing changes and the
    /// answer is `false`.
    pub fn try_feed(&mut self, data: &[u8]) -> (fed: bool)
        ensures
            fed == (old(self).pending().len() + data@.len() <= isize::MAX),
            fed ==> final(self).pending() == old(self).pending() + data@,
            !fed ==> final(self).pending() == old(self).pending(),
    {
        let held: usize = self.pending_len();
        if held <= isize::MAX as usize && data.len() <= isize::MAX as usize - held {
            self.feed(data);
            true
        } else {
            false
        }
    }

    /// Takes the first frame out of the buffer if a whole frame is there,
    /// and leaves the buffer as it is if not.
    pub fn next_frame(&mut self) -> (frame: Option<Bytes>)
        ensures
            match next_frame(old(self).pending()) {
                Some((payload, rest)) => frame is Some && bytes_contents(frame->0) == payload
                    && final(self).pending() == rest,
                None => frame is None && final(self).pending() == old(self).pending(),
            },
    {
        parse_frame(&mut self.buffer)
    }

    /// Takes every whole frame out of the buffer, first to last. What stays
    /// is the start of a frame that has not arrived in full.
    pub fn take_frames(&mut self) -> (frames: Vec<Bytes>)
        ensures
            payloads(frames@) == all_frames(old(self).pending()).0,
            final(self).pending() == all_frames(old(self).pending()).1,
    {
        let mut frames: Vec<Bytes> = Vec::new();
        loop
            invariant
                all_frames(old(self).pending()).0 == payloads(frames@) + all_frames(
                    self.pending(),
                ).0,
                all_frames(old(self).pending()).1 == all_frames(self.pending()).1,
            ensures
                payloads(frames@) == all_frames(old(self).pending()).0,
                self.pending() == all_frames(old(self).pending()).1,
            decreases self.pending().len(),
        {
            let ghost before = self.pending();
            let ghost taken = payloads(frames@);
            match self.next_frame() {
                Some(frame) => {
                    proof {
                        lemma_next_frame_shrinks(before);
                    }
                    frames.push(frame);
                    proof {
                        let payload = bytes_contents(frame);
                        assert(payloads(frames@) =~= taken.push(payload));
                        assert(taken.push(payload) + all_frames(self.pending()).0 =~= taken + (
                        seq![payload] + all_frames(self.pending()).0));
                    }
                },
                None => {
                    proof {
                        assert(taken + Seq::<Seq<u8>>::empty() =~= taken);
                    }
                    break ;
                },
            }
        }
        frames
    }
}

/// A payload of at most [`MAX_FRAME_LENGTH`] bytes comes out of the stream
/// as it went in, and what follows it stays.
pub proof fn lemma_frame_round_trip(payload: Seq<u8>, rest: Seq<u8>)
    requires
        payload.len() <= MAX_FRAME_LENGTH,
    ensures
        var_int_bytes(payload.len()).len() <= FRAME_PREFIX_MAX_BYTES,
        next_frame(frame_bytes(payload) + rest) == Some((payload, rest)),
{
    let field = var_int_bytes(payload.len());
    let whole = frame_bytes(payload) + rest;
    lemma_group_weights();
    lemma_var_int_bytes_len(payload.len(), FRAME_PREFIX_MAX_BYTES as nat);
    assert(whole =~= field + (payload + rest));
    lemma_read_var_int_of_bytes(payload.len(), payload + rest, FRAME_PREFIX_MAX_BYTES as nat);
    assert(whole.subrange(field.len() as int, (field.len() + payload.len()) as int) =~= payload);
    assert(whole.skip((field.len() + payload.len()) as int) =~= rest);
}

/// While a frame has arrived only in part there is no frame yet: no proper
/// prefix of a frame on the wire holds a frame.
pub proof fn lemma_no_frame_in_part(payload: Seq<u8>, arrived: int)
    requires
        payload.len() <= MAX_FRAME_LENGTH,
        0 <= arrived < frame_bytes(payload).len(),
    ensures
        next_frame(frame_bytes(payload).take(arrived)) is None,
{
    let field = var_int_bytes(payload.len());
    let part = frame_bytes(payload).take(arrived);
    lemma_group_weights();
    lemma_var_int_bytes_len(payload.len(), FRAME_PREFIX_MAX_BYTES as nat);
    lemma_var_int_bytes_shape(payload.len());
    lemma_continuation_run_shape(field);
    if arrived < field.len() {
        assert forall|j: int| 0 <= j < arrived implies part[j] >= 128 by {
            assert(part[j] == field[j]);
        }
        lemma_continuation_run_is(part, arrived as nat);
    } else {
        let body = payload.take(arrived - field.len());
        assert(part =~= field + body);
        lemma_read_var_int_of_bytes(payload.len(), body, FRAME_PREFIX_MAX_BYTES as nat);
    }
}

/// Bytes that arrive behind a whole frame do not change the frame: it comes
/// out the same, and the new bytes stay behind it.
pub proof fn lemma_next_frame_stable(buffer: Seq<u8>, more: Seq<u8>)
    ensures
        next_frame(buffer) matches Some((payload, rest)) ==> next_frame(buffer + more) == Some(
            (payload, rest + more),
        ),
{
    if next_frame(buffer) is Some {
        let start = continuation_run(buffer) as int + 1;
        let whole = buffer + more;
        lemma_continuation_run_prefix(buffer, more);
        assert(whole.take(start) =~= buffer.take(start));
        let end = start + var_int_value(buffer.take(start));
        assert(whole.subrange(start, end) =~= buffer.subrange(start, end));
        assert(whole.skip(end) =~= buffer.skip(end) + more);
    }
}

/// Once every whole frame is out, no frame is left.
pub proof fn lemma_all_frames_drains(buffer: Seq<u8>)
    ensures
        next_frame(all_frames(buffer).1) is None,
        all_frames(all_frames(buffer).1) == (Seq::<Seq<u8>>::empty(), all_frames(buffer).1),
    decreases buffer.len(),
{
    match next_frame(buffer) {
        Some((payload, rest)) => {
            lemma_all_frames_drains(rest);
        },
        None => {},
    }
}

/// Taking the frames out before more bytes arrive and again afterwards gives
/// the same frames as taking them all out afterwards.
pub proof fn lemma_all_frames_append(buffer: Seq<u8>, more: Seq<u8>)
    ensures
        all_frames(buffer + more) == (
            all_frames(buffer).0 + all_frames(all_frames(buffer).1 + more).0,
            all_frames(all_frames(buffer).1 + more).1,
        ),
    decreases buffer.len(),
{
    match next_frame(buffer) {
        Some((payload, rest)) => {
            lemma_next_frame_stable(buffer, more);
            lemma_all_frames_append(rest, more);
            let later = all_frames(all_frames(rest).1 + more).0;
            assert(seq![payload] + (all_frames(rest).0 + later) =~= (seq![payload] + all_frames(
                rest,
            ).0) + later);
        },
        None => {
            assert(Seq::<Seq<u8>>::empty() + all_frames(buffer + more).0 =~= all_frames(
                buffer + more,
            ).0);
        },
    }
}

/// How the bytes of a stream are cut into arrivals makes no difference: the
/// frames that come out, and the bytes that stay, are those of the stream
/// arriving in one piece.
pub proof fn lemma_arrivals_do_not_matter(buffer: Seq<u8>, chunks: Seq<Seq<u8>>)
    requires
        next_frame(buffer) is None,
    ensures
        frames_across(buffer, chunks) == all_frames(buffer + joined(chunks)),
    decreases chunks.len(),
{
    if chunks.len() == 0 {
        assert(buffer + joined(chunks) =~= buffer);
    } else {
        let now = all_frames(buffer + chunks[0]);
        lemma_all_frames_drains(buffer + chunks[0]);
        lemma_arrivals_do_not_matter(now.1, chunks.skip(1));
        lemma_all_frames_append(buffer + chunks[0], joined(chunks.skip(1)));
        assert(buffer + joined(chunks) =~= (buffer + chunks[0]) + joined(chunks.skip(1)));
    }
}

/// A frame whose bytes arrive in any number of pieces comes out exactly
/// once, with the payload that went in, and leaves nothing behind.
pub proof fn lemma_one_frame_from_pieces(payload: Seq<u8>, chunks: Seq<Seq<u8>>)
    requires
        payload.len() <= MAX_FRAME_LENGTH,
        joined(chunks) == frame_bytes(payload),
    ensures
        frames_across(Seq::empty(), chunks) == (seq![payload], Seq::<u8>::empty()),
{
    let empty = Seq::<u8>::empty();
    lemma_continuation_run_is(empty, 0);
    lemma_arrivals_do_not_matter(empty, chunks);
    assert(empty + joined(chunks) =~= frame_bytes(payload) + empty);
    lemma_frame_round_trip(payload, empty);
    lemma_continuation_run_is(empty, 0);
    assert(all_frames(empty).0 =~= Seq::<Seq<u8>>::empty());
    assert(seq![payload] + all_frames(empty).0 =~= seq![payload]);
}

/// While the pieces that have arrived make up only a part of a frame, no
/// frame comes out and every byte that has arrived is kept.
pub proof fn lemma_no_frame_from_part(payload: Seq<u8>, chunks: Seq<Seq<u8>>)
    requires
        payload.len() <= MAX_FRAME_LENGTH,
        joined(chunks).len() < frame_bytes(payload).len(),
        joined(chunks) == frame_bytes(payload).take(joined(chunks).len() as int),
    ensures
        frames_across(Seq::empty(), chunks) == (Seq::<Seq<u8>>::empty(), joined(chunks)),
{
    let empty = Seq::<u8>::empty();
    lemma_continuation_run_is(empty, 0);
    lemma_arrivals_do_not_matter(empty, chunks);
    assert(empty + joined(chunks) =~= joined(chunks));
    lemma_no_frame_in_part(payload, joined(chunks).len() as int);
}

} // verus!
