//! The decisions of one connection.
//!
//! A connection reads until its peer closes, a read fails or shutdown is
//! observed, and is closing from then on. While it reads, the bytes that
//! arrive are cut into frames and the fields of each frame are decoded; a
//! frame that cannot be decoded is reported and dropped, and the connection
//! goes on. The caller owns the socket: it waits for events, hands them in
//! and acts on what comes back.

use bytes::Bytes;
use vstd::prelude::*;
use vstd::utf8::encode_utf8;

use crate::network::frame::{all_frames, lemma_next_frame_shrinks, FrameAssembler};
use crate::packet_buffer::buffers::{bytes_contents, bytes_remaining};
use crate::packet_buffer::laws::{
    lemma_string_round_trip, lemma_u16_round_trip, lemma_var_i32_round_trip,
};
use crate::packet_buffer::read::{
    parse_string, parse_u16, parse_var_i32, string_byte_limit, PacketBufferRead,
};
use crate::packet_buffer::wire::var_i32_bytes;
use crate::packet_buffer::write::{string_bytes, u16_bytes};
use crate::packet_buffer::{ErrorKind, PacketBufferError};

verus! {

/// Most characters that the server address of a frame may have.
pub const SERVER_ADDRESS_MAX_LENGTH: i32 = 32767;

/// Where a connection stands.
#[derive(Clone, Copy, Debug, PartialEq, Eq, Structural)]
pub enum ConnectionState {
    /// Bytes are read and frames are decoded.
    Reading,
    /// The connection is over: nothing is read any more.
    Closing,
}

/// The fields at the front of a frame.
#[derive(Debug)]
pub struct FrameFields {
    /// The number that says what kind of packet the frame holds.
    pub packet_id: i32,
    /// The version of the protocol that the peer speaks.
    pub protocol_version: i32,
    /// The address that the peer connected to.
    pub server_address: String,
    /// The port that the peer connected to.
    pub server_port: u16,
    /// The state that the peer asks for next.
    pub next_state: i32,
    /// How many bytes of the frame follow the fields.
    pub bytes_left: usize,
}

/// The fields of a frame as plain values.
pub struct FrameFieldsView {
    /// See [`FrameFields::packet_id`].
    pub packet_id: i32,
    /// See [`FrameFields::protocol_version`].
    pub protocol_version: i32,
    /// See [`FrameFields::server_address`].
    pub server_address: Seq<char>,
    /// See [`FrameFields::server_port`].
    pub server_port: u16,
    /// See [`FrameFields::next_state`].
    pub next_state: i32,
    /// See [`FrameFields::bytes_left`].
    pub bytes_left: nat,
}

impl View for FrameFields {
    type V = FrameFieldsView;

    open spec fn view(&self) -> FrameFieldsView {
        FrameFieldsView {
            packet_id: self.packet_id,
            protocol_version: self.protocol_version,
            server_address: self.server_address@,
            server_port: self.server_port,
            next_state: self.next_state,
            bytes_left: self.bytes_left as nat,
        }
    }
}

/// The fields that the payload of a frame holds: two variable-length
/// integers, a string, a two-byte port number and one more variable-length
/// integer, in this order. The first field that cannot be read decides the
/// error.
pub open spec fn parse_frame_fields(payload: Seq<u8>) -> Result<FrameFieldsView, ErrorKind> {
    match parse_var_i32(payload) {
        (Err(kind), _) => Err(kind),
        (Ok(packet_id), after_id) => match parse_var_i32(after_id) {
            (Err(kind), _) => Err(kind),
            (Ok(protocol_version), after_version) => match parse_string(
                after_version,
                SERVER_ADDRESS_MAX_LENGTH,
            ) {
                (Err(kind), _) => Err(kind),
                (Ok(server_address), after_address) => match parse_u16(after_address) {
                    (Err(kind), _) => Err(kind),
                    (Ok(server_port), after_port) => match parse_var_i32(after_port) {
                        (Err(kind), _) => Err(kind),
                        (Ok(next_state), after_state) => Ok(
                            FrameFieldsView {
                                packet_id,
                                protocol_version,
                                server_address,
                                server_port,
                                next_state,
                                bytes_left: after_state.len(),
                            },
                        ),
                    },
                },
            },
        },
    }
}

/// Whether what decoding a frame returned is what was expected of it.
pub open spec fn agrees_on_fields(
    result: Result<FrameFields, PacketBufferError>,
    expected: Result<FrameFieldsView, ErrorKind>,
) -> bool {
    match expected {
        Ok(fields) => result is Ok && result->Ok_0@ == fields,
        Err(kind) => result is Err && result->Err_0.kind() == kind,
    }
}

/// Decodes the fields at the front of a frame.
pub fn decode_frame(frame: Bytes) -> (result: Result<FrameFields, PacketBufferError>)
    ensures
        agrees_on_fields(result, parse_frame_fields(bytes_contents(frame))),
{
    let mut frame = frame;
    let packet_id: i32 = match frame.read_var_i32() {
        Ok(value) => value,
        Err(error) => {
            return Err(error);
        },
    };
    let protocol_version: i32 = match frame.read_var_i32() {
        Ok(value) => value,
        Err(error) => {
            return Err(error);
        },
    };
    let server_address: String = match frame.read_string(SERVER_ADDRESS_MAX_LENGTH) {
        Ok(value) => value,
        Err(error) => {
            return Err(error);
        },
    };
    let server_port: u16 = match frame.read_u16() {
        Ok(value) => value,
        Err(error) => {
            return Err(error);
        },
    };
    let next_state: i32 = match frame.read_var_i32() {
        Ok(value) => value,
        Err(error) => {
            return Err(error);
        },
    };
    let bytes_left: usize = bytes_remaining(&frame);
    Ok(
        FrameFields {
            packet_id,
            protocol_version,
            server_address,
            server_port,
            next_state,
            bytes_left,
        },
    )
}

/// What reading its bytes made of one frame.
pub type FrameReport = Result<FrameFields, PacketBufferError>;

/// Whether `reports` are what decoding each of `frames` gives, in order.
pub open spec fn reports_match(reports: Seq<FrameReport>, frames: Seq<Seq<u8>>) -> bool {
    &&& reports.len() == frames.len()
    &&& forall|i: int|
        0 <= i < reports.len() ==> agrees_on_fields(
            #[trigger] reports[i],
            parse_frame_fields(frames[i]),
        )
}

/// What a connection does with the bytes that arrive on it.
pub struct ConnectionHandler {
    state: ConnectionState,
    assembler: FrameAssembler,
}

impl ConnectionHandler {
    /// Where the connection stands.
    pub closed spec fn state(&self) -> ConnectionState {
        self.state
    }

    /// The bytes that have arrived and have not left in a frame.
    pub closed spec fn pending(&self) -> Seq<u8> {
        self.assembler.pending()
    }

    /// A connection that has just been accepted: it reads, and nothing has
    /// arrived yet.
    pub fn new() -> (handler: ConnectionHandler)
        ensures
            handler.state() == ConnectionState::Reading,
            handler.pending() == Seq::<u8>::empty(),
    {
        ConnectionHandler { state: ConnectionState::Reading, assembler: FrameAssembler::new() }
    }

    /// Whether the connection still reads.
    pub fn is_reading(&self) -> (reading: bool)
        ensures
            reading == (self.state() == ConnectionState::Reading),
    {
        match self.state {
            ConnectionState::Reading => true,
            ConnectionState::Closing => false,
        }
    }

    /// The number of bytes that wait for the rest of their frame.
    pub fn pending_len(&self) -> (count: usize)
        ensures
            count == self.pending().len(),
    {
        self.assembler.pending_len()
    }

    /// Shutdown was observed: the connection closes. What has arrived stays
    /// as it is.
    pub fn on_shutdown(&mut self)
        ensures
            final(self).state() == ConnectionState::Closing,
            final(self).pending() == old(self).pending(),
    {
        self.state = ConnectionState::Closing;
    }

    /// A read failed: the connection closes. What has arrived stays as it
    /// is.
    pub fn on_read_error(&mut self)
        ensures
            final(self).state() == ConnectionState::Closing,
            final(self).pending() == old(self).pending(),
    {
        self.state = ConnectionState::Closing;
    }

    /// A message waits to be sent to the peer. The answer says whether to
    /// write it: it is written while the connection reads, and dropped once
    /// the connection closes.
    pub fn on_outbound(&self) -> (send: bool)
        ensures
            send == (self.state() == ConnectionState::Reading),
    {
        self.is_reading()
    }

    /// A read returned `data`. A closing connection ignores it. A read of
    /// no bytes means that the peer has closed, and a buffer that cannot
    /// take the bytes ends the connection too. Otherwise the bytes join
    /// those that wait, every whole frame is taken out and decoded, and the
    /// reports come back in the order of the frames.
    pub fn on_read(&mut self, data: &[u8]) -> (reports: Vec<FrameReport>)
        ensures
            final(self).state() == read_outcome(old(self).state(), old(self).pending(), data@).0,
            final(self).pending() == read_outcome(old(self).state(), old(self).pending(), data@).1,
            reports_match(
                reports@,
                read_outcome(old(self).state(), old(self).pending(), data@).2,
            ),
    {
        let mut reports: Vec<FrameReport> = Vec::new();
        if !self.is_reading() {
            return reports;
        }
        if data.len() == 0 {
            self.state = ConnectionState::Closing;
            return reports;
        }
        if !self.assembler.try_feed(data) {
            self.state = ConnectionState::Closing;
            return reports;
        }
        let ghost fed = self.assembler.pending();
        let ghost mut done: Seq<Seq<u8>> = Seq::empty();
        proof {
            assert(done + all_frames(fed).0 =~= all_frames(fed).0);
        }
        loop
            invariant
                self.state == ConnectionState::Reading,
                self.state == old(self).state,
                reports_match(reports@, done),
                all_frames(fed).0 == done + all_frames(self.assembler.pending()).0,
                all_frames(fed).1 == all_frames(self.assembler.pending()).1,
            ensures
                self.state == ConnectionState::Reading,
                reports_match(reports@, all_frames(fed).0),
                self.assembler.pending() == all_frames(fed).1,
            decreases self.assembler.pending().len(),
        {
            let ghost before = self.assembler.pending();
            let ghost earlier = reports@;
            match self.assembler.next_frame() {
                Some(frame) => {
                    let ghost payload = bytes_contents(frame);
                    proof {
                        lemma_next_frame_shrinks(before);
                    }
                    let report: FrameReport = decode_frame(frame);
                    reports.push(report);
                    proof {
                        let grown = done.push(payload);
                        assert(reports@ =~= earlier.push(report));
                        assert forall|i: int| 0 <= i < reports@.len() implies agrees_on_fields(
                            #[trigger] reports@[i],
                            parse_frame_fields(grown[i]),
                        ) by {
                            if i < earlier.len() {
                                assert(reports@[i] == earlier[i]);
                                assert(grown[i] == done[i]);
                            }
                        }
                        assert(reports_match(reports@, grown));
                        assert(grown + all_frames(self.assembler.pending()).0 =~= done + (
                        seq![payload] + all_frames(self.assembler.pending()).0));
                        done = grown;
                    }
                },
                None => {
                    proof {
                        assert(done + Seq::<Seq<u8>>::empty() =~= done);
                    }
                    break ;
                },
            }
        }
        reports
    }
}

/// What a read of `data` makes of a connection in `state` with `pending`
/// bytes waiting: the state afterwards, the bytes that wait afterwards, and
/// the payloads of the frames that came out.
pub open spec fn read_outcome(state: ConnectionState, pending: Seq<u8>, data: Seq<u8>) -> (
    ConnectionState,
    Seq<u8>,
    Seq<Seq<u8>>,
) {
    if state == ConnectionState::Closing {
        (ConnectionState::Closing, pending, Seq::empty())
    } else if data.len() == 0 || pending.len() + data.len() > isize::MAX {
        (ConnectionState::Closing, pending, Seq::empty())
    } else {
        (ConnectionState::Reading, all_frames(pending + data).1, all_frames(pending + data).0)
    }
}

/// A closing connection stays closing and takes nothing in, whatever a read
/// returns.
pub proof fn lemma_closing_is_final(pending: Seq<u8>, data: Seq<u8>)
    ensures
        read_outcome(ConnectionState::Closing, pending, data) == (
            ConnectionState::Closing,
            pending,
            Seq::<Seq<u8>>::empty(),
        ),
{
}

/// The payload that carries `fields`, followed by `trailing`.
pub open spec fn frame_fields_bytes(fields: FrameFieldsView, trailing: Seq<u8>) -> Seq<u8> {
    var_i32_bytes(fields.packet_id) + (var_i32_bytes(fields.protocol_version) + (string_bytes(
        fields.server_address,
    ) + (u16_bytes(fields.server_port) + (var_i32_bytes(fields.next_state) + trailing))))
}

/// Fields that are written in order are decoded as they were written, where
/// the address has between one byte and the most that its limit allows, and
/// the bytes behind the fields are counted.
pub proof fn lemma_frame_fields_round_trip(fields: FrameFieldsView, trailing: Seq<u8>)
    requires
        1 <= encode_utf8(fields.server_address).len() <= string_byte_limit(
            SERVER_ADDRESS_MAX_LENGTH,
        ),
        fields.bytes_left == trailing.len(),
    ensures
        parse_frame_fields(frame_fields_bytes(fields, trailing)) == Ok::<
            FrameFieldsView,
            ErrorKind,
        >(fields),
{
    let after_port = var_i32_bytes(fields.next_state) + trailing;
    let after_address = u16_bytes(fields.server_port) + after_port;
    let after_version = string_bytes(fields.server_address) + after_address;
    let after_id = var_i32_bytes(fields.protocol_version) + after_version;
    lemma_var_i32_round_trip(fields.packet_id, after_id);
    lemma_var_i32_round_trip(fields.protocol_version, after_version);
    lemma_string_round_trip(fields.server_address, SERVER_ADDRESS_MAX_LENGTH, after_address);
    lemma_u16_round_trip(fields.server_port, after_port);
    lemma_var_i32_round_trip(fields.next_state, trailing);
}

} // verus!
