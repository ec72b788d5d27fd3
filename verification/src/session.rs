//! The danmaku session: what the client does with each frame the link
//! server sends. The caller owns the connection and the heartbeat timer: it
//! hands each frame received to `ClientRequest::handle_frame` and performs
//! the actions it gets back, in order.
use crate::client::{
    is_frame_of, sendable, ClientRequest, ENTER_ROOM_ACK, GLOBAL_COMMAND, HANDSHAKE, KEEP_ALIVE, PING,
    PUSH_MESSAGE, REGISTER, UNREGISTER,
};
use crate::frame::{decode, decode_spec, DecodeError};
use crate::messages::{
    RegisterResponse, ZtLiveCsCmdAck, ZtLiveCsEnterRoomAck, ZtLiveScMessage,
    ZtLiveScStatusChanged, COMPRESSION_GZIP, STATUS_LIVE_BANNED, STATUS_LIVE_CLOSED,
};
use crate::proto::{bytes_of, int32_of, int64_of, parse_fields, string_of, utf8};
use std::io::Read;
use vstd::prelude::*;

verus! {

/// The message type of action signals (comments, likes, gifts ...).
pub const ACTION_SIGNAL: &'static str = "ZtLiveScActionSignal";

/// The message type of state signals (counters, top users ...).
pub const STATE_SIGNAL: &'static str = "ZtLiveScStateSignal";

/// The message type of notify signals.
pub const NOTIFY_SIGNAL: &'static str = "ZtLiveScNotifySignal";

/// The message type that reports a change of the live room's state.
pub const STATUS_CHANGED: &'static str = "ZtLiveScStatusChanged";

/// The message type that reports that the ticket in use is no longer valid.
pub const TICKET_INVALID: &'static str = "ZtLiveScTicketInvalid";

/// The largest value of `ZtLiveScMessage.CompressionType`.
pub const COMPRESSION_MAX: i32 = 2;

/// The largest value of `ZtLiveScStatusChanged.Type`.
pub const STATUS_MAX: i32 = 4;

/// What gzip decompression of `s` gives, or `None` where it fails.
pub uninterp spec fn gunzipped(s: Seq<u8>) -> Option<Seq<u8>>;

/// Decompresses gzip data.
///
/// Reads a `flate2::read::GzDecoder` over `s` to its end; its result is named
/// `gunzipped`, `None` standing for the I/O error the read reports.
#[verifier::external_body]
pub(crate) fn gunzip(s: &[u8]) -> (r: Option<Vec<u8>>)
    ensures
        match r {
            Some(v) => gunzipped(s@) == Some(v@),
            None => gunzipped(s@) is None,
        },
{
    let mut out = Vec::new();
    match flate2::read::GzDecoder::new(s).read_to_end(&mut out) {
        Ok(_) => Some(out),
        Err(_) => None,
    }
}

/// Why a frame ended the session.
#[derive(Debug, Clone, Copy, PartialEq, Eq)]
pub enum SessionError {
    /// A request to be sent does not fit a frame: one of its messages would
    /// be longer than `i32::MAX` bytes or the frame longer than `usize::MAX`.
    TooLarge,
    /// The frame could not be read.
    Decode(DecodeError),
    /// The payload of a command is not a `ZtLiveCsCmdAck`.
    BadCommandAck,
    /// The answer to entering the room is not a `ZtLiveCsEnterRoomAck`.
    BadEnterRoomAck,
    /// The payload of a pushed message is not a `ZtLiveScMessage`.
    BadMessage,
    /// The pushed message names a compression that does not exist.
    UnknownCompression,
    /// The pushed message does not decompress.
    BadGzip,
    /// A status change is not a `ZtLiveScStatusChanged`.
    BadStatus,
    /// A status change names a state that does not exist.
    UnknownStatus,
    /// The answer to registering is not a `RegisterResponse`.
    BadRegisterResponse,
    /// The session key given at registration is not 32 bytes.
    BadSessionKey,
    /// There is no ticket left to move on to.
    NoNextTicket,
    /// There is no ticket to enter the room with.
    NoTicket,
}

/// Something the caller is to do.
pub enum SessionAction {
    /// Write these bytes to the link.
    Send(Vec<u8>),
    /// From now on, every this many milliseconds, send
    /// `ClientRequest::heartbeat_request`.
    StartHeartbeat(i64),
    /// Hand a pushed message, by its type and payload, to the handler.
    Deliver(String, Vec<u8>),
    /// End the session.
    Stop,
}

/// What an action is to be.
pub enum ActionSpec {
    /// A frame of `header` and `body` encrypted under `key`.
    Send(Seq<u8>, Seq<u8>, Seq<u8>),
    /// A heartbeat timer of this period.
    StartHeartbeat(i64),
    /// A message of this type and payload for the handler.
    Deliver(Seq<char>, Seq<u8>),
    /// The end of the session.
    Stop,
}

/// Whether the action `a` is what `s` describes.
pub open spec fn performs(a: SessionAction, s: ActionSpec) -> bool {
    match (a, s) {
        (SessionAction::Send(bytes), ActionSpec::Send(key, header, body)) => is_frame_of(
            bytes@,
            key,
            header,
            body,
        ),
        (SessionAction::StartHeartbeat(a), ActionSpec::StartHeartbeat(b)) => a == b,
        (SessionAction::Deliver(t, p), ActionSpec::Deliver(u, q)) => t@ == u && p@ == q,
        (SessionAction::Stop, ActionSpec::Stop) => true,
        _ => false,
    }
}

/// Whether the actions `v` are, in order, what `s` describes.
pub open spec fn performs_all(v: Seq<SessionAction>, s: Seq<ActionSpec>) -> bool {
    &&& v.len() == s.len()
    &&& forall|i: int| 0 <= i < v.len() ==> performs(#[trigger] v[i], s[i])
}

/// The heartbeat period that the payload `pd` of a command answer gives, if
/// it answers entering the room.
pub open spec fn command_ack_spec(pd: Seq<u8>) -> Result<Option<i64>, SessionError> {
    match parse_fields(pd) {
        Some(fs) => if !ZtLiveCsCmdAck::valid_wire(pd) {
            Err(SessionError::BadCommandAck)
        } else if string_of(fs, 1) == ENTER_ROOM_ACK@ {
            let p = bytes_of(fs, 4);
            match parse_fields(p) {
                Some(afs) => Ok(Some(int64_of(afs, 3))),
                None => Err(SessionError::BadEnterRoomAck),
            }
        } else {
            Ok(None)
        },
        None => Err(SessionError::BadCommandAck),
    }
}

/// Reads the answer to a command: the heartbeat period when it answers
/// entering the room, `None` for any other answer.
pub fn command_ack(pd: &[u8]) -> (r: Result<Option<i64>, SessionError>)
    ensures
        r == command_ack_spec(pd@),
{
    let ack = match ZtLiveCsCmdAck::parse(pd) {
        Some(a) => a,
        None => return Err(SessionError::BadCommandAck),
    };
    if ack.cmd_ack_type == String::from_str(ENTER_ROOM_ACK) {
        match ZtLiveCsEnterRoomAck::parse(ack.payload.as_slice()) {
            Some(e) => Ok(Some(e.heartbeat_interval_ms)),
            None => Err(SessionError::BadEnterRoomAck),
        }
    } else {
        Ok(None)
    }
}

/// The type and the payload of the pushed message `pd`, decompressed when
/// it is gzip.
pub open spec fn pushed_spec(pd: Seq<u8>) -> Result<(Seq<char>, Seq<u8>), SessionError> {
    match parse_fields(pd) {
        Some(fs) => if !ZtLiveScMessage::valid_wire(pd) {
            Err(SessionError::BadMessage)
        } else {
            let compression = int32_of(fs, 2);
            let payload = bytes_of(fs, 3);
            if compression < 0 || compression > COMPRESSION_MAX {
                Err(SessionError::UnknownCompression)
            } else if compression == COMPRESSION_GZIP {
                match gunzipped(payload) {
                    Some(p) => Ok((string_of(fs, 1), p)),
                    None => Err(SessionError::BadGzip),
                }
            } else {
                Ok((string_of(fs, 1), payload))
            }
        },
        None => Err(SessionError::BadMessage),
    }
}

/// Reads a pushed message: its type, and its payload decompressed when it
/// is gzip.
pub fn pushed_message(pd: &[u8]) -> (r: Result<(String, Vec<u8>), SessionError>)
    ensures
        match r {
            Ok((t, p)) => pushed_spec(pd@) == Ok::<(Seq<char>, Seq<u8>), SessionError>((t@, p@)),
            Err(e) => pushed_spec(pd@) == Err::<(Seq<char>, Seq<u8>), SessionError>(e),
        },
{
    let message = match ZtLiveScMessage::parse(pd) {
        Some(m) => m,
        None => return Err(SessionError::BadMessage),
    };
    if message.compression_type < 0 || message.compression_type > COMPRESSION_MAX {
        return Err(SessionError::UnknownCompression);
    }
    if message.compression_type == COMPRESSION_GZIP {
        match gunzip(message.payload.as_slice()) {
            Some(p) => Ok((message.message_type, p)),
            None => Err(SessionError::BadGzip),
        }
    } else {
        Ok((message.message_type, message.payload))
    }
}

/// Whether the status change `p` ends the session: the live room closed or
/// was banned.
pub open spec fn status_spec(p: Seq<u8>) -> Result<bool, SessionError> {
    match parse_fields(p) {
        Some(fs) => if !ZtLiveScStatusChanged::valid_wire(p) {
            Err(SessionError::BadStatus)
        } else {
            let t = int32_of(fs, 1);
            if t < 0 || t > STATUS_MAX {
                Err(SessionError::UnknownStatus)
            } else {
                Ok(t == STATUS_LIVE_CLOSED || t == STATUS_LIVE_BANNED)
            }
        },
        None => Err(SessionError::BadStatus),
    }
}

/// Reads a status change: whether it ends the session.
pub fn status_ends_session(p: &[u8]) -> (r: Result<bool, SessionError>)
    ensures
        r == status_spec(p@),
{
    let status = match ZtLiveScStatusChanged::parse(p) {
        Some(s) => s,
        None => return Err(SessionError::BadStatus),
    };
    if status.type_ < 0 || status.type_ > STATUS_MAX {
        return Err(SessionError::UnknownStatus);
    }
    Ok(status.type_ == STATUS_LIVE_CLOSED || status.type_ == STATUS_LIVE_BANNED)
}

/// A status change that reads, in a state `t` from 0 to 4, ends the session
/// exactly when the live room closed (1) or was banned (4); every other
/// state lets it go on. A state outside 0 to 4 is refused.
pub proof fn lemma_status_ends_only_when_closed_or_banned(p: Seq<u8>)
    requires
        ZtLiveScStatusChanged::valid_wire(p),
    ensures
        ({
            let t = int32_of(parse_fields(p).unwrap(), 1);
            &&& 0 <= t <= 4 ==> status_spec(p) == Ok::<bool, SessionError>(t == 1 || t == 4)
            &&& (t < 0 || t > 4) ==> status_spec(p) == Err::<bool, SessionError>(
                SessionError::UnknownStatus,
            )
        }),
{
}

/// The status change that names only its state `t`, from 0 to 4 (written as
/// proto3 writes it: field 1, left out when 0), ends the session exactly
/// when `t` is 1 (live closed) or 4 (live banned).
pub proof fn lemma_status_of_state(t: i32)
    requires
        0 <= t <= 4,
    ensures
        status_spec(crate::proto::opt_varint_field(1, crate::proto::i32_wire(t)))
            == Ok::<bool, SessionError>(t == 1 || t == 4),
{
    let v = crate::proto::i32_wire(t);
    assert((t as u64) == t) by (bit_vector)
        requires
            0 <= t <= 4,
    ;
    let e = Seq::<u8>::empty();
    let p = crate::proto::opt_varint_field(1, v);
    assert(p + e =~= p);
    assert(parse_fields(e) == Some(Seq::<crate::proto::WireField>::empty()));
    crate::proto::lemma_opt_varint_fields(1, v, e);
    let fs = crate::proto::opt_varint_fields(1, v);
    assert(fs + Seq::<crate::proto::WireField>::empty() =~= fs);
    assert(parse_fields(p) == Some(fs));
    if v != 0 {
        crate::proto::lemma_single(crate::proto::WireField::Varint(1, v as u64), 1);
        assert(fs[0] == crate::proto::WireField::Varint(1, v as u64));
        assert(((v as u64) as i64) as i32 == t);
    }
    assert(crate::proto::varints_fit_i32(fs, 1));
    lemma_status_ends_only_when_closed_or_banned(p);
}

/// What registering gives: the instance id, the session key and the LZ4
/// threshold.
pub open spec fn registration_spec(pd: Seq<u8>) -> Result<(i64, Seq<u8>, i32), SessionError> {
    match parse_fields(pd) {
        Some(fs) => if !RegisterResponse::valid_wire(pd) {
            Err(SessionError::BadRegisterResponse)
        } else if bytes_of(fs, 2).len() != 32 {
            Err(SessionError::BadSessionKey)
        } else {
            let threshold = if crate::proto::has_len(fs, 4) {
                int32_of(parse_fields(crate::proto::joined_len(fs, 4)).unwrap(), 3)
            } else {
                0
            };
            Ok((int64_of(fs, 3), bytes_of(fs, 2), threshold))
        },
        None => Err(SessionError::BadRegisterResponse),
    }
}

/// Reads the answer to registering.
pub fn registration(pd: &[u8]) -> (r: Result<(i64, Vec<u8>, i32), SessionError>)
    ensures
        match r {
            Ok((i, k, t)) => registration_spec(pd@) == Ok::<(i64, Seq<u8>, i32), SessionError>(
                (i, k@, t),
            ),
            Err(e) => registration_spec(pd@) == Err::<(i64, Seq<u8>, i32), SessionError>(e),
        },
{
    let resp = match RegisterResponse::parse(pd) {
        Some(r) => r,
        None => return Err(SessionError::BadRegisterResponse),
    };
    if resp.sess_key.len() != 32 {
        return Err(SessionError::BadSessionKey);
    }
    let threshold = match &resp.sdk_option {
        Some(o) => o.lz4_compression_threshold_bytes,
        None => 0,
    };
    Ok((resp.instance_id, resp.sess_key, threshold))
}


/// Whether, from `c0`, handling the command answer `pd` leaves `c1`, the
/// actions `acts` and the outcome `res`: entering the room starts the
/// heartbeat.
pub open spec fn command_handled(
    c0: ClientRequest,
    c1: ClientRequest,
    pd: Seq<u8>,
    acts: Seq<SessionAction>,
    res: Result<(), SessionError>,
) -> bool {
    c1 == c0 && match command_ack_spec(pd) {
        Err(e) => acts.len() == 0 && res == Err::<(), SessionError>(e),
        Ok(Some(ms)) => performs_all(acts, seq![ActionSpec::StartHeartbeat(ms)]) && res is Ok,
        Ok(None) => acts.len() == 0 && res is Ok,
    }
}

/// Whether, from `c0`, handling the pushed message `pd`, whose header had
/// the sequence number `header_seq`, leaves `c1`, the actions `acts` and the
/// outcome `res`: the message is first answered; signals go to the handler,
/// a status change that closes or bans the live room ends the session, an
/// invalid ticket moves on to the next one and enters the room again.
pub open spec fn push_handled(
    c0: ClientRequest,
    c1: ClientRequest,
    header_seq: i64,
    pd: Seq<u8>,
    acts: Seq<SessionAction>,
    res: Result<(), SessionError>,
) -> bool {
    let ack = ActionSpec::Send(
        c0.session_key@,
        c0.push_message_header(header_seq),
        c0.push_message_body(),
    );
    match pushed_spec(pd) {
        Err(e) => c1 == c0 && performs_all(acts, seq![ack]) && res == Err::<(), SessionError>(e),
        Ok((t, p)) => if t == ACTION_SIGNAL@ || t == STATE_SIGNAL@ || t == NOTIFY_SIGNAL@ {
            c1 == c0 && performs_all(acts, seq![ack, ActionSpec::Deliver(t, p)]) && res is Ok
        } else if t == STATUS_CHANGED@ {
            c1 == c0 && match status_spec(p) {
                Err(e) => performs_all(acts, seq![ack]) && res == Err::<(), SessionError>(e),
                Ok(true) => performs_all(acts, seq![ack, ActionSpec::Stop]) && res is Ok,
                Ok(false) => performs_all(acts, seq![ack]) && res is Ok,
            }
        } else if t == TICKET_INVALID@ {
            if c0.ticket_index + 1 < c0.tickets@.len() {
                let c_next = ClientRequest { ticket_index: (c0.ticket_index + 1) as usize, ..c0 };
                if sendable(c_next.header_bytes(c_next.enter_room_body()), c_next.enter_room_body()) {
                    &&& c1 == ClientRequest { seq_id: crate::client::next_seq(c0.seq_id), ..c_next }
                    &&& performs_all(
                        acts,
                        seq![
                            ack,
                            ActionSpec::Send(
                                c0.session_key@,
                                c_next.header_bytes(c_next.enter_room_body()),
                                c_next.enter_room_body(),
                            ),
                        ],
                    )
                    &&& res is Ok
                } else {
                    &&& c1 == c_next
                    &&& performs_all(acts, seq![ack])
                    &&& res == Err::<(), SessionError>(SessionError::TooLarge)
                }
            } else {
                c1 == c0 && performs_all(acts, seq![ack]) && res == Err::<(), SessionError>(
                    SessionError::NoNextTicket,
                )
            }
        } else {
            c1 == c0 && performs_all(acts, seq![ack]) && res is Ok
        },
    }
}

/// Whether, from `c0`, handling the register answer `pd` leaves `c1`, the
/// actions `acts` and the outcome `res`: the client takes the instance id,
/// session key and LZ4 threshold, then keeps the registration alive and
/// enters the room.
pub open spec fn register_handled(
    c0: ClientRequest,
    c1: ClientRequest,
    pd: Seq<u8>,
    acts: Seq<SessionAction>,
    res: Result<(), SessionError>,
) -> bool {
    match registration_spec(pd) {
        Err(e) => c1 == c0 && acts.len() == 0 && res == Err::<(), SessionError>(e),
        Ok((inst, key, lz4)) => {
            let c_reg = ClientRequest {
                instance_id: inst,
                session_key: c1.session_key,
                lz4_compression_threshold: lz4,
                ..c0
            };
            let keep_alive = ActionSpec::Send(
                key,
                c_reg.header_bytes(c_reg.keep_alive_body()),
                c_reg.keep_alive_body(),
            );
            let c_ka = ClientRequest { seq_id: crate::client::next_seq(c0.seq_id), ..c_reg };
            &&& c1.session_key@ == key
            &&& if c0.has_ticket() && sendable(
                c_ka.header_bytes(c_ka.enter_room_body()),
                c_ka.enter_room_body(),
            ) {
                &&& c1 == ClientRequest { seq_id: crate::client::next_seq(c_ka.seq_id), ..c_ka }
                &&& performs_all(
                    acts,
                    seq![
                        keep_alive,
                        ActionSpec::Send(
                            key,
                            c_ka.header_bytes(c_ka.enter_room_body()),
                            c_ka.enter_room_body(),
                        ),
                    ],
                )
                &&& res is Ok
            } else {
                &&& c1 == c_ka
                &&& performs_all(acts, seq![keep_alive])
                &&& res == Err::<(), SessionError>(
                    if c0.has_ticket() {
                        SessionError::TooLarge
                    } else {
                        SessionError::NoTicket
                    },
                )
            }
        },
    }
}

/// Whether, from the client `c0`, handling the frame `data` leaves the
/// client `c1`, the actions `acts` and the outcome `res`.
///
/// The frame is read with the client's keys, then handled by the command of
/// its payload: a command answer, a pushed message or a register answer as
/// `command_handled`, `push_handled` and `register_handled` say;
/// unregistering ends the session; anything else is ignored.
pub open spec fn handled(
    c0: ClientRequest,
    c1: ClientRequest,
    data: Seq<u8>,
    acts: Seq<SessionAction>,
    res: Result<(), SessionError>,
) -> bool {
    {
        match decode_spec(data, c0.security_key@, c0.session_key@) {
            Err(e) => acts.len() == 0 && res == Err::<(), SessionError>(SessionError::Decode(e))
                && c1 == c0,
            Ok((hb, pb)) => {
                let pf = parse_fields(pb).unwrap();
                let command = string_of(pf, 1);
                let pd = bytes_of(pf, 4);
                let header_seq = int64_of(parse_fields(hb).unwrap(), 10);
                if command == GLOBAL_COMMAND@ {
                    command_handled(c0, c1, pd, acts, res)
                } else if command == PUSH_MESSAGE@ {
                    push_handled(c0, c1, header_seq, pd, acts, res)
                } else if command == REGISTER@ {
                    register_handled(c0, c1, pd, acts, res)
                } else if command == UNREGISTER@ {
                    c1 == c0 && performs_all(acts, seq![ActionSpec::Stop]) && res is Ok
                } else {
                    c1 == c0 && acts.len() == 0 && res is Ok
                }
            },
        }
    }
}

impl ClientRequest {
    /// Handles the answer to a command.
    pub fn handle_command(&mut self, pd: &[u8]) -> (r: (Vec<SessionAction>, Result<(), SessionError>))
        ensures
            command_handled(*old(self), *final(self), pd@, r.0@, r.1),
    {
        let mut acts: Vec<SessionAction> = Vec::new();
        match command_ack(pd) {
            Ok(Some(ms)) => {
                acts.push(SessionAction::StartHeartbeat(ms));
                (acts, Ok(()))
            },
            Ok(None) => (acts, Ok(())),
            Err(e) => (acts, Err(e)),
        }
    }

    /// Handles a pushed message whose header had the sequence number
    /// `header_seq`.
    #[verifier::rlimit(80)]
    #[verifier::spinoff_prover]
    pub fn handle_push(&mut self, header_seq: i64, pd: &[u8]) -> (r: (
        Vec<SessionAction>,
        Result<(), SessionError>,
    ))
        ensures
            push_handled(*old(self), *final(self), header_seq, pd@, r.0@, r.1),
    {
        let mut acts: Vec<SessionAction> = Vec::new();
        proof {
            crate::client::lemma_push_sendable(*self, header_seq);
        }
        let ack = self.push_message_response(header_seq);
        acts.push(SessionAction::Send(ack));
        let (t, p) = match pushed_message(pd) {
            Ok(m) => m,
            Err(e) => return (acts, Err(e)),
        };
        if t == String::from_str(ACTION_SIGNAL) || t == String::from_str(STATE_SIGNAL) || t
            == String::from_str(NOTIFY_SIGNAL) {
            acts.push(SessionAction::Deliver(t, p));
            (acts, Ok(()))
        } else if t == String::from_str(STATUS_CHANGED) {
            match status_ends_session(p.as_slice()) {
                Ok(true) => {
                    acts.push(SessionAction::Stop);
                    (acts, Ok(()))
                },
                Ok(false) => (acts, Ok(())),
                Err(e) => (acts, Err(e)),
            }
        } else if t == String::from_str(TICKET_INVALID) {
            if self.tickets.len() > 0 && self.ticket_index < self.tickets.len() - 1 {
                self.next_ticket();
                if !self.enter_room_fits() {
                    return (acts, Err(SessionError::TooLarge));
                }
                let frame = self.enter_room_request();
                acts.push(SessionAction::Send(frame));
                (acts, Ok(()))
            } else {
                (acts, Err(SessionError::NoNextTicket))
            }
        } else {
            (acts, Ok(()))
        }
    }

    /// Handles the answer to registering.
    #[verifier::rlimit(60)]
    pub fn handle_register(&mut self, pd: &[u8]) -> (r: (Vec<SessionAction>, Result<(), SessionError>))
        ensures
            register_handled(*old(self), *final(self), pd@, r.0@, r.1),
    {
        let mut acts: Vec<SessionAction> = Vec::new();
        let (instance_id, key, threshold) = match registration(pd) {
            Ok(r) => r,
            Err(e) => return (acts, Err(e)),
        };
        self.register(instance_id, key, threshold);
        proof {
            crate::client::lemma_keep_alive_sendable(*self);
        }
        let keep_alive = self.keep_alive_request();
        acts.push(SessionAction::Send(keep_alive));
        if self.ticket_index < self.tickets.len() {
            if !self.enter_room_fits() {
                return (acts, Err(SessionError::TooLarge));
            }
            let frame = self.enter_room_request();
            acts.push(SessionAction::Send(frame));
            (acts, Ok(()))
        } else {
            (acts, Err(SessionError::NoTicket))
        }
    }

    /// Handles a frame the link server sent: gives the actions to perform,
    /// in order, and whether the session can go on (an error ends it, after
    /// the actions before it are performed).
    pub fn handle_frame(&mut self, data: &Vec<u8>) -> (r: (Vec<SessionAction>, Result<(), SessionError>))
        ensures
            handled(*old(self), *final(self), data@, r.0@, r.1),
    {
        let (header, down) = match decode(data, &self.security_key, &self.session_key) {
            Ok(p) => p,
            Err(e) => return (Vec::new(), Err(SessionError::Decode(e))),
        };
        let command = down.command;
        if command == String::from_str(GLOBAL_COMMAND) {
            self.handle_command(down.payload_data.as_slice())
        } else if command == String::from_str(PUSH_MESSAGE) {
            self.handle_push(header.seq_id, down.payload_data.as_slice())
        } else if command == String::from_str(REGISTER) {
            self.handle_register(down.payload_data.as_slice())
        } else if command == String::from_str(UNREGISTER) {
            let mut acts: Vec<SessionAction> = Vec::new();
            acts.push(SessionAction::Stop);
            (acts, Ok(()))
        } else {
            (Vec::new(), Ok(()))
        }
    }
}

} // verus!
