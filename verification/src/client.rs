//! The requests of a danmaku client: what it sends to the link server, and
//! the sequence numbers it keeps.
use crate::frame::{convert_key, decrypts_to, encode, encrypted, frame_bytes, frame_len, key_from_slice, key_of_token};
use crate::messages::{
    app_info_wire, cmd_wire, common_info_wire, device_info_wire, enter_room_wire, handshake_wire,
    header_wire, heartbeat_wire, keep_alive_wire, register_wire, token_info_wire_of,
    upstream_wire, AppInfo, DeviceInfo, HandshakeRequest, KeepAliveRequest, PacketHeader,
    RegisterRequest, TokenInfo, UpstreamPayload, ZtCommonInfo, ZtLiveCsCmd, ZtLiveCsEnterRoom,
    ZtLiveCsHeartbeat, APP_IN_FOREGROUND, ENCRYPTION_SERVICE_TOKEN, ENCRYPTION_SESSION_KEY,
    PLATFORM_H5_WINDOWS, PRESENCE_ONLINE, TOKEN_TYPE_SERVICE_TOKEN,
};
use crate::clock::unix_time_millis;
use crate::proto::{
    bytes_of, int64_of, len_field, opt_len_field, opt_varint_field, parse_fields, string_of, utf8,
    varint,
};
use vstd::prelude::*;

verus! {

/// The `command` of the payload that opens the link.
pub const HANDSHAKE: &'static str = "Basic.Handshake";

/// The `command` of the payload that registers the client.
pub const REGISTER: &'static str = "Basic.Register";

/// The `command` of the payload that unregisters the client.
pub const UNREGISTER: &'static str = "Basic.Unregister";

/// The `command` of the payload that keeps the registration alive.
pub const KEEP_ALIVE: &'static str = "Basic.KeepAlive";

/// The `command` of a ping.
pub const PING: &'static str = "Basic.Ping";

/// The `command` of a payload that carries a `ZtLiveCsCmd`.
pub const GLOBAL_COMMAND: &'static str = "Global.ZtLiveInteractive.CsCmd";

/// The `command` of a payload that carries a pushed `ZtLiveScMessage`.
pub const PUSH_MESSAGE: &'static str = "Push.ZtLiveInteractive.Message";

/// The command type that enters the live room.
pub const ENTER_ROOM: &'static str = "ZtLiveCsEnterRoom";

/// The answer to `ENTER_ROOM`.
pub const ENTER_ROOM_ACK: &'static str = "ZtLiveCsEnterRoomAck";

/// The command type of a heartbeat.
pub const HEARTBEAT: &'static str = "ZtLiveCsHeartbeat";

/// The answer to `HEARTBEAT`.
pub const HEARTBEAT_ACK: &'static str = "ZtLiveCsHeartbeatAck";

/// The command type that leaves the live room.
pub const USER_EXIT: &'static str = "ZtLiveCsUserExit";

/// The answer to `USER_EXIT`.
pub const USER_EXIT_ACK: &'static str = "ZtLiveCsUserExitAck";

/// The `subBiz` of every payload.
pub const SUB_BIZ: &'static str = "mainApp";

/// The `retryCount` of every payload.
pub const RETRY_COUNT: u32 = 1;

/// The `appId` of every header.
pub const APP_ID: i32 = 13;

/// The `kpn` of every header.
pub const KPN: &'static str = "ACFUN_APP.LIVE_MATE";

/// The `kpf` of the register request.
pub const KPF: &'static str = "WINDOWS_PC";

/// The SDK version the client announces.
pub const CLIENT_LIVE_SDK_VERSION: &'static str = "kwai-acfun-live-link";

/// The link version the client announces.
pub const LINK_VERSION: &'static str = "2.13.8";

/// The device model the client announces.
pub const DEVICE_MODEL: &'static str = "h5";

/// The sequence number after `s`: one more, wrapping at the top of `i64`.
pub open spec fn next_seq(s: i64) -> i64 {
    if s == i64::MAX {
        i64::MIN
    } else {
        (s + 1) as i64
    }
}

/// Whether a header and a body are small enough to be written: each a
/// message protobuf can write, and the frame of them within `usize`.
pub open spec fn sendable(header: Seq<u8>, body: Seq<u8>) -> bool {
    &&& header.len() <= i32::MAX
    &&& body.len() <= i32::MAX
    &&& frame_len(header.len(), body.len()) <= usize::MAX
}

/// Whether `r` is the frame of `header` and `body` encrypted under `key`,
/// with some IV: its encrypted part decrypts under `key` to `body`.
pub open spec fn is_frame_of(r: Seq<u8>, key: Seq<u8>, header: Seq<u8>, body: Seq<u8>) -> bool {
    exists|iv: Seq<u8>|
        {
            &&& iv.len() == 16
            &&& r == frame_bytes(header, encrypted(key, iv, body))
            &&& decrypts_to(key, encrypted(key, iv, body), body)
        }
}

/// The bytes an optional message gives, empty for `None`.
pub open spec fn data_of(msg: Option<Vec<u8>>) -> Seq<u8> {
    match msg {
        Some(d) => d@,
        None => Seq::empty(),
    }
}

/// The state of a danmaku client: who it is, its keys, the live room and
/// its tickets, and the sequence numbers of what it sends.
pub struct ClientRequest {
    /// The user's id.
    pub userid: i64,
    /// The service token (`acfun.midground.api_st`).
    pub service_token: String,
    /// The key of the service token, which encrypts registration.
    pub security_key: [u8; 32],
    /// The live room.
    pub live_id: String,
    /// The attachment that entering the room sends.
    pub enter_room_attach: String,
    /// The key of the session, which encrypts the rest.
    pub session_key: [u8; 32],
    /// The tickets of the live room.
    pub tickets: Vec<String>,
    /// Which ticket is in use.
    pub ticket_index: usize,
    /// The instance id the server gave at registration.
    pub instance_id: i64,
    /// The LZ4 threshold the server gave at registration.
    pub lz4_compression_threshold: i32,
    /// The sequence number of the next payload.
    pub seq_id: i64,
    /// The sequence number of the next heartbeat.
    pub heartbeat_seq_id: i64,
}

impl ClientRequest {
    /// Whether `b` is `a` with the sequence numbers `seq_id` and
    /// `heartbeat_seq_id`.
    pub open spec fn same_but_seq(a: ClientRequest, b: ClientRequest, seq_id: i64, heartbeat_seq_id: i64) -> bool {
        &&& b.userid == a.userid
        &&& b.service_token == a.service_token
        &&& b.security_key == a.security_key
        &&& b.live_id == a.live_id
        &&& b.enter_room_attach == a.enter_room_attach
        &&& b.session_key == a.session_key
        &&& b.tickets == a.tickets
        &&& b.ticket_index == a.ticket_index
        &&& b.instance_id == a.instance_id
        &&& b.lz4_compression_threshold == a.lz4_compression_threshold
        &&& b.seq_id == seq_id
        &&& b.heartbeat_seq_id == heartbeat_seq_id
    }

    /// Whether the ticket in use is one of the tickets.
    pub open spec fn has_ticket(&self) -> bool {
        self.ticket_index < self.tickets@.len()
    }

    /// The ticket in use.
    pub open spec fn ticket(&self) -> Seq<char> {
        self.tickets@[self.ticket_index as int]@
    }

    /// The encoding of the payload with `command` and `data`.
    pub open spec fn payload_bytes(&self, command: Seq<char>, data: Seq<u8>) -> Seq<u8> {
        upstream_wire(command, self.seq_id, RETRY_COUNT, data, SUB_BIZ@)
    }

    /// The encoding of the header of `body`, encrypted with the session key.
    pub open spec fn header_bytes(&self, body: Seq<u8>) -> Seq<u8> {
        header_wire(
            APP_ID,
            self.userid,
            self.instance_id,
            body.len() as u32,
            ENCRYPTION_SESSION_KEY,
            None,
            self.seq_id,
            KPN@,
        )
    }

    /// The encoding of the command `command` with `data`.
    pub open spec fn command_bytes(&self, command: Seq<char>, data: Seq<u8>) -> Seq<u8> {
        cmd_wire(command, data, self.ticket(), self.live_id@)
    }

    /// A new client for the live room `live_id`; `security_key` is the base64
    /// text of its 32-byte key. Everything else starts at zero.
    pub fn new(
        userid: i64,
        service_token: String,
        security_key: &String,
        live_id: String,
        enter_room_attach: String,
        tickets: Vec<String>,
    ) -> (r: ClientRequest)
        requires
            key_of_token(security_key@) is Some,
        ensures
            r.userid == userid,
            r.service_token == service_token,
            key_of_token(security_key@) == Some(r.security_key@),
            r.live_id == live_id,
            r.enter_room_attach == enter_room_attach,
            r.session_key@ == Seq::new(32, |i: int| 0u8),
            r.tickets == tickets,
            r.ticket_index == 0,
            r.instance_id == 0,
            r.lz4_compression_threshold == 0,
            r.seq_id == 0,
            r.heartbeat_seq_id == 0,
    {
        let session_key = [0u8; 32];
        assert(session_key@ =~= Seq::new(32, |i: int| 0u8));
        ClientRequest {
            userid,
            service_token: service_token.clone(),
            security_key: convert_key(security_key),
            live_id,
            enter_room_attach,
            session_key,
            tickets,
            ticket_index: 0,
            instance_id: 0,
            lz4_compression_threshold: 0,
            seq_id: 0,
            heartbeat_seq_id: 0,
        }
    }

    /// A new client as `new` makes it, or `None` where `security_key` is not
    /// the base64 text of 32 bytes.
    pub fn try_new(
        userid: i64,
        service_token: String,
        security_key: &String,
        live_id: String,
        enter_room_attach: String,
        tickets: Vec<String>,
    ) -> (r: Option<ClientRequest>)
        ensures
            match r {
                Some(c) => {
                    &&& c.userid == userid
                    &&& c.service_token == service_token
                    &&& key_of_token(security_key@) == Some(c.security_key@)
                    &&& c.live_id == live_id
                    &&& c.enter_room_attach == enter_room_attach
                    &&& c.session_key@ == Seq::new(32, |i: int| 0u8)
                    &&& c.tickets == tickets
                    &&& c.ticket_index == 0
                    &&& c.instance_id == 0
                    &&& c.lz4_compression_threshold == 0
                    &&& c.seq_id == 0
                    &&& c.heartbeat_seq_id == 0
                },
                None => key_of_token(security_key@) is None,
            },
    {
        match crate::frame::try_convert_key(security_key) {
            Some(_) => Some(
                ClientRequest::new(
                    userid,
                    service_token,
                    security_key,
                    live_id,
                    enter_room_attach,
                    tickets,
                ),
            ),
            None => None,
        }
    }

    /// Takes what the server gave at registration.
    pub fn register(&mut self, instance_id: i64, session_key: Vec<u8>, lz4_compression_htreshold: i32)
        requires
            session_key@.len() == 32,
        ensures
            stepped(*old(self), *final(self), Call::Register),
            final(self).instance_id == instance_id,
            final(self).session_key@ == session_key@,
            final(self).lz4_compression_threshold == lz4_compression_htreshold,
            final(self).userid == old(self).userid,
            final(self).service_token == old(self).service_token,
            final(self).security_key == old(self).security_key,
            final(self).live_id == old(self).live_id,
            final(self).enter_room_attach == old(self).enter_room_attach,
            final(self).tickets == old(self).tickets,
            final(self).ticket_index == old(self).ticket_index,
            final(self).seq_id == old(self).seq_id,
            final(self).heartbeat_seq_id == old(self).heartbeat_seq_id,
    {
        self.instance_id = instance_id;
        self.session_key = key_from_slice(session_key.as_slice());
        self.lz4_compression_threshold = lz4_compression_htreshold;
    }

    /// The sequence number of the next payload.
    pub fn get_seq_id(&self) -> (r: i64)
        ensures
            r == self.seq_id,
    {
        self.seq_id
    }

    /// The key of the service token.
    pub fn get_security_key(&self) -> (r: &[u8; 32])
        ensures
            r == &self.security_key,
    {
        &self.security_key
    }

    /// The key of the session.
    pub fn get_session_key(&self) -> (r: &[u8; 32])
        ensures
            r == &self.session_key,
    {
        &self.session_key
    }

    /// Moves on to the next ticket and gives it.
    pub fn next_ticket(&mut self) -> (r: String)
        requires
            old(self).ticket_index + 1 < old(self).tickets@.len(),
        ensures
            stepped(*old(self), *final(self), Call::NextTicket),
            final(self).ticket_index == old(self).ticket_index + 1,
            r == final(self).tickets@[final(self).ticket_index as int],
            final(self).userid == old(self).userid,
            final(self).service_token == old(self).service_token,
            final(self).security_key == old(self).security_key,
            final(self).live_id == old(self).live_id,
            final(self).enter_room_attach == old(self).enter_room_attach,
            final(self).session_key == old(self).session_key,
            final(self).tickets == old(self).tickets,
            final(self).instance_id == old(self).instance_id,
            final(self).lz4_compression_threshold == old(self).lz4_compression_threshold,
            final(self).seq_id == old(self).seq_id,
            final(self).heartbeat_seq_id == old(self).heartbeat_seq_id,
    {
        let n = self.tickets.len();
        assert(self.ticket_index + 1 < n);
        self.ticket_index = self.ticket_index + 1;
        self.tickets[self.ticket_index].clone()
    }

    /// The command `command` with the message `msg`, for the ticket in use
    /// and the live room.
    pub fn generate_command(&self, command: &str, msg: Option<Vec<u8>>) -> (r: ZtLiveCsCmd)
        requires
            self.has_ticket(),
        ensures
            r.cmd_type@ == command@,
            r.payload@ == data_of(msg),
            r.ticket@ == self.ticket(),
            r.live_id@ == self.live_id@,
            r.wire() == self.command_bytes(command@, data_of(msg)),
    {
        match msg {
            Some(data) => ZtLiveCsCmd {
                cmd_type: String::from_str(command),
                payload: data,
                ticket: self.tickets[self.ticket_index].clone(),
                live_id: self.live_id.clone(),
            },
            None => ZtLiveCsCmd {
                cmd_type: String::from_str(command),
                payload: Vec::new(),
                ticket: self.tickets[self.ticket_index].clone(),
                live_id: self.live_id.clone(),
            },
        }
    }

    /// The payload `command` with the message `msg`, at the current
    /// sequence number.
    pub fn generate_payload(&self, command: &str, msg: Option<Vec<u8>>) -> (r: UpstreamPayload)
        ensures
            r.command@ == command@,
            r.seq_id == self.seq_id,
            r.retry_count == RETRY_COUNT,
            r.payload_data@ == data_of(msg),
            r.sub_biz@ == SUB_BIZ@,
            r.wire() == self.payload_bytes(command@, data_of(msg)),
    {
        match msg {
            Some(data) => UpstreamPayload {
                command: String::from_str(command),
                seq_id: self.seq_id,
                retry_count: RETRY_COUNT,
                payload_data: data,
                sub_biz: String::from_str(SUB_BIZ),
            },
            None => UpstreamPayload {
                command: String::from_str(command),
                seq_id: self.seq_id,
                retry_count: RETRY_COUNT,
                payload_data: Vec::new(),
                sub_biz: String::from_str(SUB_BIZ),
            },
        }
    }

    /// The header of `msg`, encrypted with the session key, at the current
    /// sequence number.
    pub fn generate_header(&self, msg: &Vec<u8>) -> (r: PacketHeader)
        ensures
            r.app_id == APP_ID,
            r.uid == self.userid,
            r.instance_id == self.instance_id,
            r.decoded_payload_len == msg@.len() as u32,
            r.encryption_mode == ENCRYPTION_SESSION_KEY,
            r.token_info is None,
            r.seq_id == self.seq_id,
            r.kpn@ == KPN@,
            r.wire() == self.header_bytes(msg@),
    {
        PacketHeader {
            app_id: APP_ID,
            uid: self.userid,
            instance_id: self.instance_id,
            decoded_payload_len: msg.len() as u32,
            encryption_mode: ENCRYPTION_SESSION_KEY,
            token_info: None,
            seq_id: self.seq_id,
            kpn: String::from_str(KPN),
        }
    }
}


impl ClientRequest {
    /// The body of the handshake request.
    pub open spec fn handshake_body(&self) -> Seq<u8> {
        self.payload_bytes(HANDSHAKE@, handshake_wire(1, 1))
    }

    /// The body of the register request.
    pub open spec fn register_body(&self) -> Seq<u8> {
        self.payload_bytes(
            REGISTER@,
            register_wire(
                app_info_wire(CLIENT_LIVE_SDK_VERSION@, LINK_VERSION@),
                device_info_wire(PLATFORM_H5_WINDOWS, DEVICE_MODEL@),
                PRESENCE_ONLINE,
                APP_IN_FOREGROUND,
                self.instance_id,
                common_info_wire(KPN@, KPF@, self.userid),
            ),
        )
    }

    /// The header of the register request: encrypted with the service
    /// token's key, and carrying the service token.
    pub open spec fn register_header(&self) -> Seq<u8> {
        header_wire(
            APP_ID,
            self.userid,
            self.instance_id,
            self.register_body().len() as u32,
            ENCRYPTION_SERVICE_TOKEN,
            Some(token_info_wire_of(TOKEN_TYPE_SERVICE_TOKEN, utf8(self.service_token@))),
            self.seq_id,
            KPN@,
        )
    }

    /// The body of the keep-alive request.
    pub open spec fn keep_alive_body(&self) -> Seq<u8> {
        self.payload_bytes(KEEP_ALIVE@, keep_alive_wire(PRESENCE_ONLINE, APP_IN_FOREGROUND))
    }

    /// The body of the request that enters the live room.
    pub open spec fn enter_room_body(&self) -> Seq<u8> {
        self.payload_bytes(
            GLOBAL_COMMAND@,
            self.command_bytes(
                ENTER_ROOM@,
                enter_room_wire(self.enter_room_attach@, CLIENT_LIVE_SDK_VERSION@),
            ),
        )
    }

    /// The body of the answer to a pushed message.
    pub open spec fn push_message_body(&self) -> Seq<u8> {
        self.payload_bytes(PUSH_MESSAGE@, Seq::empty())
    }

    /// The header of the answer to a pushed message whose header had the
    /// sequence number `header_seq_id`.
    pub open spec fn push_message_header(&self, header_seq_id: i64) -> Seq<u8> {
        header_wire(
            APP_ID,
            self.userid,
            self.instance_id,
            self.push_message_body().len() as u32,
            ENCRYPTION_SESSION_KEY,
            None,
            header_seq_id,
            KPN@,
        )
    }

    /// The body of the heartbeat sent at `timestamp_ms`.
    pub open spec fn heartbeat_body(&self, timestamp_ms: i64) -> Seq<u8> {
        self.payload_bytes(
            GLOBAL_COMMAND@,
            self.command_bytes(HEARTBEAT@, heartbeat_wire(timestamp_ms, self.heartbeat_seq_id)),
        )
    }

    /// The body of the request that leaves the live room.
    pub open spec fn user_exit_body(&self) -> Seq<u8> {
        self.payload_bytes(GLOBAL_COMMAND@, self.command_bytes(USER_EXIT@, Seq::empty()))
    }

    /// The body of the unregister request.
    pub open spec fn unregister_body(&self) -> Seq<u8> {
        self.payload_bytes(UNREGISTER@, Seq::empty())
    }

    /// The frame that opens the link, encrypted with the service token's key.
    pub fn handshake_request(&self) -> (r: Vec<u8>)
        ensures
            is_frame_of(
                r@,
                self.security_key@,
                self.header_bytes(self.handshake_body()),
                self.handshake_body(),
            ),
    {
        proof {
            lemma_handshake_sendable(*self);
        }
        let request = HandshakeRequest { unknown1: 1, unknown2: 1 };
        let payload = self.generate_payload(HANDSHAKE, Some(request.to_bytes()));
        let body = payload.to_bytes();
        let header = self.generate_header(&body);
        encode(header.to_bytes(), body, &self.security_key)
    }

    /// The frame that registers the client, encrypted with the service
    /// token's key; the sequence number moves on.
    pub fn register_request(&mut self) -> (r: Vec<u8>)
        requires
            sendable(old(self).register_header(), old(self).register_body()),
        ensures
            stepped(*old(self), *final(self), Call::Counted),
            is_frame_of(
                r@,
                old(self).security_key@,
                old(self).register_header(),
                old(self).register_body(),
            ),
            ClientRequest::same_but_seq(
                *old(self),
                *final(self),
                next_seq(old(self).seq_id),
                old(self).heartbeat_seq_id,
            ),
    {
        let request = RegisterRequest {
            app_info: AppInfo {
                sdk_version: String::from_str(CLIENT_LIVE_SDK_VERSION),
                link_version: String::from_str(LINK_VERSION),
            },
            device_info: DeviceInfo {
                platform_type: PLATFORM_H5_WINDOWS,
                device_model: String::from_str(DEVICE_MODEL),
            },
            presence_status: PRESENCE_ONLINE,
            app_active_status: APP_IN_FOREGROUND,
            instance_id: self.instance_id,
            zt_common_info: ZtCommonInfo {
                kpn: String::from_str(KPN),
                kpf: String::from_str(KPF),
                uid: self.userid,
            },
        };
        let payload = self.generate_payload(REGISTER, Some(request.to_bytes()));
        let body = payload.to_bytes();
        let mut header = self.generate_header(&body);
        header.token_info = Some(
            TokenInfo {
                token_type: TOKEN_TYPE_SERVICE_TOKEN,
                token: vstd::slice::slice_to_vec(self.service_token.as_str().as_bytes()),
            },
        );
        header.encryption_mode = ENCRYPTION_SERVICE_TOKEN;
        self.seq_id = if self.seq_id == i64::MAX {
            i64::MIN
        } else {
            self.seq_id + 1
        };
        encode(header.to_bytes(), body, &self.security_key)
    }

    /// The frame that keeps the registration alive; the sequence number
    /// moves on.
    pub fn keep_alive_request(&mut self) -> (r: Vec<u8>)
        requires
            sendable(old(self).header_bytes(old(self).keep_alive_body()), old(self).keep_alive_body()),
        ensures
            stepped(*old(self), *final(self), Call::Counted),
            is_frame_of(
                r@,
                old(self).session_key@,
                old(self).header_bytes(old(self).keep_alive_body()),
                old(self).keep_alive_body(),
            ),
            ClientRequest::same_but_seq(
                *old(self),
                *final(self),
                next_seq(old(self).seq_id),
                old(self).heartbeat_seq_id,
            ),
    {
        let request = KeepAliveRequest {
            presence_status: PRESENCE_ONLINE,
            app_active_status: APP_IN_FOREGROUND,
        };
        let payload = self.generate_payload(KEEP_ALIVE, Some(request.to_bytes()));
        let body = payload.to_bytes();
        let header = self.generate_header(&body);
        self.seq_id = if self.seq_id == i64::MAX {
            i64::MIN
        } else {
            self.seq_id + 1
        };
        encode(header.to_bytes(), body, &self.session_key)
    }

    /// The frame that enters the live room with the ticket in use; the
    /// sequence number moves on.
    pub fn enter_room_request(&mut self) -> (r: Vec<u8>)
        requires
            old(self).has_ticket(),
            sendable(old(self).header_bytes(old(self).enter_room_body()), old(self).enter_room_body()),
        ensures
            stepped(*old(self), *final(self), Call::Counted),
            is_frame_of(
                r@,
                old(self).session_key@,
                old(self).header_bytes(old(self).enter_room_body()),
                old(self).enter_room_body(),
            ),
            ClientRequest::same_but_seq(
                *old(self),
                *final(self),
                next_seq(old(self).seq_id),
                old(self).heartbeat_seq_id,
            ),
    {
        let request = ZtLiveCsEnterRoom {
            enter_room_attach: self.enter_room_attach.clone(),
            client_live_sdk_version: String::from_str(CLIENT_LIVE_SDK_VERSION),
        };
        let cmd = self.generate_command(ENTER_ROOM, Some(request.to_bytes()));
        let payload = self.generate_payload(GLOBAL_COMMAND, Some(cmd.to_bytes()));
        let body = payload.to_bytes();
        let header = self.generate_header(&body);
        self.seq_id = if self.seq_id == i64::MAX {
            i64::MIN
        } else {
            self.seq_id + 1
        };
        encode(header.to_bytes(), body, &self.session_key)
    }

    /// The frame that answers a pushed message whose header had the
    /// sequence number `header_seq_id`.
    pub fn push_message_response(&self, header_seq_id: i64) -> (r: Vec<u8>)
        requires
            sendable(self.push_message_header(header_seq_id), self.push_message_body()),
        ensures
            is_frame_of(
                r@,
                self.session_key@,
                self.push_message_header(header_seq_id),
                self.push_message_body(),
            ),
    {
        let payload = self.generate_payload(PUSH_MESSAGE, None);
        let body = payload.to_bytes();
        let mut header = self.generate_header(&body);
        header.seq_id = header_seq_id;
        encode(header.to_bytes(), body, &self.session_key)
    }

    /// The heartbeat frame, stamped `timestamp_ms`; both sequence numbers
    /// move on.
    pub fn heartbeat_request_at(&mut self, timestamp_ms: i64) -> (r: Vec<u8>)
        requires
            old(self).has_ticket(),
            sendable(
                old(self).header_bytes(old(self).heartbeat_body(timestamp_ms)),
                old(self).heartbeat_body(timestamp_ms),
            ),
        ensures
            stepped(*old(self), *final(self), Call::Heartbeat),
            is_frame_of(
                r@,
                old(self).session_key@,
                old(self).header_bytes(old(self).heartbeat_body(timestamp_ms)),
                old(self).heartbeat_body(timestamp_ms),
            ),
            ClientRequest::same_but_seq(
                *old(self),
                *final(self),
                next_seq(old(self).seq_id),
                next_seq(old(self).heartbeat_seq_id),
            ),
    {
        let request = ZtLiveCsHeartbeat {
            client_timestamp_ms: timestamp_ms,
            sequence: self.heartbeat_seq_id,
        };
        let cmd = self.generate_command(HEARTBEAT, Some(request.to_bytes()));
        let payload = self.generate_payload(GLOBAL_COMMAND, Some(cmd.to_bytes()));
        let body = payload.to_bytes();
        let header = self.generate_header(&body);
        self.heartbeat_seq_id = if self.heartbeat_seq_id == i64::MAX {
            i64::MIN
        } else {
            self.heartbeat_seq_id + 1
        };
        self.seq_id = if self.seq_id == i64::MAX {
            i64::MIN
        } else {
            self.seq_id + 1
        };
        encode(header.to_bytes(), body, &self.session_key)
    }

    /// The heartbeat frame, stamped with the time now in milliseconds (as
    /// `i64`, wrapping); both sequence numbers move on. `None`, and nothing
    /// changes, when the clock reads a time before the Unix epoch or when
    /// the frame would not fit (`heartbeat_fits`).
    pub fn heartbeat_request(&mut self) -> (r: Option<Vec<u8>>)
        requires
            old(self).has_ticket(),
        ensures
            stepped(
                *old(self),
                *final(self),
                if r is Some {
                    Call::Heartbeat
                } else {
                    Call::Unchanged
                },
            ),
            match r {
                Some(f) => {
                    &&& exists|t: i64|
                        is_frame_of(
                            f@,
                            old(self).session_key@,
                            #[trigger] old(self).header_bytes(old(self).heartbeat_body(t)),
                            old(self).heartbeat_body(t),
                        )
                    &&& ClientRequest::same_but_seq(
                        *old(self),
                        *final(self),
                        next_seq(old(self).seq_id),
                        next_seq(old(self).heartbeat_seq_id),
                    )
                },
                None => *final(self) == *old(self),
            },
    {
        let now = match unix_time_millis() {
            Some(ms) => ms as i64,
            None => return None,
        };
        if !self.heartbeat_fits(now) {
            return None;
        }
        let r = self.heartbeat_request_at(now);
        assert(is_frame_of(
            r@,
            old(self).session_key@,
            old(self).header_bytes(old(self).heartbeat_body(now)),
            old(self).heartbeat_body(now),
        ));
        Some(r)
    }

    /// The frame that leaves the live room with the ticket in use.
    pub fn user_exit_request(&self) -> (r: Vec<u8>)
        requires
            self.has_ticket(),
            sendable(self.header_bytes(self.user_exit_body()), self.user_exit_body()),
        ensures
            is_frame_of(
                r@,
                self.session_key@,
                self.header_bytes(self.user_exit_body()),
                self.user_exit_body(),
            ),
    {
        let cmd = self.generate_command(USER_EXIT, None);
        let payload = self.generate_payload(GLOBAL_COMMAND, Some(cmd.to_bytes()));
        let body = payload.to_bytes();
        let header = self.generate_header(&body);
        encode(header.to_bytes(), body, &self.session_key)
    }

    /// The frame that unregisters the client.
    pub fn unregister_request(&self) -> (r: Vec<u8>)
        requires
            sendable(self.header_bytes(self.unregister_body()), self.unregister_body()),
        ensures
            is_frame_of(
                r@,
                self.session_key@,
                self.header_bytes(self.unregister_body()),
                self.unregister_body(),
            ),
    {
        let payload = self.generate_payload(UNREGISTER, None);
        let body = payload.to_bytes();
        let header = self.generate_header(&body);
        encode(header.to_bytes(), body, &self.session_key)
    }
}


proof fn lemma_varint_pow(n: nat, k: nat)
    requires
        1 <= k,
        n < crate::proto::pow128(k),
    ensures
        crate::proto::varint(n).len() <= k,
    decreases k,
{
    if n >= 128 {
        let p = crate::proto::pow128((k - 1) as nat);
        if k == 1 {
            assert(crate::proto::pow128(1) == 128 * crate::proto::pow128(0));
        } else {
            assert(n / 128 < p) by (nonlinear_arith)
                requires
                    n < 128 * p,
            ;
            lemma_varint_pow(n / 128, (k - 1) as nat);
        }
    }
}

/// A varint of a 64-bit value takes at most ten bytes.
proof fn lemma_varint10(n: nat)
    requires
        n <= u64::MAX,
    ensures
        crate::proto::varint(n).len() <= 10,
{
    reveal_with_fuel(crate::proto::pow128, 11);
    assert(crate::proto::pow128(10) == 1180591620717411303424nat);
    lemma_varint_pow(n, 10);
}

/// UTF-8 takes at most four bytes a character.
pub proof fn lemma_utf8_len(s: Seq<char>)
    ensures
        utf8(s).len() <= 4 * s.len(),
    decreases s.len(),
{
    if s.len() > 0 {
        lemma_utf8_len(s.drop_first());
    }
}

/// Bounds on the fields of a small field number.
pub(crate) proof fn lemma_field_bounds(f: nat, v: nat, b: Seq<u8>)
    requires
        1 <= f <= 15,
        v <= u64::MAX,
        b.len() <= u64::MAX,
    ensures
        crate::proto::opt_varint_field(f, v).len() <= 11,
        crate::proto::opt_len_field(f, b).len() <= 11 + b.len(),
        crate::proto::len_field(f, b).len() <= 11 + b.len(),
{
    lemma_varint10(v);
    lemma_varint10(b.len());
    assert(crate::proto::tag(f, 0).len() == 1);
    assert(crate::proto::tag(f, 2).len() == 1);
}

/// The constant strings of the client are short.
proof fn lemma_constants_short()
    ensures
        utf8(HANDSHAKE@).len() <= 200,
        utf8(REGISTER@).len() <= 200,
        utf8(UNREGISTER@).len() <= 200,
        utf8(KEEP_ALIVE@).len() <= 200,
        utf8(GLOBAL_COMMAND@).len() <= 200,
        utf8(PUSH_MESSAGE@).len() <= 200,
        utf8(ENTER_ROOM@).len() <= 200,
        utf8(HEARTBEAT@).len() <= 200,
        utf8(USER_EXIT@).len() <= 200,
        utf8(SUB_BIZ@).len() <= 200,
        utf8(KPN@).len() <= 200,
        utf8(KPF@).len() <= 200,
        utf8(CLIENT_LIVE_SDK_VERSION@).len() <= 200,
        utf8(LINK_VERSION@).len() <= 200,
        utf8(DEVICE_MODEL@).len() <= 200,
{
    reveal_strlit("Basic.Handshake");
    reveal_strlit("Basic.Register");
    reveal_strlit("Basic.Unregister");
    reveal_strlit("Basic.KeepAlive");
    reveal_strlit("Global.ZtLiveInteractive.CsCmd");
    reveal_strlit("Push.ZtLiveInteractive.Message");
    reveal_strlit("ZtLiveCsEnterRoom");
    reveal_strlit("ZtLiveCsHeartbeat");
    reveal_strlit("ZtLiveCsUserExit");
    reveal_strlit("mainApp");
    reveal_strlit("ACFUN_APP.LIVE_MATE");
    reveal_strlit("WINDOWS_PC");
    reveal_strlit("kwai-acfun-live-link");
    reveal_strlit("2.13.8");
    reveal_strlit("h5");
    lemma_utf8_len(HANDSHAKE@);
    lemma_utf8_len(REGISTER@);
    lemma_utf8_len(UNREGISTER@);
    lemma_utf8_len(KEEP_ALIVE@);
    lemma_utf8_len(GLOBAL_COMMAND@);
    lemma_utf8_len(PUSH_MESSAGE@);
    lemma_utf8_len(ENTER_ROOM@);
    lemma_utf8_len(HEARTBEAT@);
    lemma_utf8_len(USER_EXIT@);
    lemma_utf8_len(SUB_BIZ@);
    lemma_utf8_len(KPN@);
    lemma_utf8_len(KPF@);
    lemma_utf8_len(CLIENT_LIVE_SDK_VERSION@);
    lemma_utf8_len(LINK_VERSION@);
    lemma_utf8_len(DEVICE_MODEL@);
}

/// The length of a payload.
proof fn lemma_upstream_len(c: Seq<char>, seq_id: i64, retry: u32, data: Seq<u8>, sub: Seq<char>)
    requires
        utf8(c).len() <= 200,
        utf8(sub).len() <= 200,
        data.len() <= 0x1000_0000,
    ensures
        upstream_wire(c, seq_id, retry, data, sub).len() <= 500 + data.len(),
{
    lemma_field_bounds(1, crate::proto::i64_wire(seq_id), utf8(c));
    lemma_field_bounds(2, crate::proto::i64_wire(seq_id), data);
    lemma_field_bounds(3, retry as nat, data);
    lemma_field_bounds(4, 0, data);
    lemma_field_bounds(9, 0, utf8(sub));
}

/// The length of a header.
proof fn lemma_header_len(
    uid: i64,
    instance_id: i64,
    len: u32,
    mode: i32,
    token: Option<Seq<u8>>,
    seq_id: i64,
) -> (bound: nat)
    requires
        token matches Some(t) ==> t.len() <= 0x1000_0000,
    ensures
        header_wire(APP_ID, uid, instance_id, len, mode, token, seq_id, KPN@).len() <= bound,
        bound <= 500 + match token {
            Some(t) => t.len(),
            None => 0,
        },
{
    lemma_constants_short();
    let t = match token {
        Some(t) => t,
        None => Seq::empty(),
    };
    lemma_field_bounds(1, crate::proto::i32_wire(APP_ID), t);
    lemma_field_bounds(2, crate::proto::i64_wire(uid), t);
    lemma_field_bounds(3, crate::proto::i64_wire(instance_id), t);
    lemma_field_bounds(7, len as nat, t);
    lemma_field_bounds(8, crate::proto::i32_wire(mode), t);
    lemma_field_bounds(9, 0, t);
    lemma_field_bounds(10, crate::proto::i64_wire(seq_id), t);
    lemma_field_bounds(12, 0, utf8(KPN@));
    500 + t.len()
}

/// The handshake always fits a frame: it holds no string of the client.
pub proof fn lemma_handshake_sendable(c: ClientRequest)
    ensures
        sendable(c.header_bytes(c.handshake_body()), c.handshake_body()),
{
    lemma_constants_short();
    let e = Seq::<u8>::empty();
    let hs = handshake_wire(1, 1);
    lemma_field_bounds(1, crate::proto::i32_wire(1), e);
    lemma_field_bounds(2, crate::proto::i32_wire(1), e);
    lemma_upstream_len(HANDSHAKE@, c.seq_id, RETRY_COUNT, hs, SUB_BIZ@);
    let b = c.handshake_body();
    lemma_header_len(c.userid, c.instance_id, b.len() as u32, ENCRYPTION_SESSION_KEY, None, c.seq_id);
}

/// The keep-alive request always fits a frame: it holds no string of the
/// client.
pub proof fn lemma_keep_alive_sendable(c: ClientRequest)
    ensures
        sendable(c.header_bytes(c.keep_alive_body()), c.keep_alive_body()),
{
    lemma_constants_short();
    let e = Seq::<u8>::empty();
    let ka = keep_alive_wire(PRESENCE_ONLINE, APP_IN_FOREGROUND);
    lemma_field_bounds(1, crate::proto::i32_wire(PRESENCE_ONLINE), e);
    lemma_field_bounds(2, crate::proto::i32_wire(APP_IN_FOREGROUND), e);
    lemma_upstream_len(KEEP_ALIVE@, c.seq_id, RETRY_COUNT, ka, SUB_BIZ@);
    lemma_header_len(
        c.userid,
        c.instance_id,
        c.keep_alive_body().len() as u32,
        ENCRYPTION_SESSION_KEY,
        None,
        c.seq_id,
    );
}

/// The answer to a pushed message always fits a frame: it holds no string
/// of the client.
pub proof fn lemma_push_sendable(c: ClientRequest, header_seq_id: i64)
    ensures
        sendable(c.push_message_header(header_seq_id), c.push_message_body()),
{
    lemma_constants_short();
    let e = Seq::<u8>::empty();
    lemma_upstream_len(PUSH_MESSAGE@, c.seq_id, RETRY_COUNT, e, SUB_BIZ@);
    lemma_header_len(
        c.userid,
        c.instance_id,
        c.push_message_body().len() as u32,
        ENCRYPTION_SESSION_KEY,
        None,
        header_seq_id,
    );
}

/// The unregister request always fits a frame: it holds no string of the
/// client.
pub proof fn lemma_unregister_sendable(c: ClientRequest)
    ensures
        sendable(c.header_bytes(c.unregister_body()), c.unregister_body()),
{
    lemma_constants_short();
    let e = Seq::<u8>::empty();
    lemma_upstream_len(UNREGISTER@, c.seq_id, RETRY_COUNT, e, SUB_BIZ@);
    lemma_header_len(
        c.userid,
        c.instance_id,
        c.unregister_body().len() as u32,
        ENCRYPTION_SESSION_KEY,
        None,
        c.seq_id,
    );
}

/// The length of an optional varint field whose number is below 16.
pub open spec fn opt_varint_size(v: nat) -> nat {
    if v == 0 {
        0
    } else {
        1 + varint(v).len()
    }
}

/// The length of a length-delimited field whose number is below 16 and
/// which holds `n` bytes.
pub open spec fn len_size(n: nat) -> nat {
    1 + varint(n).len() + n
}

/// The length of an optional length-delimited field whose number is below
/// 16 and which holds `n` bytes.
pub open spec fn opt_len_size(n: nat) -> nat {
    if n == 0 {
        0
    } else {
        len_size(n)
    }
}

/// The lengths of the fields whose number is below 16.
proof fn lemma_sizes(f: nat, v: nat, b: Seq<u8>)
    requires
        1 <= f <= 15,
    ensures
        opt_varint_field(f, v).len() == opt_varint_size(v),
        opt_len_field(f, b).len() == opt_len_size(b.len()),
        len_field(f, b).len() == len_size(b.len()),
{
    assert(crate::proto::tag(f, 0).len() == 1);
    assert(crate::proto::tag(f, 2).len() == 1);
}

/// The number of bytes of the varint of `v`.
fn varint_size(v: u64) -> (n: u64)
    ensures
        n == varint(v as nat).len(),
        1 <= n <= 10,
{
    proof {
        lemma_varint10(v as nat);
    }
    let mut x = v;
    let mut n: u64 = 1;
    while x >= 128
        invariant
            1 <= n,
            varint(x as nat).len() >= 1,
            n - 1 + varint(x as nat).len() == varint(v as nat).len(),
            varint(v as nat).len() <= 10,
        decreases x,
    {
        assert(varint(x as nat).len() == 1 + varint((x / 128) as nat).len());
        x = x / 128;
        n = n + 1;
    }
    n
}

/// The length of an optional varint field whose number is below 16.
fn opt_varint_size_of(v: u64) -> (n: u64)
    ensures
        n == opt_varint_size(v as nat),
        n <= 11,
{
    if v == 0 {
        0
    } else {
        1 + varint_size(v)
    }
}

/// The length of a length-delimited field whose number is below 16 and which
/// holds `n` bytes.
fn len_size_of(n: u64) -> (r: u64)
    requires
        n <= 0x1_0000_0000_0000,
    ensures
        r == len_size(n as nat),
        r <= n + 11,
{
    1 + varint_size(n) + n
}

/// The length of an optional length-delimited field whose number is below
/// 16 and which holds `n` bytes.
fn opt_len_size_of(n: u64) -> (r: u64)
    requires
        n <= 0x1_0000_0000_0000,
    ensures
        r == opt_len_size(n as nat),
        r <= n + 11,
{
    if n == 0 {
        0
    } else {
        len_size_of(n)
    }
}

/// The number of bytes of the UTF-8 encoding of `s`.
fn str_size(s: &str) -> (n: u64)
    ensures
        n == utf8(s@).len(),
{
    s.as_bytes().len() as u64
}

/// The length of the header of a frame of the client with these fields,
/// where `token` is the encoding of its token info, `token_len` bytes long.
fn header_size(
    uid: i64,
    instance_id: i64,
    dlen: u32,
    mode: i32,
    token_len: Option<u64>,
    seq_id: i64,
    Ghost(token): Ghost<Option<Seq<u8>>>,
) -> (n: u64)
    requires
        match token {
            Some(t) => token_len == Some(t.len() as u64) && t.len() <= 0x1_0000_0000_0000,
            None => token_len is None,
        },
    ensures
        n == header_wire(APP_ID, uid, instance_id, dlen, mode, token, seq_id, KPN@).len(),
        n <= 300 + match token_len {
            Some(l) => l as nat,
            None => 0,
        },
{
    let ghost e = Seq::<u8>::empty();
    let t = match token_len {
        Some(l) => len_size_of(l),
        None => 0,
    };
    proof {
        lemma_constants_short();
        lemma_sizes(1, crate::proto::i32_wire(APP_ID), e);
        lemma_sizes(2, crate::proto::i64_wire(uid), e);
        lemma_sizes(3, crate::proto::i64_wire(instance_id), e);
        lemma_sizes(7, dlen as nat, e);
        lemma_sizes(8, crate::proto::i32_wire(mode), e);
        if let Some(tb) = token {
            lemma_sizes(9, 0, tb);
        }
        lemma_sizes(10, crate::proto::i64_wire(seq_id), e);
        lemma_sizes(12, 0, utf8(KPN@));
    }
    let k = str_size(KPN);
    opt_varint_size_of(APP_ID as u64) + opt_varint_size_of(uid as u64) + opt_varint_size_of(
        instance_id as u64,
    ) + opt_varint_size_of(dlen as u64) + opt_varint_size_of(mode as u64) + t + opt_varint_size_of(
        seq_id as u64,
    ) + opt_len_size_of(k)
}

/// Whether a header of `h` bytes and a body of `b` bytes fit a frame.
fn frame_fits(h: u64, b: u64) -> (r: bool)
    requires
        h <= 0x1_0000_0000_0000,
        b <= 0x1_0000_0000_0000,
    ensures
        r == sendable_len(h as nat, b as nat),
{
    h <= 0x7fff_ffff && b <= 0x7fff_ffff && 2 * (16 + h + 16 + (b / 16 + 1) * 16) <= usize::MAX as u64
}

/// Whether a header of `h` bytes and a body of `b` bytes fit a frame.
pub open spec fn sendable_len(h: nat, b: nat) -> bool {
    &&& h <= i32::MAX
    &&& b <= i32::MAX
    &&& frame_len(h, b) <= usize::MAX
}

impl ClientRequest {
    /// The body of the global command `command` with the message `data`.
    pub open spec fn command_body(&self, command: Seq<char>, data: Seq<u8>) -> Seq<u8> {
        self.payload_bytes(GLOBAL_COMMAND@, self.command_bytes(command, data))
    }
}

/// The lengths of a global command and of its body.
proof fn lemma_command_body_len(c: ClientRequest, command: Seq<char>, data: Seq<u8>)
    requires
        c.has_ticket(),
    ensures
        c.command_bytes(command, data).len() == opt_len_size(utf8(command).len()) + opt_len_size(
            data.len(),
        ) + opt_len_size(utf8(c.ticket()).len()) + opt_len_size(utf8(c.live_id@).len()),
        c.command_body(command, data).len() == opt_len_size(utf8(GLOBAL_COMMAND@).len())
            + opt_varint_size(crate::proto::i64_wire(c.seq_id)) + opt_varint_size(
            RETRY_COUNT as nat,
        ) + opt_len_size(c.command_bytes(command, data).len()) + opt_len_size(
            utf8(SUB_BIZ@).len(),
        ),
        c.command_body(command, data).len() >= data.len(),
        c.command_body(command, data).len() >= utf8(c.ticket()).len(),
        c.command_body(command, data).len() >= utf8(c.live_id@).len(),
{
    let e = Seq::<u8>::empty();
    let cmd = c.command_bytes(command, data);
    lemma_sizes(1, 0, utf8(command));
    lemma_sizes(2, 0, data);
    lemma_sizes(3, 0, utf8(c.ticket()));
    lemma_sizes(4, 0, utf8(c.live_id@));
    lemma_sizes(1, 0, utf8(GLOBAL_COMMAND@));
    lemma_sizes(2, crate::proto::i64_wire(c.seq_id), e);
    lemma_sizes(3, RETRY_COUNT as nat, e);
    lemma_sizes(4, 0, cmd);
    lemma_sizes(9, 0, utf8(SUB_BIZ@));
}

impl ClientRequest {
    /// Whether the global command `command` with a message `data` of
    /// `data_len` bytes fits a frame.
    fn command_fits(&self, command: &str, data_len: u64, Ghost(data): Ghost<Seq<u8>>) -> (r: bool)
        requires
            self.has_ticket(),
            data.len() == data_len,
            utf8(command@).len() <= 200,
        ensures
            r == sendable(
                self.header_bytes(self.command_body(command@, data)),
                self.command_body(command@, data),
            ),
    {
        let ghost body = self.command_body(command@, data);
        let ghost cmd = self.command_bytes(command@, data);
        let ticket = str_size(self.tickets[self.ticket_index].as_str());
        let live = str_size(self.live_id.as_str());
        proof {
            lemma_constants_short();
            lemma_command_body_len(*self, command@, data);
        }
        if data_len > 0xffff_ffff || ticket > 0xffff_ffff || live > 0xffff_ffff {
            return false;
        }
        let c = opt_len_size_of(str_size(command)) + opt_len_size_of(data_len) + opt_len_size_of(
            ticket,
        ) + opt_len_size_of(live);
        let b = opt_len_size_of(str_size(GLOBAL_COMMAND)) + opt_varint_size_of(self.seq_id as u64)
            + opt_varint_size_of(RETRY_COUNT as u64) + opt_len_size_of(c) + opt_len_size_of(
            str_size(SUB_BIZ),
        );
        if b > 0x7fff_ffff {
            return false;
        }
        let h = header_size(
            self.userid,
            self.instance_id,
            b as u32,
            ENCRYPTION_SESSION_KEY,
            None,
            self.seq_id,
            Ghost(None),
        );
        frame_fits(h, b)
    }

    /// Whether the request that enters the room fits a frame: its messages
    /// within `i32::MAX` bytes and the frame within `usize::MAX`.
    pub fn enter_room_fits(&self) -> (r: bool)
        requires
            self.has_ticket(),
        ensures
            r == sendable(self.header_bytes(self.enter_room_body()), self.enter_room_body()),
    {
        let ghost data = enter_room_wire(self.enter_room_attach@, CLIENT_LIVE_SDK_VERSION@);
        let attach = str_size(self.enter_room_attach.as_str());
        let version = str_size(CLIENT_LIVE_SDK_VERSION);
        proof {
            lemma_constants_short();
            lemma_sizes(4, 0, utf8(self.enter_room_attach@));
            lemma_sizes(5, 0, utf8(CLIENT_LIVE_SDK_VERSION@));
            lemma_command_body_len(*self, ENTER_ROOM@, data);
        }
        if attach > 0xffff_ffff {
            return false;
        }
        let n = opt_len_size_of(attach) + opt_len_size_of(version);
        self.command_fits(ENTER_ROOM, n, Ghost(data))
    }

    /// Whether the heartbeat stamped `timestamp_ms` fits a frame.
    pub fn heartbeat_fits(&self, timestamp_ms: i64) -> (r: bool)
        requires
            self.has_ticket(),
        ensures
            r == sendable(
                self.header_bytes(self.heartbeat_body(timestamp_ms)),
                self.heartbeat_body(timestamp_ms),
            ),
    {
        let ghost data = heartbeat_wire(timestamp_ms, self.heartbeat_seq_id);
        let ghost e = Seq::<u8>::empty();
        proof {
            lemma_constants_short();
            lemma_sizes(1, crate::proto::i64_wire(timestamp_ms), e);
            lemma_sizes(2, crate::proto::i64_wire(self.heartbeat_seq_id), e);
        }
        let n = opt_varint_size_of(timestamp_ms as u64) + opt_varint_size_of(
            self.heartbeat_seq_id as u64,
        );
        self.command_fits(HEARTBEAT, n, Ghost(data))
    }

    /// Whether the request that leaves the live room fits a frame.
    pub fn user_exit_fits(&self) -> (r: bool)
        requires
            self.has_ticket(),
        ensures
            r == sendable(self.header_bytes(self.user_exit_body()), self.user_exit_body()),
    {
        proof {
            lemma_constants_short();
        }
        self.command_fits(USER_EXIT, 0, Ghost(Seq::empty()))
    }

    /// The frames that open a session, in the order they are sent: the
    /// handshake, then the register request, after which the sequence number
    /// has moved on. `None`, with the client unchanged, when the register
    /// request does not fit a frame.
    pub fn opening_frames(&mut self) -> (r: Option<(Vec<u8>, Vec<u8>)>)
        ensures
            match r {
                Some((handshake, register)) => {
                    &&& sendable(old(self).register_header(), old(self).register_body())
                    &&& is_frame_of(
                        handshake@,
                        old(self).security_key@,
                        old(self).header_bytes(old(self).handshake_body()),
                        old(self).handshake_body(),
                    )
                    &&& is_frame_of(
                        register@,
                        old(self).security_key@,
                        old(self).register_header(),
                        old(self).register_body(),
                    )
                    &&& stepped(*old(self), *final(self), Call::Counted)
                },
                None => {
                    &&& !sendable(old(self).register_header(), old(self).register_body())
                    &&& *final(self) == *old(self)
                },
            },
    {
        if !self.register_fits() {
            return None;
        }
        let handshake = self.handshake_request();
        let register = self.register_request();
        Some((handshake, register))
    }

    /// The length of the body of the register request.
    fn register_body_size(&self) -> (n: u64)
        ensures
            n == self.register_body().len(),
            n <= 2000,
    {
        let ghost e = Seq::<u8>::empty();
        let ghost ai = app_info_wire(CLIENT_LIVE_SDK_VERSION@, LINK_VERSION@);
        let ghost di = device_info_wire(PLATFORM_H5_WINDOWS, DEVICE_MODEL@);
        let ghost ci = common_info_wire(KPN@, KPF@, self.userid);
        let ghost rq = register_wire(
            ai,
            di,
            PRESENCE_ONLINE,
            APP_IN_FOREGROUND,
            self.instance_id,
            ci,
        );
        proof {
            lemma_constants_short();
            lemma_sizes(4, 0, utf8(CLIENT_LIVE_SDK_VERSION@));
            lemma_sizes(6, 0, utf8(LINK_VERSION@));
            lemma_sizes(1, crate::proto::i32_wire(PLATFORM_H5_WINDOWS), e);
            lemma_sizes(3, 0, utf8(DEVICE_MODEL@));
            lemma_sizes(1, 0, utf8(KPN@));
            lemma_sizes(2, 0, utf8(KPF@));
            lemma_sizes(7, crate::proto::i64_wire(self.userid), e);
            lemma_sizes(1, 0, ai);
            lemma_sizes(2, 0, di);
            lemma_sizes(4, crate::proto::i32_wire(PRESENCE_ONLINE), e);
            lemma_sizes(5, crate::proto::i32_wire(APP_IN_FOREGROUND), e);
            lemma_sizes(8, crate::proto::i64_wire(self.instance_id), e);
            lemma_sizes(11, 0, ci);
            lemma_sizes(1, 0, utf8(REGISTER@));
            lemma_sizes(2, crate::proto::i64_wire(self.seq_id), e);
            lemma_sizes(3, RETRY_COUNT as nat, e);
            lemma_sizes(4, 0, rq);
            lemma_sizes(9, 0, utf8(SUB_BIZ@));
        }
        let a = opt_len_size_of(str_size(CLIENT_LIVE_SDK_VERSION)) + opt_len_size_of(
            str_size(LINK_VERSION),
        );
        let d = opt_varint_size_of(PLATFORM_H5_WINDOWS as u64) + opt_len_size_of(
            str_size(DEVICE_MODEL),
        );
        let c = opt_len_size_of(str_size(KPN)) + opt_len_size_of(str_size(KPF))
            + opt_varint_size_of(self.userid as u64);
        let r = len_size_of(a) + len_size_of(d) + opt_varint_size_of(PRESENCE_ONLINE as u64)
            + opt_varint_size_of(APP_IN_FOREGROUND as u64) + opt_varint_size_of(
            self.instance_id as u64,
        ) + len_size_of(c);
        assert(r == rq.len());
        opt_len_size_of(str_size(REGISTER)) + opt_varint_size_of(self.seq_id as u64)
            + opt_varint_size_of(RETRY_COUNT as u64) + opt_len_size_of(r) + opt_len_size_of(
            str_size(SUB_BIZ),
        )
    }

    /// Whether the register request fits a frame: its messages within
    /// `i32::MAX` bytes and the frame within `usize::MAX`.
    pub fn register_fits(&self) -> (r: bool)
        ensures
            r == sendable(self.register_header(), self.register_body()),
    {
        let ghost e = Seq::<u8>::empty();
        let ghost tw = token_info_wire_of(TOKEN_TYPE_SERVICE_TOKEN, utf8(self.service_token@));
        let tok = str_size(self.service_token.as_str());
        proof {
            lemma_sizes(1, crate::proto::i32_wire(TOKEN_TYPE_SERVICE_TOKEN), e);
            lemma_sizes(2, 0, utf8(self.service_token@));
            lemma_sizes(9, 0, tw);
        }
        let b = self.register_body_size();
        if tok > 0xffff_ffff {
            proof {
                let h = self.register_header();
                lemma_header_part(
                    self.userid,
                    self.instance_id,
                    b as u32,
                    ENCRYPTION_SERVICE_TOKEN,
                    tw,
                    self.seq_id,
                );
            }
            return false;
        }
        let t = opt_varint_size_of(TOKEN_TYPE_SERVICE_TOKEN as u64) + opt_len_size_of(tok);
        let h = header_size(
            self.userid,
            self.instance_id,
            b as u32,
            ENCRYPTION_SERVICE_TOKEN,
            Some(t),
            self.seq_id,
            Ghost(Some(tw)),
        );
        frame_fits(h, b)
    }
}

/// A header with a token info is no shorter than the token info.
proof fn lemma_header_part(uid: i64, instance_id: i64, dlen: u32, mode: i32, tw: Seq<u8>, seq_id: i64)
    ensures
        header_wire(APP_ID, uid, instance_id, dlen, mode, Some(tw), seq_id, KPN@).len() >= tw.len(),
{
    lemma_sizes(9, 0, tw);
}


/// A call on a client, as the laws over sequences of calls tell them apart.
pub enum Call {
    /// `register_request`, `keep_alive_request` or `enter_room_request`.
    Counted,
    /// `heartbeat_request_at`, or `heartbeat_request` when it gives a frame.
    Heartbeat,
    /// `next_ticket`.
    NextTicket,
    /// `register`.
    Register,
    /// A call that changes nothing: the other requests, `heartbeat_request`
    /// when it gives `None`, the getters.
    Unchanged,
}

/// Whether the call `k` takes the client `c0` to `c1`, as far as the
/// sequence numbers and the tickets go.
pub open spec fn stepped(c0: ClientRequest, c1: ClientRequest, k: Call) -> bool {
    &&& c1.tickets == c0.tickets
    &&& match k {
        Call::Counted => {
            &&& c1.seq_id == next_seq(c0.seq_id)
            &&& c1.heartbeat_seq_id == c0.heartbeat_seq_id
            &&& c1.ticket_index == c0.ticket_index
        },
        Call::Heartbeat => {
            &&& c1.seq_id == next_seq(c0.seq_id)
            &&& c1.heartbeat_seq_id == next_seq(c0.heartbeat_seq_id)
            &&& c1.ticket_index == c0.ticket_index
        },
        Call::NextTicket => {
            &&& c1.seq_id == c0.seq_id
            &&& c1.heartbeat_seq_id == c0.heartbeat_seq_id
            &&& c1.ticket_index == c0.ticket_index + 1
        },
        Call::Register | Call::Unchanged => {
            &&& c1.seq_id == c0.seq_id
            &&& c1.heartbeat_seq_id == c0.heartbeat_seq_id
            &&& c1.ticket_index == c0.ticket_index
        },
    }
}

/// Whether the clients `cs` follow one another by the calls `ks`.
pub open spec fn runs(cs: Seq<ClientRequest>, ks: Seq<Call>) -> bool {
    &&& cs.len() == ks.len() + 1
    &&& forall|i: int| 0 <= i < ks.len() ==> stepped(#[trigger] cs[i], cs[i + 1], ks[i])
}

/// `s` moved on `n` times.
pub open spec fn seq_after(s: i64, n: nat) -> i64
    decreases n,
{
    if n == 0 {
        s
    } else {
        next_seq(seq_after(s, (n - 1) as nat))
    }
}

/// The number of calls in `ks` that send a counted frame.
pub open spec fn counted(ks: Seq<Call>) -> nat
    decreases ks.len(),
{
    if ks.len() == 0 {
        0
    } else {
        counted(ks.drop_last()) + match ks.last() {
            Call::Counted | Call::Heartbeat => 1nat,
            _ => 0nat,
        }
    }
}

/// The number of heartbeats in `ks`.
pub open spec fn heartbeats(ks: Seq<Call>) -> nat
    decreases ks.len(),
{
    if ks.len() == 0 {
        0
    } else {
        heartbeats(ks.drop_last()) + match ks.last() {
            Call::Heartbeat => 1nat,
            _ => 0nat,
        }
    }
}

/// The number of times `ks` moves on to the next ticket.
pub open spec fn ticket_moves(ks: Seq<Call>) -> nat
    decreases ks.len(),
{
    if ks.len() == 0 {
        0
    } else {
        ticket_moves(ks.drop_last()) + match ks.last() {
            Call::NextTicket => 1nat,
            _ => 0nat,
        }
    }
}

/// Over any sequence of calls, the sequence number counts the register,
/// keep-alive, enter-room and heartbeat requests, the heartbeat sequence
/// number counts the heartbeats, and the ticket in use moves on once for
/// each `next_ticket`, the tickets staying as they are.
pub proof fn lemma_calls_count(cs: Seq<ClientRequest>, ks: Seq<Call>)
    requires
        runs(cs, ks),
    ensures
        cs.last().seq_id == seq_after(cs[0].seq_id, counted(ks)),
        cs.last().heartbeat_seq_id == seq_after(cs[0].heartbeat_seq_id, heartbeats(ks)),
        cs.last().ticket_index == cs[0].ticket_index + ticket_moves(ks),
        cs.last().tickets == cs[0].tickets,
    decreases ks.len(),
{
    if ks.len() > 0 {
        let n = ks.len() - 1;
        let cs0 = cs.drop_last();
        let ks0 = ks.drop_last();
        assert forall|i: int| 0 <= i < ks0.len() implies stepped(
            #[trigger] cs0[i],
            cs0[i + 1],
            ks0[i],
        ) by {
            assert(stepped(cs[i], cs[i + 1], ks[i]));
        }
        lemma_calls_count(cs0, ks0);
        assert(stepped(cs[n], cs[n + 1], ks[n]));
        assert(cs0.last() == cs[n]);
    }
}

/// A number moved on `n` times from 0 is `n`, while `n` fits in `i64`.
pub proof fn lemma_seq_after_zero(n: nat)
    requires
        n <= i64::MAX,
    ensures
        seq_after(0, n) == n,
    decreases n,
{
    if n > 0 {
        lemma_seq_after_zero((n - 1) as nat);
    }
}

/// From a new client: after `n` counted frames the sequence number is `n`;
/// the `k`-th heartbeat (counting from 0) carries the heartbeat sequence
/// number `k`; after `m` calls of `next_ticket` the ticket in use is
/// `tickets[m]`.
pub proof fn lemma_calls_from_new(cs: Seq<ClientRequest>, ks: Seq<Call>)
    requires
        runs(cs, ks),
        cs[0].seq_id == 0,
        cs[0].heartbeat_seq_id == 0,
        cs[0].ticket_index == 0,
    ensures
        counted(ks) <= i64::MAX ==> cs.last().seq_id == counted(ks),
        heartbeats(ks) <= i64::MAX ==> cs.last().heartbeat_seq_id == heartbeats(ks),
        cs.last().ticket_index == ticket_moves(ks),
        cs.last().has_ticket() ==> cs.last().ticket() == cs[0].tickets@[ticket_moves(ks) as int]@,
{
    lemma_calls_count(cs, ks);
    if counted(ks) <= i64::MAX {
        lemma_seq_after_zero(counted(ks));
    }
    if heartbeats(ks) <= i64::MAX {
        lemma_seq_after_zero(heartbeats(ks));
    }
}

/// From a new client: after `m` calls of `next_ticket`, the requests that
/// enter the room, send a heartbeat and leave the room all carry the ticket
/// `tickets[m]`.
pub proof fn lemma_requests_carry_ticket(cs: Seq<ClientRequest>, ks: Seq<Call>, timestamp_ms: i64)
    requires
        runs(cs, ks),
        cs[0].seq_id == 0,
        cs[0].heartbeat_seq_id == 0,
        cs[0].ticket_index == 0,
        cs.last().has_ticket(),
    ensures
        ({
            let c = cs.last();
            let t = cs[0].tickets@[ticket_moves(ks) as int]@;
            &&& c.enter_room_body() == c.payload_bytes(
                GLOBAL_COMMAND@,
                cmd_wire(
                    ENTER_ROOM@,
                    enter_room_wire(c.enter_room_attach@, CLIENT_LIVE_SDK_VERSION@),
                    t,
                    c.live_id@,
                ),
            )
            &&& c.heartbeat_body(timestamp_ms) == c.payload_bytes(
                GLOBAL_COMMAND@,
                cmd_wire(
                    HEARTBEAT@,
                    heartbeat_wire(timestamp_ms, c.heartbeat_seq_id),
                    t,
                    c.live_id@,
                ),
            )
            &&& c.user_exit_body() == c.payload_bytes(
                GLOBAL_COMMAND@,
                cmd_wire(USER_EXIT@, Seq::empty(), t, c.live_id@),
            )
        }),
{
    lemma_calls_from_new(cs, ks);
}

/// The register request names the client as the original does: its body,
/// read back, is a `Basic.Register` payload whose `RegisterRequest` (field
/// 4) holds a `ZtCommonInfo` (field 11) naming the product
/// `ACFUN_APP.LIVE_MATE` as kpn (field 1), the platform `WINDOWS_PC` as kpf
/// (field 2) and the client's user id (field 7).
#[verifier::rlimit(40)]
pub proof fn lemma_register_names_client(c: ClientRequest)
    ensures
        ({
            let fs = parse_fields(c.register_body()).unwrap();
            let rfs = parse_fields(bytes_of(fs, 4)).unwrap();
            let cfs = parse_fields(bytes_of(rfs, 11)).unwrap();
            &&& parse_fields(c.register_body()) is Some
            &&& string_of(fs, 1) == "Basic.Register"@
            &&& parse_fields(bytes_of(fs, 4)) is Some
            &&& parse_fields(bytes_of(rfs, 11)) is Some
            &&& string_of(cfs, 1) == "ACFUN_APP.LIVE_MATE"@
            &&& string_of(cfs, 2) == "WINDOWS_PC"@
            &&& int64_of(cfs, 7) == c.userid
        }),
{
    lemma_constants_short();
    let e = Seq::<u8>::empty();
    let ai = app_info_wire(CLIENT_LIVE_SDK_VERSION@, LINK_VERSION@);
    let di = device_info_wire(PLATFORM_H5_WINDOWS, DEVICE_MODEL@);
    let ci = common_info_wire(KPN@, KPF@, c.userid);
    lemma_field_bounds(4, 0, utf8(CLIENT_LIVE_SDK_VERSION@));
    lemma_field_bounds(6, 0, utf8(LINK_VERSION@));
    lemma_field_bounds(1, crate::proto::i32_wire(PLATFORM_H5_WINDOWS), utf8(DEVICE_MODEL@));
    lemma_field_bounds(3, 0, utf8(DEVICE_MODEL@));
    lemma_field_bounds(1, 0, utf8(KPN@));
    lemma_field_bounds(2, 0, utf8(KPF@));
    lemma_field_bounds(7, crate::proto::i64_wire(c.userid), e);
    let rq = register_wire(ai, di, PRESENCE_ONLINE, APP_IN_FOREGROUND, c.instance_id, ci);
    lemma_field_bounds(1, 0, ai);
    lemma_field_bounds(2, 0, di);
    lemma_field_bounds(4, crate::proto::i32_wire(PRESENCE_ONLINE), e);
    lemma_field_bounds(5, crate::proto::i32_wire(APP_IN_FOREGROUND), e);
    lemma_field_bounds(8, crate::proto::i64_wire(c.instance_id), e);
    lemma_field_bounds(11, 0, ci);
    assert(rq.len() <= 2000);
    crate::messages::lemma_upstream_reads(REGISTER@, c.seq_id, RETRY_COUNT, rq, SUB_BIZ@);
    crate::messages::lemma_register_reads(
        ai,
        di,
        PRESENCE_ONLINE,
        APP_IN_FOREGROUND,
        c.instance_id,
        ci,
    );
    crate::messages::lemma_common_info_reads(KPN@, KPF@, c.userid);
}

} // verus!
