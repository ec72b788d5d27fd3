//! The protobuf messages of the danmaku link that the client writes and
//! reads, with their field numbers.
//!
//! Each message the client writes has `wire`, its proto3 encoding: the
//! fields in the order of their numbers, a scalar field left out when it is
//! zero or empty, an embedded message written whenever it is present.
//! Each message the client reads has a parser, which reads the fields the
//! client uses, checks them as protobuf checks them, and skips the others.
use crate::proto::{
    bytes_field, bytes_of, check_lens_utf8, check_varints_i32, check_varints_u32, find_joined_len,
    find_string, has_len, i32_wire, i64_wire, int32_field, int32_of, int64_field, int64_of,
    joined_len, last_len, last_varint, lemma_between, lemma_numbered_concat, lemma_numbered_parts, lemma_opt_len_fields, lemma_opt_message_fields,
    lemma_opt_varint_fields, lemma_single, len_field, lens_utf8, numbered_above, numbered_below,
    opt_len_fields, opt_message_fields, opt_varint_fields, opt_len_field, opt_message_field, opt_varint_field,
    parse_fields, push_len_field, push_opt_len, push_opt_string, push_opt_varint, read_fields,
    string_of, uint32_field, uint32_of, utf8, varints_fit_i32, varints_fit_u32, WireField,
};
use vstd::prelude::*;
use vstd::seq_lib::lemma_concat_associative;

verus! {

/// `PacketHeader.EncryptionMode.kEncryptionNone`.
pub const ENCRYPTION_NONE: i32 = 0;

/// `PacketHeader.EncryptionMode.kEncryptionServiceToken`.
pub const ENCRYPTION_SERVICE_TOKEN: i32 = 1;

/// `PacketHeader.EncryptionMode.kEncryptionSessionKey`.
pub const ENCRYPTION_SESSION_KEY: i32 = 2;

/// `TokenInfo.TokenType.kServiceToken`.
pub const TOKEN_TYPE_SERVICE_TOKEN: i32 = 1;

/// `RegisterRequest.PresenceStatus.kPresenceOnline`.
pub const PRESENCE_ONLINE: i32 = 1;

/// `RegisterRequest.ActiveStatus.kAppInForeground`.
pub const APP_IN_FOREGROUND: i32 = 1;

/// `DeviceInfo.PlatformType.H5_WINDOWS`.
pub const PLATFORM_H5_WINDOWS: i32 = 9;

/// `ZtLiveScMessage.CompressionType.GZIP`.
pub const COMPRESSION_GZIP: i32 = 2;

/// `ZtLiveScStatusChanged.Type.LIVE_CLOSED`.
pub const STATUS_LIVE_CLOSED: i32 = 1;

/// `ZtLiveScStatusChanged.Type.LIVE_BANNED`.
pub const STATUS_LIVE_BANNED: i32 = 4;

/// The encoding of a `HandshakeRequest`: `unknown1` (1), `unknown2` (2).
pub open spec fn handshake_wire(unknown1: i32, unknown2: i32) -> Seq<u8> {
    opt_varint_field(1, i32_wire(unknown1)) + opt_varint_field(2, i32_wire(unknown2))
}

/// The encoding of a `TokenInfo`: `tokenType` (1), `token` (2).
pub open spec fn token_info_wire_of(token_type: i32, token: Seq<u8>) -> Seq<u8> {
    opt_varint_field(1, i32_wire(token_type)) + opt_len_field(2, token)
}

/// The encoding of a `PacketHeader`: `appId` (1), `uid` (2), `instanceId`
/// (3), `decodedPayloadLen` (7), `encryptionMode` (8), `tokenInfo` (9),
/// `seqId` (10), `kpn` (12). The client leaves `flags` (5), `encodingType`
/// (6) and `features` (11) out.
pub open spec fn header_wire(
    app_id: i32,
    uid: i64,
    instance_id: i64,
    decoded_payload_len: u32,
    encryption_mode: i32,
    token_info: Option<Seq<u8>>,
    seq_id: i64,
    kpn: Seq<char>,
) -> Seq<u8> {
    opt_varint_field(1, i32_wire(app_id)) + opt_varint_field(2, i64_wire(uid)) + opt_varint_field(
        3,
        i64_wire(instance_id),
    ) + opt_varint_field(7, decoded_payload_len as nat) + opt_varint_field(
        8,
        i32_wire(encryption_mode),
    ) + opt_message_field(9, token_info) + opt_varint_field(10, i64_wire(seq_id)) + opt_len_field(
        12,
        utf8(kpn),
    )
}

/// The encoding of an `UpstreamPayload`: `command` (1), `seqId` (2),
/// `retryCount` (3), `payloadData` (4), `subBiz` (9).
pub open spec fn upstream_wire(
    command: Seq<char>,
    seq_id: i64,
    retry_count: u32,
    payload_data: Seq<u8>,
    sub_biz: Seq<char>,
) -> Seq<u8> {
    opt_len_field(1, utf8(command)) + opt_varint_field(2, i64_wire(seq_id)) + opt_varint_field(
        3,
        retry_count as nat,
    ) + opt_len_field(4, payload_data) + opt_len_field(9, utf8(sub_biz))
}

/// The encoding of an `AppInfo`: `sdkVersion` (4), `linkVersion` (6).
pub open spec fn app_info_wire(sdk_version: Seq<char>, link_version: Seq<char>) -> Seq<u8> {
    opt_len_field(4, utf8(sdk_version)) + opt_len_field(6, utf8(link_version))
}

/// The encoding of a `DeviceInfo`: `platformType` (1), `deviceModel` (3).
pub open spec fn device_info_wire(platform_type: i32, device_model: Seq<char>) -> Seq<u8> {
    opt_varint_field(1, i32_wire(platform_type)) + opt_len_field(3, utf8(device_model))
}

/// The encoding of a `ZtCommonInfo`: `kpn` (1), `kpf` (2), `uid` (7).
pub open spec fn common_info_wire(kpn: Seq<char>, kpf: Seq<char>, uid: i64) -> Seq<u8> {
    opt_len_field(1, utf8(kpn)) + opt_len_field(2, utf8(kpf)) + opt_varint_field(7, i64_wire(uid))
}

/// The encoding of a `RegisterRequest`: `appInfo` (1), `deviceInfo` (2),
/// `presenceStatus` (4), `appActiveStatus` (5), `instanceId` (8),
/// `ztCommonInfo` (11).
pub open spec fn register_wire(
    app_info: Seq<u8>,
    device_info: Seq<u8>,
    presence_status: i32,
    app_active_status: i32,
    instance_id: i64,
    zt_common_info: Seq<u8>,
) -> Seq<u8> {
    len_field(1, app_info) + len_field(2, device_info) + opt_varint_field(
        4,
        i32_wire(presence_status),
    ) + opt_varint_field(5, i32_wire(app_active_status)) + opt_varint_field(
        8,
        i64_wire(instance_id),
    ) + len_field(11, zt_common_info)
}

/// The encoding of a `KeepAliveRequest`: `presenceStatus` (1),
/// `appActiveStatus` (2).
pub open spec fn keep_alive_wire(presence_status: i32, app_active_status: i32) -> Seq<u8> {
    opt_varint_field(1, i32_wire(presence_status)) + opt_varint_field(
        2,
        i32_wire(app_active_status),
    )
}

/// The encoding of a `ZtLiveCsEnterRoom`: `enterRoomAttach` (4),
/// `clientLiveSdkVersion` (5).
pub open spec fn enter_room_wire(enter_room_attach: Seq<char>, version: Seq<char>) -> Seq<u8> {
    opt_len_field(4, utf8(enter_room_attach)) + opt_len_field(5, utf8(version))
}

/// The encoding of a `ZtLiveCsCmd`: `cmdType` (1), `payload` (2), `ticket`
/// (3), `liveId` (4).
pub open spec fn cmd_wire(
    cmd_type: Seq<char>,
    payload: Seq<u8>,
    ticket: Seq<char>,
    live_id: Seq<char>,
) -> Seq<u8> {
    opt_len_field(1, utf8(cmd_type)) + opt_len_field(2, payload) + opt_len_field(3, utf8(ticket))
        + opt_len_field(4, utf8(live_id))
}

/// The encoding of a `ZtLiveCsHeartbeat`: `clientTimestampMs` (1),
/// `sequence` (2).
pub open spec fn heartbeat_wire(client_timestamp_ms: i64, sequence: i64) -> Seq<u8> {
    opt_varint_field(1, i64_wire(client_timestamp_ms)) + opt_varint_field(2, i64_wire(sequence))
}

/// `HandshakeRequest`.
pub struct HandshakeRequest {
    /// Field 1, `int32`.
    pub unknown1: i32,
    /// Field 2, `int32`.
    pub unknown2: i32,
}

impl HandshakeRequest {
    /// The encoding of the message.
    pub open spec fn wire(&self) -> Seq<u8> {
        handshake_wire(self.unknown1, self.unknown2)
    }

    /// Encodes the message.
    pub fn to_bytes(&self) -> (r: Vec<u8>)
        ensures
            r@ == self.wire(),
    {
        let mut out: Vec<u8> = Vec::new();
        push_opt_varint(&mut out, 1, self.unknown1 as u64);
        push_opt_varint(&mut out, 2, self.unknown2 as u64);
        assert(out@ =~= self.wire());
        out
    }
}

/// `TokenInfo`.
pub struct TokenInfo {
    /// Field 1, enum `TokenType`.
    pub token_type: i32,
    /// Field 2, `bytes`.
    pub token: Vec<u8>,
}

impl TokenInfo {
    /// The encoding of the message.
    pub open spec fn wire(&self) -> Seq<u8> {
        token_info_wire_of(self.token_type, self.token@)
    }

    /// Encodes the message.
    pub fn to_bytes(&self) -> (r: Vec<u8>)
        requires
            self.wire().len() <= i32::MAX,
        ensures
            r@ == self.wire(),
    {
        let mut out: Vec<u8> = Vec::new();
        push_opt_varint(&mut out, 1, self.token_type as u64);
        push_opt_len(&mut out, 2, self.token.as_slice());
        assert(out@ =~= self.wire());
        out
    }
}

/// `PacketHeader`: the header of every frame.
pub struct PacketHeader {
    /// Field 1, `int32`.
    pub app_id: i32,
    /// Field 2, `int64`.
    pub uid: i64,
    /// Field 3, `int64`.
    pub instance_id: i64,
    /// Field 7, `uint32`: the length of the payload before encryption.
    pub decoded_payload_len: u32,
    /// Field 8, enum `EncryptionMode`.
    pub encryption_mode: i32,
    /// Field 9, message `TokenInfo`.
    pub token_info: Option<TokenInfo>,
    /// Field 10, `int64`.
    pub seq_id: i64,
    /// Field 12, `string`.
    pub kpn: String,
}

/// The encoding of an optional `TokenInfo`.
pub open spec fn token_info_wire(t: Option<TokenInfo>) -> Option<Seq<u8>> {
    match t {
        Some(t) => Some(t.wire()),
        None => None,
    }
}

impl PacketHeader {
    /// The encoding of the message.
    pub open spec fn wire(&self) -> Seq<u8> {
        header_wire(
            self.app_id,
            self.uid,
            self.instance_id,
            self.decoded_payload_len,
            self.encryption_mode,
            token_info_wire(self.token_info),
            self.seq_id,
            self.kpn@,
        )
    }

    /// Encodes the message.
    pub fn to_bytes(&self) -> (r: Vec<u8>)
        requires
            self.wire().len() <= i32::MAX,
        ensures
            r@ == self.wire(),
    {
        let mut out: Vec<u8> = Vec::new();
        push_opt_varint(&mut out, 1, self.app_id as u64);
        push_opt_varint(&mut out, 2, self.uid as u64);
        push_opt_varint(&mut out, 3, self.instance_id as u64);
        push_opt_varint(&mut out, 7, self.decoded_payload_len as u64);
        push_opt_varint(&mut out, 8, self.encryption_mode as u64);
        match &self.token_info {
            Some(t) => {
                let b = t.to_bytes();
                push_len_field(&mut out, 9, b.as_slice());
            },
            None => {
                assert(out@ + Seq::<u8>::empty() =~= out@);
            },
        }
        push_opt_varint(&mut out, 10, self.seq_id as u64);
        push_opt_string(&mut out, 12, &self.kpn);
        assert(out@ =~= self.wire());
        out
    }
}

/// `UpstreamPayload`: the body of every frame the client sends.
pub struct UpstreamPayload {
    /// Field 1, `string`.
    pub command: String,
    /// Field 2, `int64`.
    pub seq_id: i64,
    /// Field 3, `uint32`.
    pub retry_count: u32,
    /// Field 4, `bytes`.
    pub payload_data: Vec<u8>,
    /// Field 9, `string`.
    pub sub_biz: String,
}

impl UpstreamPayload {
    /// The encoding of the message.
    pub open spec fn wire(&self) -> Seq<u8> {
        upstream_wire(
            self.command@,
            self.seq_id,
            self.retry_count,
            self.payload_data@,
            self.sub_biz@,
        )
    }

    /// Encodes the message.
    pub fn to_bytes(&self) -> (r: Vec<u8>)
        requires
            self.wire().len() <= i32::MAX,
        ensures
            r@ == self.wire(),
    {
        let mut out: Vec<u8> = Vec::new();
        push_opt_string(&mut out, 1, &self.command);
        push_opt_varint(&mut out, 2, self.seq_id as u64);
        push_opt_varint(&mut out, 3, self.retry_count as u64);
        push_opt_len(&mut out, 4, self.payload_data.as_slice());
        push_opt_string(&mut out, 9, &self.sub_biz);
        assert(out@ =~= self.wire());
        out
    }
}


/// `AppInfo`.
pub struct AppInfo {
    /// Field 4, `string`.
    pub sdk_version: String,
    /// Field 6, `string`.
    pub link_version: String,
}

impl AppInfo {
    /// The encoding of the message.
    pub open spec fn wire(&self) -> Seq<u8> {
        app_info_wire(self.sdk_version@, self.link_version@)
    }

    /// Encodes the message.
    pub fn to_bytes(&self) -> (r: Vec<u8>)
        requires
            self.wire().len() <= i32::MAX,
        ensures
            r@ == self.wire(),
    {
        let mut out: Vec<u8> = Vec::new();
        push_opt_string(&mut out, 4, &self.sdk_version);
        push_opt_string(&mut out, 6, &self.link_version);
        assert(out@ =~= self.wire());
        out
    }
}

/// `DeviceInfo`.
pub struct DeviceInfo {
    /// Field 1, enum `PlatformType`.
    pub platform_type: i32,
    /// Field 3, `string`.
    pub device_model: String,
}

impl DeviceInfo {
    /// The encoding of the message.
    pub open spec fn wire(&self) -> Seq<u8> {
        device_info_wire(self.platform_type, self.device_model@)
    }

    /// Encodes the message.
    pub fn to_bytes(&self) -> (r: Vec<u8>)
        requires
            self.wire().len() <= i32::MAX,
        ensures
            r@ == self.wire(),
    {
        let mut out: Vec<u8> = Vec::new();
        push_opt_varint(&mut out, 1, self.platform_type as u64);
        push_opt_string(&mut out, 3, &self.device_model);
        assert(out@ =~= self.wire());
        out
    }
}

/// `ZtCommonInfo`.
pub struct ZtCommonInfo {
    /// Field 1, `string`.
    pub kpn: String,
    /// Field 2, `string`.
    pub kpf: String,
    /// Field 7, `int64`.
    pub uid: i64,
}

impl ZtCommonInfo {
    /// The encoding of the message.
    pub open spec fn wire(&self) -> Seq<u8> {
        common_info_wire(self.kpn@, self.kpf@, self.uid)
    }

    /// Encodes the message.
    pub fn to_bytes(&self) -> (r: Vec<u8>)
        requires
            self.wire().len() <= i32::MAX,
        ensures
            r@ == self.wire(),
    {
        let mut out: Vec<u8> = Vec::new();
        push_opt_string(&mut out, 1, &self.kpn);
        push_opt_string(&mut out, 2, &self.kpf);
        push_opt_varint(&mut out, 7, self.uid as u64);
        assert(out@ =~= self.wire());
        out
    }
}

/// `RegisterRequest`.
pub struct RegisterRequest {
    /// Field 1, message `AppInfo`.
    pub app_info: AppInfo,
    /// Field 2, message `DeviceInfo`.
    pub device_info: DeviceInfo,
    /// Field 4, enum `PresenceStatus`.
    pub presence_status: i32,
    /// Field 5, enum `ActiveStatus`.
    pub app_active_status: i32,
    /// Field 8, `int64`.
    pub instance_id: i64,
    /// Field 11, message `ZtCommonInfo`.
    pub zt_common_info: ZtCommonInfo,
}

impl RegisterRequest {
    /// The encoding of the message; its three embedded messages are always
    /// present.
    pub open spec fn wire(&self) -> Seq<u8> {
        register_wire(
            self.app_info.wire(),
            self.device_info.wire(),
            self.presence_status,
            self.app_active_status,
            self.instance_id,
            self.zt_common_info.wire(),
        )
    }

    /// Encodes the message.
    pub fn to_bytes(&self) -> (r: Vec<u8>)
        requires
            self.wire().len() <= i32::MAX,
        ensures
            r@ == self.wire(),
    {
        let mut out: Vec<u8> = Vec::new();
        let a = self.app_info.to_bytes();
        push_len_field(&mut out, 1, a.as_slice());
        let d = self.device_info.to_bytes();
        push_len_field(&mut out, 2, d.as_slice());
        push_opt_varint(&mut out, 4, self.presence_status as u64);
        push_opt_varint(&mut out, 5, self.app_active_status as u64);
        push_opt_varint(&mut out, 8, self.instance_id as u64);
        let z = self.zt_common_info.to_bytes();
        push_len_field(&mut out, 11, z.as_slice());
        assert(out@ =~= self.wire());
        out
    }
}

/// `KeepAliveRequest`.
pub struct KeepAliveRequest {
    /// Field 1, enum `PresenceStatus`.
    pub presence_status: i32,
    /// Field 2, enum `ActiveStatus`.
    pub app_active_status: i32,
}

impl KeepAliveRequest {
    /// The encoding of the message.
    pub open spec fn wire(&self) -> Seq<u8> {
        keep_alive_wire(self.presence_status, self.app_active_status)
    }

    /// Encodes the message.
    pub fn to_bytes(&self) -> (r: Vec<u8>)
        ensures
            r@ == self.wire(),
    {
        let mut out: Vec<u8> = Vec::new();
        push_opt_varint(&mut out, 1, self.presence_status as u64);
        push_opt_varint(&mut out, 2, self.app_active_status as u64);
        assert(out@ =~= self.wire());
        out
    }
}

/// `ZtLiveCsEnterRoom`.
pub struct ZtLiveCsEnterRoom {
    /// Field 4, `string`.
    pub enter_room_attach: String,
    /// Field 5, `string`.
    pub client_live_sdk_version: String,
}

impl ZtLiveCsEnterRoom {
    /// The encoding of the message.
    pub open spec fn wire(&self) -> Seq<u8> {
        enter_room_wire(self.enter_room_attach@, self.client_live_sdk_version@)
    }

    /// Encodes the message.
    pub fn to_bytes(&self) -> (r: Vec<u8>)
        requires
            self.wire().len() <= i32::MAX,
        ensures
            r@ == self.wire(),
    {
        let mut out: Vec<u8> = Vec::new();
        push_opt_string(&mut out, 4, &self.enter_room_attach);
        push_opt_string(&mut out, 5, &self.client_live_sdk_version);
        assert(out@ =~= self.wire());
        out
    }
}

/// `ZtLiveCsCmd`: a command to the live room.
pub struct ZtLiveCsCmd {
    /// Field 1, `string`.
    pub cmd_type: String,
    /// Field 2, `bytes`.
    pub payload: Vec<u8>,
    /// Field 3, `string`.
    pub ticket: String,
    /// Field 4, `string`.
    pub live_id: String,
}

impl ZtLiveCsCmd {
    /// The encoding of the message.
    pub open spec fn wire(&self) -> Seq<u8> {
        cmd_wire(self.cmd_type@, self.payload@, self.ticket@, self.live_id@)
    }

    /// Encodes the message.
    pub fn to_bytes(&self) -> (r: Vec<u8>)
        requires
            self.wire().len() <= i32::MAX,
        ensures
            r@ == self.wire(),
    {
        let mut out: Vec<u8> = Vec::new();
        push_opt_string(&mut out, 1, &self.cmd_type);
        push_opt_len(&mut out, 2, self.payload.as_slice());
        push_opt_string(&mut out, 3, &self.ticket);
        push_opt_string(&mut out, 4, &self.live_id);
        assert(out@ =~= self.wire());
        out
    }
}

/// `ZtLiveCsHeartbeat`.
pub struct ZtLiveCsHeartbeat {
    /// Field 1, `int64`.
    pub client_timestamp_ms: i64,
    /// Field 2, `int64`.
    pub sequence: i64,
}

impl ZtLiveCsHeartbeat {
    /// The encoding of the message.
    pub open spec fn wire(&self) -> Seq<u8> {
        heartbeat_wire(self.client_timestamp_ms, self.sequence)
    }

    /// Encodes the message.
    pub fn to_bytes(&self) -> (r: Vec<u8>)
        ensures
            r@ == self.wire(),
    {
        let mut out: Vec<u8> = Vec::new();
        push_opt_varint(&mut out, 1, self.client_timestamp_ms as u64);
        push_opt_varint(&mut out, 2, self.sequence as u64);
        assert(out@ =~= self.wire());
        out
    }
}


impl TokenInfo {
    /// Whether `s` reads as a `TokenInfo`.
    pub open spec fn valid_wire(s: Seq<u8>) -> bool {
        match parse_fields(s) {
            Some(fs) => varints_fit_i32(fs, 1),
            None => false,
        }
    }

    /// Whether this is the `TokenInfo` that `s` reads as.
    pub open spec fn read_from(&self, s: Seq<u8>) -> bool {
        match parse_fields(s) {
            Some(fs) => self.token_type == int32_of(fs, 1) && self.token@ == bytes_of(fs, 2),
            None => false,
        }
    }

    /// Reads a `TokenInfo`.
    pub fn parse(s: &[u8]) -> (r: Option<TokenInfo>)
        ensures
            match r {
                Some(m) => Self::valid_wire(s@) && m.read_from(s@),
                None => !Self::valid_wire(s@),
            },
    {
        let fs = match read_fields(s) {
            Some(fs) => fs,
            None => return None,
        };
        if !check_varints_i32(&fs, 1) {
            return None;
        }
        Some(TokenInfo { token_type: int32_field(&fs, 1), token: bytes_field(&fs, 2) })
    }
}

impl PacketHeader {
    /// Whether the fields `fs` read as a `PacketHeader`.
    pub open spec fn valid_fields(fs: Seq<WireField>) -> bool {
        &&& varints_fit_i32(fs, 1)
        &&& varints_fit_u32(fs, 7)
        &&& varints_fit_i32(fs, 8)
        &&& has_len(fs, 9) ==> TokenInfo::valid_wire(joined_len(fs, 9))
        &&& lens_utf8(fs, 12)
    }

    /// Whether `s` reads as a `PacketHeader`.
    pub open spec fn valid_wire(s: Seq<u8>) -> bool {
        match parse_fields(s) {
            Some(fs) => Self::valid_fields(fs),
            None => false,
        }
    }

    /// Whether this is the `PacketHeader` that `s` reads as.
    pub open spec fn read_from(&self, s: Seq<u8>) -> bool {
        match parse_fields(s) {
            Some(fs) => {
                &&& self.app_id == int32_of(fs, 1)
                &&& self.uid == int64_of(fs, 2)
                &&& self.instance_id == int64_of(fs, 3)
                &&& self.decoded_payload_len == uint32_of(fs, 7)
                &&& self.encryption_mode == int32_of(fs, 8)
                &&& match self.token_info {
                    Some(t) => has_len(fs, 9) && t.read_from(joined_len(fs, 9)),
                    None => !has_len(fs, 9),
                }
                &&& self.seq_id == int64_of(fs, 10)
                &&& self.kpn@ == string_of(fs, 12)
            },
            None => false,
        }
    }

    /// Reads a `PacketHeader`.
    pub fn parse(s: &[u8]) -> (r: Option<PacketHeader>)
        ensures
            match r {
                Some(m) => Self::valid_wire(s@) && m.read_from(s@),
                None => !Self::valid_wire(s@),
            },
    {
        let fs = match read_fields(s) {
            Some(fs) => fs,
            None => return None,
        };
        if !check_varints_i32(&fs, 1) || !check_varints_u32(&fs, 7) || !check_varints_i32(&fs, 8)
            || !check_lens_utf8(&fs, 12) {
            return None;
        }
        let token_info = match find_joined_len(&fs, 9) {
            Some(b) => match TokenInfo::parse(b.as_slice()) {
                Some(t) => Some(t),
                None => return None,
            },
            None => None,
        };
        Some(
            PacketHeader {
                app_id: int32_field(&fs, 1),
                uid: int64_field(&fs, 2),
                instance_id: int64_field(&fs, 3),
                decoded_payload_len: uint32_field(&fs, 7),
                encryption_mode: int32_field(&fs, 8),
                token_info,
                seq_id: int64_field(&fs, 10),
                kpn: find_string(&fs, 12),
            },
        )
    }
}

/// `DownstreamPayload`: the body of every frame the server sends.
pub struct DownstreamPayload {
    /// Field 1, `string`.
    pub command: String,
    /// Field 2, `int64`.
    pub seq_id: i64,
    /// Field 3, `int32`.
    pub error_code: i32,
    /// Field 4, `bytes`.
    pub payload_data: Vec<u8>,
    /// Field 5, `string`.
    pub error_msg: String,
    /// Field 7, `string`.
    pub sub_biz: String,
}

impl DownstreamPayload {
    /// Whether `s` reads as a `DownstreamPayload`.
    pub open spec fn valid_wire(s: Seq<u8>) -> bool {
        match parse_fields(s) {
            Some(fs) => lens_utf8(fs, 1) && varints_fit_i32(fs, 3) && lens_utf8(fs, 5) && lens_utf8(
                fs,
                7,
            ),
            None => false,
        }
    }

    /// Whether this is the `DownstreamPayload` that `s` reads as.
    pub open spec fn read_from(&self, s: Seq<u8>) -> bool {
        match parse_fields(s) {
            Some(fs) => {
                &&& self.command@ == string_of(fs, 1)
                &&& self.seq_id == int64_of(fs, 2)
                &&& self.error_code == int32_of(fs, 3)
                &&& self.payload_data@ == bytes_of(fs, 4)
                &&& self.error_msg@ == string_of(fs, 5)
                &&& self.sub_biz@ == string_of(fs, 7)
            },
            None => false,
        }
    }

    /// Reads a `DownstreamPayload`.
    pub fn parse(s: &[u8]) -> (r: Option<DownstreamPayload>)
        ensures
            match r {
                Some(m) => Self::valid_wire(s@) && m.read_from(s@),
                None => !Self::valid_wire(s@),
            },
    {
        let fs = match read_fields(s) {
            Some(fs) => fs,
            None => return None,
        };
        if !check_lens_utf8(&fs, 1) || !check_varints_i32(&fs, 3) || !check_lens_utf8(&fs, 5)
            || !check_lens_utf8(&fs, 7) {
            return None;
        }
        Some(
            DownstreamPayload {
                command: find_string(&fs, 1),
                seq_id: int64_field(&fs, 2),
                error_code: int32_field(&fs, 3),
                payload_data: bytes_field(&fs, 4),
                error_msg: find_string(&fs, 5),
                sub_biz: find_string(&fs, 7),
            },
        )
    }
}


/// `ZtLiveCsCmdAck`: the answer to a command.
pub struct ZtLiveCsCmdAck {
    /// Field 1, `string`.
    pub cmd_ack_type: String,
    /// Field 2, `int64`.
    pub error_code: i64,
    /// Field 3, `string`.
    pub error_msg: String,
    /// Field 4, `bytes`.
    pub payload: Vec<u8>,
}

impl ZtLiveCsCmdAck {
    /// Whether `s` reads as a `ZtLiveCsCmdAck`.
    pub open spec fn valid_wire(s: Seq<u8>) -> bool {
        match parse_fields(s) {
            Some(fs) => lens_utf8(fs, 1) && lens_utf8(fs, 3),
            None => false,
        }
    }

    /// Whether this is the `ZtLiveCsCmdAck` that `s` reads as.
    pub open spec fn read_from(&self, s: Seq<u8>) -> bool {
        match parse_fields(s) {
            Some(fs) => {
                &&& self.cmd_ack_type@ == string_of(fs, 1)
                &&& self.error_code == int64_of(fs, 2)
                &&& self.error_msg@ == string_of(fs, 3)
                &&& self.payload@ == bytes_of(fs, 4)
            },
            None => false,
        }
    }

    /// Reads a `ZtLiveCsCmdAck`.
    pub fn parse(s: &[u8]) -> (r: Option<ZtLiveCsCmdAck>)
        ensures
            match r {
                Some(m) => Self::valid_wire(s@) && m.read_from(s@),
                None => !Self::valid_wire(s@),
            },
    {
        let fs = match read_fields(s) {
            Some(fs) => fs,
            None => return None,
        };
        if !check_lens_utf8(&fs, 1) || !check_lens_utf8(&fs, 3) {
            return None;
        }
        Some(
            ZtLiveCsCmdAck {
                cmd_ack_type: find_string(&fs, 1),
                error_code: int64_field(&fs, 2),
                error_msg: find_string(&fs, 3),
                payload: bytes_field(&fs, 4),
            },
        )
    }
}

/// `ZtLiveCsEnterRoomAck`: the answer to entering the room.
pub struct ZtLiveCsEnterRoomAck {
    /// Field 1, `int64`.
    pub min_reconnect_ms: i64,
    /// Field 2, `int64`.
    pub max_reconnect_ms: i64,
    /// Field 3, `int64`.
    pub heartbeat_interval_ms: i64,
}

impl ZtLiveCsEnterRoomAck {
    /// Whether `s` reads as a `ZtLiveCsEnterRoomAck`.
    pub open spec fn valid_wire(s: Seq<u8>) -> bool {
        parse_fields(s) is Some
    }

    /// Whether this is the `ZtLiveCsEnterRoomAck` that `s` reads as.
    pub open spec fn read_from(&self, s: Seq<u8>) -> bool {
        match parse_fields(s) {
            Some(fs) => {
                &&& self.min_reconnect_ms == int64_of(fs, 1)
                &&& self.max_reconnect_ms == int64_of(fs, 2)
                &&& self.heartbeat_interval_ms == int64_of(fs, 3)
            },
            None => false,
        }
    }

    /// Reads a `ZtLiveCsEnterRoomAck`.
    pub fn parse(s: &[u8]) -> (r: Option<ZtLiveCsEnterRoomAck>)
        ensures
            match r {
                Some(m) => Self::valid_wire(s@) && m.read_from(s@),
                None => !Self::valid_wire(s@),
            },
    {
        let fs = match read_fields(s) {
            Some(fs) => fs,
            None => return None,
        };
        Some(
            ZtLiveCsEnterRoomAck {
                min_reconnect_ms: int64_field(&fs, 1),
                max_reconnect_ms: int64_field(&fs, 2),
                heartbeat_interval_ms: int64_field(&fs, 3),
            },
        )
    }
}

/// `ZtLiveScMessage`: a message pushed by the live room.
pub struct ZtLiveScMessage {
    /// Field 1, `string`.
    pub message_type: String,
    /// Field 2, enum `CompressionType`.
    pub compression_type: i32,
    /// Field 3, `bytes`.
    pub payload: Vec<u8>,
}

impl ZtLiveScMessage {
    /// Whether `s` reads as a `ZtLiveScMessage`.
    pub open spec fn valid_wire(s: Seq<u8>) -> bool {
        match parse_fields(s) {
            Some(fs) => lens_utf8(fs, 1) && varints_fit_i32(fs, 2),
            None => false,
        }
    }

    /// Whether this is the `ZtLiveScMessage` that `s` reads as.
    pub open spec fn read_from(&self, s: Seq<u8>) -> bool {
        match parse_fields(s) {
            Some(fs) => {
                &&& self.message_type@ == string_of(fs, 1)
                &&& self.compression_type == int32_of(fs, 2)
                &&& self.payload@ == bytes_of(fs, 3)
            },
            None => false,
        }
    }

    /// Reads a `ZtLiveScMessage`.
    pub fn parse(s: &[u8]) -> (r: Option<ZtLiveScMessage>)
        ensures
            match r {
                Some(m) => Self::valid_wire(s@) && m.read_from(s@),
                None => !Self::valid_wire(s@),
            },
    {
        let fs = match read_fields(s) {
            Some(fs) => fs,
            None => return None,
        };
        if !check_lens_utf8(&fs, 1) || !check_varints_i32(&fs, 2) {
            return None;
        }
        Some(
            ZtLiveScMessage {
                message_type: find_string(&fs, 1),
                compression_type: int32_field(&fs, 2),
                payload: bytes_field(&fs, 3),
            },
        )
    }
}

/// `ZtLiveScStatusChanged`: the live room changed its state.
pub struct ZtLiveScStatusChanged {
    /// Field 1, enum `Type`.
    pub type_: i32,
    /// Field 2, `int64`.
    pub max_random_delay_ms: i64,
}

impl ZtLiveScStatusChanged {
    /// Whether `s` reads as a `ZtLiveScStatusChanged`.
    pub open spec fn valid_wire(s: Seq<u8>) -> bool {
        match parse_fields(s) {
            Some(fs) => varints_fit_i32(fs, 1),
            None => false,
        }
    }

    /// Whether this is the `ZtLiveScStatusChanged` that `s` reads as.
    pub open spec fn read_from(&self, s: Seq<u8>) -> bool {
        match parse_fields(s) {
            Some(fs) => self.type_ == int32_of(fs, 1) && self.max_random_delay_ms == int64_of(fs, 2),
            None => false,
        }
    }

    /// Reads a `ZtLiveScStatusChanged`.
    pub fn parse(s: &[u8]) -> (r: Option<ZtLiveScStatusChanged>)
        ensures
            match r {
                Some(m) => Self::valid_wire(s@) && m.read_from(s@),
                None => !Self::valid_wire(s@),
            },
    {
        let fs = match read_fields(s) {
            Some(fs) => fs,
            None => return None,
        };
        if !check_varints_i32(&fs, 1) {
            return None;
        }
        Some(
            ZtLiveScStatusChanged {
                type_: int32_field(&fs, 1),
                max_random_delay_ms: int64_field(&fs, 2),
            },
        )
    }
}

/// `SdkOption`.
pub struct SdkOption {
    /// Field 3, `int32`.
    pub lz4_compression_threshold_bytes: i32,
}

impl SdkOption {
    /// Whether `s` reads as an `SdkOption`.
    pub open spec fn valid_wire(s: Seq<u8>) -> bool {
        match parse_fields(s) {
            Some(fs) => varints_fit_i32(fs, 3),
            None => false,
        }
    }

    /// Whether this is the `SdkOption` that `s` reads as.
    pub open spec fn read_from(&self, s: Seq<u8>) -> bool {
        match parse_fields(s) {
            Some(fs) => self.lz4_compression_threshold_bytes == int32_of(fs, 3),
            None => false,
        }
    }

    /// Reads an `SdkOption`.
    pub fn parse(s: &[u8]) -> (r: Option<SdkOption>)
        ensures
            match r {
                Some(m) => Self::valid_wire(s@) && m.read_from(s@),
                None => !Self::valid_wire(s@),
            },
    {
        let fs = match read_fields(s) {
            Some(fs) => fs,
            None => return None,
        };
        if !check_varints_i32(&fs, 3) {
            return None;
        }
        Some(SdkOption { lz4_compression_threshold_bytes: int32_field(&fs, 3) })
    }
}

/// `RegisterResponse`: the answer to registering.
pub struct RegisterResponse {
    /// Field 2, `bytes`: the session key.
    pub sess_key: Vec<u8>,
    /// Field 3, `int64`.
    pub instance_id: i64,
    /// Field 4, message `SdkOption`.
    pub sdk_option: Option<SdkOption>,
}

impl RegisterResponse {
    /// Whether `s` reads as a `RegisterResponse`.
    pub open spec fn valid_wire(s: Seq<u8>) -> bool {
        match parse_fields(s) {
            Some(fs) => has_len(fs, 4) ==> SdkOption::valid_wire(joined_len(fs, 4)),
            None => false,
        }
    }

    /// Whether this is the `RegisterResponse` that `s` reads as.
    pub open spec fn read_from(&self, s: Seq<u8>) -> bool {
        match parse_fields(s) {
            Some(fs) => {
                &&& self.sess_key@ == bytes_of(fs, 2)
                &&& self.instance_id == int64_of(fs, 3)
                &&& match self.sdk_option {
                    Some(o) => has_len(fs, 4) && o.read_from(joined_len(fs, 4)),
                    None => !has_len(fs, 4),
                }
            },
            None => false,
        }
    }

    /// The LZ4 threshold of the SDK options, 0 when they are absent.
    pub open spec fn lz4_threshold(&self) -> i32 {
        match self.sdk_option {
            Some(o) => o.lz4_compression_threshold_bytes,
            None => 0,
        }
    }

    /// Reads a `RegisterResponse`.
    pub fn parse(s: &[u8]) -> (r: Option<RegisterResponse>)
        ensures
            match r {
                Some(m) => Self::valid_wire(s@) && m.read_from(s@),
                None => !Self::valid_wire(s@),
            },
    {
        let fs = match read_fields(s) {
            Some(fs) => fs,
            None => return None,
        };
        let sdk_option = match find_joined_len(&fs, 4) {
            Some(b) => match SdkOption::parse(b.as_slice()) {
                Some(o) => Some(o),
                None => return None,
            },
            None => None,
        };
        Some(
            RegisterResponse {
                sess_key: bytes_field(&fs, 2),
                instance_id: int64_field(&fs, 3),
                sdk_option,
            },
        )
    }
}


proof fn lemma_i32_wire(x: i32)
    ensures
        i32_wire(x) <= u64::MAX,
        (i32_wire(x) == 0) == (x == 0),
        ((i32_wire(x) as u64) as i64) as i32 == x,
        i32::MIN <= ((i32_wire(x) as u64) as i64) <= i32::MAX,
{
    assert(((x as u64) as i64) as i32 == x) by (bit_vector);
    assert((x as u64 == 0) == (x == 0)) by (bit_vector);
    assert(i32::MIN <= ((x as u64) as i64) <= i32::MAX) by (bit_vector);
}

proof fn lemma_i64_wire(x: i64)
    ensures
        i64_wire(x) <= u64::MAX,
        (i64_wire(x) == 0) == (x == 0),
        (i64_wire(x) as u64) as i64 == x,
{
    assert((x as u64) as i64 == x) by (bit_vector);
    assert((x as u64 == 0) == (x == 0)) by (bit_vector);
}

/// A `TokenInfo` reads back as the one written.
pub proof fn lemma_token_info_roundtrip(t: TokenInfo)
    requires
        t.wire().len() <= u32::MAX,
    ensures
        TokenInfo::valid_wire(t.wire()),
        t.read_from(t.wire()),
{
    let v1 = i32_wire(t.token_type);
    let b = t.token@;
    lemma_i32_wire(t.token_type);
    let p1 = opt_varint_field(1, v1);
    let p2 = opt_len_field(2, b);
    let f1 = opt_varint_fields(1, v1);
    let f2 = opt_len_fields(2, b);
    let e = Seq::<u8>::empty();
    assert(p2 + e =~= p2);
    lemma_opt_len_fields(2, b, e);
    assert(parse_fields(e) == Some(Seq::<WireField>::empty()));
    lemma_opt_varint_fields(1, v1, p2);
    let fs = f1 + (f2 + Seq::<WireField>::empty());
    assert(parse_fields(t.wire()) == Some(fs));
    let none = Seq::<WireField>::empty();
    assert(fs =~= none + f1 + f2);
    assert(f1 + f2 + none =~= fs);
    lemma_numbered_parts(2, 0, b, None, 1);
    lemma_numbered_parts(1, v1, b, None, 2);
    lemma_between(none, f1, f2, 1);
    lemma_between(f1, f2, none, 2);
    if v1 != 0 {
        lemma_single(WireField::Varint(1, v1 as u64), 1);
    }
    if b.len() != 0 {
        lemma_single(WireField::Len(2, b), 2);
    } else {
        assert(b =~= Seq::<u8>::empty());
    }
}

/// The fields that a `PacketHeader`'s encoding holds, in order.
pub open spec fn header_fields(h: PacketHeader) -> Seq<WireField> {
    (opt_varint_fields(1, i32_wire(h.app_id)) + (opt_varint_fields(2, i64_wire(h.uid)) + (opt_varint_fields(3, i64_wire(h.instance_id)) + (opt_varint_fields(7, h.decoded_payload_len as nat) + (opt_varint_fields(8, i32_wire(h.encryption_mode)) + (opt_message_fields(9, token_info_wire(h.token_info)) + (opt_varint_fields(10, i64_wire(h.seq_id)) + (opt_len_fields(12, utf8(h.kpn@)) + Seq::empty()))))))))
}

proof fn lemma_header_bytes(h: PacketHeader)
    ensures
        h.wire() == (opt_varint_field(1, i32_wire(h.app_id)) + (opt_varint_field(2, i64_wire(h.uid)) + (opt_varint_field(3, i64_wire(h.instance_id)) + (opt_varint_field(7, h.decoded_payload_len as nat) + (opt_varint_field(8, i32_wire(h.encryption_mode)) + (opt_message_field(9, token_info_wire(h.token_info)) + (opt_varint_field(10, i64_wire(h.seq_id)) + (opt_len_field(12, utf8(h.kpn@)) + Seq::empty())))))))),
{
    let p1 = opt_varint_field(1, i32_wire(h.app_id));
    let p2 = opt_varint_field(2, i64_wire(h.uid));
    let p3 = opt_varint_field(3, i64_wire(h.instance_id));
    let p7 = opt_varint_field(7, h.decoded_payload_len as nat);
    let p8 = opt_varint_field(8, i32_wire(h.encryption_mode));
    let p9 = opt_message_field(9, token_info_wire(h.token_info));
    let p10 = opt_varint_field(10, i64_wire(h.seq_id));
    let p12 = opt_len_field(12, utf8(h.kpn@));
    let e = Seq::<u8>::empty();
    assert(p12 + e =~= p12);
    lemma_concat_associative(p9, p10, p12);
    lemma_concat_associative(p8, (p9 + p10), p12);
    lemma_concat_associative(p8, p9, p10);
    lemma_concat_associative(p7, ((p8 + p9) + p10), p12);
    lemma_concat_associative(p7, (p8 + p9), p10);
    lemma_concat_associative(p7, p8, p9);
    lemma_concat_associative(p3, (((p7 + p8) + p9) + p10), p12);
    lemma_concat_associative(p3, ((p7 + p8) + p9), p10);
    lemma_concat_associative(p3, (p7 + p8), p9);
    lemma_concat_associative(p3, p7, p8);
    lemma_concat_associative(p2, ((((p3 + p7) + p8) + p9) + p10), p12);
    lemma_concat_associative(p2, (((p3 + p7) + p8) + p9), p10);
    lemma_concat_associative(p2, ((p3 + p7) + p8), p9);
    lemma_concat_associative(p2, (p3 + p7), p8);
    lemma_concat_associative(p2, p3, p7);
    lemma_concat_associative(p1, (((((p2 + p3) + p7) + p8) + p9) + p10), p12);
    lemma_concat_associative(p1, ((((p2 + p3) + p7) + p8) + p9), p10);
    lemma_concat_associative(p1, (((p2 + p3) + p7) + p8), p9);
    lemma_concat_associative(p1, ((p2 + p3) + p7), p8);
    lemma_concat_associative(p1, (p2 + p3), p7);
    lemma_concat_associative(p1, p2, p3);
}

proof fn lemma_header_parse(h: PacketHeader)
    requires
        h.wire().len() <= i32::MAX,
    ensures
        parse_fields(h.wire()) == Some(header_fields(h)),
{
    let v1 = i32_wire(h.app_id);
    let v2 = i64_wire(h.uid);
    let v3 = i64_wire(h.instance_id);
    let v7 = h.decoded_payload_len as nat;
    let v8 = i32_wire(h.encryption_mode);
    let m9 = token_info_wire(h.token_info);
    let v10 = i64_wire(h.seq_id);
    let b12 = utf8(h.kpn@);
    lemma_i32_wire(h.app_id);
    lemma_i64_wire(h.uid);
    lemma_i64_wire(h.instance_id);
    lemma_i32_wire(h.encryption_mode);
    lemma_i64_wire(h.seq_id);
    lemma_header_bytes(h);
    let e = Seq::<u8>::empty();
    let s12 = opt_len_field(12, b12) + e;
    let s10 = opt_varint_field(10, v10) + s12;
    let s9 = opt_message_field(9, m9) + s10;
    let s8 = opt_varint_field(8, v8) + s9;
    let s7 = opt_varint_field(7, v7) + s8;
    let s3 = opt_varint_field(3, v3) + s7;
    let s2 = opt_varint_field(2, v2) + s3;
    let s1 = opt_varint_field(1, v1) + s2;
    assert(parse_fields(e) == Some(Seq::<WireField>::empty()));
    lemma_opt_len_fields(12, b12, e);
    lemma_opt_varint_fields(10, v10, s12);
    lemma_opt_message_fields(9, m9, s10);
    lemma_opt_varint_fields(8, v8, s9);
    lemma_opt_varint_fields(7, v7, s8);
    lemma_opt_varint_fields(3, v3, s7);
    lemma_opt_varint_fields(2, v2, s3);
    lemma_opt_varint_fields(1, v1, s2);
}

/// A `PacketHeader` reads back as the one written: the header that the
/// client puts in each frame is the one the server reads.
pub proof fn lemma_header_roundtrip(h: PacketHeader)
    requires
        h.wire().len() <= i32::MAX,
    ensures
        PacketHeader::valid_wire(h.wire()),
        h.read_from(h.wire()),
{
    lemma_header_parse(h);
    lemma_header_reads(h);
    match h.token_info {
        Some(t) => {
            assert(t.wire().len() <= u32::MAX);
            lemma_token_info_roundtrip(t);
        },
        None => {},
    }
}

proof fn lemma_header_read_1(h: PacketHeader)
    ensures
        last_varint(header_fields(h), 1) == last_varint(opt_varint_fields(1, i32_wire(h.app_id)), 1),
        last_len(header_fields(h), 1) == last_len(opt_varint_fields(1, i32_wire(h.app_id)), 1),
        joined_len(header_fields(h), 1) == joined_len(opt_varint_fields(1, i32_wire(h.app_id)), 1),
        varints_fit_i32(opt_varint_fields(1, i32_wire(h.app_id)), 1) ==> varints_fit_i32(header_fields(h), 1),
        varints_fit_u32(opt_varint_fields(1, i32_wire(h.app_id)), 1) ==> varints_fit_u32(header_fields(h), 1),
        lens_utf8(opt_varint_fields(1, i32_wire(h.app_id)), 1) ==> lens_utf8(header_fields(h), 1),
{
    let f1 = opt_varint_fields(1, i32_wire(h.app_id));
    let f2 = opt_varint_fields(2, i64_wire(h.uid));
    let f3 = opt_varint_fields(3, i64_wire(h.instance_id));
    let f7 = opt_varint_fields(7, h.decoded_payload_len as nat);
    let f8 = opt_varint_fields(8, i32_wire(h.encryption_mode));
    let f9 = opt_message_fields(9, token_info_wire(h.token_info));
    let f10 = opt_varint_fields(10, i64_wire(h.seq_id));
    let f12 = opt_len_fields(12, utf8(h.kpn@));
    let e = Seq::<WireField>::empty();
    lemma_numbered_parts(2, i64_wire(h.uid), Seq::empty(), None, 1);
    lemma_numbered_parts(3, i64_wire(h.instance_id), Seq::empty(), None, 1);
    lemma_numbered_parts(7, h.decoded_payload_len as nat, Seq::empty(), None, 1);
    lemma_numbered_parts(8, i32_wire(h.encryption_mode), Seq::empty(), None, 1);
    lemma_numbered_parts(9, 0, Seq::empty(), token_info_wire(h.token_info), 1);
    lemma_numbered_parts(10, i64_wire(h.seq_id), Seq::empty(), None, 1);
    lemma_numbered_parts(12, 0, utf8(h.kpn@), None, 1);
    lemma_numbered_parts(1, 0, Seq::empty(), None, 1);
    let tail7 = f12 + e;
    let tail6 = f10 + tail7;
    let tail5 = f9 + tail6;
    let tail4 = f8 + tail5;
    let tail3 = f7 + tail4;
    let tail2 = f3 + tail3;
    let tail1 = f2 + tail2;
    let tail0 = f1 + tail1;
    lemma_numbered_concat(f12, e, 1);
    lemma_numbered_concat(f10, tail7, 1);
    lemma_numbered_concat(f9, tail6, 1);
    lemma_numbered_concat(f8, tail5, 1);
    lemma_numbered_concat(f7, tail4, 1);
    lemma_numbered_concat(f3, tail3, 1);
    lemma_numbered_concat(f2, tail2, 1);
    let pre0 = e;
    assert(header_fields(h) == tail0);
    assert(pre0 + tail0 =~= tail0);
    lemma_concat_associative(pre0, f1, tail1);
    lemma_between(pre0, f1, tail1, 1);
}

proof fn lemma_header_read_2(h: PacketHeader)
    ensures
        last_varint(header_fields(h), 2) == last_varint(opt_varint_fields(2, i64_wire(h.uid)), 2),
        last_len(header_fields(h), 2) == last_len(opt_varint_fields(2, i64_wire(h.uid)), 2),
        joined_len(header_fields(h), 2) == joined_len(opt_varint_fields(2, i64_wire(h.uid)), 2),
        varints_fit_i32(opt_varint_fields(2, i64_wire(h.uid)), 2) ==> varints_fit_i32(header_fields(h), 2),
        varints_fit_u32(opt_varint_fields(2, i64_wire(h.uid)), 2) ==> varints_fit_u32(header_fields(h), 2),
        lens_utf8(opt_varint_fields(2, i64_wire(h.uid)), 2) ==> lens_utf8(header_fields(h), 2),
{
    let f1 = opt_varint_fields(1, i32_wire(h.app_id));
    let f2 = opt_varint_fields(2, i64_wire(h.uid));
    let f3 = opt_varint_fields(3, i64_wire(h.instance_id));
    let f7 = opt_varint_fields(7, h.decoded_payload_len as nat);
    let f8 = opt_varint_fields(8, i32_wire(h.encryption_mode));
    let f9 = opt_message_fields(9, token_info_wire(h.token_info));
    let f10 = opt_varint_fields(10, i64_wire(h.seq_id));
    let f12 = opt_len_fields(12, utf8(h.kpn@));
    let e = Seq::<WireField>::empty();
    lemma_numbered_parts(1, i32_wire(h.app_id), Seq::empty(), None, 2);
    lemma_numbered_parts(3, i64_wire(h.instance_id), Seq::empty(), None, 2);
    lemma_numbered_parts(7, h.decoded_payload_len as nat, Seq::empty(), None, 2);
    lemma_numbered_parts(8, i32_wire(h.encryption_mode), Seq::empty(), None, 2);
    lemma_numbered_parts(9, 0, Seq::empty(), token_info_wire(h.token_info), 2);
    lemma_numbered_parts(10, i64_wire(h.seq_id), Seq::empty(), None, 2);
    lemma_numbered_parts(12, 0, utf8(h.kpn@), None, 2);
    let tail7 = f12 + e;
    let tail6 = f10 + tail7;
    let tail5 = f9 + tail6;
    let tail4 = f8 + tail5;
    let tail3 = f7 + tail4;
    let tail2 = f3 + tail3;
    let tail1 = f2 + tail2;
    let tail0 = f1 + tail1;
    lemma_numbered_concat(f12, e, 2);
    lemma_numbered_concat(f10, tail7, 2);
    lemma_numbered_concat(f9, tail6, 2);
    lemma_numbered_concat(f8, tail5, 2);
    lemma_numbered_concat(f7, tail4, 2);
    lemma_numbered_concat(f3, tail3, 2);
    let pre0 = e;
    assert(header_fields(h) == tail0);
    assert(pre0 + tail0 =~= tail0);
    lemma_concat_associative(pre0, f1, tail1);
    lemma_numbered_concat(pre0, f1, 2);
    let pre1 = pre0 + f1;
    lemma_concat_associative(pre1, f2, tail2);
    lemma_between(pre1, f2, tail2, 2);
}

proof fn lemma_header_read_3(h: PacketHeader)
    ensures
        last_varint(header_fields(h), 3) == last_varint(opt_varint_fields(3, i64_wire(h.instance_id)), 3),
        last_len(header_fields(h), 3) == last_len(opt_varint_fields(3, i64_wire(h.instance_id)), 3),
        joined_len(header_fields(h), 3) == joined_len(opt_varint_fields(3, i64_wire(h.instance_id)), 3),
        varints_fit_i32(opt_varint_fields(3, i64_wire(h.instance_id)), 3) ==> varints_fit_i32(header_fields(h), 3),
        varints_fit_u32(opt_varint_fields(3, i64_wire(h.instance_id)), 3) ==> varints_fit_u32(header_fields(h), 3),
        lens_utf8(opt_varint_fields(3, i64_wire(h.instance_id)), 3) ==> lens_utf8(header_fields(h), 3),
{
    let f1 = opt_varint_fields(1, i32_wire(h.app_id));
    let f2 = opt_varint_fields(2, i64_wire(h.uid));
    let f3 = opt_varint_fields(3, i64_wire(h.instance_id));
    let f7 = opt_varint_fields(7, h.decoded_payload_len as nat);
    let f8 = opt_varint_fields(8, i32_wire(h.encryption_mode));
    let f9 = opt_message_fields(9, token_info_wire(h.token_info));
    let f10 = opt_varint_fields(10, i64_wire(h.seq_id));
    let f12 = opt_len_fields(12, utf8(h.kpn@));
    let e = Seq::<WireField>::empty();
    lemma_numbered_parts(1, i32_wire(h.app_id), Seq::empty(), None, 3);
    lemma_numbered_parts(2, i64_wire(h.uid), Seq::empty(), None, 3);
    lemma_numbered_parts(7, h.decoded_payload_len as nat, Seq::empty(), None, 3);
    lemma_numbered_parts(8, i32_wire(h.encryption_mode), Seq::empty(), None, 3);
    lemma_numbered_parts(9, 0, Seq::empty(), token_info_wire(h.token_info), 3);
    lemma_numbered_parts(10, i64_wire(h.seq_id), Seq::empty(), None, 3);
    lemma_numbered_parts(12, 0, utf8(h.kpn@), None, 3);
    let tail7 = f12 + e;
    let tail6 = f10 + tail7;
    let tail5 = f9 + tail6;
    let tail4 = f8 + tail5;
    let tail3 = f7 + tail4;
    let tail2 = f3 + tail3;
    let tail1 = f2 + tail2;
    let tail0 = f1 + tail1;
    lemma_numbered_concat(f12, e, 3);
    lemma_numbered_concat(f10, tail7, 3);
    lemma_numbered_concat(f9, tail6, 3);
    lemma_numbered_concat(f8, tail5, 3);
    lemma_numbered_concat(f7, tail4, 3);
    let pre0 = e;
    assert(header_fields(h) == tail0);
    assert(pre0 + tail0 =~= tail0);
    lemma_concat_associative(pre0, f1, tail1);
    lemma_numbered_concat(pre0, f1, 3);
    let pre1 = pre0 + f1;
    lemma_concat_associative(pre1, f2, tail2);
    lemma_numbered_concat(pre1, f2, 3);
    let pre2 = pre1 + f2;
    lemma_concat_associative(pre2, f3, tail3);
    lemma_between(pre2, f3, tail3, 3);
}

proof fn lemma_header_read_7(h: PacketHeader)
    ensures
        last_varint(header_fields(h), 7) == last_varint(opt_varint_fields(7, h.decoded_payload_len as nat), 7),
        last_len(header_fields(h), 7) == last_len(opt_varint_fields(7, h.decoded_payload_len as nat), 7),
        joined_len(header_fields(h), 7) == joined_len(opt_varint_fields(7, h.decoded_payload_len as nat), 7),
        varints_fit_i32(opt_varint_fields(7, h.decoded_payload_len as nat), 7) ==> varints_fit_i32(header_fields(h), 7),
        varints_fit_u32(opt_varint_fields(7, h.decoded_payload_len as nat), 7) ==> varints_fit_u32(header_fields(h), 7),
        lens_utf8(opt_varint_fields(7, h.decoded_payload_len as nat), 7) ==> lens_utf8(header_fields(h), 7),
{
    let f1 = opt_varint_fields(1, i32_wire(h.app_id));
    let f2 = opt_varint_fields(2, i64_wire(h.uid));
    let f3 = opt_varint_fields(3, i64_wire(h.instance_id));
    let f7 = opt_varint_fields(7, h.decoded_payload_len as nat);
    let f8 = opt_varint_fields(8, i32_wire(h.encryption_mode));
    let f9 = opt_message_fields(9, token_info_wire(h.token_info));
    let f10 = opt_varint_fields(10, i64_wire(h.seq_id));
    let f12 = opt_len_fields(12, utf8(h.kpn@));
    let e = Seq::<WireField>::empty();
    lemma_numbered_parts(1, i32_wire(h.app_id), Seq::empty(), None, 7);
    lemma_numbered_parts(2, i64_wire(h.uid), Seq::empty(), None, 7);
    lemma_numbered_parts(3, i64_wire(h.instance_id), Seq::empty(), None, 7);
    lemma_numbered_parts(8, i32_wire(h.encryption_mode), Seq::empty(), None, 7);
    lemma_numbered_parts(9, 0, Seq::empty(), token_info_wire(h.token_info), 7);
    lemma_numbered_parts(10, i64_wire(h.seq_id), Seq::empty(), None, 7);
    lemma_numbered_parts(12, 0, utf8(h.kpn@), None, 7);
    let tail7 = f12 + e;
    let tail6 = f10 + tail7;
    let tail5 = f9 + tail6;
    let tail4 = f8 + tail5;
    let tail3 = f7 + tail4;
    let tail2 = f3 + tail3;
    let tail1 = f2 + tail2;
    let tail0 = f1 + tail1;
    lemma_numbered_concat(f12, e, 7);
    lemma_numbered_concat(f10, tail7, 7);
    lemma_numbered_concat(f9, tail6, 7);
    lemma_numbered_concat(f8, tail5, 7);
    let pre0 = e;
    assert(header_fields(h) == tail0);
    assert(pre0 + tail0 =~= tail0);
    lemma_concat_associative(pre0, f1, tail1);
    lemma_numbered_concat(pre0, f1, 7);
    let pre1 = pre0 + f1;
    lemma_concat_associative(pre1, f2, tail2);
    lemma_numbered_concat(pre1, f2, 7);
    let pre2 = pre1 + f2;
    lemma_concat_associative(pre2, f3, tail3);
    lemma_numbered_concat(pre2, f3, 7);
    let pre3 = pre2 + f3;
    lemma_concat_associative(pre3, f7, tail4);
    lemma_between(pre3, f7, tail4, 7);
}

proof fn lemma_header_read_8(h: PacketHeader)
    ensures
        last_varint(header_fields(h), 8) == last_varint(opt_varint_fields(8, i32_wire(h.encryption_mode)), 8),
        last_len(header_fields(h), 8) == last_len(opt_varint_fields(8, i32_wire(h.encryption_mode)), 8),
        joined_len(header_fields(h), 8) == joined_len(opt_varint_fields(8, i32_wire(h.encryption_mode)), 8),
        varints_fit_i32(opt_varint_fields(8, i32_wire(h.encryption_mode)), 8) ==> varints_fit_i32(header_fields(h), 8),
        varints_fit_u32(opt_varint_fields(8, i32_wire(h.encryption_mode)), 8) ==> varints_fit_u32(header_fields(h), 8),
        lens_utf8(opt_varint_fields(8, i32_wire(h.encryption_mode)), 8) ==> lens_utf8(header_fields(h), 8),
{
    let f1 = opt_varint_fields(1, i32_wire(h.app_id));
    let f2 = opt_varint_fields(2, i64_wire(h.uid));
    let f3 = opt_varint_fields(3, i64_wire(h.instance_id));
    let f7 = opt_varint_fields(7, h.decoded_payload_len as nat);
    let f8 = opt_varint_fields(8, i32_wire(h.encryption_mode));
    let f9 = opt_message_fields(9, token_info_wire(h.token_info));
    let f10 = opt_varint_fields(10, i64_wire(h.seq_id));
    let f12 = opt_len_fields(12, utf8(h.kpn@));
    let e = Seq::<WireField>::empty();
    lemma_numbered_parts(1, i32_wire(h.app_id), Seq::empty(), None, 8);
    lemma_numbered_parts(2, i64_wire(h.uid), Seq::empty(), None, 8);
    lemma_numbered_parts(3, i64_wire(h.instance_id), Seq::empty(), None, 8);
    lemma_numbered_parts(7, h.decoded_payload_len as nat, Seq::empty(), None, 8);
    lemma_numbered_parts(9, 0, Seq::empty(), token_info_wire(h.token_info), 8);
    lemma_numbered_parts(10, i64_wire(h.seq_id), Seq::empty(), None, 8);
    lemma_numbered_parts(12, 0, utf8(h.kpn@), None, 8);
    let tail7 = f12 + e;
    let tail6 = f10 + tail7;
    let tail5 = f9 + tail6;
    let tail4 = f8 + tail5;
    let tail3 = f7 + tail4;
    let tail2 = f3 + tail3;
    let tail1 = f2 + tail2;
    let tail0 = f1 + tail1;
    lemma_numbered_concat(f12, e, 8);
    lemma_numbered_concat(f10, tail7, 8);
    lemma_numbered_concat(f9, tail6, 8);
    let pre0 = e;
    assert(header_fields(h) == tail0);
    assert(pre0 + tail0 =~= tail0);
    lemma_concat_associative(pre0, f1, tail1);
    lemma_numbered_concat(pre0, f1, 8);
    let pre1 = pre0 + f1;
    lemma_concat_associative(pre1, f2, tail2);
    lemma_numbered_concat(pre1, f2, 8);
    let pre2 = pre1 + f2;
    lemma_concat_associative(pre2, f3, tail3);
    lemma_numbered_concat(pre2, f3, 8);
    let pre3 = pre2 + f3;
    lemma_concat_associative(pre3, f7, tail4);
    lemma_numbered_concat(pre3, f7, 8);
    let pre4 = pre3 + f7;
    lemma_concat_associative(pre4, f8, tail5);
    lemma_between(pre4, f8, tail5, 8);
}

proof fn lemma_header_read_9(h: PacketHeader)
    ensures
        last_varint(header_fields(h), 9) == last_varint(opt_message_fields(9, token_info_wire(h.token_info)), 9),
        last_len(header_fields(h), 9) == last_len(opt_message_fields(9, token_info_wire(h.token_info)), 9),
        joined_len(header_fields(h), 9) == joined_len(opt_message_fields(9, token_info_wire(h.token_info)), 9),
        varints_fit_i32(opt_message_fields(9, token_info_wire(h.token_info)), 9) ==> varints_fit_i32(header_fields(h), 9),
        varints_fit_u32(opt_message_fields(9, token_info_wire(h.token_info)), 9) ==> varints_fit_u32(header_fields(h), 9),
        lens_utf8(opt_message_fields(9, token_info_wire(h.token_info)), 9) ==> lens_utf8(header_fields(h), 9),
{
    let f1 = opt_varint_fields(1, i32_wire(h.app_id));
    let f2 = opt_varint_fields(2, i64_wire(h.uid));
    let f3 = opt_varint_fields(3, i64_wire(h.instance_id));
    let f7 = opt_varint_fields(7, h.decoded_payload_len as nat);
    let f8 = opt_varint_fields(8, i32_wire(h.encryption_mode));
    let f9 = opt_message_fields(9, token_info_wire(h.token_info));
    let f10 = opt_varint_fields(10, i64_wire(h.seq_id));
    let f12 = opt_len_fields(12, utf8(h.kpn@));
    let e = Seq::<WireField>::empty();
    lemma_numbered_parts(1, i32_wire(h.app_id), Seq::empty(), None, 9);
    lemma_numbered_parts(2, i64_wire(h.uid), Seq::empty(), None, 9);
    lemma_numbered_parts(3, i64_wire(h.instance_id), Seq::empty(), None, 9);
    lemma_numbered_parts(7, h.decoded_payload_len as nat, Seq::empty(), None, 9);
    lemma_numbered_parts(8, i32_wire(h.encryption_mode), Seq::empty(), None, 9);
    lemma_numbered_parts(10, i64_wire(h.seq_id), Seq::empty(), None, 9);
    lemma_numbered_parts(12, 0, utf8(h.kpn@), None, 9);
    let tail7 = f12 + e;
    let tail6 = f10 + tail7;
    let tail5 = f9 + tail6;
    let tail4 = f8 + tail5;
    let tail3 = f7 + tail4;
    let tail2 = f3 + tail3;
    let tail1 = f2 + tail2;
    let tail0 = f1 + tail1;
    lemma_numbered_concat(f12, e, 9);
    lemma_numbered_concat(f10, tail7, 9);
    let pre0 = e;
    assert(header_fields(h) == tail0);
    assert(pre0 + tail0 =~= tail0);
    lemma_concat_associative(pre0, f1, tail1);
    lemma_numbered_concat(pre0, f1, 9);
    let pre1 = pre0 + f1;
    lemma_concat_associative(pre1, f2, tail2);
    lemma_numbered_concat(pre1, f2, 9);
    let pre2 = pre1 + f2;
    lemma_concat_associative(pre2, f3, tail3);
    lemma_numbered_concat(pre2, f3, 9);
    let pre3 = pre2 + f3;
    lemma_concat_associative(pre3, f7, tail4);
    lemma_numbered_concat(pre3, f7, 9);
    let pre4 = pre3 + f7;
    lemma_concat_associative(pre4, f8, tail5);
    lemma_numbered_concat(pre4, f8, 9);
    let pre5 = pre4 + f8;
    lemma_concat_associative(pre5, f9, tail6);
    lemma_between(pre5, f9, tail6, 9);
}

proof fn lemma_header_read_10(h: PacketHeader)
    ensures
        last_varint(header_fields(h), 10) == last_varint(opt_varint_fields(10, i64_wire(h.seq_id)), 10),
        last_len(header_fields(h), 10) == last_len(opt_varint_fields(10, i64_wire(h.seq_id)), 10),
        joined_len(header_fields(h), 10) == joined_len(opt_varint_fields(10, i64_wire(h.seq_id)), 10),
        varints_fit_i32(opt_varint_fields(10, i64_wire(h.seq_id)), 10) ==> varints_fit_i32(header_fields(h), 10),
        varints_fit_u32(opt_varint_fields(10, i64_wire(h.seq_id)), 10) ==> varints_fit_u32(header_fields(h), 10),
        lens_utf8(opt_varint_fields(10, i64_wire(h.seq_id)), 10) ==> lens_utf8(header_fields(h), 10),
{
    let f1 = opt_varint_fields(1, i32_wire(h.app_id));
    let f2 = opt_varint_fields(2, i64_wire(h.uid));
    let f3 = opt_varint_fields(3, i64_wire(h.instance_id));
    let f7 = opt_varint_fields(7, h.decoded_payload_len as nat);
    let f8 = opt_varint_fields(8, i32_wire(h.encryption_mode));
    let f9 = opt_message_fields(9, token_info_wire(h.token_info));
    let f10 = opt_varint_fields(10, i64_wire(h.seq_id));
    let f12 = opt_len_fields(12, utf8(h.kpn@));
    let e = Seq::<WireField>::empty();
    lemma_numbered_parts(1, i32_wire(h.app_id), Seq::empty(), None, 10);
    lemma_numbered_parts(2, i64_wire(h.uid), Seq::empty(), None, 10);
    lemma_numbered_parts(3, i64_wire(h.instance_id), Seq::empty(), None, 10);
    lemma_numbered_parts(7, h.decoded_payload_len as nat, Seq::empty(), None, 10);
    lemma_numbered_parts(8, i32_wire(h.encryption_mode), Seq::empty(), None, 10);
    lemma_numbered_parts(9, 0, Seq::empty(), token_info_wire(h.token_info), 10);
    lemma_numbered_parts(12, 0, utf8(h.kpn@), None, 10);
    let tail7 = f12 + e;
    let tail6 = f10 + tail7;
    let tail5 = f9 + tail6;
    let tail4 = f8 + tail5;
    let tail3 = f7 + tail4;
    let tail2 = f3 + tail3;
    let tail1 = f2 + tail2;
    let tail0 = f1 + tail1;
    lemma_numbered_concat(f12, e, 10);
    let pre0 = e;
    assert(header_fields(h) == tail0);
    assert(pre0 + tail0 =~= tail0);
    lemma_concat_associative(pre0, f1, tail1);
    lemma_numbered_concat(pre0, f1, 10);
    let pre1 = pre0 + f1;
    lemma_concat_associative(pre1, f2, tail2);
    lemma_numbered_concat(pre1, f2, 10);
    let pre2 = pre1 + f2;
    lemma_concat_associative(pre2, f3, tail3);
    lemma_numbered_concat(pre2, f3, 10);
    let pre3 = pre2 + f3;
    lemma_concat_associative(pre3, f7, tail4);
    lemma_numbered_concat(pre3, f7, 10);
    let pre4 = pre3 + f7;
    lemma_concat_associative(pre4, f8, tail5);
    lemma_numbered_concat(pre4, f8, 10);
    let pre5 = pre4 + f8;
    lemma_concat_associative(pre5, f9, tail6);
    lemma_numbered_concat(pre5, f9, 10);
    let pre6 = pre5 + f9;
    lemma_concat_associative(pre6, f10, tail7);
    lemma_between(pre6, f10, tail7, 10);
}

proof fn lemma_header_read_12(h: PacketHeader)
    ensures
        last_varint(header_fields(h), 12) == last_varint(opt_len_fields(12, utf8(h.kpn@)), 12),
        last_len(header_fields(h), 12) == last_len(opt_len_fields(12, utf8(h.kpn@)), 12),
        joined_len(header_fields(h), 12) == joined_len(opt_len_fields(12, utf8(h.kpn@)), 12),
        varints_fit_i32(opt_len_fields(12, utf8(h.kpn@)), 12) ==> varints_fit_i32(header_fields(h), 12),
        varints_fit_u32(opt_len_fields(12, utf8(h.kpn@)), 12) ==> varints_fit_u32(header_fields(h), 12),
        lens_utf8(opt_len_fields(12, utf8(h.kpn@)), 12) ==> lens_utf8(header_fields(h), 12),
{
    let f1 = opt_varint_fields(1, i32_wire(h.app_id));
    let f2 = opt_varint_fields(2, i64_wire(h.uid));
    let f3 = opt_varint_fields(3, i64_wire(h.instance_id));
    let f7 = opt_varint_fields(7, h.decoded_payload_len as nat);
    let f8 = opt_varint_fields(8, i32_wire(h.encryption_mode));
    let f9 = opt_message_fields(9, token_info_wire(h.token_info));
    let f10 = opt_varint_fields(10, i64_wire(h.seq_id));
    let f12 = opt_len_fields(12, utf8(h.kpn@));
    let e = Seq::<WireField>::empty();
    lemma_numbered_parts(1, i32_wire(h.app_id), Seq::empty(), None, 12);
    lemma_numbered_parts(2, i64_wire(h.uid), Seq::empty(), None, 12);
    lemma_numbered_parts(3, i64_wire(h.instance_id), Seq::empty(), None, 12);
    lemma_numbered_parts(7, h.decoded_payload_len as nat, Seq::empty(), None, 12);
    lemma_numbered_parts(8, i32_wire(h.encryption_mode), Seq::empty(), None, 12);
    lemma_numbered_parts(9, 0, Seq::empty(), token_info_wire(h.token_info), 12);
    lemma_numbered_parts(10, i64_wire(h.seq_id), Seq::empty(), None, 12);
    let tail7 = f12 + e;
    let tail6 = f10 + tail7;
    let tail5 = f9 + tail6;
    let tail4 = f8 + tail5;
    let tail3 = f7 + tail4;
    let tail2 = f3 + tail3;
    let tail1 = f2 + tail2;
    let tail0 = f1 + tail1;
    let pre0 = e;
    assert(header_fields(h) == tail0);
    assert(pre0 + tail0 =~= tail0);
    lemma_concat_associative(pre0, f1, tail1);
    lemma_numbered_concat(pre0, f1, 12);
    let pre1 = pre0 + f1;
    lemma_concat_associative(pre1, f2, tail2);
    lemma_numbered_concat(pre1, f2, 12);
    let pre2 = pre1 + f2;
    lemma_concat_associative(pre2, f3, tail3);
    lemma_numbered_concat(pre2, f3, 12);
    let pre3 = pre2 + f3;
    lemma_concat_associative(pre3, f7, tail4);
    lemma_numbered_concat(pre3, f7, 12);
    let pre4 = pre3 + f7;
    lemma_concat_associative(pre4, f8, tail5);
    lemma_numbered_concat(pre4, f8, 12);
    let pre5 = pre4 + f8;
    lemma_concat_associative(pre5, f9, tail6);
    lemma_numbered_concat(pre5, f9, 12);
    let pre6 = pre5 + f9;
    lemma_concat_associative(pre6, f10, tail7);
    lemma_numbered_concat(pre6, f10, 12);
    let pre7 = pre6 + f10;
    lemma_concat_associative(pre7, f12, e);
    lemma_between(pre7, f12, e, 12);
}

proof fn lemma_header_reads(h: PacketHeader)
    ensures
        PacketHeader::valid_fields(header_fields(h)) <== (match h.token_info {
            Some(t) => TokenInfo::valid_wire(t.wire()),
            None => true,
        }),
        int32_of(header_fields(h), 1) == h.app_id,
        int64_of(header_fields(h), 2) == h.uid,
        int64_of(header_fields(h), 3) == h.instance_id,
        uint32_of(header_fields(h), 7) == h.decoded_payload_len,
        int32_of(header_fields(h), 8) == h.encryption_mode,
        has_len(header_fields(h), 9) == h.token_info is Some,
        h.token_info matches Some(t) ==> joined_len(header_fields(h), 9) == t.wire(),
        int64_of(header_fields(h), 10) == h.seq_id,
        string_of(header_fields(h), 12) == h.kpn@,
{
    let v1 = i32_wire(h.app_id);
    let v2 = i64_wire(h.uid);
    let v3 = i64_wire(h.instance_id);
    let v7 = h.decoded_payload_len as nat;
    let v8 = i32_wire(h.encryption_mode);
    let m9 = token_info_wire(h.token_info);
    let v10 = i64_wire(h.seq_id);
    let b12 = utf8(h.kpn@);
    lemma_i32_wire(h.app_id);
    lemma_i64_wire(h.uid);
    lemma_i64_wire(h.instance_id);
    lemma_i32_wire(h.encryption_mode);
    lemma_i64_wire(h.seq_id);
    lemma_header_read_1(h);
    lemma_header_read_2(h);
    lemma_header_read_3(h);
    lemma_header_read_7(h);
    lemma_header_read_8(h);
    lemma_header_read_9(h);
    lemma_header_read_10(h);
    lemma_header_read_12(h);
    if v1 != 0 {
        lemma_single(WireField::Varint(1, v1 as u64), 1);
    }
    if v2 != 0 {
        lemma_single(WireField::Varint(2, v2 as u64), 2);
    }
    if v3 != 0 {
        lemma_single(WireField::Varint(3, v3 as u64), 3);
    }
    if v7 != 0 {
        lemma_single(WireField::Varint(7, v7 as u64), 7);
    }
    if v8 != 0 {
        lemma_single(WireField::Varint(8, v8 as u64), 8);
    }
    if let Some(b9) = m9 {
        lemma_single(WireField::Len(9, b9), 9);
    }
    if v10 != 0 {
        lemma_single(WireField::Varint(10, v10 as u64), 10);
    }
    vstd::utf8::encode_utf8_valid_utf8(h.kpn@);
    vstd::utf8::encode_utf8_decode_utf8(h.kpn@);
    if b12.len() != 0 {
        lemma_single(WireField::Len(12, b12), 12);
    } else {
        assert(b12 =~= Seq::<u8>::empty());
    }
}


/// What a single optional field's list of fields reads as, for field `n`.
pub proof fn lemma_opt_part(f: nat, v: nat, b: Seq<u8>, m: Option<Seq<u8>>, n: nat)
    ensures
        last_len(opt_varint_fields(f, v), n) is None,
        last_varint(opt_varint_fields(f, v), n) == if f == n && v != 0 {
            Some(v as u64)
        } else {
            None
        },
        last_varint(opt_len_fields(f, b), n) is None,
        last_len(opt_len_fields(f, b), n) == if f == n && b.len() != 0 {
            Some(b)
        } else {
            None
        },
        last_varint(opt_message_fields(f, m), n) is None,
        last_len(opt_message_fields(f, m), n) == if f == n {
            m
        } else {
            None
        },
{
    if v != 0 {
        lemma_single(WireField::Varint(f, v as u64), n);
    }
    if b.len() != 0 {
        lemma_single(WireField::Len(f, b), n);
    }
    if let Some(x) = m {
        lemma_single(WireField::Len(f, x), n);
    }
}

/// The bytes of field `n` in fields that hold the bytes `b` there as an
/// optional field: `b` itself, empty or not.
pub proof fn lemma_bytes_of_opt(fs: Seq<WireField>, n: nat, b: Seq<u8>)
    requires
        last_len(fs, n) == if b.len() != 0 {
            Some(b)
        } else {
            None::<Seq<u8>>
        },
    ensures
        bytes_of(fs, n) == b,
        string_of(fs, n) == vstd::utf8::decode_utf8(b),
{
    if b.len() == 0 {
        assert(b =~= Seq::<u8>::empty());
    }
}

/// A `ZtCommonInfo` reads back as written: `kpn` in field 1, `kpf` in field
/// 2, the user id in field 7.
pub proof fn lemma_common_info_reads(kpn: Seq<char>, kpf: Seq<char>, uid: i64)
    requires
        utf8(kpn).len() <= u32::MAX,
        utf8(kpf).len() <= u32::MAX,
    ensures
        parse_fields(common_info_wire(kpn, kpf, uid)) matches Some(fs) && string_of(fs, 1) == kpn
            && string_of(fs, 2) == kpf && int64_of(fs, 7) == uid,
{
    let b1 = utf8(kpn);
    let b2 = utf8(kpf);
    let v7 = i64_wire(uid);
    lemma_i64_wire(uid);
    let e = Seq::<u8>::empty();
    let x1 = opt_len_field(1, b1);
    let x2 = opt_len_field(2, b2);
    let x7 = opt_varint_field(7, v7);
    assert(common_info_wire(kpn, kpf, uid) =~= x1 + (x2 + (x7 + e)));
    assert(parse_fields(e) == Some(Seq::<WireField>::empty()));
    lemma_opt_varint_fields(7, v7, e);
    lemma_opt_len_fields(2, b2, x7 + e);
    lemma_opt_len_fields(1, b1, x2 + (x7 + e));
    let c1 = opt_len_fields(1, b1);
    let c2 = opt_len_fields(2, b2);
    let c7 = opt_varint_fields(7, v7);
    let none = Seq::<WireField>::empty();
    let fs = c1 + (c2 + (c7 + none));
    assert(parse_fields(common_info_wire(kpn, kpf, uid)) == Some(fs));
    assert(c7 + none =~= c7);
    lemma_common_info_parts(c1, c2, c7, b1, b2, v7);
    lemma_bytes_of_opt(fs, 1, b1);
    lemma_bytes_of_opt(fs, 2, b2);
    vstd::utf8::encode_utf8_decode_utf8(kpn);
    vstd::utf8::encode_utf8_decode_utf8(kpf);
}

proof fn lemma_common_info_parts(
    c1: Seq<WireField>,
    c2: Seq<WireField>,
    c7: Seq<WireField>,
    b1: Seq<u8>,
    b2: Seq<u8>,
    v7: nat,
)
    requires
        c1 == opt_len_fields(1, b1),
        c2 == opt_len_fields(2, b2),
        c7 == opt_varint_fields(7, v7),
    ensures
        last_len(c1 + (c2 + c7), 1) == if b1.len() != 0 {
            Some(b1)
        } else {
            None::<Seq<u8>>
        },
        last_len(c1 + (c2 + c7), 2) == if b2.len() != 0 {
            Some(b2)
        } else {
            None::<Seq<u8>>
        },
        last_varint(c1 + (c2 + c7), 7) == if v7 != 0 {
            Some(v7 as u64)
        } else {
            None::<u64>
        },
{
    let e = Seq::<u8>::empty();
    lemma_opt_part(1, 0, b1, None, 1);
    lemma_opt_part(1, 0, b1, None, 2);
    lemma_opt_part(1, 0, b1, None, 7);
    lemma_opt_part(2, 0, b2, None, 1);
    lemma_opt_part(2, 0, b2, None, 2);
    lemma_opt_part(2, 0, b2, None, 7);
    lemma_opt_part(7, v7, e, None, 1);
    lemma_opt_part(7, v7, e, None, 2);
    lemma_opt_part(7, v7, e, None, 7);
    crate::proto::lemma_last_concat(c2, c7, 1);
    crate::proto::lemma_last_concat(c2, c7, 2);
    crate::proto::lemma_last_concat(c2, c7, 7);
    crate::proto::lemma_last_concat(c1, c2 + c7, 1);
    crate::proto::lemma_last_concat(c1, c2 + c7, 2);
    crate::proto::lemma_last_concat(c1, c2 + c7, 7);
}

proof fn lemma_register_parts(
    r1: Seq<WireField>,
    r2: Seq<WireField>,
    r4: Seq<WireField>,
    r5: Seq<WireField>,
    r8: Seq<WireField>,
    r11: Seq<WireField>,
    ai: Seq<u8>, di: Seq<u8>, v4: nat, v5: nat, v8: nat, ci: Seq<u8>,
)
    requires
        r1 == opt_message_fields(1, Some(ai)),
        r2 == opt_message_fields(2, Some(di)),
        r4 == opt_varint_fields(4, v4),
        r5 == opt_varint_fields(5, v5),
        r8 == opt_varint_fields(8, v8),
        r11 == opt_message_fields(11, Some(ci)),
    ensures
        last_len(r1 + (r2 + (r4 + (r5 + (r8 + r11)))), 1) == Some(ai),
        last_len(r1 + (r2 + (r4 + (r5 + (r8 + r11)))), 2) == Some(di),
        last_varint(r1 + (r2 + (r4 + (r5 + (r8 + r11)))), 4) == if v4 != 0 { Some(v4 as u64) } else { None::<u64> },
        last_varint(r1 + (r2 + (r4 + (r5 + (r8 + r11)))), 5) == if v5 != 0 { Some(v5 as u64) } else { None::<u64> },
        last_varint(r1 + (r2 + (r4 + (r5 + (r8 + r11)))), 8) == if v8 != 0 { Some(v8 as u64) } else { None::<u64> },
        last_len(r1 + (r2 + (r4 + (r5 + (r8 + r11)))), 11) == Some(ci),
{
    let e = Seq::<u8>::empty();
    lemma_opt_part(1, 0, e, Some(ai), 1);
    lemma_opt_part(1, 0, e, Some(ai), 2);
    lemma_opt_part(1, 0, e, Some(ai), 4);
    lemma_opt_part(1, 0, e, Some(ai), 5);
    lemma_opt_part(1, 0, e, Some(ai), 8);
    lemma_opt_part(1, 0, e, Some(ai), 11);
    lemma_opt_part(2, 0, e, Some(di), 1);
    lemma_opt_part(2, 0, e, Some(di), 2);
    lemma_opt_part(2, 0, e, Some(di), 4);
    lemma_opt_part(2, 0, e, Some(di), 5);
    lemma_opt_part(2, 0, e, Some(di), 8);
    lemma_opt_part(2, 0, e, Some(di), 11);
    lemma_opt_part(4, v4, e, None, 1);
    lemma_opt_part(4, v4, e, None, 2);
    lemma_opt_part(4, v4, e, None, 4);
    lemma_opt_part(4, v4, e, None, 5);
    lemma_opt_part(4, v4, e, None, 8);
    lemma_opt_part(4, v4, e, None, 11);
    lemma_opt_part(5, v5, e, None, 1);
    lemma_opt_part(5, v5, e, None, 2);
    lemma_opt_part(5, v5, e, None, 4);
    lemma_opt_part(5, v5, e, None, 5);
    lemma_opt_part(5, v5, e, None, 8);
    lemma_opt_part(5, v5, e, None, 11);
    lemma_opt_part(8, v8, e, None, 1);
    lemma_opt_part(8, v8, e, None, 2);
    lemma_opt_part(8, v8, e, None, 4);
    lemma_opt_part(8, v8, e, None, 5);
    lemma_opt_part(8, v8, e, None, 8);
    lemma_opt_part(8, v8, e, None, 11);
    lemma_opt_part(11, 0, e, Some(ci), 1);
    lemma_opt_part(11, 0, e, Some(ci), 2);
    lemma_opt_part(11, 0, e, Some(ci), 4);
    lemma_opt_part(11, 0, e, Some(ci), 5);
    lemma_opt_part(11, 0, e, Some(ci), 8);
    lemma_opt_part(11, 0, e, Some(ci), 11);
    crate::proto::lemma_last_concat(r8, r11, 1);
    crate::proto::lemma_last_concat(r8, r11, 2);
    crate::proto::lemma_last_concat(r8, r11, 4);
    crate::proto::lemma_last_concat(r8, r11, 5);
    crate::proto::lemma_last_concat(r8, r11, 8);
    crate::proto::lemma_last_concat(r8, r11, 11);
    crate::proto::lemma_last_concat(r5, r8 + r11, 1);
    crate::proto::lemma_last_concat(r5, r8 + r11, 2);
    crate::proto::lemma_last_concat(r5, r8 + r11, 4);
    crate::proto::lemma_last_concat(r5, r8 + r11, 5);
    crate::proto::lemma_last_concat(r5, r8 + r11, 8);
    crate::proto::lemma_last_concat(r5, r8 + r11, 11);
    crate::proto::lemma_last_concat(r4, r5 + (r8 + r11), 1);
    crate::proto::lemma_last_concat(r4, r5 + (r8 + r11), 2);
    crate::proto::lemma_last_concat(r4, r5 + (r8 + r11), 4);
    crate::proto::lemma_last_concat(r4, r5 + (r8 + r11), 5);
    crate::proto::lemma_last_concat(r4, r5 + (r8 + r11), 8);
    crate::proto::lemma_last_concat(r4, r5 + (r8 + r11), 11);
    crate::proto::lemma_last_concat(r2, r4 + (r5 + (r8 + r11)), 1);
    crate::proto::lemma_last_concat(r2, r4 + (r5 + (r8 + r11)), 2);
    crate::proto::lemma_last_concat(r2, r4 + (r5 + (r8 + r11)), 4);
    crate::proto::lemma_last_concat(r2, r4 + (r5 + (r8 + r11)), 5);
    crate::proto::lemma_last_concat(r2, r4 + (r5 + (r8 + r11)), 8);
    crate::proto::lemma_last_concat(r2, r4 + (r5 + (r8 + r11)), 11);
    crate::proto::lemma_last_concat(r1, r2 + (r4 + (r5 + (r8 + r11))), 1);
    crate::proto::lemma_last_concat(r1, r2 + (r4 + (r5 + (r8 + r11))), 2);
    crate::proto::lemma_last_concat(r1, r2 + (r4 + (r5 + (r8 + r11))), 4);
    crate::proto::lemma_last_concat(r1, r2 + (r4 + (r5 + (r8 + r11))), 5);
    crate::proto::lemma_last_concat(r1, r2 + (r4 + (r5 + (r8 + r11))), 8);
    crate::proto::lemma_last_concat(r1, r2 + (r4 + (r5 + (r8 + r11))), 11);
}

proof fn lemma_upstream_parts(
    u1: Seq<WireField>,
    u2: Seq<WireField>,
    u3: Seq<WireField>,
    u4: Seq<WireField>,
    u9: Seq<WireField>,
    b1: Seq<u8>, v2: nat, v3: nat, b4: Seq<u8>, b9: Seq<u8>,
)
    requires
        u1 == opt_len_fields(1, b1),
        u2 == opt_varint_fields(2, v2),
        u3 == opt_varint_fields(3, v3),
        u4 == opt_len_fields(4, b4),
        u9 == opt_len_fields(9, b9),
    ensures
        last_len(u1 + (u2 + (u3 + (u4 + u9))), 1) == if b1.len() != 0 { Some(b1) } else { None::<Seq<u8>> },
        last_varint(u1 + (u2 + (u3 + (u4 + u9))), 2) == if v2 != 0 { Some(v2 as u64) } else { None::<u64> },
        last_varint(u1 + (u2 + (u3 + (u4 + u9))), 3) == if v3 != 0 { Some(v3 as u64) } else { None::<u64> },
        last_len(u1 + (u2 + (u3 + (u4 + u9))), 4) == if b4.len() != 0 { Some(b4) } else { None::<Seq<u8>> },
        last_len(u1 + (u2 + (u3 + (u4 + u9))), 9) == if b9.len() != 0 { Some(b9) } else { None::<Seq<u8>> },
{
    let e = Seq::<u8>::empty();
    lemma_opt_part(1, 0, b1, None, 1);
    lemma_opt_part(1, 0, b1, None, 2);
    lemma_opt_part(1, 0, b1, None, 3);
    lemma_opt_part(1, 0, b1, None, 4);
    lemma_opt_part(1, 0, b1, None, 9);
    lemma_opt_part(2, v2, e, None, 1);
    lemma_opt_part(2, v2, e, None, 2);
    lemma_opt_part(2, v2, e, None, 3);
    lemma_opt_part(2, v2, e, None, 4);
    lemma_opt_part(2, v2, e, None, 9);
    lemma_opt_part(3, v3, e, None, 1);
    lemma_opt_part(3, v3, e, None, 2);
    lemma_opt_part(3, v3, e, None, 3);
    lemma_opt_part(3, v3, e, None, 4);
    lemma_opt_part(3, v3, e, None, 9);
    lemma_opt_part(4, 0, b4, None, 1);
    lemma_opt_part(4, 0, b4, None, 2);
    lemma_opt_part(4, 0, b4, None, 3);
    lemma_opt_part(4, 0, b4, None, 4);
    lemma_opt_part(4, 0, b4, None, 9);
    lemma_opt_part(9, 0, b9, None, 1);
    lemma_opt_part(9, 0, b9, None, 2);
    lemma_opt_part(9, 0, b9, None, 3);
    lemma_opt_part(9, 0, b9, None, 4);
    lemma_opt_part(9, 0, b9, None, 9);
    crate::proto::lemma_last_concat(u4, u9, 1);
    crate::proto::lemma_last_concat(u4, u9, 2);
    crate::proto::lemma_last_concat(u4, u9, 3);
    crate::proto::lemma_last_concat(u4, u9, 4);
    crate::proto::lemma_last_concat(u4, u9, 9);
    crate::proto::lemma_last_concat(u3, u4 + u9, 1);
    crate::proto::lemma_last_concat(u3, u4 + u9, 2);
    crate::proto::lemma_last_concat(u3, u4 + u9, 3);
    crate::proto::lemma_last_concat(u3, u4 + u9, 4);
    crate::proto::lemma_last_concat(u3, u4 + u9, 9);
    crate::proto::lemma_last_concat(u2, u3 + (u4 + u9), 1);
    crate::proto::lemma_last_concat(u2, u3 + (u4 + u9), 2);
    crate::proto::lemma_last_concat(u2, u3 + (u4 + u9), 3);
    crate::proto::lemma_last_concat(u2, u3 + (u4 + u9), 4);
    crate::proto::lemma_last_concat(u2, u3 + (u4 + u9), 9);
    crate::proto::lemma_last_concat(u1, u2 + (u3 + (u4 + u9)), 1);
    crate::proto::lemma_last_concat(u1, u2 + (u3 + (u4 + u9)), 2);
    crate::proto::lemma_last_concat(u1, u2 + (u3 + (u4 + u9)), 3);
    crate::proto::lemma_last_concat(u1, u2 + (u3 + (u4 + u9)), 4);
    crate::proto::lemma_last_concat(u1, u2 + (u3 + (u4 + u9)), 9);
}

/// A `RegisterRequest` reads back as written: `appInfo` (1), `deviceInfo`
/// (2), `presenceStatus` (4), `appActiveStatus` (5), `instanceId` (8) and
/// `ztCommonInfo` (11).
pub proof fn lemma_register_reads(
    ai: Seq<u8>,
    di: Seq<u8>,
    presence: i32,
    active: i32,
    instance_id: i64,
    ci: Seq<u8>,
)
    requires
        ai.len() <= u32::MAX,
        di.len() <= u32::MAX,
        ci.len() <= u32::MAX,
    ensures
        parse_fields(register_wire(ai, di, presence, active, instance_id, ci)) matches Some(fs)
            && bytes_of(fs, 1) == ai && bytes_of(fs, 2) == di && int32_of(fs, 4) == presence
            && int32_of(fs, 5) == active && int64_of(fs, 8) == instance_id && bytes_of(fs, 11)
            == ci,
{
    let v4 = i32_wire(presence);
    let v5 = i32_wire(active);
    let v8 = i64_wire(instance_id);
    lemma_i32_wire(presence);
    lemma_i32_wire(active);
    lemma_i64_wire(instance_id);
    let e = Seq::<u8>::empty();
    let x1 = opt_message_field(1, Some(ai));
    let x2 = opt_message_field(2, Some(di));
    let x4 = opt_varint_field(4, v4);
    let x5 = opt_varint_field(5, v5);
    let x8 = opt_varint_field(8, v8);
    let x11 = opt_message_field(11, Some(ci));
    assert(register_wire(ai, di, presence, active, instance_id, ci) =~= x1 + (x2 + (x4 + (x5 + (
    x8 + (x11 + e))))));
    assert(parse_fields(e) == Some(Seq::<WireField>::empty()));
    lemma_opt_message_fields(11, Some(ci), e);
    lemma_opt_varint_fields(8, v8, x11 + e);
    lemma_opt_varint_fields(5, v5, x8 + (x11 + e));
    lemma_opt_varint_fields(4, v4, x5 + (x8 + (x11 + e)));
    lemma_opt_message_fields(2, Some(di), x4 + (x5 + (x8 + (x11 + e))));
    lemma_opt_message_fields(1, Some(ai), x2 + (x4 + (x5 + (x8 + (x11 + e)))));
    let r1 = opt_message_fields(1, Some(ai));
    let r2 = opt_message_fields(2, Some(di));
    let r4 = opt_varint_fields(4, v4);
    let r5 = opt_varint_fields(5, v5);
    let r8 = opt_varint_fields(8, v8);
    let r11 = opt_message_fields(11, Some(ci));
    let none = Seq::<WireField>::empty();
    assert(r11 + none =~= r11);
    assert(parse_fields(register_wire(ai, di, presence, active, instance_id, ci)) == Some(
        r1 + (r2 + (r4 + (r5 + (r8 + r11)))),
    ));
    lemma_register_parts(r1, r2, r4, r5, r8, r11, ai, di, v4, v5, v8, ci);
}

/// An `UpstreamPayload` reads back as written: `command` (1), `seqId` (2),
/// `retryCount` (3), `payloadData` (4) and `subBiz` (9).
pub proof fn lemma_upstream_reads(
    command: Seq<char>,
    seq_id: i64,
    retry_count: u32,
    payload_data: Seq<u8>,
    sub_biz: Seq<char>,
)
    requires
        utf8(command).len() <= u32::MAX,
        payload_data.len() <= u32::MAX,
        utf8(sub_biz).len() <= u32::MAX,
    ensures
        parse_fields(upstream_wire(command, seq_id, retry_count, payload_data, sub_biz)) matches Some(
            fs,
        ) && string_of(fs, 1) == command && int64_of(fs, 2) == seq_id && uint32_of(fs, 3)
            == retry_count && bytes_of(fs, 4) == payload_data && string_of(fs, 9) == sub_biz,
{
    let b1 = utf8(command);
    let v2 = i64_wire(seq_id);
    let v3 = retry_count as nat;
    let b4 = payload_data;
    let b9 = utf8(sub_biz);
    lemma_i64_wire(seq_id);
    let e = Seq::<u8>::empty();
    let x1 = opt_len_field(1, b1);
    let x2 = opt_varint_field(2, v2);
    let x3 = opt_varint_field(3, v3);
    let x4 = opt_len_field(4, b4);
    let x9 = opt_len_field(9, b9);
    assert(upstream_wire(command, seq_id, retry_count, payload_data, sub_biz) =~= x1 + (x2 + (x3 + (
    x4 + (x9 + e)))));
    assert(parse_fields(e) == Some(Seq::<WireField>::empty()));
    lemma_opt_len_fields(9, b9, e);
    lemma_opt_len_fields(4, b4, x9 + e);
    lemma_opt_varint_fields(3, v3, x4 + (x9 + e));
    lemma_opt_varint_fields(2, v2, x3 + (x4 + (x9 + e)));
    lemma_opt_len_fields(1, b1, x2 + (x3 + (x4 + (x9 + e))));
    let u1 = opt_len_fields(1, b1);
    let u2 = opt_varint_fields(2, v2);
    let u3 = opt_varint_fields(3, v3);
    let u4 = opt_len_fields(4, b4);
    let u9 = opt_len_fields(9, b9);
    let none = Seq::<WireField>::empty();
    assert(u9 + none =~= u9);
    let fs = u1 + (u2 + (u3 + (u4 + u9)));
    assert(parse_fields(upstream_wire(command, seq_id, retry_count, payload_data, sub_biz)) == Some(fs));
    lemma_upstream_parts(u1, u2, u3, u4, u9, b1, v2, v3, b4, b9);
    lemma_bytes_of_opt(fs, 1, b1);
    lemma_bytes_of_opt(fs, 4, b4);
    lemma_bytes_of_opt(fs, 9, b9);
    vstd::utf8::encode_utf8_decode_utf8(command);
    vstd::utf8::encode_utf8_decode_utf8(sub_biz);
}

} // verus!
