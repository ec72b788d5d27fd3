//! What the toolbox's commands decide from the logged-in state and the
//! answers of the live API. The caller sends the requests and reads the
//! answers; these functions say what the answers mean.
use crate::client::ClientRequest;
use crate::frame::key_of_token;
use crate::sdk::{Token, User};
use vstd::prelude::*;

verus! {

/// The `result` of a successful answer of the live API.
pub const RESULT_OK: i32 = 1;

/// A notice of the live room, given when streaming starts.
pub struct PushNotice {
    /// Who wrote it.
    pub userId: i64,
    /// Their name.
    pub userName: String,
    /// Their gender.
    pub userGender: String,
    /// The notice.
    pub notice: String,
}

/// The configuration given when streaming starts.
pub struct PushConfig {
    /// The number of gift slots.
    pub giftSlotSize: i16,
}

/// What the live API gives when streaming starts.
pub struct StartPushData {
    /// The push resource of the video.
    pub videoPushRes: String,
    /// The live room.
    pub liveId: String,
    /// The attachment for entering the room.
    pub enterRoomAttach: String,
    /// The tickets of the danmaku link.
    pub availableTickets: Vec<String>,
    /// The notices of the room.
    pub notices: Vec<PushNotice>,
    /// How often a ticket may be retried.
    pub ticketRetryCount: i16,
    /// How long to wait between retries.
    pub ticketRetryIntervalMs: i32,
    /// The configuration.
    pub config: PushConfig,
}

/// Whether a user is logged in.
pub fn is_login(user: &Option<User>) -> (r: bool)
    ensures
        r == (user is Some),
{
    match user {
        Some(_) => true,
        None => false,
    }
}

/// Whether the live API granted what it was asked: its `result` is 1.
pub fn succeeded(result: i32) -> (r: bool)
    ensures
        r == (result == RESULT_OK),
{
    result == RESULT_OK
}

/// The live room that the stream status names, when the answer succeeded.
pub fn live_id_of(result: i32, live_id: String) -> (r: Option<String>)
    ensures
        r == if result == RESULT_OK {
            Some(live_id)
        } else {
            None
        },
{
    if result == RESULT_OK {
        Some(live_id)
    } else {
        None
    }
}

/// The first push address of the stream configuration, when the answer
/// succeeded.
pub fn push_address_of(result: i32, addresses: &Vec<String>) -> (r: Option<String>)
    requires
        result == RESULT_OK ==> addresses@.len() > 0,
    ensures
        r == if result == RESULT_OK {
            Some(addresses@[0])
        } else {
            None
        },
{
    if result == RESULT_OK {
        Some(addresses[0].clone())
    } else {
        None
    }
}

/// The danmaku client for a stream that started: the user's id, the
/// service token and the key of the token's secret, the live room, its
/// attachment and tickets. `None` when the answer did not succeed, or when
/// the secret is not the base64 text of 32 bytes.
pub fn client_for_push(user: &User, token: &Token, result: i32, data: StartPushData) -> (r: Option<
    ClientRequest,
>)
    ensures
        match r {
            Some(c) => {
                &&& result == RESULT_OK
                &&& c.userid == user.userid
                &&& c.service_token == token.st
                &&& key_of_token(token.ssecurity@) == Some(c.security_key@)
                &&& c.live_id == data.liveId
                &&& c.enter_room_attach == data.enterRoomAttach
                &&& c.tickets == data.availableTickets
                &&& c.ticket_index == 0
                &&& c.session_key@ == Seq::new(32, |i: int| 0u8)
                &&& c.instance_id == 0
                &&& c.lz4_compression_threshold == 0
                &&& c.seq_id == 0
                &&& c.heartbeat_seq_id == 0
            },
            None => result != RESULT_OK || key_of_token(token.ssecurity@) is None,
        },
{
    if result != RESULT_OK {
        return None;
    }
    ClientRequest::try_new(
        user.userid,
        token.st.clone(),
        &token.ssecurity,
        data.liveId,
        data.enterRoomAttach,
        data.availableTickets,
    )
}

/// Whether the token request was granted: its `result` is 0.
pub fn token_granted(token: &Token) -> (r: bool)
    ensures
        r == (token.result == 0),
{
    token.result == 0
}

} // verus!
