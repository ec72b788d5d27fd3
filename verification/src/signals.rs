//! The events a stream shows: what the signals of the live room say, by
//! caption and text.
use crate::proto::{
    all_len, check_lens_utf8, find_all_len, find_joined_len, find_string, has_len, joined_len,
    lemma_opt_len_fields, lens_utf8, opt_len_field, opt_len_fields, parse_fields, read_fields,
    string_of, utf8, WireField,
};
use crate::session::{ACTION_SIGNAL, NOTIFY_SIGNAL, STATE_SIGNAL};
use vstd::prelude::*;

verus! {

/// An action signal: a comment.
pub const COMMENT: &'static str = "CommonActionSignalComment";

/// An action signal: a user entered the room.
pub const ENTER_ROOM: &'static str = "CommonActionSignalUserEnterRoom";

/// An action signal: a like.
pub const LIKE: &'static str = "CommonActionSignalLike";

/// An action signal: a user followed the author.
pub const FOLLOW: &'static str = "CommonActionSignalUserFollowAuthor";

/// An action signal: a gift.
pub const GIFT: &'static str = "CommonActionSignalGift";

/// A state signal: AcFun's display counters (bananas).
pub const ACFUN_DISPLAY_INFO: &'static str = "AcfunStateSignalDisplayInfo";

/// A state signal: the display counters (watching, likes).
pub const DISPLAY_INFO: &'static str = "CommonStateSignalDisplayInfo";

/// A state signal: the top users.
pub const TOP_USERS: &'static str = "CommonStateSignalTopUsers";

/// A state signal: the recent comments.
pub const RECENT_COMMENT: &'static str = "CommonStateSignalRecentComment";

/// Caption of a comment.
pub const CAPTION_COMMENT: u32 = 1001;

/// Caption of a user entering the room.
pub const CAPTION_ENTER_ROOM: u32 = 1002;

/// Caption of a like.
pub const CAPTION_LIKE: u32 = 1003;

/// Caption of a follow.
pub const CAPTION_FOLLOW: u32 = 1004;

/// Caption of a gift.
pub const CAPTION_GIFT: u32 = 1005;

/// Caption of the banana count.
pub const CAPTION_BANANA_COUNT: u32 = 1011;

/// Caption of the like count.
pub const CAPTION_LIKE_COUNT: u32 = 1012;

/// Caption of the top user.
pub const CAPTION_TOP_USER: u32 = 1013;

/// An event for the stream's viewer: a caption and a text.
pub struct DanmakuEvent {
    /// What kind of event it is.
    pub caption: u32,
    /// Its text.
    pub message: String,
}

/// The view of events: caption and text.
pub open spec fn events_view(v: Seq<DanmakuEvent>) -> Seq<(u32, Seq<char>)> {
    v.map_values(|e: DanmakuEvent| (e.caption, e.message@))
}

/// Why a signal could not be shown.
#[derive(Debug, Clone, Copy, PartialEq, Eq)]
pub enum SignalError {
    /// The signal, or one of its items, does not read as such.
    BadSignal,
    /// The payload of an item does not read as what its type says.
    BadPayload,
    /// The payload names no user where it must.
    MissingUser,
    /// The top users are none.
    NoTopUser,
}

/// Whether `b` reads as a `ZtLiveUserInfo` (its `nickname`, field 2, is a
/// string).
pub open spec fn user_info_ok(b: Seq<u8>) -> bool {
    match parse_fields(b) {
        Some(fs) => lens_utf8(fs, 2),
        None => false,
    }
}

/// The nickname of the `ZtLiveUserInfo` `b`.
pub open spec fn nickname(b: Seq<u8>) -> Seq<char> {
    string_of(parse_fields(b).unwrap(), 2)
}

/// The nickname of the user in field `uf` of the message `p`, `None` when it
/// has no user; an error when `p` or its user does not read.
pub open spec fn user_of(p: Seq<u8>, uf: nat) -> Result<Option<Seq<char>>, SignalError> {
    match parse_fields(p) {
        Some(fs) => if has_len(fs, uf) {
            if user_info_ok(joined_len(fs, uf)) {
                Ok(Some(nickname(joined_len(fs, uf))))
            } else {
                Err(SignalError::BadPayload)
            }
        } else {
            Ok(None)
        },
        None => Err(SignalError::BadPayload),
    }
}

/// The content of the `CommonActionSignalComment` `p` (field 1; its user is
/// field 3).
pub open spec fn comment_of(p: Seq<u8>) -> Result<Seq<char>, SignalError> {
    match user_of(p, 3) {
        Err(e) => Err(e),
        Ok(_) => {
            let fs = parse_fields(p).unwrap();
            if lens_utf8(fs, 1) {
                Ok(string_of(fs, 1))
            } else {
                Err(SignalError::BadPayload)
            }
        },
    }
}

/// The nickname of the user in field `uf` of `p`, which must name one.
pub open spec fn required_user(p: Seq<u8>, uf: nat) -> Result<Seq<char>, SignalError> {
    match user_of(p, uf) {
        Err(e) => Err(e),
        Ok(Some(n)) => Ok(n),
        Ok(None) => Err(SignalError::MissingUser),
    }
}

/// The event of one payload of an action signal of type `t`: a comment
/// shows its content; entering the room, a like, a follow and a gift show
/// the nickname of their user (field 1), which they must name; other
/// signals show nothing.
pub open spec fn action_event(t: Seq<char>, p: Seq<u8>) -> Result<Option<(u32, Seq<char>)>, SignalError> {
    if t == COMMENT@ {
        match comment_of(p) {
            Ok(c) => Ok(Some((CAPTION_COMMENT, c))),
            Err(e) => Err(e),
        }
    } else if t == ENTER_ROOM@ || t == LIKE@ || t == FOLLOW@ || t == GIFT@ {
        let caption = if t == ENTER_ROOM@ {
            CAPTION_ENTER_ROOM
        } else if t == LIKE@ {
            CAPTION_LIKE
        } else if t == FOLLOW@ {
            CAPTION_FOLLOW
        } else {
            CAPTION_GIFT
        };
        match required_user(p, 1) {
            Ok(n) => Ok(Some((caption, n))),
            Err(e) => Err(e),
        }
    } else {
        Ok(None)
    }
}

/// The events of the payloads `ps` of an action signal of type `t`, in
/// order, up to the first that fails, and that failure.
pub open spec fn action_events(t: Seq<char>, ps: Seq<Seq<u8>>) -> (Seq<(u32, Seq<char>)>, Option<
    SignalError,
>)
    decreases ps.len(),
{
    if ps.len() == 0 {
        (Seq::empty(), None)
    } else {
        let (es, err) = action_events(t, ps.drop_last());
        if err is Some {
            (es, err)
        } else {
            match action_event(t, ps.last()) {
                Ok(Some(ev)) => (es.push(ev), None),
                Ok(None) => (es, None),
                Err(e) => (es, Some(e)),
            }
        }
    }
}

/// Whether an item of a signal reads: its `signalType` (field 1) is a
/// string.
pub open spec fn item_ok(item: Seq<u8>) -> bool {
    match parse_fields(item) {
        Some(fs) => lens_utf8(fs, 1),
        None => false,
    }
}

/// The type of an item of a signal.
pub open spec fn item_type(item: Seq<u8>) -> Seq<char> {
    string_of(parse_fields(item).unwrap(), 1)
}

/// The events of the items of an action signal (`ZtLiveActionSignalItem`:
/// type in field 1, payloads in field 2), in order, up to the first failure.
pub open spec fn action_items_events(items: Seq<Seq<u8>>) -> (Seq<(u32, Seq<char>)>, Option<
    SignalError,
>)
    decreases items.len(),
{
    if items.len() == 0 {
        (Seq::empty(), None)
    } else {
        let (es, err) = action_items_events(items.drop_last());
        if err is Some {
            (es, err)
        } else if !item_ok(items.last()) {
            (es, Some(SignalError::BadSignal))
        } else {
            let item = items.last();
            let (es2, err2) = action_events(
                item_type(item),
                all_len(parse_fields(item).unwrap(), 2),
            );
            (es + es2, err2)
        }
    }
}

/// The items of a signal (field 1), or `None` where it does not read.
pub open spec fn signal_items(payload: Seq<u8>) -> Option<Seq<Seq<u8>>> {
    match parse_fields(payload) {
        Some(fs) => Some(all_len(fs, 1)),
        None => None,
    }
}

proof fn lemma_action_events_stick(t: Seq<char>, ps: Seq<Seq<u8>>, k: int)
    requires
        0 <= k <= ps.len(),
        action_events(t, ps.take(k)).1 is Some,
    ensures
        action_events(t, ps) == action_events(t, ps.take(k)),
    decreases ps.len(),
{
    if k == ps.len() {
        assert(ps.take(k) =~= ps);
    } else {
        assert(ps.drop_last().take(k) =~= ps.take(k));
        lemma_action_events_stick(t, ps.drop_last(), k);
    }
}

proof fn lemma_items_events_stick(items: Seq<Seq<u8>>, k: int)
    requires
        0 <= k <= items.len(),
        action_items_events(items.take(k)).1 is Some,
    ensures
        action_items_events(items) == action_items_events(items.take(k)),
    decreases items.len(),
{
    if k == items.len() {
        assert(items.take(k) =~= items);
    } else {
        assert(items.drop_last().take(k) =~= items.take(k));
        lemma_items_events_stick(items.drop_last(), k);
    }
}

/// The events of one item of an action signal and its failure, if any.
pub open spec fn action_item_events(item: Seq<u8>) -> (Seq<(u32, Seq<char>)>, Option<SignalError>) {
    action_events(item_type(item), all_len(parse_fields(item).unwrap(), 2))
}

proof fn lemma_action_items_prefix(items: Seq<Seq<u8>>, j: int)
    requires
        0 <= j <= items.len(),
        all_items_ok(items),
        forall|i: int| 0 <= i < j ==> (#[trigger] action_item_events(items[i])).1 is None,
    ensures
        action_items_events(items.take(j)) == (
            items.take(j).map_values(|it: Seq<u8>| action_item_events(it).0).flatten_alt(),
            None::<SignalError>,
        ),
    decreases j,
{
    let t = items.take(j);
    let m = t.map_values(|it: Seq<u8>| action_item_events(it).0);
    if j == 0 {
        assert(t =~= Seq::<Seq<u8>>::empty());
        assert(m =~= Seq::<Seq<(u32, Seq<char>)>>::empty());
    } else {
        lemma_action_items_prefix(items, j - 1);
        assert(t.drop_last() =~= items.take(j - 1));
        assert(t.last() == items[j - 1]);
        assert(item_ok(items[j - 1]));
        assert(action_item_events(items[j - 1]).1 is None);
        assert(m.drop_last() =~= items.take(j - 1).map_values(
            |it: Seq<u8>| action_item_events(it).0,
        ));
        assert(m.last() == action_item_events(items[j - 1]).0);
    }
}

/// An action signal shows the events of each of its items, every one of
/// them, in order: when its items read and the first `k` of them fail on
/// none of their payloads, the events shown are theirs one after another,
/// then those of the item after them, if any, up to its failure, which
/// stops the signal.
pub proof fn lemma_action_signal_reads_every_item(payload: Seq<u8>, k: int)
    requires
        signal_items(payload) is Some,
        all_items_ok(signal_items(payload).unwrap()),
        0 <= k <= signal_items(payload).unwrap().len(),
        forall|i: int|
            0 <= i < k ==> (#[trigger] action_item_events(signal_items(payload).unwrap()[i])).1
                is None,
        k < signal_items(payload).unwrap().len() ==> action_item_events(
            signal_items(payload).unwrap()[k],
        ).1 is Some,
    ensures
        ({
            let items = signal_items(payload).unwrap();
            let before = items.take(k).map_values(|it: Seq<u8>| action_item_events(it).0).flatten();
            action_signal_events(payload) == if k < items.len() {
                (before + action_item_events(items[k]).0, action_item_events(items[k]).1)
            } else {
                (before, None)
            }
        }),
{
    let items = signal_items(payload).unwrap();
    lemma_action_items_prefix(items, k);
    let m = items.take(k).map_values(|it: Seq<u8>| action_item_events(it).0);
    m.lemma_flatten_and_flatten_alt_are_equivalent();
    if k == items.len() {
        assert(items.take(k) =~= items);
    } else {
        let t = items.take(k + 1);
        assert(t.drop_last() =~= items.take(k));
        assert(t.last() == items[k]);
        assert(item_ok(items[k]));
        assert(action_items_events(t).1 is Some);
        lemma_items_events_stick(items, k + 1);
    }
}

/// The user of a payload: in field `uf`, which must name one.
pub fn required_user_of(p: &[u8], uf: u32) -> (r: Result<String, SignalError>)
    ensures
        match r {
            Ok(n) => required_user(p@, uf as nat) == Ok::<Seq<char>, SignalError>(n@),
            Err(e) => required_user(p@, uf as nat) == Err::<Seq<char>, SignalError>(e),
        },
{
    let fs = match read_fields(p) {
        Some(fs) => fs,
        None => return Err(SignalError::BadPayload),
    };
    match find_joined_len(&fs, uf) {
        Some(u) => {
            let ufs = match read_fields(u.as_slice()) {
                Some(x) => x,
                None => return Err(SignalError::BadPayload),
            };
            if !check_lens_utf8(&ufs, 2) {
                return Err(SignalError::BadPayload);
            }
            Ok(find_string(&ufs, 2))
        },
        None => Err(SignalError::MissingUser),
    }
}

/// The content of a comment.
pub fn comment_content(p: &[u8]) -> (r: Result<String, SignalError>)
    ensures
        match r {
            Ok(c) => comment_of(p@) == Ok::<Seq<char>, SignalError>(c@),
            Err(e) => comment_of(p@) == Err::<Seq<char>, SignalError>(e),
        },
{
    let fs = match read_fields(p) {
        Some(fs) => fs,
        None => return Err(SignalError::BadPayload),
    };
    match find_joined_len(&fs, 3) {
        Some(u) => {
            let ufs = match read_fields(u.as_slice()) {
                Some(x) => x,
                None => return Err(SignalError::BadPayload),
            };
            if !check_lens_utf8(&ufs, 2) {
                return Err(SignalError::BadPayload);
            }
        },
        None => {},
    }
    if !check_lens_utf8(&fs, 1) {
        return Err(SignalError::BadPayload);
    }
    Ok(find_string(&fs, 1))
}

/// The event of one payload of an action signal of type `t`.
pub fn action_event_of(t: &String, p: &[u8]) -> (r: Result<Option<DanmakuEvent>, SignalError>)
    ensures
        match r {
            Ok(Some(ev)) => action_event(t@, p@) == Ok::<Option<(u32, Seq<char>)>, SignalError>(
                Some((ev.caption, ev.message@)),
            ),
            Ok(None) => action_event(t@, p@) == Ok::<Option<(u32, Seq<char>)>, SignalError>(None),
            Err(e) => action_event(t@, p@) == Err::<Option<(u32, Seq<char>)>, SignalError>(e),
        },
{
    if *t == String::from_str(COMMENT) {
        match comment_content(p) {
            Ok(c) => Ok(Some(DanmakuEvent { caption: CAPTION_COMMENT, message: c })),
            Err(e) => Err(e),
        }
    } else if *t == String::from_str(ENTER_ROOM) || *t == String::from_str(LIKE) || *t
        == String::from_str(FOLLOW) || *t == String::from_str(GIFT) {
        let caption: u32 = if *t == String::from_str(ENTER_ROOM) {
            CAPTION_ENTER_ROOM
        } else if *t == String::from_str(LIKE) {
            CAPTION_LIKE
        } else if *t == String::from_str(FOLLOW) {
            CAPTION_FOLLOW
        } else {
            CAPTION_GIFT
        };
        match required_user_of(p, 1) {
            Ok(n) => Ok(Some(DanmakuEvent { caption, message: n })),
            Err(e) => Err(e),
        }
    } else {
        Ok(None)
    }
}

/// Appends the events of the payloads `ps` of an action signal of type `t`,
/// up to the first that fails, and gives that failure.
pub fn push_action_events(t: &String, ps: &Vec<Vec<u8>>, out: &mut Vec<DanmakuEvent>) -> (r: Option<
    SignalError,
>)
    ensures
        ({
            let (es, err) = action_events(t@, ps@.map_values(|b: Vec<u8>| b@));
            events_view(final(out)@) == events_view(old(out)@) + es && r == err
        }),
{
    let ghost pv = ps@.map_values(|b: Vec<u8>| b@);
    let ghost start = events_view(out@);
    let mut i: usize = 0;
    while i < ps.len()
        invariant
            i <= ps@.len(),
            pv == ps@.map_values(|b: Vec<u8>| b@),
            start == events_view(old(out)@),
            action_events(t@, pv.take(i as int)).1 is None,
            events_view(out@) == start + action_events(t@, pv.take(i as int)).0,
        decreases ps@.len() - i,
    {
        proof {
            assert(pv.take(i + 1).drop_last() =~= pv.take(i as int));
            assert(pv.take(i + 1).last() == ps@[i as int]@);
        }
        match action_event_of(t, ps[i].as_slice()) {
            Ok(Some(ev)) => {
                let ghost before = out@;
                let ghost evv = (ev.caption, ev.message@);
                out.push(ev);
                assert(events_view(out@) =~= events_view(before).push(evv));
            },
            Ok(None) => {},
            Err(e) => {
                proof {
                    assert(action_event(t@, pv.take(i + 1).last()) == Err::<
                        Option<(u32, Seq<char>)>,
                        SignalError,
                    >(e));
                    assert(action_events(t@, pv.take(i + 1)) == (
                        action_events(t@, pv.take(i as int)).0,
                        Some(e),
                    ));
                    lemma_action_events_stick(t@, pv, i + 1);
                    assert(action_events(t@, pv).1 == Some(e));
                    assert(events_view(out@) == start + action_events(t@, pv).0);
                    assert(start == events_view(old(out)@));
                }
                return Some(e);
            },
        }
        i = i + 1;
    }
    assert(pv.take(i as int) =~= pv);
    None
}

/// Whether every item of a signal reads: a signal is read whole, items
/// included, before any of its items is looked at.
pub open spec fn all_items_ok(items: Seq<Seq<u8>>) -> bool {
    forall|i: int| 0 <= i < items.len() ==> item_ok(#[trigger] items[i])
}

/// Whether every item of a signal reads.
pub fn items_valid(items: &Vec<Vec<u8>>) -> (r: bool)
    ensures
        r == all_items_ok(items@.map_values(|b: Vec<u8>| b@)),
{
    let ghost iv = items@.map_values(|b: Vec<u8>| b@);
    let mut i: usize = 0;
    while i < items.len()
        invariant
            i <= items@.len(),
            iv == items@.map_values(|b: Vec<u8>| b@),
            forall|j: int| 0 <= j < i ==> item_ok(#[trigger] iv[j]),
        decreases items@.len() - i,
    {
        let ok = match read_fields(items[i].as_slice()) {
            Some(ifs) => check_lens_utf8(&ifs, 1),
            None => false,
        };
        if !ok {
            assert(!item_ok(iv[i as int]));
            return false;
        }
        i = i + 1;
    }
    true
}

/// The events of an action signal, up to the first failure, and that
/// failure.
pub open spec fn action_signal_events(payload: Seq<u8>) -> (Seq<(u32, Seq<char>)>, Option<
    SignalError,
>) {
    match signal_items(payload) {
        Some(items) => if all_items_ok(items) {
            action_items_events(items)
        } else {
            (Seq::empty(), Some(SignalError::BadSignal))
        },
        None => (Seq::empty(), Some(SignalError::BadSignal)),
    }
}

/// Appends the events of an action signal, up to the first failure, and
/// gives that failure.
pub fn push_action_signal(payload: &[u8], out: &mut Vec<DanmakuEvent>) -> (r: Option<SignalError>)
    ensures
        ({
            let (es, err) = action_signal_events(payload@);
            events_view(final(out)@) == events_view(old(out)@) + es && r == err
        }),
{
    let fs = match read_fields(payload) {
        Some(fs) => fs,
        None => {
            assert(events_view(out@) =~= events_view(out@) + Seq::empty());
            return Some(SignalError::BadSignal);
        },
    };
    let items = find_all_len(&fs, 1);
    let ghost iv = items@.map_values(|b: Vec<u8>| b@);
    if !items_valid(&items) {
        assert(events_view(out@) =~= events_view(out@) + Seq::empty());
        return Some(SignalError::BadSignal);
    }
    let ghost start = events_view(out@);
    let mut i: usize = 0;
    assert(iv.take(0) =~= Seq::<Seq<u8>>::empty());
    assert(start + Seq::empty() =~= start);
    assert(signal_items(payload@) == Some(iv));
    while i < items.len()
        invariant
            i <= items@.len(),
            iv == items@.map_values(|b: Vec<u8>| b@),
            start == events_view(old(out)@),
            signal_items(payload@) == Some(iv),
            all_items_ok(iv),
            action_items_events(iv.take(i as int)).1 is None,
            events_view(out@) == start + action_items_events(iv.take(i as int)).0,
        decreases items@.len() - i,
    {
        proof {
            assert(iv.take(i + 1).drop_last() =~= iv.take(i as int));
            assert(iv.take(i + 1).last() == items@[i as int]@);
        }
        let ifs = match read_fields(items[i].as_slice()) {
            Some(x) => x,
            None => {
                proof {
                    assert(!item_ok(iv.take(i + 1).last()));
                    assert(action_items_events(iv.take(i + 1)) == (
                        action_items_events(iv.take(i as int)).0,
                        Some(SignalError::BadSignal),
                    ));
                    lemma_items_events_stick(iv, i + 1);
                    assert(signal_items(payload@) == Some(iv));
                }
                return Some(SignalError::BadSignal);
            },
        };
        if !check_lens_utf8(&ifs, 1) {
            proof {
                assert(!item_ok(iv.take(i + 1).last()));
                assert(action_items_events(iv.take(i + 1)) == (
                    action_items_events(iv.take(i as int)).0,
                    Some(SignalError::BadSignal),
                ));
                lemma_items_events_stick(iv, i + 1);
                assert(signal_items(payload@) == Some(iv));
            }
            return Some(SignalError::BadSignal);
        }
        let t = find_string(&ifs, 1);
        let ps = find_all_len(&ifs, 2);
        let ghost before = events_view(out@);
        let err = push_action_events(&t, &ps, out);
        proof {
            let (es2, _) = action_events(
                t@,
                all_len(parse_fields(items@[i as int]@).unwrap(), 2),
            );
            assert(events_view(out@) == before + es2);
            assert(start + action_items_events(iv.take(i + 1)).0 =~= (start
                + action_items_events(iv.take(i as int)).0) + es2);
        }
        if err.is_some() {
            proof {
                lemma_items_events_stick(iv, i + 1);
                assert(signal_items(payload@) == Some(iv));
            }
            return err;
        }
        i = i + 1;
    }
    assert(iv.take(i as int) =~= iv);
    None
}


/// The events of the top users: the nickname of the first, empty when it
/// names no user. Every top user (field 1, a `TopUser` whose user is field
/// 1) must read.
pub open spec fn top_users_event(whole: Seq<u8>) -> Result<Seq<(u32, Seq<char>)>, SignalError> {
    match parse_fields(whole) {
        Some(fs) => {
            let users = all_len(fs, 1);
            if !(forall|i: int| 0 <= i < users.len() ==> (#[trigger] user_of(users[i], 1)) is Ok) {
                Err(SignalError::BadPayload)
            } else if users.len() == 0 {
                Err(SignalError::NoTopUser)
            } else {
                let name = match user_of(users[0], 1) {
                    Ok(Some(n)) => n,
                    _ => Seq::empty(),
                };
                Ok(seq![(CAPTION_TOP_USER, name)])
            }
        },
        None => Err(SignalError::BadPayload),
    }
}

/// The events of the recent comments (field 1, each a
/// `CommonActionSignalComment`), in order. Every comment must read.
pub open spec fn recent_comments_events(whole: Seq<u8>) -> Result<Seq<(u32, Seq<char>)>, SignalError> {
    match parse_fields(whole) {
        Some(fs) => {
            let cs = all_len(fs, 1);
            if forall|i: int| 0 <= i < cs.len() ==> (#[trigger] comment_of(cs[i])) is Ok {
                Ok(cs.map_values(|c: Seq<u8>| (CAPTION_COMMENT, comment_of(c)->Ok_0)))
            } else {
                Err(SignalError::BadPayload)
            }
        },
        None => Err(SignalError::BadPayload),
    }
}

/// The events of one item of a state signal whose payload is `whole`: the
/// banana count reads the item's payload; the like count, the top users and
/// the recent comments read the whole signal's payload.
pub open spec fn state_item_events(item: Seq<u8>, whole: Seq<u8>) -> Result<
    Seq<(u32, Seq<char>)>,
    SignalError,
> {
    let ifs = parse_fields(item).unwrap();
    let t = item_type(item);
    if t == ACFUN_DISPLAY_INFO@ {
        match parse_fields(crate::proto::bytes_of(ifs, 2)) {
            Some(fs) => if lens_utf8(fs, 1) {
                Ok(seq![(CAPTION_BANANA_COUNT, string_of(fs, 1))])
            } else {
                Err(SignalError::BadPayload)
            },
            None => Err(SignalError::BadPayload),
        }
    } else if t == DISPLAY_INFO@ {
        match parse_fields(whole) {
            Some(fs) => if lens_utf8(fs, 1) && lens_utf8(fs, 2) {
                Ok(seq![(CAPTION_LIKE_COUNT, string_of(fs, 2))])
            } else {
                Err(SignalError::BadPayload)
            },
            None => Err(SignalError::BadPayload),
        }
    } else if t == TOP_USERS@ {
        top_users_event(whole)
    } else if t == RECENT_COMMENT@ {
        recent_comments_events(whole)
    } else {
        Ok(Seq::empty())
    }
}

/// The events of the items of a state signal whose payload is `whole`, in
/// order, up to the first failure.
pub open spec fn state_items_events(items: Seq<Seq<u8>>, whole: Seq<u8>) -> (
    Seq<(u32, Seq<char>)>,
    Option<SignalError>,
)
    decreases items.len(),
{
    if items.len() == 0 {
        (Seq::empty(), None)
    } else {
        let (es, err) = state_items_events(items.drop_last(), whole);
        if err is Some {
            (es, err)
        } else {
            match state_item_events(items.last(), whole) {
                Ok(es2) => (es + es2, None),
                Err(e) => (es, Some(e)),
            }
        }
    }
}

/// The events of a state signal, up to the first failure, and that failure.
pub open spec fn state_signal_events(payload: Seq<u8>) -> (Seq<(u32, Seq<char>)>, Option<
    SignalError,
>) {
    match signal_items(payload) {
        Some(items) => if all_items_ok(items) {
            state_items_events(items, payload)
        } else {
            (Seq::empty(), Some(SignalError::BadSignal))
        },
        None => (Seq::empty(), Some(SignalError::BadSignal)),
    }
}

/// What a notify signal gives: no event; it must read as a signal.
pub open spec fn notify_signal_events(payload: Seq<u8>) -> (Seq<(u32, Seq<char>)>, Option<
    SignalError,
>) {
    match signal_items(payload) {
        Some(items) => if all_items_ok(items) {
            (Seq::empty(), None)
        } else {
            (Seq::empty(), Some(SignalError::BadSignal))
        },
        None => (Seq::empty(), Some(SignalError::BadSignal)),
    }
}

/// The events of a pushed message of type `msg_type` with `payload`, in
/// order, up to the first failure, and that failure.
pub open spec fn signal_events(msg_type: Seq<char>, payload: Seq<u8>) -> (
    Seq<(u32, Seq<char>)>,
    Option<SignalError>,
) {
    if msg_type == ACTION_SIGNAL@ {
        action_signal_events(payload)
    } else if msg_type == STATE_SIGNAL@ {
        state_signal_events(payload)
    } else if msg_type == NOTIFY_SIGNAL@ {
        notify_signal_events(payload)
    } else {
        (Seq::empty(), None)
    }
}

proof fn lemma_state_events_stick(items: Seq<Seq<u8>>, whole: Seq<u8>, k: int)
    requires
        0 <= k <= items.len(),
        state_items_events(items.take(k), whole).1 is Some,
    ensures
        state_items_events(items, whole) == state_items_events(items.take(k), whole),
    decreases items.len(),
{
    if k == items.len() {
        assert(items.take(k) =~= items);
    } else {
        assert(items.drop_last().take(k) =~= items.take(k));
        lemma_state_events_stick(items.drop_last(), whole, k);
    }
}

/// An `AcfunStateSignalDisplayInfo` item whose payload names the banana
/// count `count` (field 1 of the payload, which is field 2 of the item)
/// shows that count, under caption 1011, whatever the rest of the signal.
pub proof fn lemma_banana_count_item(count: Seq<char>, whole: Seq<u8>)
    requires
        utf8(count).len() <= 0x1000_0000,
    ensures
        state_item_events(
            opt_len_field(1, utf8("AcfunStateSignalDisplayInfo"@)) + opt_len_field(
                2,
                opt_len_field(1, utf8(count)),
            ),
            whole,
        ) == Ok::<Seq<(u32, Seq<char>)>, SignalError>(seq![(1011u32, count)]),
{
    let t = "AcfunStateSignalDisplayInfo"@;
    reveal_strlit("AcfunStateSignalDisplayInfo");
    let bt = utf8(t);
    let bc = utf8(count);
    assert(bt.len() <= 100) by {
        vstd::utf8::is_ascii_chars_encode_utf8(t);
    }
    crate::client::lemma_field_bounds(1, 0, bc);
    let pb = opt_len_field(1, bc);
    let e = Seq::<u8>::empty();
    let x1 = opt_len_field(1, bt);
    let x2 = opt_len_field(2, pb);
    let item = x1 + x2;
    let none = Seq::<WireField>::empty();
    assert(parse_fields(e) == Some(none));
    assert(x2 + e =~= x2);
    lemma_opt_len_fields(2, pb, e);
    lemma_opt_len_fields(1, bt, x2);
    let f1 = opt_len_fields(1, bt);
    let f2 = opt_len_fields(2, pb);
    assert(f2 + none =~= f2);
    let ifs = f1 + f2;
    assert(parse_fields(item) == Some(ifs));
    crate::messages::lemma_opt_part(1, 0, bt, None, 1);
    crate::messages::lemma_opt_part(1, 0, bt, None, 2);
    crate::messages::lemma_opt_part(2, 0, pb, None, 1);
    crate::messages::lemma_opt_part(2, 0, pb, None, 2);
    crate::proto::lemma_last_concat(f1, f2, 1);
    crate::proto::lemma_last_concat(f1, f2, 2);
    crate::messages::lemma_bytes_of_opt(ifs, 1, bt);
    crate::messages::lemma_bytes_of_opt(ifs, 2, pb);
    vstd::utf8::encode_utf8_decode_utf8(t);
    assert(item_type(item) == ACFUN_DISPLAY_INFO@);
    assert(pb + e =~= pb);
    lemma_opt_len_fields(1, bc, e);
    let pf = opt_len_fields(1, bc);
    assert(pf + none =~= pf);
    assert(parse_fields(pb) == Some(pf));
    vstd::utf8::encode_utf8_valid_utf8(count);
    assert(lens_utf8(pf, 1)) by {
        assert forall|i: int| 0 <= i < pf.len() implies crate::proto::is_utf8(#[trigger] pf[i], 1) by {
            assert(pf[i] == WireField::Len(1, bc));
        }
    }
    crate::messages::lemma_opt_part(1, 0, bc, None, 1);
    crate::messages::lemma_bytes_of_opt(pf, 1, bc);
    vstd::utf8::encode_utf8_decode_utf8(count);
}

proof fn lemma_state_items_prefix(items: Seq<Seq<u8>>, whole: Seq<u8>, j: int)
    requires
        0 <= j <= items.len(),
        forall|i: int| 0 <= i < j ==> (#[trigger] state_item_events(items[i], whole)) is Ok,
    ensures
        state_items_events(items.take(j), whole) == (
            items.take(j).map_values(|it: Seq<u8>| state_item_events(it, whole)->Ok_0).flatten_alt(),
            None::<SignalError>,
        ),
    decreases j,
{
    let t = items.take(j);
    let m = t.map_values(|it: Seq<u8>| state_item_events(it, whole)->Ok_0);
    if j == 0 {
        assert(t =~= Seq::<Seq<u8>>::empty());
        assert(m =~= Seq::<Seq<(u32, Seq<char>)>>::empty());
    } else {
        lemma_state_items_prefix(items, whole, j - 1);
        assert(t.drop_last() =~= items.take(j - 1));
        assert(t.last() == items[j - 1]);
        assert(state_item_events(items[j - 1], whole) is Ok);
        assert(m.drop_last() =~= items.take(j - 1).map_values(
            |it: Seq<u8>| state_item_events(it, whole)->Ok_0,
        ));
        assert(m.last() == state_item_events(items[j - 1], whole)->Ok_0);
    }
}

/// A state signal shows the events of each of its items, every one of them,
/// in order: when its items read and the first `k` of them give events,
/// the events shown are theirs one after another, and the item after them,
/// if any, is the failure that stops the signal.
pub proof fn lemma_state_signal_reads_every_item(payload: Seq<u8>, k: int)
    requires
        signal_items(payload) is Some,
        all_items_ok(signal_items(payload).unwrap()),
        0 <= k <= signal_items(payload).unwrap().len(),
        forall|i: int|
            0 <= i < k ==> (#[trigger] state_item_events(signal_items(payload).unwrap()[i], payload))
                is Ok,
        k < signal_items(payload).unwrap().len() ==> state_item_events(
            signal_items(payload).unwrap()[k],
            payload,
        ) is Err,
    ensures
        ({
            let items = signal_items(payload).unwrap();
            state_signal_events(payload) == (
                items.take(k).map_values(
                    |it: Seq<u8>| state_item_events(it, payload)->Ok_0,
                ).flatten(),
                if k < items.len() {
                    Some(state_item_events(items[k], payload)->Err_0)
                } else {
                    None
                },
            )
        }),
{
    let items = signal_items(payload).unwrap();
    lemma_state_items_prefix(items, payload, k);
    let m = items.take(k).map_values(|it: Seq<u8>| state_item_events(it, payload)->Ok_0);
    m.lemma_flatten_and_flatten_alt_are_equivalent();
    if k == items.len() {
        assert(items.take(k) =~= items);
    } else {
        let t = items.take(k + 1);
        assert(t.drop_last() =~= items.take(k));
        assert(t.last() == items[k]);
        assert(state_items_events(t, payload).1 is Some);
        lemma_state_events_stick(items, payload, k + 1);
    }
}

/// The event of the top users.
pub fn top_users(whole: &[u8]) -> (r: Result<Vec<DanmakuEvent>, SignalError>)
    ensures
        match r {
            Ok(v) => top_users_event(whole@) == Ok::<Seq<(u32, Seq<char>)>, SignalError>(
                events_view(v@),
            ),
            Err(e) => top_users_event(whole@) == Err::<Seq<(u32, Seq<char>)>, SignalError>(e),
        },
{
    let fs = match read_fields(whole) {
        Some(fs) => fs,
        None => return Err(SignalError::BadPayload),
    };
    let users = find_all_len(&fs, 1);
    let ghost uv = users@.map_values(|b: Vec<u8>| b@);
    let mut first: Option<String> = None;
    let mut i: usize = 0;
    while i < users.len()
        invariant
            i <= users@.len(),
            uv == users@.map_values(|b: Vec<u8>| b@),
            parse_fields(whole@) is Some,
            uv == all_len(parse_fields(whole@).unwrap(), 1),
            forall|j: int| 0 <= j < i ==> (#[trigger] user_of(uv[j], 1)) is Ok,
            i > 0 ==> match first {
                Some(n) => user_of(uv[0], 1) == Ok::<Option<Seq<char>>, SignalError>(Some(n@)),
                None => user_of(uv[0], 1) == Ok::<Option<Seq<char>>, SignalError>(None),
            },
        decreases users@.len() - i,
    {
        let n = match required_user_of(users[i].as_slice(), 1) {
            Ok(n) => Some(n),
            Err(SignalError::MissingUser) => None,
            Err(e) => {
                assert(user_of(uv[i as int], 1) is Err);
                return Err(SignalError::BadPayload);
            },
        };
        if i == 0 {
            first = n;
        }
        i = i + 1;
    }
    if users.len() == 0 {
        return Err(SignalError::NoTopUser);
    }
    let name = match first {
        Some(n) => n,
        None => String::new(),
    };
    let mut v: Vec<DanmakuEvent> = Vec::new();
    v.push(DanmakuEvent { caption: CAPTION_TOP_USER, message: name });
    assert(events_view(v@) =~= seq![(CAPTION_TOP_USER, v@[0].message@)]);
    Ok(v)
}

/// The events of the recent comments.
pub fn recent_comments(whole: &[u8]) -> (r: Result<Vec<DanmakuEvent>, SignalError>)
    ensures
        match r {
            Ok(v) => recent_comments_events(whole@) == Ok::<Seq<(u32, Seq<char>)>, SignalError>(
                events_view(v@),
            ),
            Err(e) => recent_comments_events(whole@) == Err::<Seq<(u32, Seq<char>)>, SignalError>(
                e,
            ),
        },
{
    let fs = match read_fields(whole) {
        Some(fs) => fs,
        None => return Err(SignalError::BadPayload),
    };
    let cs = find_all_len(&fs, 1);
    let ghost cv = cs@.map_values(|b: Vec<u8>| b@);
    let mut v: Vec<DanmakuEvent> = Vec::new();
    let mut i: usize = 0;
    while i < cs.len()
        invariant
            i <= cs@.len(),
            cv == cs@.map_values(|b: Vec<u8>| b@),
            parse_fields(whole@) is Some,
            cv == all_len(parse_fields(whole@).unwrap(), 1),
            forall|j: int| 0 <= j < i ==> (#[trigger] comment_of(cv[j])) is Ok,
            events_view(v@) == cv.take(i as int).map_values(
                |c: Seq<u8>| (CAPTION_COMMENT, comment_of(c)->Ok_0),
            ),
        decreases cs@.len() - i,
    {
        match comment_content(cs[i].as_slice()) {
            Ok(c) => {
                let ghost before = v@;
                let ghost cc = c@;
                v.push(DanmakuEvent { caption: CAPTION_COMMENT, message: c });
                assert(events_view(v@) =~= events_view(before).push((CAPTION_COMMENT, cc)));
                assert(cv.take(i + 1) =~= cv.take(i as int).push(cv[i as int]));
                assert(cv.take(i + 1).map_values(
                    |c: Seq<u8>| (CAPTION_COMMENT, comment_of(c)->Ok_0),
                ) =~= cv.take(i as int).map_values(
                    |c: Seq<u8>| (CAPTION_COMMENT, comment_of(c)->Ok_0),
                ).push((CAPTION_COMMENT, cc)));
            },
            Err(e) => {
                assert(comment_of(cv[i as int]) is Err);
                return Err(SignalError::BadPayload);
            },
        }
        i = i + 1;
    }
    assert(cv.take(i as int) =~= cv);
    Ok(v)
}

/// The events of one item of a state signal whose payload is `whole`.
pub fn state_item(item: &[u8], whole: &[u8]) -> (r: Result<Vec<DanmakuEvent>, SignalError>)
    requires
        item_ok(item@),
    ensures
        match r {
            Ok(v) => state_item_events(item@, whole@) == Ok::<Seq<(u32, Seq<char>)>, SignalError>(
                events_view(v@),
            ),
            Err(e) => state_item_events(item@, whole@) == Err::<Seq<(u32, Seq<char>)>, SignalError>(
                e,
            ),
        },
{
    let ifs = match read_fields(item) {
        Some(x) => x,
        None => return Err(SignalError::BadSignal),
    };
    let t = find_string(&ifs, 1);
    if t == String::from_str(ACFUN_DISPLAY_INFO) {
        let p = crate::proto::bytes_field(&ifs, 2);
        let fs = match read_fields(p.as_slice()) {
            Some(fs) => fs,
            None => return Err(SignalError::BadPayload),
        };
        if !check_lens_utf8(&fs, 1) {
            return Err(SignalError::BadPayload);
        }
        let mut v: Vec<DanmakuEvent> = Vec::new();
        v.push(DanmakuEvent { caption: CAPTION_BANANA_COUNT, message: find_string(&fs, 1) });
        assert(events_view(v@) =~= seq![(CAPTION_BANANA_COUNT, v@[0].message@)]);
        Ok(v)
    } else if t == String::from_str(DISPLAY_INFO) {
        let fs = match read_fields(whole) {
            Some(fs) => fs,
            None => return Err(SignalError::BadPayload),
        };
        if !check_lens_utf8(&fs, 1) || !check_lens_utf8(&fs, 2) {
            return Err(SignalError::BadPayload);
        }
        let mut v: Vec<DanmakuEvent> = Vec::new();
        v.push(DanmakuEvent { caption: CAPTION_LIKE_COUNT, message: find_string(&fs, 2) });
        assert(events_view(v@) =~= seq![(CAPTION_LIKE_COUNT, v@[0].message@)]);
        Ok(v)
    } else if t == String::from_str(TOP_USERS) {
        top_users(whole)
    } else if t == String::from_str(RECENT_COMMENT) {
        recent_comments(whole)
    } else {
        let v: Vec<DanmakuEvent> = Vec::new();
        assert(events_view(v@) =~= Seq::empty());
        Ok(v)
    }
}

/// Appends the events of a state signal, up to the first failure, and
/// gives that failure.
pub fn push_state_signal(payload: &[u8], out: &mut Vec<DanmakuEvent>) -> (r: Option<SignalError>)
    ensures
        ({
            let (es, err) = state_signal_events(payload@);
            events_view(final(out)@) == events_view(old(out)@) + es && r == err
        }),
{
    let fs = match read_fields(payload) {
        Some(fs) => fs,
        None => {
            assert(events_view(out@) =~= events_view(out@) + Seq::empty());
            return Some(SignalError::BadSignal);
        },
    };
    let items = find_all_len(&fs, 1);
    let ghost iv = items@.map_values(|b: Vec<u8>| b@);
    if !items_valid(&items) {
        assert(events_view(out@) =~= events_view(out@) + Seq::empty());
        return Some(SignalError::BadSignal);
    }
    let ghost start = events_view(out@);
    let mut i: usize = 0;
    assert(iv.take(0) =~= Seq::<Seq<u8>>::empty());
    assert(start + Seq::empty() =~= start);
    assert(signal_items(payload@) == Some(iv));
    while i < items.len()
        invariant
            i <= items@.len(),
            iv == items@.map_values(|b: Vec<u8>| b@),
            start == events_view(old(out)@),
            signal_items(payload@) == Some(iv),
            all_items_ok(iv),
            state_items_events(iv.take(i as int), payload@).1 is None,
            events_view(out@) == start + state_items_events(iv.take(i as int), payload@).0,
        decreases items@.len() - i,
    {
        proof {
            assert(iv.take(i + 1).drop_last() =~= iv.take(i as int));
            assert(iv.take(i + 1).last() == items@[i as int]@);
            assert(item_ok(iv[i as int]));
        }
        match state_item(items[i].as_slice(), payload) {
            Ok(mut es) => {
                let ghost before = events_view(out@);
                let ghost ev = events_view(es@);
                out.append(&mut es);
                assert(events_view(out@) =~= before + ev);
                assert(start + state_items_events(iv.take(i + 1), payload@).0 =~= (start
                    + state_items_events(iv.take(i as int), payload@).0) + ev);
            },
            Err(e) => {
                proof {
                    assert(state_items_events(iv.take(i + 1), payload@) == (
                        state_items_events(iv.take(i as int), payload@).0,
                        Some(e),
                    ));
                    lemma_state_events_stick(iv, payload@, i + 1);
                }
                return Some(e);
            },
        }
        i = i + 1;
    }
    assert(iv.take(i as int) =~= iv);
    None
}

/// The events of a pushed message of type `msg_type` with `payload`, in
/// order, up to the first failure, and that failure: what the stream shows.
pub fn signal_events_of(msg_type: &String, payload: &[u8]) -> (r: (Vec<DanmakuEvent>, Option<SignalError>))
    ensures
        ({
            let (es, err) = signal_events(msg_type@, payload@);
            events_view(r.0@) == es && r.1 == err
        }),
{
    let mut out: Vec<DanmakuEvent> = Vec::new();
    assert(events_view(out@) =~= Seq::empty());
    if *msg_type == String::from_str(ACTION_SIGNAL) {
        let err = push_action_signal(payload, &mut out);
        assert(events_view(out@) =~= Seq::empty() + action_signal_events(payload@).0);
        (out, err)
    } else if *msg_type == String::from_str(STATE_SIGNAL) {
        let err = push_state_signal(payload, &mut out);
        assert(events_view(out@) =~= Seq::empty() + state_signal_events(payload@).0);
        (out, err)
    } else if *msg_type == String::from_str(NOTIFY_SIGNAL) {
        let err = match read_fields(payload) {
            Some(fs) => {
                let items = find_all_len(&fs, 1);
                if items_valid(&items) {
                    None
                } else {
                    Some(SignalError::BadSignal)
                }
            },
            None => Some(SignalError::BadSignal),
        };
        (out, err)
    } else {
        (out, None)
    }
}

} // verus!
