//! The `mc-wrapper` tool: one server run from its jar with a fixed amount of
//! memory, the console format it reads (message types `INFO` and `WARN`, a
//! timestamp that must be a time of day), the messages it recognises, its
//! commands and when it starts the server again.
use vstd::prelude::*;

use std::path::PathBuf;

use crate::parse::{read_stamp, twelve_hour_text, ClockTime, MalformedLine, Reading};
use crate::render::{decimal, push_decimal, push_text};
use crate::specific::{eula_notice, login_header, opt_bytes, position, read_login_header, read_position};
use crate::text::{
    begins_with, bytes, can_cut, contains, contains_pattern, copy_str, cut, cuttable, find_ascii,
    first_byte, lemma_ascii_is_boundary, parse_unsigned, parse_unsigned_bytes, same_bytes, skip,
    starts_with, utf8,
};

verus! {

broadcast use vstd::utf8::encode_utf8_valid_utf8;

/// The types of console messages the tool tells apart.
#[derive(Debug, Clone, Copy, PartialEq, Eq)]
pub enum ConsoleMsgType {
    Info,
    Warn,
    Unknown,
}

/// The type a message type text stands for.
pub open spec fn type_of(raw: Seq<u8>) -> ConsoleMsgType {
    if raw == utf8("INFO") {
        ConsoleMsgType::Info
    } else if raw == utf8("WARN") {
        ConsoleMsgType::Warn
    } else {
        ConsoleMsgType::Unknown
    }
}

/// The message types by their bytes: `INFO` (73, 78, 70, 79) is
/// information and `WARN` (87, 65, 82, 78) a warning; any other text,
/// `ERROR` among them, is a type the tool does not know.
pub proof fn lemma_type_names(raw: Seq<u8>)
    ensures
        type_of(seq![73u8, 78u8, 70u8, 79u8]) == ConsoleMsgType::Info,
        type_of(seq![87u8, 65u8, 82u8, 78u8]) == ConsoleMsgType::Warn,
        raw != seq![73u8, 78u8, 70u8, 79u8] && raw != seq![87u8, 65u8, 82u8, 78u8] ==> type_of(raw)
            == ConsoleMsgType::Unknown,
{
    reveal_strlit("INFO");
    reveal_strlit("WARN");
    vstd::string::is_ascii_spec_bytes("INFO");
    vstd::string::is_ascii_spec_bytes("WARN");
    assert(utf8("INFO") =~= seq![73u8, 78u8, 70u8, 79u8]);
    assert(utf8("WARN") =~= seq![87u8, 65u8, 82u8, 78u8]);
}

impl ConsoleMsgType {
    /// `INFO` and `WARN`; anything else is unknown.
    pub fn parse_from(raw: &str) -> (r: ConsoleMsgType)
        ensures
            r == type_of(utf8(raw)),
            (r == ConsoleMsgType::Info) <==> utf8(raw) == seq![73u8, 78u8, 70u8, 79u8],
            (r == ConsoleMsgType::Warn) <==> utf8(raw) == seq![87u8, 65u8, 82u8, 78u8],
    {
        proof {
            lemma_type_names(utf8(raw));
        }
        let b = raw.as_bytes();
        if same_bytes(b, "INFO".as_bytes()) {
            ConsoleMsgType::Info
        } else if same_bytes(b, "WARN".as_bytes()) {
            ConsoleMsgType::Warn
        } else {
            ConsoleMsgType::Unknown
        }
    }
}

/// A line of console output.
#[derive(Debug)]
pub struct ConsoleMsg {
    pub timestamp: ClockTime,
    pub thread_name: String,
    pub msg_type: ConsoleMsgType,
    pub msg: String,
}

/// The mathematical form of a [`ConsoleMsg`], with texts as UTF-8 bytes.
pub struct ConsoleMsgView {
    pub timestamp: (u8, u8, u8),
    pub thread_name: Seq<u8>,
    pub msg_type: ConsoleMsgType,
    pub msg: Seq<u8>,
}

impl View for ConsoleMsg {
    type V = ConsoleMsgView;

    open spec fn view(&self) -> ConsoleMsgView {
        ConsoleMsgView {
            timestamp: self.timestamp@,
            thread_name: bytes(self.thread_name),
            msg_type: self.msg_type,
            msg: bytes(self.msg),
        }
    }
}

/// `hh:mm:ss`, each part read as a `u32`; the three must form a time of
/// day.
pub open spec fn stamp_of(stamp: Seq<u8>) -> Option<(u8, u8, u8)> {
    if !cuttable(stamp, 2) || !cuttable(stamp, 5) || !cuttable(stamp.subrange(0, 5), 3)
        || !cuttable(stamp, 6) {
        None
    } else {
        match (
            parse_unsigned(stamp.subrange(0, 2), u32::MAX as nat),
            parse_unsigned(stamp.subrange(3, 5), u32::MAX as nat),
            parse_unsigned(skip(stamp, 6), u32::MAX as nat),
        ) {
            (Some(h), Some(m), Some(s)) => if h < 24 && m < 60 && s < 60 {
                Some((h as u8, m as u8, s as u8))
            } else {
                None
            },
            _ => None,
        }
    }
}

/// Reading a line `[hh:mm:ss] [thread/TYPE]: message`, cut as the server's
/// console lines are (see `crate::parse`), except that a timestamp that is
/// not a time of day breaks the layout.
pub open spec fn read_tool_line(raw: Seq<u8>) -> Reading<ConsoleMsgView> {
    match first_byte(raw, 93) {
        None => Reading::Unrecognised,
        Some(p1) => {
            let stamp_part = raw.subrange(0, p1);
            let rest1 = skip(raw, p1);
            if !cuttable(stamp_part, 1) {
                Reading::Malformed
            } else {
                match first_byte(rest1, 47) {
                    None => Reading::Unrecognised,
                    Some(p2) => {
                        let thread_part = rest1.subrange(0, p2);
                        let rest2 = skip(rest1, p2);
                        if !cuttable(thread_part, 3) {
                            Reading::Malformed
                        } else {
                            match first_byte(rest2, 93) {
                                None => Reading::Unrecognised,
                                Some(p3) => {
                                    let type_text = skip(rest2.subrange(0, p3), 1);
                                    let rest3 = skip(rest2, p3);
                                    match stamp_of(skip(stamp_part, 1)) {
                                        None => Reading::Malformed,
                                        Some(t) => if !cuttable(rest3, 3) {
                                            Reading::Malformed
                                        } else {
                                            Reading::Recognised(
                                                ConsoleMsgView {
                                                    timestamp: t,
                                                    thread_name: skip(thread_part, 3),
                                                    msg_type: type_of(type_text),
                                                    msg: skip(rest3, 3),
                                                },
                                            )
                                        },
                                    }
                                },
                            }
                        }
                    },
                }
            }
        },
    }
}

/// Reads `hh:mm:ss` as a time of day.
fn tool_stamp(stamp: &str) -> (r: Option<ClockTime>)
    ensures
        match r {
            Some(t) => stamp_of(utf8(stamp)) == Some(t@),
            None => stamp_of(utf8(stamp)) is None,
        },
{
    match read_stamp(stamp) {
        None => None,
        Some((h, m, s)) => ClockTime::from_hms(h, m, s),
    }
}

/// Writes a time of day with `chrono`'s format `%-I:%M:%S %p`
/// (`NaiveTime::format`).
///
/// `chrono` writes the hour on the 12-hour clock (12 for the hours 0 and 12)
/// without padding, the minute and the second with two digits, and `AM` below
/// hour 12, `PM` from it; this is what the contract claims. The time exists
/// for the hour, minute and second that `requires` admits.
#[verifier::external_body]
fn naive_time_text(hour: u8, minute: u8, second: u8) -> (r: String)
    requires
        hour < 24,
        minute < 60,
        second < 60,
    ensures
        r@ == twelve_hour_text((hour, minute, second)),
{
    chrono::NaiveTime::from_hms_opt(hour as u32, minute as u32, second as u32)
        .unwrap()
        .format("%-I:%M:%S %p")
        .to_string()
}

impl ConsoleMsg {
    /// Reads a line of console output, telling apart lines that are not
    /// console output from lines that break the layout.
    pub fn read_line(raw: &str) -> (r: Result<Option<ConsoleMsg>, MalformedLine>)
        ensures
            match (r, read_tool_line(utf8(raw))) {
                (Err(_), Reading::Malformed) => true,
                (Ok(None), Reading::Unrecognised) => true,
                (Ok(Some(m)), Reading::Recognised(v)) => m@ == v,
                _ => false,
            },
    {
        let p1 = match find_ascii(raw, 93) {
            None => return Ok(None),
            Some(p) => p,
        };
        let (stamp_part, rest1) = cut(raw, p1);
        if !can_cut(stamp_part, 1) {
            return Err(MalformedLine);
        }
        let (_, stamp) = cut(stamp_part, 1);
        let p2 = match find_ascii(rest1, 47) {
            None => return Ok(None),
            Some(p) => p,
        };
        let (thread_part, rest2) = cut(rest1, p2);
        if !can_cut(thread_part, 3) {
            return Err(MalformedLine);
        }
        let (_, thread_name) = cut(thread_part, 3);
        let p3 = match find_ascii(rest2, 93) {
            None => return Ok(None),
            Some(p) => p,
        };
        let (type_part, rest3) = cut(rest2, p3);
        proof {
            assert(utf8(rest2)[0] == 47);
            lemma_ascii_is_boundary(utf8(rest2), 0);
            assert(p3 >= 1);
            assert(utf8(type_part)[0] == 47);
            lemma_ascii_is_boundary(utf8(type_part), 0);
        }
        let (_, type_text) = cut(type_part, 1);
        let timestamp = match tool_stamp(stamp) {
            None => return Err(MalformedLine),
            Some(t) => t,
        };
        if !can_cut(rest3, 3) {
            return Err(MalformedLine);
        }
        let (_, msg) = cut(rest3, 3);
        Ok(
            Some(
                ConsoleMsg {
                    timestamp,
                    thread_name: copy_str(thread_name),
                    msg_type: ConsoleMsgType::parse_from(type_text),
                    msg: copy_str(msg),
                },
            ),
        )
    }

    /// The message as the tool prints it: `[h:mm:ss AM] [Type]: message`.
    pub fn to_string(&self) -> (r: String)
        ensures
            r@ == seq!['['] + twelve_hour_text(self.timestamp@) + "] ["@ + match self.msg_type {
                ConsoleMsgType::Info => "Info"@,
                ConsoleMsgType::Warn => "Warn"@,
                ConsoleMsgType::Unknown => "Unknown"@,
            } + "]: "@ + self.msg@,
    {
        let mut out = String::new();
        out.push('[');
        let time = naive_time_text(
            self.timestamp.hour(),
            self.timestamp.minute(),
            self.timestamp.second(),
        );
        push_text(&mut out, time.as_str());
        push_text(&mut out, "] [");
        match self.msg_type {
            ConsoleMsgType::Info => push_text(&mut out, "Info"),
            ConsoleMsgType::Warn => push_text(&mut out, "Warn"),
            ConsoleMsgType::Unknown => push_text(&mut out, "Unknown"),
        }
        push_text(&mut out, "]: ");
        push_text(&mut out, self.msg.as_str());
        proof {
            assert(out@ =~= seq!['['] + twelve_hour_text(self.timestamp@) + "] ["@ + match self.msg_type {
                ConsoleMsgType::Info => "Info"@,
                ConsoleMsgType::Warn => "Warn"@,
                ConsoleMsgType::Unknown => "Unknown"@,
            } + "]: "@ + self.msg@);
        }
        out
    }
}

/* The messages the tool recognises */

/// More informative forms of the console messages the tool knows; each
/// carries the console message it was read from.
#[derive(Debug)]
pub enum ConsoleMsgSpecific {
    GenericMsg(ConsoleMsg),
    MustAcceptEula(ConsoleMsg),
    PlayerMsg { generic_msg: ConsoleMsg, player: String, player_msg: String },
    PlayerLogin {
        generic_msg: ConsoleMsg,
        player: String,
        ip: String,
        entity_id: u32,
        /// The x, y and z coordinates as printed
        coords: (String, String, String),
        /// The world, where the server names it (Spigot does)
        world: Option<String>,
    },
    PlayerAuth { generic_msg: ConsoleMsg, player: String, uuid: String },
    SpawnPrepareProgress { generic_msg: ConsoleMsg, progress: u8 },
}

/// What a console message says, beyond being a console message.
pub enum KindView {
    Generic,
    MustAcceptEula,
    PlayerMsg { player: Seq<u8>, msg: Seq<u8> },
    PlayerLogin {
        player: Seq<u8>,
        ip: Seq<u8>,
        entity_id: nat,
        coords: (Seq<u8>, Seq<u8>, Seq<u8>),
        world: Option<Seq<u8>>,
    },
    PlayerAuth { player: Seq<u8>, uuid: Seq<u8> },
    SpawnPrepareProgress { progress: nat },
}

impl View for ConsoleMsgSpecific {
    type V = (ConsoleMsgView, KindView);

    open spec fn view(&self) -> (ConsoleMsgView, KindView) {
        match self {
            ConsoleMsgSpecific::GenericMsg(g) => (g@, KindView::Generic),
            ConsoleMsgSpecific::MustAcceptEula(g) => (g@, KindView::MustAcceptEula),
            ConsoleMsgSpecific::PlayerMsg { generic_msg, player, player_msg } => (
                generic_msg@,
                KindView::PlayerMsg { player: bytes(*player), msg: bytes(*player_msg) },
            ),
            ConsoleMsgSpecific::PlayerLogin { generic_msg, player, ip, entity_id, coords, world } => (
                generic_msg@,
                KindView::PlayerLogin {
                    player: bytes(*player),
                    ip: bytes(*ip),
                    entity_id: *entity_id as nat,
                    coords: (bytes(coords.0), bytes(coords.1), bytes(coords.2)),
                    world: opt_bytes(*world),
                },
            ),
            ConsoleMsgSpecific::PlayerAuth { generic_msg, player, uuid } => (
                generic_msg@,
                KindView::PlayerAuth { player: bytes(*player), uuid: bytes(*uuid) },
            ),
            ConsoleMsgSpecific::SpawnPrepareProgress { generic_msg, progress } => (
                generic_msg@,
                KindView::SpawnPrepareProgress { progress: *progress as nat },
            ),
        }
    }
}

/// `UUID of player NAME is UUID`.
pub open spec fn auth_kind(m: Seq<u8>) -> Reading<KindView> {
    if !cuttable(m, 15) {
        Reading::Malformed
    } else {
        let ms = skip(m, 15);
        match first_byte(ms, 32) {
            None => Reading::Malformed,
            Some(p) => {
                let remain = skip(ms, p);
                if !cuttable(remain, 4) {
                    Reading::Malformed
                } else {
                    Reading::Recognised(
                        KindView::PlayerAuth { player: ms.subrange(0, p), uuid: skip(remain, 4) },
                    )
                }
            },
        }
    }
}

/// `UUID of player NAME is UUID`, with a name that holds no space, reads as
/// that player authenticating with the whole of the uuid text.
pub proof fn lemma_auth_fields(name: Seq<u8>, uuid: Seq<u8>)
    requires
        vstd::utf8::valid_utf8(name),
        vstd::utf8::valid_utf8(uuid),
        forall|i: int| 0 <= i < name.len() ==> name[i] != 32,
    ensures
        auth_kind(utf8("UUID of player ") + name + utf8(" is ") + uuid) == Reading::Recognised(
            KindView::PlayerAuth { player: name, uuid },
        ),
{
    reveal_strlit("UUID of player ");
    reveal_strlit(" is ");
    vstd::string::is_ascii_spec_bytes("UUID of player ");
    vstd::string::is_ascii_spec_bytes(" is ");
    let pre = utf8("UUID of player ");
    let is = utf8(" is ");
    assert(pre.len() == 15 && pre[14] == 32u8);
    assert(is =~= seq![32u8, 105u8, 115u8, 32u8]);
    let m = pre + name + is + uuid;
    vstd::utf8::valid_utf8_concat(pre, name);
    vstd::utf8::valid_utf8_concat(pre + name, is);
    vstd::utf8::valid_utf8_concat(pre + name + is, uuid);
    assert(m[14] == 32u8);
    lemma_ascii_is_boundary(m, 14);
    let ms = skip(m, 15);
    assert(ms =~= name + is + uuid);
    let n = name.len() as int;
    assert(ms[n] == 32u8);
    assert(forall|j: int| 0 <= j < n ==> ms[j] == name[j]);
    assert(crate::text::is_first_byte(ms, 32, n));
    crate::text::lemma_first_byte_unique(ms, 32, n);
    let remain = skip(ms, n);
    assert(remain =~= is + uuid);
    vstd::utf8::valid_utf8_concat(is, uuid);
    lemma_ascii_is_boundary(remain, 3);
    assert(skip(remain, 4) =~= uuid);
    assert(ms.subrange(0, n) =~= name);
}

/// `<NAME> MESSAGE`: cut at the first `>`; without one the message is
/// nothing specific.
pub open spec fn chat_kind(m: Seq<u8>) -> Reading<KindView> {
    match first_byte(m, 62) {
        None => Reading::Recognised(KindView::Generic),
        Some(p) => {
            let name = m.subrange(0, p);
            let remain = skip(m, p);
            if !cuttable(name, 1) || !cuttable(remain, 2) {
                Reading::Malformed
            } else {
                Reading::Recognised(
                    KindView::PlayerMsg { player: skip(name, 1), msg: skip(remain, 2) },
                )
            }
        },
    }
}

/// `<NAME> TEXT`, with a name that holds no `>`, reads as that player saying
/// the whole of `TEXT`, whatever it holds (`>` too).
pub proof fn lemma_chat_text(name: Seq<u8>, text: Seq<u8>)
    requires
        vstd::utf8::valid_utf8(name),
        vstd::utf8::valid_utf8(text),
        forall|i: int| 0 <= i < name.len() ==> name[i] != 62,
    ensures
        chat_kind(utf8("<") + name + utf8("> ") + text) == Reading::Recognised(
            KindView::PlayerMsg { player: name, msg: text },
        ),
{
    reveal_strlit("<");
    reveal_strlit("> ");
    vstd::string::is_ascii_spec_bytes("<");
    vstd::string::is_ascii_spec_bytes("> ");
    let open = utf8("<");
    let close = utf8("> ");
    assert(open =~= seq![60u8]);
    assert(close =~= seq![62u8, 32u8]);
    let m = open + name + close + text;
    let p: int = name.len() as int + 1;
    assert(m[p] == 62u8);
    assert(m[0] == 60u8);
    assert(forall|j: int| 1 <= j < p ==> m[j] == name[j - 1]);
    assert(crate::text::is_first_byte(m, 62, p));
    crate::text::lemma_first_byte_unique(m, 62, p);
    let name_part = m.subrange(0, p);
    let remain = skip(m, p);
    assert(name_part =~= open + name);
    assert(remain =~= close + text);
    vstd::utf8::valid_utf8_concat(open, name);
    vstd::utf8::valid_utf8_concat(close, text);
    lemma_ascii_is_boundary(name_part, 0);
    lemma_ascii_is_boundary(remain, 1);
    assert(skip(name_part, 1) =~= name);
    assert(skip(remain, 2) =~= text);
}

/// `NAME[/IP] logged in with entity id ID at ([WORLD]X, Y, Z)`.
pub open spec fn login_kind(m: Seq<u8>) -> Reading<KindView> {
    match read_login_header(m) {
        None => Reading::Malformed,
        Some((player, ip, id, r4)) => {
            let inner = r4.subrange(0, r4.len() - 1);
            if !cuttable(r4, r4.len() - 1) || !cuttable(inner, 5) {
                Reading::Malformed
            } else {
                match read_position(skip(inner, 5)) {
                    None => Reading::Malformed,
                    Some((world, coords)) => Reading::Recognised(
                        KindView::PlayerLogin { player, ip, entity_id: id, coords, world },
                    ),
                }
            }
        },
    }
}

/// `Preparing spawn area: N%`.
pub open spec fn progress_kind(m: Seq<u8>) -> Reading<KindView> {
    match first_byte(m, 58) {
        None => Reading::Malformed,
        Some(pc) => match crate::specific::number_between(m, pc + 2, m.len() - 1, 255) {
            None => Reading::Malformed,
            Some(v) => Reading::Recognised(KindView::SpawnPrepareProgress { progress: v }),
        },
    }
}

/// What a console message says: authentication (by the thread name), chat
/// (an information message from the chat thread, or one starting with `<`
/// from the server thread), the EULA notice, a login, spawn preparation
/// progress, or nothing specific; tried in this order.
pub open spec fn kind_of(msg: ConsoleMsgView) -> Reading<KindView> {
    let info = msg.msg_type == ConsoleMsgType::Info;
    let thread = msg.thread_name;
    let m = msg.msg;
    if contains(thread, utf8("User Authenticator")) {
        auth_kind(m)
    } else if info && (starts_with(thread, utf8("Async Chat Thread")) || (starts_with(m, utf8("<"))
        && thread == utf8("Server thread"))) {
        chat_kind(m)
    } else if m == eula_notice() && info {
        Reading::Recognised(KindView::MustAcceptEula)
    } else if contains(m, utf8("logged in with entity id")) && info {
        login_kind(m)
    } else if contains(m, utf8("Preparing spawn area: ")) && info {
        progress_kind(m)
    } else {
        Reading::Recognised(KindView::Generic)
    }
}

/// Reading a line of console output into what it says.
pub open spec fn read_specific_line(raw: Seq<u8>) -> Reading<(ConsoleMsgView, KindView)> {
    match read_tool_line(raw) {
        Reading::Unrecognised => Reading::Unrecognised,
        Reading::Malformed => Reading::Malformed,
        Reading::Recognised(v) => match kind_of(v) {
            Reading::Recognised(k) => Reading::Recognised((v, k)),
            Reading::Unrecognised => Reading::Unrecognised,
            Reading::Malformed => Reading::Malformed,
        },
    }
}

/// The outcome a reader's result stands for.
pub open spec fn specific_reading(r: Result<Option<ConsoleMsgSpecific>, MalformedLine>) -> Reading<
    (ConsoleMsgView, KindView),
> {
    match r {
        Err(_) => Reading::Malformed,
        Ok(None) => Reading::Unrecognised,
        Ok(Some(v)) => Reading::Recognised(v@),
    }
}

/// Reads `UUID of player NAME is UUID`.
fn auth_msg(g: ConsoleMsg) -> (r: Result<Option<ConsoleMsgSpecific>, MalformedLine>)
    ensures
        match (r, auth_kind(g@.msg)) {
            (Err(_), Reading::Malformed) => true,
            (Ok(Some(s)), Reading::Recognised(k)) => s@ == (g@, k),
            _ => false,
        },
{
    let m = g.msg.as_str();
    if !can_cut(m, 15) {
        return Err(MalformedLine);
    }
    let (_, ms) = cut(m, 15);
    let p = match find_ascii(ms, 32) {
        None => return Err(MalformedLine),
        Some(p) => p,
    };
    let (player, remain) = cut(ms, p);
    if !can_cut(remain, 4) {
        return Err(MalformedLine);
    }
    let (_, uuid) = cut(remain, 4);
    let player = copy_str(player);
    let uuid = copy_str(uuid);
    Ok(Some(ConsoleMsgSpecific::PlayerAuth { generic_msg: g, player, uuid }))
}

/// Reads `<NAME> MESSAGE`.
fn chat_msg(g: ConsoleMsg) -> (r: Result<Option<ConsoleMsgSpecific>, MalformedLine>)
    ensures
        match (r, chat_kind(g@.msg)) {
            (Err(_), Reading::Malformed) => true,
            (Ok(Some(s)), Reading::Recognised(k)) => s@ == (g@, k),
            _ => false,
        },
{
    let m = g.msg.as_str();
    let p = match find_ascii(m, 62) {
        None => return Ok(Some(ConsoleMsgSpecific::GenericMsg(g))),
        Some(p) => p,
    };
    let (name, remain) = cut(m, p);
    if !can_cut(name, 1) || !can_cut(remain, 2) {
        return Err(MalformedLine);
    }
    let (_, player) = cut(name, 1);
    let (_, player_msg) = cut(remain, 2);
    let player = copy_str(player);
    let player_msg = copy_str(player_msg);
    Ok(Some(ConsoleMsgSpecific::PlayerMsg { generic_msg: g, player, player_msg }))
}

/// Reads `NAME[/IP] logged in with entity id ID at ([WORLD]X, Y, Z)`.
#[verifier::rlimit(60)]
fn login_msg(g: ConsoleMsg) -> (r: Result<Option<ConsoleMsgSpecific>, MalformedLine>)
    ensures
        match (r, login_kind(g@.msg)) {
            (Err(_), Reading::Malformed) => true,
            (Ok(Some(s)), Reading::Recognised(k)) => s@ == (g@, k),
            _ => false,
        },
{
    let m = g.msg.as_str();
    let (player, ip, entity_id, r4) = match login_header(m) {
        None => return Err(MalformedLine),
        Some(h) => h,
    };
    let n4 = r4.as_bytes().len();
    proof {
        assert(n4 >= 1);
    }
    if !can_cut(r4, n4 - 1) {
        return Err(MalformedLine);
    }
    let (inner, _) = cut(r4, n4 - 1);
    if !can_cut(inner, 5) {
        return Err(MalformedLine);
    }
    let (_, r5) = cut(inner, 5);
    match position(r5) {
        None => Err(MalformedLine),
        Some((world, coords)) => Ok(
            Some(
                ConsoleMsgSpecific::PlayerLogin { generic_msg: g, player, ip, entity_id, coords, world },
            ),
        ),
    }
}

/// Reads `Preparing spawn area: N%`.
fn progress_msg(g: ConsoleMsg) -> (r: Result<Option<ConsoleMsgSpecific>, MalformedLine>)
    ensures
        match (r, progress_kind(g@.msg)) {
            (Err(_), Reading::Malformed) => true,
            (Ok(Some(s)), Reading::Recognised(k)) => s@ == (g@, k),
            _ => false,
        },
{
    let m = g.msg.as_str();
    let pc = match find_ascii(m, 58) {
        None => return Err(MalformedLine),
        Some(p) => p,
    };
    let n = m.as_bytes().len();
    let end = n - 1;
    if pc >= end || end - pc < 2 {
        proof {
            assert(!cuttable(utf8(m).subrange(0, end as int), pc + 2));
        }
        return Err(MalformedLine);
    }
    if !can_cut(m, end) {
        return Err(MalformedLine);
    }
    let (head, _) = cut(m, end);
    if !can_cut(head, pc + 2) {
        return Err(MalformedLine);
    }
    let (_, text) = cut(head, pc + 2);
    proof {
        assert(utf8(text) =~= utf8(m).subrange(pc + 2, end as int));
    }
    match parse_unsigned_bytes(text.as_bytes(), 255) {
        None => Err(MalformedLine),
        Some(v) => Ok(
            Some(ConsoleMsgSpecific::SpawnPrepareProgress { generic_msg: g, progress: v as u8 }),
        ),
    }
}

impl ConsoleMsgSpecific {
    /// Reads a line of console output into what it says, telling apart lines
    /// that are not console output from lines that break the layout.
    pub fn read(raw: &str) -> (r: Result<Option<ConsoleMsgSpecific>, MalformedLine>)
        ensures
            specific_reading(r) == read_specific_line(utf8(raw)),
    {
        let g = match ConsoleMsg::read_line(raw) {
            Err(e) => return Err(e),
            Ok(None) => return Ok(None),
            Ok(Some(g)) => g,
        };
        let tb = g.thread_name.as_str().as_bytes();
        let mb = g.msg.as_str().as_bytes();
        let info = match g.msg_type {
            ConsoleMsgType::Info => true,
            _ => false,
        };
        if contains_pattern(tb, "User Authenticator".as_bytes()) {
            auth_msg(g)
        } else if info && (begins_with(tb, "Async Chat Thread".as_bytes()) || (begins_with(
            mb,
            "<".as_bytes(),
        ) && same_bytes(tb, "Server thread".as_bytes()))) {
            chat_msg(g)
        } else if same_bytes(
            mb,
            "You need to agree to the EULA in order to run the server. Go to eula.txt for more info.".as_bytes(),
        ) && info {
            Ok(Some(ConsoleMsgSpecific::MustAcceptEula(g)))
        } else if contains_pattern(mb, "logged in with entity id".as_bytes()) && info {
            login_msg(g)
        } else if contains_pattern(mb, "Preparing spawn area: ".as_bytes()) && info {
            progress_msg(g)
        } else {
            Ok(Some(ConsoleMsgSpecific::GenericMsg(g)))
        }
    }

    /// Constructs the form that a line of console output takes.
    pub fn try_parse_from(raw: &str) -> (r: Option<ConsoleMsgSpecific>)
        requires
            !(read_specific_line(utf8(raw)) is Malformed),
        ensures
            match read_specific_line(utf8(raw)) {
                Reading::Recognised(v) => r matches Some(s) && s@ == v,
                _ => r is None,
            },
    {
        match ConsoleMsgSpecific::read(raw) {
            Ok(r) => r,
            Err(_) => None,
        }
    }
}

/* Running the server */

/// Why the server stopped, where the tool can tell.
#[derive(Debug, Clone, Copy, PartialEq, Eq)]
pub enum ShutdownReason {
    /// The EULA has not been agreed to.
    EulaNotAccepted,
}

/// The line reads as the server's notice that the EULA must be agreed to.
pub open spec fn is_eula_line(line: Seq<u8>) -> bool {
    read_specific_line(line) matches Reading::Recognised((_, KindView::MustAcceptEula))
}

/// The reason the server will stop, after one more line of its output.
pub open spec fn reason_after_line(reason: Option<ShutdownReason>, line: Seq<u8>) -> Option<
    ShutdownReason,
> {
    if is_eula_line(line) {
        Some(ShutdownReason::EulaNotAccepted)
    } else {
        reason
    }
}

/// The reason the server will stop, after the lines of its output in order.
pub open spec fn reason_after_lines(reason: Option<ShutdownReason>, lines: Seq<Seq<u8>>) -> Option<
    ShutdownReason,
>
    decreases lines.len(),
{
    if lines.len() == 0 {
        reason
    } else {
        reason_after_line(reason_after_lines(reason, lines.drop_last()), lines.last())
    }
}

/// Reads a line the server printed on stdout; a notice that the EULA must be
/// agreed to sets the reason the server will stop.
pub fn read_output_line(line: &str, reason: &mut Option<ShutdownReason>) -> (r: Result<
    Option<ConsoleMsgSpecific>,
    MalformedLine,
>)
    ensures
        specific_reading(r) == read_specific_line(utf8(line)),
        *final(reason) == reason_after_line(*old(reason), utf8(line)),
{
    let r = ConsoleMsgSpecific::read(line);
    if let Ok(Some(ConsoleMsgSpecific::MustAcceptEula(_))) = &r {
        *reason = Some(ShutdownReason::EulaNotAccepted);
    }
    r
}

/// Over a whole run that starts with no reason, the server stops for want of
/// the EULA exactly when one of the lines it printed is the notice that the
/// EULA must be agreed to; otherwise no reason is known.
pub proof fn lemma_run_reason(lines: Seq<Seq<u8>>)
    ensures
        reason_after_lines(None, lines) == if exists|i: int|
            0 <= i < lines.len() && #[trigger] is_eula_line(lines[i]) {
            Some(ShutdownReason::EulaNotAccepted)
        } else {
            None
        },
    decreases lines.len(),
{
    if lines.len() > 0 {
        let init = lines.drop_last();
        lemma_run_reason(init);
        if exists|i: int| 0 <= i < init.len() && #[trigger] is_eula_line(init[i]) {
            let i = choose|i: int| 0 <= i < init.len() && #[trigger] is_eula_line(init[i]);
            assert(lines[i] == init[i]);
        }
        if exists|i: int| 0 <= i < lines.len() && #[trigger] is_eula_line(lines[i]) {
            let i = choose|i: int| 0 <= i < lines.len() && #[trigger] is_eula_line(lines[i]);
            if i < init.len() {
                assert(init[i] == lines[i]);
            }
        }
    }
}

/// What the server is run with.
#[derive(Debug)]
pub struct McServerConfig {
    /// The path to the server jar
    pub server_path: PathBuf,
    /// The memory for the server, in megabytes
    pub memory: u16,
}

/// `cd <folder> && exec java -Xms<memory>M -Xmx<memory>M -jar <jar> nogui`
pub open spec fn launch_line_text(folder: Seq<char>, memory: u16, jar: Seq<char>) -> Seq<char> {
    "cd "@ + folder + " && exec java -Xms"@ + decimal(memory as nat) + "M -Xmx"@ + decimal(
        memory as nat,
    ) + "M -jar "@ + jar + " nogui"@
}

impl McServerConfig {
    /// The arguments of `sh` that run the server: change into the jar's
    /// folder and run java with the memory as both the least and the most
    /// heap, without a GUI.
    pub fn launch_args(&self, folder: &str, jar: &str) -> (r: Vec<String>)
        ensures
            r@.map_values(|a: String| a@) == seq![
                "-c"@,
                launch_line_text(folder@, self.memory, jar@),
            ],
    {
        let mut line = String::new();
        push_text(&mut line, "cd ");
        push_text(&mut line, folder);
        push_text(&mut line, " && exec java -Xms");
        push_decimal(&mut line, self.memory as u64);
        push_text(&mut line, "M -Xmx");
        push_decimal(&mut line, self.memory as u64);
        push_text(&mut line, "M -jar ");
        push_text(&mut line, jar);
        push_text(&mut line, " nogui");
        let mut args: Vec<String> = Vec::new();
        args.push("-c".to_owned());
        args.push(line);
        proof {
            assert(args@.map_values(|a: String| a@) =~= seq![
                "-c"@,
                launch_line_text(folder@, self.memory, jar@),
            ]);
        }
        args
    }
}

/// The commands the tool's server takes.
#[derive(Debug)]
pub enum ServerCommand {
    /// Sends a message (raw chat JSON) to every player.
    TellRaw(String),
    /// Writes a command, with a newline after it, to the server's stdin.
    WriteCommandToStdin(String),
    /// Writes the text as it is to the server's stdin.
    WriteToStdin(String),
    /// Starts the server.
    StartServer,
    /// Stops the server.
    StopServer,
    /// Stops the server and stops listening for commands.
    EndInstance,
}

/// What the tool does on a command.
#[derive(Debug)]
pub enum ToolAction {
    /// Writes the text to the server's stdin.
    Write(String),
    /// Starts the server.
    Start,
    /// Writes the stop that it holds to the server's stdin, where there is
    /// one, then stops listening.
    EndInstance(Option<String>),
    /// Nothing to do.
    Ignore,
}

/// Decides what to do on a command, given whether the server runs: while it
/// runs, chat goes out as `tellraw @a <json>`, commands get a newline and a
/// stop writes `stop`; writes to a server that does not run, and a start of
/// one that does, are ignored. Ending the instance stops the server as a stop
/// would, writing `stop` where it runs, and then stops listening.
pub fn on_command(cmd: ServerCommand, running: bool) -> (r: ToolAction)
    ensures
        match cmd {
            ServerCommand::TellRaw(json) => if running {
                r matches ToolAction::Write(t) && t@ == "tellraw @a "@ + json@ + "\n"@
            } else {
                r is Ignore
            },
            ServerCommand::WriteCommandToStdin(text) => if running {
                r matches ToolAction::Write(t) && t@ == text@ + "\n"@
            } else {
                r is Ignore
            },
            ServerCommand::WriteToStdin(text) => if running {
                r matches ToolAction::Write(t) && t@ == text@
            } else {
                r is Ignore
            },
            ServerCommand::StartServer => if running {
                r is Ignore
            } else {
                r is Start
            },
            ServerCommand::StopServer => if running {
                r matches ToolAction::Write(t) && t@ == "stop\n"@
            } else {
                r is Ignore
            },
            ServerCommand::EndInstance => if running {
                r matches ToolAction::EndInstance(Some(t)) && t@ == "stop\n"@
            } else {
                r matches ToolAction::EndInstance(None)
            },
        },
{
    match cmd {
        ServerCommand::TellRaw(json) => {
            if !running {
                return ToolAction::Ignore;
            }
            let mut t = String::new();
            push_text(&mut t, "tellraw @a ");
            push_text(&mut t, json.as_str());
            push_text(&mut t, "\n");
            proof {
                assert(t@ =~= "tellraw @a "@ + json@ + "\n"@);
            }
            ToolAction::Write(t)
        },
        ServerCommand::WriteCommandToStdin(text) => {
            if !running {
                return ToolAction::Ignore;
            }
            let mut t = text;
            push_text(&mut t, "\n");
            ToolAction::Write(t)
        },
        ServerCommand::WriteToStdin(text) => {
            if !running {
                return ToolAction::Ignore;
            }
            ToolAction::Write(text)
        },
        ServerCommand::StartServer => {
            if running {
                ToolAction::Ignore
            } else {
                ToolAction::Start
            }
        },
        ServerCommand::StopServer => {
            if !running {
                return ToolAction::Ignore;
            }
            ToolAction::Write("stop\n".to_owned())
        },
        ServerCommand::EndInstance => {
            if !running {
                return ToolAction::EndInstance(None);
            }
            ToolAction::EndInstance(Some("stop\n".to_owned()))
        },
    }
}

/// What the tool does once a run of the server is over.
#[derive(Debug, Clone, Copy, PartialEq, Eq)]
pub enum RunOutcome {
    /// The server exited successfully: the tool is done.
    Exit,
    /// The server failed again as it did the last time, within a minute of
    /// starting: the error is taken to be fatal.
    GiveUp,
    /// Start the server again.
    Restart,
}

/// Whether two runs printed the same lines on stderr.
fn same_lines(a: &Vec<String>, b: &Vec<String>) -> (r: bool)
    ensures
        r == (a@.map_values(|l: String| l@) == b@.map_values(|l: String| l@)),
{
    if a.len() != b.len() {
        proof {
            assert(a@.map_values(|l: String| l@).len() != b@.map_values(|l: String| l@).len());
        }
        return false;
    }
    let mut i: usize = 0;
    while i < a.len()
        invariant
            0 <= i <= a@.len(),
            a@.len() == b@.len(),
            forall|k: int| 0 <= k < i ==> a@[k]@ == b@[k]@,
        decreases a@.len() - i,
    {
        if a[i] != b[i] {
            proof {
                assert(a@.map_values(|l: String| l@)[i as int] != b@.map_values(|l: String| l@)[i as int]);
            }
            return false;
        }
        i = i + 1;
    }
    proof {
        assert(a@.map_values(|l: String| l@) =~= b@.map_values(|l: String| l@));
    }
    true
}

/// Decides what follows a run of the server that ended with an exit: done
/// when it succeeded; when it failed with the same stderr as the failure
/// before and within a minute of starting, the error is taken to be fatal;
/// else the server is started again.
pub fn after_run(success: bool, stderr: &Vec<String>, prev_stderr: &Vec<String>, seconds_up: u64) -> (r:
    RunOutcome)
    ensures
        r == (if success {
            RunOutcome::Exit
        } else if stderr@.map_values(|l: String| l@) == prev_stderr@.map_values(|l: String| l@)
            && seconds_up < 60 {
            RunOutcome::GiveUp
        } else {
            RunOutcome::Restart
        }),
{
    if success {
        RunOutcome::Exit
    } else if same_lines(stderr, prev_stderr) && seconds_up < 60 {
        RunOutcome::GiveUp
    } else {
        RunOutcome::Restart
    }
}

/// A chat message from Discord as the server's chat shows it: `author: text`.
pub fn discord_chat_line(author: &str, content: &str) -> (r: String)
    ensures
        r@ == author@ + ": "@ + content@,
{
    let mut out = String::new();
    push_text(&mut out, author);
    push_text(&mut out, ": ");
    push_text(&mut out, content);
    proof {
        assert(out@ =~= author@ + ": "@ + content@);
    }
    out
}

} // verus!
