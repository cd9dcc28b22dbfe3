//! Recognising the specific console messages that the wrapper reacts to.
use vstd::prelude::*;
use vstd::string::StringSliceAdditionalSpecFns;

use crate::parse::{
    bytes, reading_of, ConsoleMsg, ConsoleMsgType, ConsoleMsgView, MalformedLine, MsgTypeView,
    Reading,
};
use crate::text::{
    begins_with, can_cut, contains, contains_pattern, copy_str, cut, cuttable, find_ascii,
    find_pattern, first_byte, first_occurrence, float_text, is_float_text, parse_unsigned,
    parse_unsigned_bytes, same_bytes, skip, starts_with, utf8,
};

verus! {

broadcast use vstd::utf8::encode_utf8_valid_utf8;

/// More informative representations for specific, supported console messages.
///
/// Numbers that the server prints with a fractional part (coordinates and the
/// loading time) are given as the text the server printed, which reads as an
/// `f32`.
#[derive(Debug, PartialEq)]
pub enum ConsoleMsgSpecific {
    MustAcceptEula,
    PlayerMsg { name: String, msg: String },
    PlayerLogin {
        name: String,
        ip: String,
        entity_id: u32,
        /// The x, y and z coordinates as printed
        coords: (String, String, String),
        /// Present on Spigot servers
        world: Option<String>,
    },
    PlayerAuth { name: String, uuid: String },
    PlayerLogout { name: String },
    PlayerLostConnection { name: String, reason: String },
    SpawnPrepareProgress { progress: u8 },
    SpawnPrepareFinish { time_elapsed_ms: u64 },
    /// The server is finished loading and is ready for people to connect
    FinishedLoading {
        /// The number of seconds the server took to load, as printed
        time_elapsed_s: String,
    },
}

/// The mathematical form of a [`ConsoleMsgSpecific`], with texts as UTF-8 bytes.
pub enum SpecificView {
    MustAcceptEula,
    PlayerMsg { name: Seq<u8>, msg: Seq<u8> },
    PlayerLogin {
        name: Seq<u8>,
        ip: Seq<u8>,
        entity_id: nat,
        coords: (Seq<u8>, Seq<u8>, Seq<u8>),
        world: Option<Seq<u8>>,
    },
    PlayerAuth { name: Seq<u8>, uuid: Seq<u8> },
    PlayerLogout { name: Seq<u8> },
    PlayerLostConnection { name: Seq<u8>, reason: Seq<u8> },
    SpawnPrepareProgress { progress: nat },
    SpawnPrepareFinish { time_elapsed_ms: nat },
    FinishedLoading { time_elapsed_s: Seq<u8> },
}

pub open spec fn opt_bytes(s: Option<String>) -> Option<Seq<u8>> {
    match s {
        Some(t) => Some(bytes(t)),
        None => None,
    }
}

impl View for ConsoleMsgSpecific {
    type V = SpecificView;

    open spec fn view(&self) -> SpecificView {
        match self {
            ConsoleMsgSpecific::MustAcceptEula => SpecificView::MustAcceptEula,
            ConsoleMsgSpecific::PlayerMsg { name, msg } => SpecificView::PlayerMsg {
                name: bytes(*name),
                msg: bytes(*msg),
            },
            ConsoleMsgSpecific::PlayerLogin { name, ip, entity_id, coords, world } =>
                SpecificView::PlayerLogin {
                name: bytes(*name),
                ip: bytes(*ip),
                entity_id: *entity_id as nat,
                coords: (bytes(coords.0), bytes(coords.1), bytes(coords.2)),
                world: opt_bytes(*world),
            },
            ConsoleMsgSpecific::PlayerAuth { name, uuid } => SpecificView::PlayerAuth {
                name: bytes(*name),
                uuid: bytes(*uuid),
            },
            ConsoleMsgSpecific::PlayerLogout { name } => SpecificView::PlayerLogout {
                name: bytes(*name),
            },
            ConsoleMsgSpecific::PlayerLostConnection { name, reason } =>
                SpecificView::PlayerLostConnection { name: bytes(*name), reason: bytes(*reason) },
            ConsoleMsgSpecific::SpawnPrepareProgress { progress } =>
                SpecificView::SpawnPrepareProgress { progress: *progress as nat },
            ConsoleMsgSpecific::SpawnPrepareFinish { time_elapsed_ms } =>
                SpecificView::SpawnPrepareFinish { time_elapsed_ms: *time_elapsed_ms as nat },
            ConsoleMsgSpecific::FinishedLoading { time_elapsed_s } =>
                SpecificView::FinishedLoading { time_elapsed_s: bytes(*time_elapsed_s) },
        }
    }
}

/// `UUID of player NAME is UUID`: the name starts after the first fifteen
/// bytes and ends at the next space; the uuid starts four bytes after that
/// space.
pub open spec fn read_player_auth(m: Seq<u8>) -> Reading<SpecificView> {
    if !cuttable(m, 15) {
        Reading::Malformed
    } else {
        let ms = skip(m, 15);
        match first_byte(ms, 32) {
            None => Reading::Malformed,
            Some(p) => {
                let remain = skip(ms, p);
                if !cuttable(remain, 4) {
                    Reading::Malformed
                } else {
                    Reading::Recognised(
                        SpecificView::PlayerAuth { name: ms.subrange(0, p), uuid: skip(remain, 4) },
                    )
                }
            },
        }
    }
}

/// `<NAME> MESSAGE`, or `[Not Secure] <NAME> MESSAGE`: cut at the first `>`;
/// a message without one is not a chat message.
pub open spec fn read_player_msg(m: Seq<u8>) -> Reading<SpecificView> {
    match first_byte(m, 62) {
        None => Reading::Unrecognised,
        Some(p) => {
            let name0 = m.subrange(0, p);
            let remain = skip(m, p);
            let marked = name0.len() > 0 && name0[0] == 91;
            let name1 = if marked { skip(name0, 13) } else { name0 };
            if (marked && !cuttable(name0, 13)) || !cuttable(name1, 1) || !cuttable(remain, 2) {
                Reading::Malformed
            } else {
                Reading::Recognised(
                    SpecificView::PlayerMsg { name: skip(name1, 1), msg: skip(remain, 2) },
                )
            }
        },
    }
}

/// The optional `[WORLD]` in front of the coordinates, and what follows it.
pub open spec fn read_world(r: Seq<u8>) -> Option<(Option<Seq<u8>>, Seq<u8>)> {
    if r.len() > 0 && r[0] == 91 {
        match first_byte(r, 93) {
            None => None,
            Some(p) => Some((Some(skip(r.subrange(0, p), 1)), skip(r, p + 1))),
        }
    } else {
        Some((None, r))
    }
}

/// The `X, Y, Z` of a login message: cut at the first `,` and at the first
/// `,` after it, each followed by a space; each must read as an `f32`.
pub open spec fn read_coords(r6: Seq<u8>) -> Option<(Seq<u8>, Seq<u8>, Seq<u8>)> {
    match first_byte(r6, 44) {
        None => None,
        Some(px) => {
            let r7 = skip(r6, px);
            let r8 = skip(r7, 2);
            if !cuttable(r7, 2) {
                None
            } else {
                match first_byte(r8, 44) {
                    None => None,
                    Some(py) => {
                        let r9 = skip(r8, py);
                        let (x, y, z) = (r6.subrange(0, px), r8.subrange(0, py), skip(r9, 2));
                        if !cuttable(r9, 2) || !float_text(x) || !float_text(y) || !float_text(z) {
                            None
                        } else {
                            Some((x, y, z))
                        }
                    },
                }
            }
        },
    }
}

/// The `[WORLD]X, Y, Z` inside the parentheses of a login message: the
/// world and the x, y and z coordinates as printed.
pub open spec fn read_position(r: Seq<u8>) -> Option<(Option<Seq<u8>>, (Seq<u8>, Seq<u8>, Seq<u8>))> {
    match read_world(r) {
        None => None,
        Some((world, r6)) => match read_coords(r6) {
            None => None,
            Some(coords) => Some((world, coords)),
        },
    }
}

/// The `NAME[/IP] logged in with entity id ID` start of a login message: the
/// name, the address, the entity id and the rest of the message from the
/// space after the id.
pub open spec fn read_login_header(m: Seq<u8>) -> Option<(Seq<u8>, Seq<u8>, nat, Seq<u8>)> {
    match first_byte(m, 91) {
        None => None,
        Some(p1) => {
            let r1 = skip(m, p1);
            match first_byte(r1, 93) {
                None => None,
                Some(p2) => {
                    let ip_part = r1.subrange(0, p2);
                    let r2 = skip(r1, p2);
                    if !cuttable(ip_part, 2) || !cuttable(r2, 27) {
                        None
                    } else {
                        let r3 = skip(r2, 27);
                        match first_byte(r3, 32) {
                            None => None,
                            Some(p3) => match parse_unsigned(r3.subrange(0, p3), 0xffff_ffff) {
                                None => None,
                                Some(id) => Some((m.subrange(0, p1), skip(ip_part, 2), id, skip(r3, p3))),
                            },
                        }
                    }
                },
            }
        },
    }
}

/// `NAME[/IP] logged in with entity id ID at ([WORLD]X, Y, Z)`: the position
/// is what stands between the five bytes ` at (` and the last byte.
pub open spec fn read_player_login(m: Seq<u8>) -> Reading<SpecificView> {
    match read_login_header(m) {
        None => Reading::Malformed,
        Some((name, ip, id, r4)) => {
            let inner = r4.subrange(0, r4.len() - 1);
            if !cuttable(r4, r4.len() - 1) || !cuttable(inner, 5) {
                Reading::Malformed
            } else {
                match read_position(skip(inner, 5)) {
                    None => Reading::Malformed,
                    Some((world, coords)) => Reading::Recognised(
                        SpecificView::PlayerLogin { name, ip, entity_id: id, coords, world },
                    ),
                }
            }
        },
    }
}

/// The number between `start` and `end` (cut out of `m` as `m[start..end]`),
/// read as an unsigned integer of at most `max`.
pub open spec fn number_between(m: Seq<u8>, start: int, end: int, max: nat) -> Option<nat> {
    if !cuttable(m, end) || !cuttable(m.subrange(0, end), start) {
        None
    } else {
        parse_unsigned(m.subrange(start, end), max)
    }
}

/// `Preparing spawn area: N%`: the number starts two bytes after the first
/// `:` and ends one byte before the end.
pub open spec fn read_spawn_progress(m: Seq<u8>) -> Reading<SpecificView> {
    match first_byte(m, 58) {
        None => Reading::Malformed,
        Some(pc) => match number_between(m, pc + 2, m.len() - 1, 255) {
            None => Reading::Malformed,
            Some(v) => Reading::Recognised(SpecificView::SpawnPrepareProgress { progress: v }),
        },
    }
}

/// `Time elapsed: N ms`: the number starts two bytes after the first `:` and
/// ends one byte before the first `ms`.
pub open spec fn read_spawn_finish(m: Seq<u8>) -> Reading<SpecificView> {
    match (first_byte(m, 58), first_occurrence(m, utf8("ms"))) {
        (Some(pc), Some(pms)) => if pms == 0 {
            Reading::Malformed
        } else {
            match number_between(m, pc + 2, pms - 1, 0xffff_ffff_ffff_ffff) {
                None => Reading::Malformed,
                Some(v) => Reading::Recognised(SpecificView::SpawnPrepareFinish { time_elapsed_ms: v }),
            }
        },
        _ => Reading::Malformed,
    }
}

/// `NAME lost connection: REASON`: the name ends at the first space, the
/// reason starts two bytes after the first `:` after it.
pub open spec fn read_lost_connection(m: Seq<u8>) -> Reading<SpecificView> {
    match first_byte(m, 32) {
        None => Reading::Malformed,
        Some(ps) => {
            let remain = skip(m, ps);
            match first_byte(remain, 58) {
                None => Reading::Malformed,
                Some(pc) => if !cuttable(remain, pc + 2) {
                    Reading::Malformed
                } else {
                    Reading::Recognised(
                        SpecificView::PlayerLostConnection {
                            name: m.subrange(0, ps),
                            reason: skip(remain, pc + 2),
                        },
                    )
                },
            }
        },
    }
}

/// `UUID of player NAME is UUID`, with a name that holds no space, reads as
/// that player authenticating with the whole of the uuid text.
pub proof fn lemma_player_auth_fields(name: Seq<u8>, uuid: Seq<u8>)
    requires
        vstd::utf8::valid_utf8(name),
        vstd::utf8::valid_utf8(uuid),
        forall|i: int| 0 <= i < name.len() ==> name[i] != 32,
    ensures
        read_player_auth(utf8("UUID of player ") + name + utf8(" is ") + uuid) == Reading::Recognised(
            SpecificView::PlayerAuth { name, uuid },
        ),
{
    reveal_strlit("UUID of player ");
    reveal_strlit(" is ");
    vstd::string::is_ascii_spec_bytes("UUID of player ");
    vstd::string::is_ascii_spec_bytes(" is ");
    let pre = utf8("UUID of player ");
    let is = utf8(" is ");
    assert(pre.len() == 15 && pre[14] == 32u8);
    assert(is =~= seq![32u8, 105u8, 115u8, 32u8]);
    let m = pre + name + is + uuid;
    vstd::utf8::valid_utf8_concat(pre, name);
    vstd::utf8::valid_utf8_concat(pre + name, is);
    vstd::utf8::valid_utf8_concat(pre + name + is, uuid);
    assert(m[14] == 32u8);
    crate::text::lemma_ascii_is_boundary(m, 14);
    let ms = skip(m, 15);
    assert(ms =~= name + is + uuid);
    let n = name.len() as int;
    assert(ms[n] == 32u8);
    assert(forall|j: int| 0 <= j < n ==> ms[j] == name[j]);
    assert(crate::text::is_first_byte(ms, 32, n));
    crate::text::lemma_first_byte_unique(ms, 32, n);
    let remain = skip(ms, n);
    assert(remain =~= is + uuid);
    vstd::utf8::valid_utf8_concat(is, uuid);
    crate::text::lemma_ascii_is_boundary(remain, 3);
    assert(skip(remain, 4) =~= uuid);
    assert(ms.subrange(0, n) =~= name);
}

/// `<NAME> TEXT`, and `[Not Secure] <NAME> TEXT`, with a name that holds no
/// `>`, read as that player saying the whole of `TEXT`, whatever it holds
/// (`>` too).
pub proof fn lemma_player_msg_text(name: Seq<u8>, text: Seq<u8>)
    requires
        vstd::utf8::valid_utf8(name),
        vstd::utf8::valid_utf8(text),
        forall|i: int| 0 <= i < name.len() ==> name[i] != 62,
    ensures
        read_player_msg(utf8("<") + name + utf8("> ") + text) == Reading::Recognised(
            SpecificView::PlayerMsg { name, msg: text },
        ),
        read_player_msg(utf8("[Not Secure] <") + name + utf8("> ") + text) == Reading::Recognised(
            SpecificView::PlayerMsg { name, msg: text },
        ),
{
    reveal_strlit("<");
    reveal_strlit("> ");
    reveal_strlit("[Not Secure] <");
    vstd::string::is_ascii_spec_bytes("<");
    vstd::string::is_ascii_spec_bytes("> ");
    vstd::string::is_ascii_spec_bytes("[Not Secure] <");
    let open = utf8("<");
    let close = utf8("> ");
    let marked = utf8("[Not Secure] <");
    assert(open =~= seq![60u8]);
    assert(close =~= seq![62u8, 32u8]);
    assert(marked.len() == 14 && marked[0] == 91u8 && marked[12] == 32u8 && marked[13] == 60u8);
    assert(forall|j: int| 0 <= j < 14 ==> marked[j] != 62u8);
    vstd::utf8::valid_utf8_concat(close, text);
    vstd::utf8::valid_utf8_concat(open, name);
    vstd::utf8::valid_utf8_concat(marked, name);
    let n = name.len() as int;
    // the plain form
    let m = open + name + close + text;
    let p = n + 1;
    assert(m[p] == 62u8);
    assert(forall|j: int| 1 <= j < p ==> m[j] == name[j - 1]);
    assert(crate::text::is_first_byte(m, 62, p));
    crate::text::lemma_first_byte_unique(m, 62, p);
    assert(m.subrange(0, p) =~= open + name);
    assert(skip(m, p) =~= close + text);
    crate::text::lemma_ascii_is_boundary(open + name, 0);
    crate::text::lemma_ascii_is_boundary(close + text, 1);
    assert(skip(open + name, 1) =~= name);
    assert(skip(close + text, 2) =~= text);
    // the form marked as not secure
    let mm = marked + name + close + text;
    let q = n + 14;
    assert(mm[q] == 62u8);
    assert(forall|j: int| 0 <= j < 14 ==> mm[j] == marked[j]);
    assert(forall|j: int| 14 <= j < q ==> mm[j] == name[j - 14]);
    assert(crate::text::is_first_byte(mm, 62, q));
    crate::text::lemma_first_byte_unique(mm, 62, q);
    let name0 = mm.subrange(0, q);
    assert(name0 =~= marked + name);
    assert(skip(mm, q) =~= close + text);
    crate::text::lemma_ascii_is_boundary(name0, 12);
    let name1 = skip(name0, 13);
    assert(name1 =~= open + name);
}

/// `NAME left the game`, with a name that holds no space, reads as that
/// player leaving.
pub proof fn lemma_logout_name(name: Seq<u8>)
    requires
        forall|i: int| 0 <= i < name.len() ==> name[i] != 32,
    ensures
        read_logout(name + utf8(" left the game")) == Reading::Recognised(
            SpecificView::PlayerLogout { name },
        ),
{
    reveal_strlit(" left the game");
    vstd::string::is_ascii_spec_bytes(" left the game");
    let m = name + utf8(" left the game");
    let n = name.len() as int;
    assert(utf8(" left the game")[0] == 32u8);
    assert(m[n] == 32u8);
    assert(forall|j: int| 0 <= j < n ==> m[j] == name[j]);
    assert(crate::text::is_first_byte(m, 32, n));
    crate::text::lemma_first_byte_unique(m, 32, n);
    assert(m.subrange(0, n) =~= name);
}

/// The bytes of ` lost connection: `.
proof fn lemma_lost_connection_bytes()
    ensures
        utf8(" lost connection: ") == seq![
            32u8,
            108u8,
            111u8,
            115u8,
            116u8,
            32u8,
            99u8,
            111u8,
            110u8,
            110u8,
            101u8,
            99u8,
            116u8,
            105u8,
            111u8,
            110u8,
            58u8,
            32u8,
        ],
{
    reveal_strlit(" lost connection: ");
    vstd::string::is_ascii_spec_bytes(" lost connection: ");
    assert(utf8(" lost connection: ") =~= seq![
        32u8,
        108u8,
        111u8,
        115u8,
        116u8,
        32u8,
        99u8,
        111u8,
        110u8,
        110u8,
        101u8,
        99u8,
        116u8,
        105u8,
        111u8,
        110u8,
        58u8,
        32u8,
    ]);
}

/// `NAME lost connection: REASON`, with a name that holds no space, reads as
/// that player losing the connection for the whole of `REASON`, whatever it
/// holds (colons too).
pub proof fn lemma_lost_connection_reason(name: Seq<u8>, reason: Seq<u8>)
    requires
        vstd::utf8::valid_utf8(name),
        vstd::utf8::valid_utf8(reason),
        forall|i: int| 0 <= i < name.len() ==> name[i] != 32,
    ensures
        read_lost_connection(name + utf8(" lost connection: ") + reason) == Reading::Recognised(
            SpecificView::PlayerLostConnection { name, reason },
        ),
{
    let sep = utf8(" lost connection: ");
    lemma_lost_connection_bytes();
    let m = name + sep + reason;
    let n = name.len() as int;
    assert(m[n] == 32u8);
    assert(forall|j: int| 0 <= j < n ==> m[j] == name[j]);
    assert(crate::text::is_first_byte(m, 32, n));
    crate::text::lemma_first_byte_unique(m, 32, n);
    let remain = skip(m, n);
    assert(remain =~= sep + reason);
    assert(remain[16] == 58u8);
    assert(forall|j: int| 0 <= j < 16 ==> remain[j] == sep[j]);
    assert(crate::text::is_first_byte(remain, 58, 16));
    crate::text::lemma_first_byte_unique(remain, 58, 16);
    vstd::utf8::valid_utf8_concat(sep, reason);
    crate::text::lemma_ascii_is_boundary(remain, 17);
    assert(skip(remain, 18) =~= reason);
    assert(m.subrange(0, n) =~= name);
}

/// `NAME left the game`: the name ends at the first space.
pub open spec fn read_logout(m: Seq<u8>) -> Reading<SpecificView> {
    match first_byte(m, 32) {
        None => Reading::Malformed,
        Some(ps) => Reading::Recognised(SpecificView::PlayerLogout { name: m.subrange(0, ps) }),
    }
}

/// `Done (Ns)! ...`: the time starts after the first `(` and ends at the first
/// `s` after it; it must read as an `f32`.
pub open spec fn read_finished_loading(m: Seq<u8>) -> Reading<SpecificView> {
    match first_byte(m, 40) {
        None => Reading::Malformed,
        Some(pp) => {
            let t = skip(m, pp + 1);
            match first_byte(t, 115) {
                None => Reading::Malformed,
                Some(ps) => if !float_text(t.subrange(0, ps)) {
                    Reading::Malformed
                } else {
                    Reading::Recognised(
                        SpecificView::FinishedLoading { time_elapsed_s: t.subrange(0, ps) },
                    )
                },
            }
        },
    }
}

pub open spec fn eula_notice() -> Seq<u8> {
    utf8("You need to agree to the EULA in order to run the server. Go to eula.txt for more info.")
}

/// What a console message with thread name `thread`, type `ty` and text `m`
/// stands for.  The kinds are tried in this order: authentication (by the
/// thread name), chat (an information message from the chat thread, or one
/// starting with `<`, or one starting with `[Not Secure] <` from the server
/// thread), the EULA notice, login, spawn preparation progress, spawn
/// preparation time, lost connection, logout, and the end of loading.
pub open spec fn read_specific(thread: Seq<u8>, ty: MsgTypeView, m: Seq<u8>) -> Reading<SpecificView> {
    let info = ty == MsgTypeView::Info;
    if contains(thread, utf8("User Authenticator")) {
        read_player_auth(m)
    } else if info && (starts_with(thread, utf8("Async Chat Thread")) || starts_with(m, utf8("<"))
        || (starts_with(m, utf8("[Not Secure] <")) && thread == utf8("Server thread"))) {
        read_player_msg(m)
    } else if m == eula_notice() && info {
        Reading::Recognised(SpecificView::MustAcceptEula)
    } else if contains(m, utf8("logged in with entity id")) && info {
        read_player_login(m)
    } else if contains(m, utf8("Preparing spawn area: ")) && info {
        read_spawn_progress(m)
    } else if contains(m, utf8("Time elapsed: ")) {
        read_spawn_finish(m)
    } else if contains(m, utf8("lost connection: ")) {
        read_lost_connection(m)
    } else if contains(m, utf8("left the game")) {
        read_logout(m)
    } else if starts_with(m, utf8("Done (")) {
        read_finished_loading(m)
    } else {
        Reading::Unrecognised
    }
}

/// What a console message stands for.
pub open spec fn specific_of(msg: ConsoleMsgView) -> Reading<SpecificView> {
    read_specific(msg.thread_name, msg.msg_type, msg.msg)
}

/// Reads `UUID of player NAME is UUID`.
fn player_auth(m: &str) -> (r: Result<Option<ConsoleMsgSpecific>, MalformedLine>)
    ensures
        reading_of(r) == read_player_auth(utf8(m)),
{
    if !can_cut(m, 15) {
        return Err(MalformedLine);
    }
    let (_, ms) = cut(m, 15);
    let p = match find_ascii(ms, 32) {
        None => return Err(MalformedLine),
        Some(p) => p,
    };
    let (name, remain) = cut(ms, p);
    if !can_cut(remain, 4) {
        return Err(MalformedLine);
    }
    let (_, uuid) = cut(remain, 4);
    Ok(Some(ConsoleMsgSpecific::PlayerAuth { name: copy_str(name), uuid: copy_str(uuid) }))
}

/// Reads `<NAME> MESSAGE` or `[Not Secure] <NAME> MESSAGE`.
fn player_msg(m: &str) -> (r: Result<Option<ConsoleMsgSpecific>, MalformedLine>)
    ensures
        reading_of(r) == read_player_msg(utf8(m)),
{
    let p = match find_ascii(m, 62) {
        None => return Ok(None),
        Some(p) => p,
    };
    let (name0, remain) = cut(m, p);
    let b = name0.as_bytes();
    let marked = b.len() > 0 && b[0] == 91;
    let name1 = if marked {
        if !can_cut(name0, 13) {
            return Err(MalformedLine);
        }
        cut(name0, 13).1
    } else {
        name0
    };
    if !can_cut(name1, 1) || !can_cut(remain, 2) {
        return Err(MalformedLine);
    }
    let (_, name) = cut(name1, 1);
    let (_, msg) = cut(remain, 2);
    Ok(Some(ConsoleMsgSpecific::PlayerMsg { name: copy_str(name), msg: copy_str(msg) }))
}

/// Reads the optional `[WORLD]` in front of the coordinates.
fn world(r: &str) -> (res: Option<(Option<String>, &str)>)
    ensures
        match (res, read_world(utf8(r))) {
            (Some((w, rest)), Some((sw, srest))) => opt_bytes(w) == sw && utf8(rest) == srest,
            (None, None) => true,
            _ => false,
        },
{
    let b = r.as_bytes();
    if b.len() > 0 && b[0] == 91 {
        let p = match find_ascii(r, 93) {
            None => return None,
            Some(p) => p,
        };
        let (w, rest) = cut(r, p);
        proof {
            crate::text::lemma_ascii_is_boundary(utf8(r), 0);
            assert(p >= 1);
            assert(utf8(w)[0] == 91);
            crate::text::lemma_ascii_is_boundary(utf8(w), 0);
            assert(utf8(rest)[0] == 93);
            crate::text::lemma_ascii_is_boundary(utf8(rest), 0);
        }
        let (_, name) = cut(w, 1);
        let (_, after) = cut(rest, 1);
        proof {
            assert(utf8(after) =~= skip(utf8(r), p + 1));
        }
        Some((Some(copy_str(name)), after))
    } else {
        Some((None, r))
    }
}

/// Reads the `X, Y, Z` of a login message.
pub fn coordinates(r6: &str) -> (res: Option<(String, String, String)>)
    ensures
        match (res, read_coords(utf8(r6))) {
            (Some(c), Some(sc)) => (bytes(c.0), bytes(c.1), bytes(c.2)) == sc,
            (None, None) => true,
            _ => false,
        },
{
    let px = match find_ascii(r6, 44) {
        None => return None,
        Some(p) => p,
    };
    let (x, r7) = cut(r6, px);
    if !can_cut(r7, 2) {
        return None;
    }
    let (_, r8) = cut(r7, 2);
    let py = match find_ascii(r8, 44) {
        None => return None,
        Some(p) => p,
    };
    let (y, r9) = cut(r8, py);
    if !can_cut(r9, 2) {
        return None;
    }
    let (_, z) = cut(r9, 2);
    if !is_float_text(x.as_bytes()) || !is_float_text(y.as_bytes()) || !is_float_text(z.as_bytes()) {
        return None;
    }
    Some((copy_str(x), copy_str(y), copy_str(z)))
}

/// Reads the `[WORLD]X, Y, Z` of a login message.
pub fn position(r5: &str) -> (res: Option<(Option<String>, (String, String, String))>)
    ensures
        match (res, read_position(utf8(r5))) {
            (Some((w, c)), Some((sw, sc))) => opt_bytes(w) == sw && (bytes(c.0), bytes(c.1), bytes(
                c.2,
            )) == sc,
            (None, None) => true,
            _ => false,
        },
{
    let (world, r6) = match world(r5) {
        None => return None,
        Some(x) => x,
    };
    match coordinates(r6) {
        None => None,
        Some(c) => Some((world, c)),
    }
}

/// Reads the `NAME[/IP] logged in with entity id ID` start of a login message.
pub fn login_header(m: &str) -> (res: Option<(String, String, u32, &str)>)
    ensures
        match (res, read_login_header(utf8(m))) {
            (Some((n, i, e, r)), Some((sn, si, se, sr))) => bytes(n) == sn && bytes(i) == si && e
                == se && utf8(r) == sr,
            (None, None) => true,
            _ => false,
        },
{
    let p1 = match find_ascii(m, 91) {
        None => return None,
        Some(p) => p,
    };
    let (name, r1) = cut(m, p1);
    let p2 = match find_ascii(r1, 93) {
        None => return None,
        Some(p) => p,
    };
    let (ip_part, r2) = cut(r1, p2);
    if !can_cut(ip_part, 2) || !can_cut(r2, 27) {
        return None;
    }
    let (_, ip) = cut(ip_part, 2);
    let (_, r3) = cut(r2, 27);
    let p3 = match find_ascii(r3, 32) {
        None => return None,
        Some(p) => p,
    };
    let (id_text, r4) = cut(r3, p3);
    match parse_unsigned_bytes(id_text.as_bytes(), 0xffff_ffff) {
        None => None,
        Some(v) => Some((copy_str(name), copy_str(ip), v as u32, r4)),
    }
}

/// Reads `NAME[/IP] logged in with entity id ID at ([WORLD]X, Y, Z)`.
#[verifier::rlimit(60)]
fn player_login(m: &str) -> (r: Result<Option<ConsoleMsgSpecific>, MalformedLine>)
    ensures
        reading_of(r) == read_player_login(utf8(m)),
{
    let (name, ip, entity_id, r4) = match login_header(m) {
        None => return Err(MalformedLine),
        Some(h) => h,
    };
    let n4 = r4.as_bytes().len();
    proof {
        assert(n4 >= 1);
    }
    if !can_cut(r4, n4 - 1) {
        return Err(MalformedLine);
    }
    let (inner, _) = cut(r4, n4 - 1);
    if !can_cut(inner, 5) {
        return Err(MalformedLine);
    }
    let (_, r5) = cut(inner, 5);
    match position(r5) {
        None => Err(MalformedLine),
        Some((world, coords)) => Ok(
            Some(ConsoleMsgSpecific::PlayerLogin { name, ip, entity_id, coords, world }),
        ),
    }
}

/// Reads the unsigned integer `m[start..end]` of at most `max`.
fn number_in(m: &str, start: usize, end: usize, max: u64) -> (r: Option<u64>)
    ensures
        match r {
            Some(v) => number_between(utf8(m), start as int, end as int, max as nat) == Some(
                v as nat,
            ),
            None => number_between(utf8(m), start as int, end as int, max as nat) is None,
        },
{
    if !can_cut(m, end) {
        return None;
    }
    let (head, _) = cut(m, end);
    if !can_cut(head, start) {
        return None;
    }
    let (_, text) = cut(head, start);
    proof {
        assert(utf8(text) =~= utf8(m).subrange(start as int, end as int));
    }
    parse_unsigned_bytes(text.as_bytes(), max)
}

/// Reads `Preparing spawn area: N%`.
fn spawn_progress(m: &str) -> (r: Result<Option<ConsoleMsgSpecific>, MalformedLine>)
    ensures
        reading_of(r) == read_spawn_progress(utf8(m)),
{
    let pc = match find_ascii(m, 58) {
        None => return Err(MalformedLine),
        Some(p) => p,
    };
    let n = m.as_bytes().len();
    let end = n - 1;
    if pc >= end || end - pc < 2 {
        proof {
            assert(!cuttable(utf8(m).subrange(0, end as int), pc + 2));
        }
        return Err(MalformedLine);
    }
    match number_in(m, pc + 2, end, 255) {
        None => Err(MalformedLine),
        Some(v) => Ok(Some(ConsoleMsgSpecific::SpawnPrepareProgress { progress: v as u8 })),
    }
}

/// Reads `Time elapsed: N ms`.
fn spawn_finish(m: &str) -> (r: Result<Option<ConsoleMsgSpecific>, MalformedLine>)
    ensures
        reading_of(r) == read_spawn_finish(utf8(m)),
{
    let pc = match find_ascii(m, 58) {
        None => return Err(MalformedLine),
        Some(p) => p,
    };
    let pms = match find_pattern(m.as_bytes(), "ms".as_bytes()) {
        None => return Err(MalformedLine),
        Some(p) => p,
    };
    if pms == 0 {
        return Err(MalformedLine);
    }
    let end = pms - 1;
    if pc >= end || end - pc < 2 {
        proof {
            assert(!cuttable(utf8(m).subrange(0, end as int), pc + 2));
        }
        return Err(MalformedLine);
    }
    match number_in(m, pc + 2, end, 0xffff_ffff_ffff_ffff) {
        None => Err(MalformedLine),
        Some(v) => Ok(Some(ConsoleMsgSpecific::SpawnPrepareFinish { time_elapsed_ms: v })),
    }
}

/// Reads `NAME lost connection: REASON`.
fn lost_connection(m: &str) -> (r: Result<Option<ConsoleMsgSpecific>, MalformedLine>)
    ensures
        reading_of(r) == read_lost_connection(utf8(m)),
{
    let ps = match find_ascii(m, 32) {
        None => return Err(MalformedLine),
        Some(p) => p,
    };
    let (name, remain) = cut(m, ps);
    let pc = match find_ascii(remain, 58) {
        None => return Err(MalformedLine),
        Some(p) => p,
    };
    let n = remain.as_bytes().len();
    if n - pc < 2 || !can_cut(remain, pc + 2) {
        return Err(MalformedLine);
    }
    let (_, reason) = cut(remain, pc + 2);
    Ok(
        Some(
            ConsoleMsgSpecific::PlayerLostConnection {
                name: copy_str(name),
                reason: copy_str(reason),
            },
        ),
    )
}

/// Reads `NAME left the game`.
fn logout(m: &str) -> (r: Result<Option<ConsoleMsgSpecific>, MalformedLine>)
    ensures
        reading_of(r) == read_logout(utf8(m)),
{
    let ps = match find_ascii(m, 32) {
        None => return Err(MalformedLine),
        Some(p) => p,
    };
    let (name, _) = cut(m, ps);
    Ok(Some(ConsoleMsgSpecific::PlayerLogout { name: copy_str(name) }))
}

/// Reads `Done (Ns)! ...`.
fn finished_loading(m: &str) -> (r: Result<Option<ConsoleMsgSpecific>, MalformedLine>)
    ensures
        reading_of(r) == read_finished_loading(utf8(m)),
{
    let pp = match find_ascii(m, 40) {
        None => return Err(MalformedLine),
        Some(p) => p,
    };
    let (_, t) = cut(m, pp + 1);
    let ps = match find_ascii(t, 115) {
        None => return Err(MalformedLine),
        Some(p) => p,
    };
    let (text, _) = cut(t, ps);
    if !is_float_text(text.as_bytes()) {
        return Err(MalformedLine);
    }
    Ok(Some(ConsoleMsgSpecific::FinishedLoading { time_elapsed_s: copy_str(text) }))
}

impl ConsoleMsgSpecific {
    /// Determines what a `ConsoleMsg` stands for, telling apart messages that
    /// are nothing specific from messages that break the layout of the kind
    /// they look like.
    pub fn read(console_msg: &ConsoleMsg) -> (r: Result<Option<ConsoleMsgSpecific>, MalformedLine>)
        ensures
            reading_of(r) == specific_of(console_msg@),
    {
        let thread = console_msg.thread_name.as_str();
        let m = console_msg.msg.as_str();
        let tb = thread.as_bytes();
        let mb = m.as_bytes();
        let info = match console_msg.msg_type {
            ConsoleMsgType::Info => true,
            _ => false,
        };
        if contains_pattern(tb, "User Authenticator".as_bytes()) {
            player_auth(m)
        } else if info && (begins_with(tb, "Async Chat Thread".as_bytes()) || begins_with(
            mb,
            "<".as_bytes(),
        ) || (begins_with(mb, "[Not Secure] <".as_bytes()) && same_bytes(
            tb,
            "Server thread".as_bytes(),
        ))) {
            player_msg(m)
        } else if same_bytes(
            mb,
            "You need to agree to the EULA in order to run the server. Go to eula.txt for more info.".as_bytes(),
        ) && info {
            Ok(Some(ConsoleMsgSpecific::MustAcceptEula))
        } else if contains_pattern(mb, "logged in with entity id".as_bytes()) && info {
            player_login(m)
        } else if contains_pattern(mb, "Preparing spawn area: ".as_bytes()) && info {
            spawn_progress(m)
        } else if contains_pattern(mb, "Time elapsed: ".as_bytes()) {
            spawn_finish(m)
        } else if contains_pattern(mb, "lost connection: ".as_bytes()) {
            lost_connection(m)
        } else if contains_pattern(mb, "left the game".as_bytes()) {
            logout(m)
        } else if begins_with(mb, "Done (".as_bytes()) {
            finished_loading(m)
        } else {
            Ok(None)
        }
    }

    /// Tries to determine a `ConsoleMsgSpecific` variant for the given
    /// `ConsoleMsg`.
    pub fn try_parse_from(console_msg: &ConsoleMsg) -> (r: Option<ConsoleMsgSpecific>)
        requires
            !(specific_of(console_msg@) is Malformed),
        ensures
            match specific_of(console_msg@) {
                Reading::Recognised(v) => r matches Some(s) && s@ == v,
                _ => r is None,
            },
    {
        match ConsoleMsgSpecific::read(console_msg) {
            Ok(r) => r,
            Err(_) => None,
        }
    }
}

} // verus!
