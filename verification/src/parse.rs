//! Parsing of the Minecraft server's console output.
//!
//! A console line looks like `[23:10:31] [Server thread/INFO]: message`.  All
//! positions in the specifications below are byte offsets into the UTF-8
//! encoding of the text, the way `str::find` and `str` slicing count them.
use vstd::prelude::*;
use vstd::string::StringSliceAdditionalSpecFns;
use vstd::utf8::*;

pub use crate::text::bytes;
use crate::render::{decimal, digit_char, push_text};
use crate::text::{
    can_cut, copy_str, cut, cuttable, find_ascii, first_byte, lemma_ascii_is_boundary,
    parse_unsigned, read_u8, same_bytes, skip, utf8, is_digit, digits_value, unsigned_digits,
};

verus! {

broadcast use vstd::utf8::encode_utf8_valid_utf8;

/// A time of day, to the second, as printed at the start of each console line.
#[derive(Debug, Clone, Copy, PartialEq, Eq)]
pub struct ClockTime {
    hour: u8,
    minute: u8,
    second: u8,
}

/// Asks `time::Time::from_hms` whether the given hour, minute and second form a
/// time of day.
///
/// The `time` crate accepts an hour below 24, a minute below 60 and a second
/// below 60, and then keeps the three values as given; this is what the
/// contract claims, and what `Time::hour`, `Time::minute` and `Time::second`
/// give back.
#[verifier::external_body]
fn time_from_hms(hour: u8, minute: u8, second: u8) -> (r: Option<(u8, u8, u8)>)
    ensures
        r is Some <==> (hour < 24 && minute < 60 && second < 60),
        r matches Some(t) ==> t == (hour, minute, second),
{
    match time::Time::from_hms(hour, minute, second) {
        Ok(t) => Some((t.hour(), t.minute(), t.second())),
        Err(_) => None,
    }
}

impl View for ClockTime {
    type V = (u8, u8, u8);

    closed spec fn view(&self) -> (u8, u8, u8) {
        (self.hour, self.minute, self.second)
    }
}

impl ClockTime {
    #[verifier::type_invariant]
    spec fn in_range(&self) -> bool {
        self.hour < 24 && self.minute < 60 && self.second < 60
    }

    /// The time of day with the given hour, minute and second, if it exists.
    pub fn from_hms(hour: u8, minute: u8, second: u8) -> (r: Option<ClockTime>)
        ensures
            r is Some <==> (hour < 24 && minute < 60 && second < 60),
            r matches Some(t) ==> t@ == (hour, minute, second),
    {
        match time_from_hms(hour, minute, second) {
            Some((h, m, s)) => Some(ClockTime { hour: h, minute: m, second: s }),
            None => None,
        }
    }

    /// 00:00:00.
    pub fn midnight() -> (r: ClockTime)
        ensures
            r@ == (0u8, 0u8, 0u8),
    {
        ClockTime { hour: 0, minute: 0, second: 0 }
    }

    pub fn hour(&self) -> (r: u8)
        ensures
            r == self@.0,
            r < 24,
    {
        proof {
            use_type_invariant(self);
        }
        self.hour
    }

    pub fn minute(&self) -> (r: u8)
        ensures
            r == self@.1,
            r < 60,
    {
        proof {
            use_type_invariant(self);
        }
        self.minute
    }

    pub fn second(&self) -> (r: u8)
        ensures
            r == self@.2,
            r < 60,
    {
        proof {
            use_type_invariant(self);
        }
        self.second
    }
}

/// Various types of console messages that can occur
#[derive(Debug, PartialEq, Eq, Clone)]
pub enum ConsoleMsgType {
    Info,
    Warn,
    Error,
    /// An unknown type of message with its value from Minecraft
    Unknown(String),
}

/// The mathematical form of a [`ConsoleMsgType`], with texts as UTF-8 bytes.
pub enum MsgTypeView {
    Info,
    Warn,
    Error,
    Unknown(Seq<u8>),
}

impl View for ConsoleMsgType {
    type V = MsgTypeView;

    open spec fn view(&self) -> MsgTypeView {
        match self {
            ConsoleMsgType::Info => MsgTypeView::Info,
            ConsoleMsgType::Warn => MsgTypeView::Warn,
            ConsoleMsgType::Error => MsgTypeView::Error,
            ConsoleMsgType::Unknown(s) => MsgTypeView::Unknown(bytes(*s)),
        }
    }
}

/// The message type that a console line names with the text `raw`.
pub open spec fn msg_type_of(raw: Seq<u8>) -> MsgTypeView {
    if raw == utf8("INFO") {
        MsgTypeView::Info
    } else if raw == utf8("WARN") {
        MsgTypeView::Warn
    } else if raw == utf8("ERROR") {
        MsgTypeView::Error
    } else {
        MsgTypeView::Unknown(raw)
    }
}

/// The message types by their bytes: `INFO` (73, 78, 70, 79) is
/// information, `WARN` (87, 65, 82, 78) a warning and `ERROR` (69, 82, 82,
/// 79, 82) an error; any other text is a type of that name that the wrapper
/// does not know.
pub proof fn lemma_msg_type_names(raw: Seq<u8>)
    ensures
        msg_type_of(seq![73u8, 78u8, 70u8, 79u8]) == MsgTypeView::Info,
        msg_type_of(seq![87u8, 65u8, 82u8, 78u8]) == MsgTypeView::Warn,
        msg_type_of(seq![69u8, 82u8, 82u8, 79u8, 82u8]) == MsgTypeView::Error,
        raw != seq![73u8, 78u8, 70u8, 79u8] && raw != seq![87u8, 65u8, 82u8, 78u8] && raw != seq![
            69u8,
            82u8,
            82u8,
            79u8,
            82u8,
        ] ==> msg_type_of(raw) == MsgTypeView::Unknown(raw),
{
    reveal_strlit("INFO");
    reveal_strlit("WARN");
    reveal_strlit("ERROR");
    vstd::string::is_ascii_spec_bytes("INFO");
    vstd::string::is_ascii_spec_bytes("WARN");
    vstd::string::is_ascii_spec_bytes("ERROR");
    assert(utf8("INFO") =~= seq![73u8, 78u8, 70u8, 79u8]);
    assert(utf8("WARN") =~= seq![87u8, 65u8, 82u8, 78u8]);
    assert(utf8("ERROR") =~= seq![69u8, 82u8, 82u8, 79u8, 82u8]);
}

/// How a message type is printed.
pub open spec fn msg_type_text(t: MsgTypeView) -> Seq<u8> {
    match t {
        MsgTypeView::Info => utf8("INFO"),
        MsgTypeView::Warn => utf8("WARN"),
        MsgTypeView::Error => utf8("ERROR"),
        MsgTypeView::Unknown(s) => s,
    }
}

/// The severity at which a console message is logged.
#[derive(Debug, Clone, Copy, PartialEq, Eq)]
pub enum Severity {
    Info,
    Warn,
    Error,
}

impl ConsoleMsgType {
    /// Reads the message type named in a console line.
    pub fn parse_from(raw: &str) -> (r: ConsoleMsgType)
        ensures
            r@ == msg_type_of(utf8(raw)),
            (r@ is Error) <==> utf8(raw) == seq![69u8, 82u8, 82u8, 79u8, 82u8],
            (r@ is Warn) <==> utf8(raw) == seq![87u8, 65u8, 82u8, 78u8],
            (r@ is Info) <==> utf8(raw) == seq![73u8, 78u8, 70u8, 79u8],
    {
        proof {
            lemma_msg_type_names(utf8(raw));
        }
        let b = raw.as_bytes();
        if same_bytes(b, "INFO".as_bytes()) {
            ConsoleMsgType::Info
        } else if same_bytes(b, "WARN".as_bytes()) {
            ConsoleMsgType::Warn
        } else if same_bytes(b, "ERROR".as_bytes()) {
            ConsoleMsgType::Error
        } else {
            ConsoleMsgType::Unknown(copy_str(raw))
        }
    }

    /// The text of the message type, as Minecraft prints it.
    pub open spec fn text(&self) -> Seq<char> {
        match self {
            ConsoleMsgType::Info => "INFO"@,
            ConsoleMsgType::Warn => "WARN"@,
            ConsoleMsgType::Error => "ERROR"@,
            ConsoleMsgType::Unknown(s) => s@,
        }
    }

    /// The text of the message type, as Minecraft prints it.
    pub fn to_string(&self) -> (r: String)
        ensures
            r@ == self.text(),
            bytes(r) == msg_type_text(self@),
    {
        match self {
            ConsoleMsgType::Info => copy_str("INFO"),
            ConsoleMsgType::Warn => copy_str("WARN"),
            ConsoleMsgType::Error => copy_str("ERROR"),
            ConsoleMsgType::Unknown(s) => copy_str(s.as_str()),
        }
    }

    /// The severity to log a message of this type at: unknown types are
    /// logged as information.
    pub fn severity(&self) -> (r: Severity)
        ensures
            r == (match self@ {
                MsgTypeView::Warn => Severity::Warn,
                MsgTypeView::Error => Severity::Error,
                _ => Severity::Info,
            }),
    {
        match self {
            ConsoleMsgType::Warn => Severity::Warn,
            ConsoleMsgType::Error => Severity::Error,
            _ => Severity::Info,
        }
    }
}

/// How reading a piece of console output turned out.
pub enum Reading<T> {
    /// The text is not of the kind being read.
    Unrecognised,
    /// The text was read into this value.
    Recognised(T),
    /// The text looks like the kind being read but breaks its layout: a cut
    /// falls outside the text or inside a character, or a number does not
    /// read.
    Malformed,
}

/// A piece of console output that looks like the kind being read but breaks
/// its layout.
#[derive(Debug, Clone, Copy, PartialEq, Eq)]
pub struct MalformedLine;

/// The outcome that a reader's result stands for.
pub open spec fn reading_of<T: View>(r: Result<Option<T>, MalformedLine>) -> Reading<T::V> {
    match r {
        Err(_) => Reading::Malformed,
        Ok(None) => Reading::Unrecognised,
        Ok(Some(v)) => Reading::Recognised(v@),
    }
}

/// A line of console output: when it was printed, by which thread, its type
/// and the message itself.
#[derive(Debug, Clone, PartialEq, Eq)]
pub struct ConsoleMsg {
    pub timestamp: ClockTime,
    pub thread_name: String,
    pub msg_type: ConsoleMsgType,
    pub msg: String,
}

/// The mathematical form of a [`ConsoleMsg`], with texts as UTF-8 bytes.
pub struct ConsoleMsgView {
    pub timestamp: (u8, u8, u8),
    pub thread_name: Seq<u8>,
    pub msg_type: MsgTypeView,
    pub msg: Seq<u8>,
}

impl View for ConsoleMsg {
    type V = ConsoleMsgView;

    open spec fn view(&self) -> ConsoleMsgView {
        ConsoleMsgView {
            timestamp: self.timestamp@,
            thread_name: bytes(self.thread_name),
            msg_type: self.msg_type@,
            msg: bytes(self.msg),
        }
    }
}

/// The hour, minute and second written as `hh:mm:ss` (each part is read as a
/// `u8`; the two separators are not looked at).
pub open spec fn stamp_fields(stamp: Seq<u8>) -> Option<(u8, u8, u8)> {
    if !cuttable(stamp, 2) || !cuttable(stamp, 5) || !cuttable(stamp.subrange(0, 5), 3)
        || !cuttable(stamp, 6) {
        None
    } else {
        match (
            parse_unsigned(stamp.subrange(0, 2), 255),
            parse_unsigned(stamp.subrange(3, 5), 255),
            parse_unsigned(skip(stamp, 6), 255),
        ) {
            (Some(h), Some(m), Some(s)) => Some((h as u8, m as u8, s as u8)),
            _ => None,
        }
    }
}

/// The value of two decimal digits.
proof fn lemma_two_digits(s: Seq<u8>)
    requires
        s.len() == 2,
        is_digit(s[0]),
        is_digit(s[1]),
    ensures
        parse_unsigned(s, 255) == Some(((s[0] - 48) * 10 + (s[1] - 48)) as nat),
{
    let first = s.drop_last();
    assert(first =~= seq![s[0]]);
    assert(first.len() == 1 && first.last() == s[0]);
    assert(first.drop_last() =~= Seq::<u8>::empty());
    assert(digits_value(first.drop_last()) == 0);
    assert(digits_value(first) == (s[0] - 48) as nat);
    assert(digits_value(s) == digits_value(first) * 10 + (s[1] - 48) as nat);
    assert(unsigned_digits(s) == s);
}

/// A stamp `HH:MM:SS` of two digits each reads as those three numbers.
pub proof fn lemma_stamp_fields(stamp: Seq<u8>)
    requires
        valid_utf8(stamp),
        stamp.len() == 8,
        stamp[2] == 58,
        stamp[5] == 58,
        is_digit(stamp[0]),
        is_digit(stamp[1]),
        is_digit(stamp[3]),
        is_digit(stamp[4]),
        is_digit(stamp[6]),
        is_digit(stamp[7]),
    ensures
        stamp_fields(stamp) == Some(
            (
                ((stamp[0] - 48) * 10 + (stamp[1] - 48)) as u8,
                ((stamp[3] - 48) * 10 + (stamp[4] - 48)) as u8,
                ((stamp[6] - 48) * 10 + (stamp[7] - 48)) as u8,
            ),
        ),
{
    crate::text::lemma_ascii_is_boundary(stamp, 1);
    crate::text::lemma_ascii_is_boundary(stamp, 4);
    crate::text::lemma_ascii_is_boundary(stamp, 5);
    let head = stamp.subrange(0, 5);
    valid_utf8_split(stamp, 5);
    crate::text::lemma_ascii_is_boundary(head, 2);
    lemma_two_digits(stamp.subrange(0, 2));
    lemma_two_digits(stamp.subrange(3, 5));
    assert(skip(stamp, 6) =~= stamp.subrange(6, 8));
    lemma_two_digits(stamp.subrange(6, 8));
}

/// The time a line was stamped with, or midnight where the fields do not form
/// a time of day.
pub open spec fn stamp_time(h: u8, m: u8, s: u8) -> (u8, u8, u8) {
    if h < 24 && m < 60 && s < 60 {
        (h, m, s)
    } else {
        (0u8, 0u8, 0u8)
    }
}

/// The line has a `]`, a `/` after it and a `]` after that: the marks that
/// tell console output from other lines.
pub open spec fn has_console_marks(raw: Seq<u8>) -> bool {
    match first_byte(raw, 93) {
        None => false,
        Some(p1) => match first_byte(skip(raw, p1), 47) {
            None => false,
            Some(p2) => first_byte(skip(skip(raw, p1), p2), 93) is Some,
        },
    }
}

/// Reading a line of console output `[hh:mm:ss] [thread/TYPE]: message`.
///
/// The line is cut at its first `]`, at the first `/` after that and at the
/// first `]` after that; a line without them is not console output.  The time
/// is what stands between the `[` and the first `]`, the thread name starts
/// three bytes after the first `]` (past `] [`), the type stands between the
/// `/` and the second `]`, and the message starts three bytes after the second
/// `]` (past `]: `).
pub open spec fn read_console_line(raw: Seq<u8>) -> Reading<ConsoleMsgView> {
    match first_byte(raw, 93) {
        None => Reading::Unrecognised,
        Some(p1) => {
            let stamp_part = raw.subrange(0, p1);
            let rest1 = skip(raw, p1);
            if !cuttable(stamp_part, 1) {
                Reading::Malformed
            } else {
                match first_byte(rest1, 47) {
                    None => Reading::Unrecognised,
                    Some(p2) => {
                        let thread_part = rest1.subrange(0, p2);
                        let rest2 = skip(rest1, p2);
                        if !cuttable(thread_part, 3) {
                            Reading::Malformed
                        } else {
                            match first_byte(rest2, 93) {
                                None => Reading::Unrecognised,
                                Some(p3) => {
                                    let type_text = skip(rest2.subrange(0, p3), 1);
                                    let rest3 = skip(rest2, p3);
                                    match stamp_fields(skip(stamp_part, 1)) {
                                        None => Reading::Malformed,
                                        Some((h, m, s)) => if !cuttable(rest3, 3) {
                                            Reading::Malformed
                                        } else {
                                            Reading::Recognised(
                                                ConsoleMsgView {
                                                    timestamp: stamp_time(h, m, s),
                                                    thread_name: skip(thread_part, 3),
                                                    msg_type: msg_type_of(type_text),
                                                    msg: skip(rest3, 3),
                                                },
                                            )
                                        },
                                    }
                                },
                            }
                        }
                    },
                }
            }
        },
    }
}

/// Reads the `hh:mm:ss` of a console line.
pub fn read_stamp(stamp: &str) -> (r: Option<(u8, u8, u8)>)
    ensures
        r == stamp_fields(utf8(stamp)),
{
    if !can_cut(stamp, 2) || !can_cut(stamp, 5) {
        return None;
    }
    let (first5, _) = cut(stamp, 5);
    if !can_cut(first5, 3) || !can_cut(stamp, 6) {
        return None;
    }
    let (hour_text, _) = cut(stamp, 2);
    let (_, minute_text) = cut(first5, 3);
    let (_, second_text) = cut(stamp, 6);
    proof {
        assert(utf8(minute_text) =~= utf8(stamp).subrange(3, 5));
    }
    match (read_u8(hour_text), read_u8(minute_text), read_u8(second_text)) {
        (Some(h), Some(m), Some(s)) => Some((h, m, s)),
        _ => None,
    }
}

/// Two decimal digits, with a leading zero below ten.
pub open spec fn two_digits(n: u8) -> Seq<char> {
    seq![digit_char((n / 10) as nat), digit_char((n % 10) as nat)]
}

/// A time of day on the 12-hour clock, `h:mm:ss AM`: the hour without a
/// leading zero (12 for the hours 0 and 12), the minute and second with two
/// digits, and `AM` before noon, `PM` from noon on.  This is the text of the
/// `time` crate's format `[hour repr:12 padding:none]:[minute]:[second] [period]`.
pub open spec fn twelve_hour_text(t: (u8, u8, u8)) -> Seq<char> {
    decimal(((t.0 + 11) % 12 + 1) as nat) + seq![':'] + two_digits(t.1) + seq![':'] + two_digits(t.2)
        + seq![' '] + (if t.0 < 12 {
        "AM"@
    } else {
        "PM"@
    })
}

/// Reads the local time of day from `time::OffsetDateTime::now_local`.
///
/// The `time` crate gives `None` where it cannot tell the local offset from
/// UTC; otherwise the hour, minute and second of the current local time,
/// which are below 24, 60 and 60.  Which time it is is not stated.
#[verifier::external_body]
fn local_time_now() -> (r: Option<(u8, u8, u8)>)
    ensures
        r matches Some(t) ==> t.0 < 24 && t.1 < 60 && t.2 < 60,
{
    match time::OffsetDateTime::now_local() {
        Ok(now) => Some((now.time().hour(), now.time().minute(), now.time().second())),
        Err(_) => None,
    }
}

/// Writes a time of day with the `time` crate's format description
/// `[hour repr:12 padding:none]:[minute]:[second] [period]` (`Time::format`).
///
/// The crate writes the hour on the 12-hour clock, `(hour + 11) % 12 + 1`,
/// without padding, the minute and the second with two digits, and the period
/// as `AM` below hour 12 and `PM` from it; this is what the contract claims.
/// The description is valid, the time exists for the hour, minute and second
/// that `requires` admits, and formatting a time into a `String` does not
/// fail.
#[verifier::external_body]
fn time_of_day_text(hour: u8, minute: u8, second: u8) -> (r: String)
    requires
        hour < 24,
        minute < 60,
        second < 60,
    ensures
        r@ == twelve_hour_text((hour, minute, second)),
{
    let description = time::format_description::parse(
        "[hour repr:12 padding:none]:[minute]:[second] [period]",
    ).unwrap();
    time::Time::from_hms(hour, minute, second).unwrap().format(&description).unwrap()
}

impl ClockTime {
    /// The current local time of day, where the local time can be told.
    /// Which time it is depends on the clock, so nothing more is stated.
    pub fn now_local() -> (r: Option<ClockTime>) {
        match local_time_now() {
            Some((h, m, s)) => Some(ClockTime { hour: h, minute: m, second: s }),
            None => None,
        }
    }

    /// The time on the 12-hour clock: `h:mm:ss AM`.
    pub fn twelve_hour(&self) -> (r: String)
        ensures
            r@ == twelve_hour_text(self@),
    {
        let mut out = String::new();
        self.push_twelve_hour(&mut out);
        proof {
            assert(out@ =~= twelve_hour_text(self@));
        }
        out
    }

    /// Appends the time on the 12-hour clock.
    pub fn push_twelve_hour(&self, out: &mut String)
        ensures
            final(out)@ == old(out)@ + twelve_hour_text(self@),
    {
        proof {
            use_type_invariant(self);
        }
        let text = time_of_day_text(self.hour, self.minute, self.second);
        push_text(out, text.as_str());
    }
}

/// A console line `[STAMP] [THREAD/TYPE]: MESSAGE`, where the stamp holds no
/// `]`, the thread name no `/` and the type no `]`, reads as a message of that
/// thread and type whose text is the whole of `MESSAGE`, whatever it holds;
/// its time is the stamp's (midnight where it is no time of day). A stamp
/// without three numbers makes the line malformed.
#[verifier::spinoff_prover]
#[verifier::rlimit(60)]
pub proof fn lemma_console_line_fields(stamp: Seq<u8>, thread: Seq<u8>, ty: Seq<u8>, msg: Seq<u8>)
    requires
        valid_utf8(stamp),
        valid_utf8(thread),
        valid_utf8(ty),
        valid_utf8(msg),
        forall|i: int| 0 <= i < stamp.len() ==> stamp[i] != 93,
        forall|i: int| 0 <= i < thread.len() ==> thread[i] != 47,
        forall|i: int| 0 <= i < ty.len() ==> ty[i] != 93,
    ensures
        ({
            let line = utf8("[") + stamp + utf8("] [") + thread + utf8("/") + ty + utf8("]: ") + msg;
            match stamp_fields(stamp) {
                Some((h, m, s)) => read_console_line(line) == Reading::Recognised(
                    ConsoleMsgView {
                        timestamp: stamp_time(h, m, s),
                        thread_name: thread,
                        msg_type: msg_type_of(ty),
                        msg,
                    },
                ),
                None => read_console_line(line) is Malformed,
            }
        }),
{
    reveal_strlit("[");
    reveal_strlit("] [");
    reveal_strlit("/");
    reveal_strlit("]: ");
    vstd::string::is_ascii_spec_bytes("[");
    vstd::string::is_ascii_spec_bytes("] [");
    vstd::string::is_ascii_spec_bytes("/");
    vstd::string::is_ascii_spec_bytes("]: ");
    let a = utf8("[");
    let b = utf8("] [");
    let c = utf8("/");
    let d = utf8("]: ");
    assert(a =~= seq![91u8]);
    assert(b =~= seq![93u8, 32u8, 91u8]);
    assert(c =~= seq![47u8]);
    assert(d =~= seq![93u8, 58u8, 32u8]);
    let line = a + stamp + b + thread + c + ty + d + msg;
    let ls = stamp.len() as int;
    let lt = thread.len() as int;
    let ly = ty.len() as int;
    // the first `]`
    let p1 = 1 + ls;
    assert(line[p1] == 93u8);
    assert(line[0] == 91u8);
    assert(forall|j: int| 1 <= j < p1 ==> line[j] == stamp[j - 1]);
    assert(crate::text::is_first_byte(line, 93, p1));
    crate::text::lemma_first_byte_unique(line, 93, p1);
    let stamp_part = line.subrange(0, p1);
    assert(stamp_part =~= a + stamp);
    valid_utf8_concat(a, stamp);
    crate::text::lemma_ascii_is_boundary(stamp_part, 0);
    assert(skip(stamp_part, 1) =~= stamp);
    // the first `/` after it
    let rest1 = skip(line, p1);
    assert(rest1 =~= b + thread + c + ty + d + msg);
    let p2 = 3 + lt;
    assert(rest1[p2] == 47u8);
    assert(forall|j: int| 3 <= j < p2 ==> rest1[j] == thread[j - 3]);
    assert(crate::text::is_first_byte(rest1, 47, p2));
    crate::text::lemma_first_byte_unique(rest1, 47, p2);
    let thread_part = rest1.subrange(0, p2);
    assert(thread_part =~= b + thread);
    valid_utf8_concat(b, thread);
    crate::text::lemma_ascii_is_boundary(thread_part, 2);
    assert(skip(thread_part, 3) =~= thread);
    // the first `]` after that
    let rest2 = skip(rest1, p2);
    assert(rest2 =~= c + ty + d + msg);
    let p3 = 1 + ly;
    assert(rest2[p3] == 93u8);
    assert(forall|j: int| 1 <= j < p3 ==> rest2[j] == ty[j - 1]);
    assert(crate::text::is_first_byte(rest2, 93, p3));
    crate::text::lemma_first_byte_unique(rest2, 93, p3);
    assert(skip(rest2.subrange(0, p3), 1) =~= ty);
    let rest3 = skip(rest2, p3);
    assert(rest3 =~= d + msg);
    valid_utf8_concat(d, msg);
    crate::text::lemma_ascii_is_boundary(rest3, 2);
    assert(skip(rest3, 3) =~= msg);
}

/// A line that breaks no layout rule reads as console output exactly when it
/// has the marks of one: an empty line, or one without a `]`, or without a
/// `/` after the first `]`, or without a `]` after that, is not console
/// output, and every line with the three marks is.
pub proof fn lemma_console_marks(raw: Seq<u8>)
    requires
        !(read_console_line(raw) is Malformed),
    ensures
        read_console_line(raw) is Unrecognised <==> !has_console_marks(raw),
{
}

impl ConsoleMsg {
    /// Create a new `ConsoleMsg` with the current local time (midnight where
    /// the local time cannot be told) and a blank thread name.
    pub fn new(msg_type: ConsoleMsgType, msg: String) -> (r: ConsoleMsg)
        ensures
            r.thread_name@.len() == 0,
            r.msg_type == msg_type,
            r.msg == msg,
    {
        let timestamp = match ClockTime::now_local() {
            Some(t) => t,
            None => ClockTime::midnight(),
        };
        ConsoleMsg { timestamp, thread_name: String::new(), msg_type, msg }
    }

    /// The message as the wrapper prints it: `[h:mm:ss AM] [mc, TYPE]: message`.
    pub fn to_string(&self) -> (r: String)
        ensures
            r@ == seq!['['] + twelve_hour_text(self.timestamp@) + "] [mc, "@ + self.msg_type.text()
                + "]: "@ + self.msg@,
    {
        let mut out = String::new();
        out.push('[');
        self.timestamp.push_twelve_hour(&mut out);
        push_text(&mut out, "] [mc, ");
        let t = self.msg_type.to_string();
        push_text(&mut out, t.as_str());
        push_text(&mut out, "]: ");
        push_text(&mut out, self.msg.as_str());
        proof {
            assert(out@ =~= seq!['['] + twelve_hour_text(self.timestamp@) + "] [mc, "@
                + self.msg_type.text() + "]: "@ + self.msg@);
        }
        out
    }

    /// Reads a line of console output, telling apart lines that are not
    /// console output from lines that break the layout.
    pub fn read_line(raw: &str) -> (r: Result<Option<ConsoleMsg>, MalformedLine>)
        ensures
            reading_of(r) == read_console_line(utf8(raw)),
    {
        let p1 = match find_ascii(raw, 93) {
            None => return Ok(None),
            Some(p) => p,
        };
        let (stamp_part, rest1) = cut(raw, p1);
        if !can_cut(stamp_part, 1) {
            return Err(MalformedLine);
        }
        let (_, stamp) = cut(stamp_part, 1);
        let p2 = match find_ascii(rest1, 47) {
            None => return Ok(None),
            Some(p) => p,
        };
        let (thread_part, rest2) = cut(rest1, p2);
        if !can_cut(thread_part, 3) {
            return Err(MalformedLine);
        }
        let (_, thread_name) = cut(thread_part, 3);
        let p3 = match find_ascii(rest2, 93) {
            None => return Ok(None),
            Some(p) => p,
        };
        let (type_part, rest3) = cut(rest2, p3);
        proof {
            assert(utf8(rest2)[0] == 47);
            lemma_ascii_is_boundary(utf8(rest2), 0);
            assert(p3 >= 1);
            assert(utf8(type_part)[0] == 47);
            lemma_ascii_is_boundary(utf8(type_part), 0);
        }
        let (_, type_text) = cut(type_part, 1);
        let (h, m, s) = match read_stamp(stamp) {
            None => return Err(MalformedLine),
            Some(t) => t,
        };
        let timestamp = match ClockTime::from_hms(h, m, s) {
            Some(t) => t,
            None => ClockTime::midnight(),
        };
        if !can_cut(rest3, 3) {
            return Err(MalformedLine);
        }
        let (_, msg) = cut(rest3, 3);
        Ok(
            Some(
                ConsoleMsg {
                    timestamp,
                    thread_name: copy_str(thread_name),
                    msg_type: ConsoleMsgType::parse_from(type_text),
                    msg: copy_str(msg),
                },
            ),
        )
    }

    /// Constructs a `ConsoleMsg` from a line of console output.
    pub fn try_parse_from(raw: &str) -> (r: Option<ConsoleMsg>)
        requires
            !(read_console_line(utf8(raw)) is Malformed),
        ensures
            match read_console_line(utf8(raw)) {
                Reading::Recognised(m) => r matches Some(v) && v@ == m,
                _ => r is None,
            },
    {
        match ConsoleMsg::read_line(raw) {
            Ok(r) => r,
            Err(_) => None,
        }
    }
}

/// Printing a message type gives back the text it was read from.
pub proof fn lemma_msg_type_text_round_trip(raw: Seq<u8>)
    ensures
        msg_type_text(msg_type_of(raw)) == raw,
{
}

} // verus!
