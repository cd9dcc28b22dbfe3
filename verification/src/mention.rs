//! Mentions in chat messages: `<@123>`, `<@!123>`, `<@&123>`, `<#123>`,
//! `<:name:123>`, and the spans of text and mentions a message is made of.
//!
//! Positions are byte offsets into the UTF-8 encoding of the message.
use vstd::prelude::*;

use crate::text::{
    cut, cuttable, find_ascii, find_pattern, first_byte, first_occurrence, lemma_ascii_is_boundary,
    lemma_first_byte_facts, lemma_first_occurrence_facts, occurs_at, parse_unsigned,
    parse_unsigned_bytes, skip, utf8, bytes,
};
use crate::players::lemma_encode_concat;
use crate::render::push_text;
use vstd::utf8::encode_utf8;

verus! {

broadcast use vstd::utf8::encode_utf8_valid_utf8;

/// What a mention points at, with its id.
#[derive(Clone, Copy, Debug, PartialEq, Eq)]
pub enum MentionType {
    Channel(u64),
    Emoji(u64),
    Role(u64),
    User(u64),
}

/// The id an inner mention text ends with, read as a `u64` is read.
pub open spec fn id_in(b: Seq<u8>) -> Option<u64> {
    match parse_unsigned(b, u64::MAX as nat) {
        Some(v) => Some(v as u64),
        None => None,
    }
}

/// What the inside of `<...>` mentions, if it is a mention: `@!id` and `@id`
/// a user, `@&id` a role, `#id` a channel, `:name:id` an emoji.
pub open spec fn mention_in(b: Seq<u8>) -> Option<MentionType> {
    if b.len() >= 2 && b[0] == 64 && b[1] == 33 {
        match id_in(skip(b, 2)) {
            Some(id) => Some(MentionType::User(id)),
            None => None,
        }
    } else if b.len() >= 2 && b[0] == 64 && b[1] == 38 {
        match id_in(skip(b, 2)) {
            Some(id) => Some(MentionType::Role(id)),
            None => None,
        }
    } else if b.len() >= 1 && b[0] == 64 {
        match id_in(skip(b, 1)) {
            Some(id) => Some(MentionType::User(id)),
            None => None,
        }
    } else if b.len() >= 1 && b[0] == 58 {
        match first_byte(skip(b, 1), 58) {
            Some(i) => match id_in(skip(skip(b, 1), i + 1)) {
                Some(id) => Some(MentionType::Emoji(id)),
                None => None,
            },
            None => None,
        }
    } else if b.len() >= 1 && b[0] == 35 {
        match id_in(skip(b, 1)) {
            Some(id) => Some(MentionType::Channel(id)),
            None => None,
        }
    } else {
        None
    }
}

/// The mention forms, for an id written as decimal digits: `@!ID` and `@ID`
/// mention a user, `@&ID` a role, `#ID` a channel and `:NAME:ID` (a name
/// without `:`) an emoji, each with the id's value.
pub proof fn lemma_mention_forms(digits: Seq<u8>, name: Seq<u8>)
    requires
        digits.len() > 0,
        forall|i: int| 0 <= i < digits.len() ==> crate::text::is_digit(#[trigger] digits[i]),
        crate::text::digits_value(digits) <= u64::MAX,
        forall|i: int| 0 <= i < name.len() ==> name[i] != 58,
    ensures
        ({
            let id = crate::text::digits_value(digits) as u64;
            &&& mention_in(seq![64u8, 33u8] + digits) == Some(MentionType::User(id))
            &&& mention_in(seq![64u8] + digits) == Some(MentionType::User(id))
            &&& mention_in(seq![64u8, 38u8] + digits) == Some(MentionType::Role(id))
            &&& mention_in(seq![35u8] + digits) == Some(MentionType::Channel(id))
            &&& mention_in(seq![58u8] + name + seq![58u8] + digits) == Some(MentionType::Emoji(id))
        }),
{
    assert(crate::text::unsigned_digits(digits) == digits);
    assert(skip(seq![64u8, 33u8] + digits, 2) =~= digits);
    assert(skip(seq![64u8, 38u8] + digits, 2) =~= digits);
    assert(skip(seq![64u8] + digits, 1) =~= digits);
    assert(skip(seq![35u8] + digits, 1) =~= digits);
    let b = seq![58u8] + name + seq![58u8] + digits;
    let rest = skip(b, 1);
    assert(rest =~= name + seq![58u8] + digits);
    let n = name.len() as int;
    assert(rest[n] == 58u8);
    assert(forall|j: int| 0 <= j < n ==> rest[j] == name[j]);
    assert(crate::text::is_first_byte(rest, 58, n));
    crate::text::lemma_first_byte_unique(rest, 58, n);
    assert(skip(rest, n + 1) =~= digits);
    assert((seq![64u8] + digits)[1] == digits[0]);
}

/// Reads an id as `u64` is read from a string.
fn read_id(b: &[u8]) -> (r: Option<u64>)
    ensures
        r == id_in(b@),
{
    parse_unsigned_bytes(b, u64::MAX)
}

impl MentionType {
    /// Reads the inside of a mention (without its `<` and `>`), such as `@!21984`.
    pub fn try_parse(buf: &str) -> (r: Option<MentionType>)
        ensures
            r == mention_in(utf8(buf)),
    {
        let b = buf.as_bytes();
        let n = b.len();
        if n >= 2 && b[0] == 64 && b[1] == 33 {
            match read_id(&b[2..n]) {
                Some(id) => Some(MentionType::User(id)),
                None => None,
            }
        } else if n >= 2 && b[0] == 64 && b[1] == 38 {
            match read_id(&b[2..n]) {
                Some(id) => Some(MentionType::Role(id)),
                None => None,
            }
        } else if n >= 1 && b[0] == 64 {
            match read_id(&b[1..n]) {
                Some(id) => Some(MentionType::User(id)),
                None => None,
            }
        } else if n >= 1 && b[0] == 58 {
            let rest = &b[1..n];
            let m = rest.len();
            match crate::text::find_byte(rest, 58) {
                Some(i) => {
                    proof {
                        lemma_first_byte_facts(rest@, 58);
                    }
                    match read_id(&rest[i + 1..m]) {
                        Some(id) => Some(MentionType::Emoji(id)),
                        None => None,
                    }
                },
                None => None,
            }
        } else if n >= 1 && b[0] == 35 {
            match read_id(&b[1..n]) {
                Some(id) => Some(MentionType::Channel(id)),
                None => None,
            }
        } else {
            None
        }
    }
}

/// Where `pat` next occurs in `s` after byte `idx`, as `str::find` finds it in
/// what follows `idx`; `None` also when `s` cannot be cut after `idx`.
pub open spec fn found_after(s: Seq<u8>, idx: int, pat: Seq<u8>) -> Option<int> {
    if cuttable(s, idx + 1) {
        match first_occurrence(skip(s, idx + 1), pat) {
            Some(j) => Some(j + idx + 1),
            None => None,
        }
    } else {
        None
    }
}

/// Looks for `slice` in `s` after byte `idx`.
pub fn find_after(s: &str, idx: usize, slice: &str) -> (r: Option<usize>)
    requires
        idx < usize::MAX,
    ensures
        r matches Some(i) ==> found_after(utf8(s), idx as int, utf8(slice)) == Some(i as int),
        r is None ==> found_after(utf8(s), idx as int, utf8(slice)) is None,
{
    let b = s.as_bytes();
    let n = b.len();
    if idx + 1 > n || !s.is_char_boundary(idx + 1) {
        return None;
    }
    let rest = &b[idx + 1..n];
    proof {
        assert(rest@ =~= skip(utf8(s), idx + 1));
    }
    match find_pattern(rest, slice.as_bytes()) {
        Some(j) => Some(j + idx + 1),
        None => None,
    }
}

/* Spans */

/// The first `<` of `b` and the first `>` after it, if both are there.
pub open spec fn brackets(b: Seq<u8>) -> Option<(int, int)> {
    match first_byte(b, 60) {
        Some(start) => match found_after(b, start, seq![62u8]) {
            Some(end) => Some((start, end)),
            None => None,
        },
        None => None,
    }
}

/// Where the brackets are when they are there.
pub proof fn lemma_brackets(b: Seq<u8>)
    ensures
        brackets(b) matches Some((start, end)) ==> 0 <= start < end < b.len() && b[start] == 60
            && b[end] == 62,
{
    lemma_first_byte_facts(b, 60);
    if let Some(start) = first_byte(b, 60) {
        lemma_first_occurrence_facts(skip(b, start + 1), seq![62u8]);
        if let Some(j) = first_occurrence(skip(b, start + 1), seq![62u8]) {
            assert(occurs_at(skip(b, start + 1), seq![62u8], j));
            assert(skip(b, start + 1).subrange(j, j + 1)[0] == 62);
        }
    }
}

/// A span of a message: `None` and plain text, or a mention and the text it
/// was read from (`<` to `>`).
pub type SpanView = (Option<MentionType>, Seq<u8>);

/// The spans a message is read into, in order: text up to the first `<` that
/// has a `>` after it; then, if what lies between reads as a mention, that
/// mention, else the text through the `>` joins the text before it; and so on
/// with what follows the `>`. A text span may be empty.
pub open spec fn spans_of(b: Seq<u8>) -> Seq<SpanView>
    decreases b.len(),
{
    if b.len() == 0 {
        seq![]
    } else {
        match brackets(b) {
            Some((start, end)) => {
                proof {
                    lemma_brackets(b);
                }
                let rest = skip(b, end + 1);
                match mention_in(b.subrange(start + 1, end)) {
                    Some(m) => seq![
                        (None::<MentionType>, b.subrange(0, start)),
                        (Some(m), b.subrange(start, end + 1)),
                    ] + spans_of(rest),
                    None => seq![(None::<MentionType>, b.subrange(0, end + 1))] + spans_of(rest),
                }
            },
            None => seq![(None::<MentionType>, b)],
        }
    }
}

/// The texts of the spans, one after another.
pub open spec fn joined(spans: Seq<SpanView>) -> Seq<u8>
    decreases spans.len(),
{
    if spans.len() == 0 {
        seq![]
    } else {
        spans[0].1 + joined(spans.drop_first())
    }
}

/// A part of a Discord message.
#[derive(Debug, PartialEq, Eq)]
pub enum MessageSpan<'a> {
    /// Plain text.
    Text(&'a str),
    /// A mention, and the text it was read from.
    Mention(MentionType, &'a str),
}

/// What a span holds, as bytes.
pub open spec fn span_view(s: MessageSpan) -> SpanView {
    match s {
        MessageSpan::Text(t) => (None, utf8(t)),
        MessageSpan::Mention(m, t) => (Some(m), utf8(t)),
    }
}

/// Reads a message span by span.
#[derive(Debug)]
pub struct MessageSpanIter<'a> {
    buf: &'a str,
    mention: Option<(MentionType, &'a str)>,
}

impl<'a> MessageSpan<'a> {
    /// Starts reading the spans of `buf`.
    pub fn iter(buf: &'a str) -> (r: MessageSpanIter<'a>)
        ensures
            r.remaining() == spans_of(utf8(buf)),
    {
        MessageSpanIter { buf, mention: None }
    }
}

/// Cuts a message around a `<` at byte `start` and a `>` at byte `end`: the
/// text before, the text from `<` to `>`, what lies between, and what follows.
fn cut_brackets<'b>(buf: &'b str, start: usize, end: usize) -> (r: (&'b str, &'b str, &'b str, &'b str))
    requires
        0 <= start < end < utf8(buf).len(),
        utf8(buf)[start as int] == 60,
        utf8(buf)[end as int] == 62,
    ensures
        utf8(r.0) == utf8(buf).subrange(0, start as int),
        utf8(r.1) == utf8(buf).subrange(start as int, end + 1),
        utf8(r.2) == utf8(buf).subrange(start + 1, end as int),
        utf8(r.3) == skip(utf8(buf), end + 1),
{
    let ghost b = utf8(buf);
    let _len = buf.as_bytes().len();
    proof {
        lemma_ascii_is_boundary(b, start as int);
    }
    let (before, from_start) = cut(buf, start);
    proof {
        lemma_ascii_is_boundary(utf8(from_start), end - start);
    }
    let (raw, rest) = cut(from_start, end - start + 1);
    proof {
        lemma_ascii_is_boundary(utf8(raw), 0);
    }
    let (_, tail) = cut(raw, 1);
    proof {
        lemma_ascii_is_boundary(utf8(tail), end - start - 1);
    }
    let (inner, _) = cut(tail, end - start - 1);
    proof {
        assert(utf8(inner) =~= b.subrange(start + 1, end as int));
        assert(utf8(raw) =~= b.subrange(start as int, end + 1));
        assert(utf8(rest) =~= skip(b, end + 1));
    }
    (before, raw, inner, rest)
}

/// Where the first `<` with a `>` after it is, and that `>`.
fn find_brackets(buf: &str) -> (r: Option<(usize, usize)>)
    ensures
        r matches Some((start, end)) ==> brackets(utf8(buf)) == Some((start as int, end as int)),
        r is None ==> brackets(utf8(buf)) is None,
{
    proof {
        reveal_strlit(">");
        vstd::utf8::is_ascii_chars_encode_utf8(">"@);
        assert(utf8(">") =~= seq![62u8]);
    }
    match find_ascii(buf, 60) {
        Some(start) => match find_after(buf, start, ">") {
            Some(end) => Some((start, end)),
            None => None,
        },
        None => None,
    }
}

/// The pending mention as a span sequence.
pub open spec fn pending_spans(p: Option<(MentionType, &str)>) -> Seq<SpanView> {
    match p {
        Some((m, raw)) => seq![(Some(m), utf8(raw))],
        None => seq![],
    }
}

/// Reads the first span of `buf`: the span, a mention read right after it
/// (to come next), and what is left to read.
fn first_span<'b>(buf: &'b str) -> (r: Option<(MessageSpan<'b>, Option<(MentionType, &'b str)>, &'b str)>)
    ensures
        r is None <==> spans_of(utf8(buf)).len() == 0,
        r matches Some((s, p, rest)) ==> seq![span_view(s)] + pending_spans(p) + spans_of(utf8(rest))
            == spans_of(utf8(buf)),
{
    let ghost b = utf8(buf);
    let len = buf.as_bytes().len();
    proof {
        lemma_brackets(b);
    }
    match find_brackets(buf) {
        Some((start, end)) => {
            let (before, raw, inner, rest) = cut_brackets(buf, start, end);
            match MentionType::try_parse(inner) {
                Some(m) => {
                    let r = (MessageSpan::Text(before), Some((m, raw)), rest);
                    proof {
                        assert(seq![span_view(r.0)] + pending_spans(r.1) + spans_of(utf8(rest)) =~= spans_of(b));
                    }
                    Some(r)
                },
                None => {
                    proof {
                        lemma_ascii_is_boundary(b, end as int);
                    }
                    let (text, rest) = cut(buf, end + 1);
                    let r = (MessageSpan::Text(text), None, rest);
                    proof {
                        assert(seq![span_view(r.0)] + pending_spans(r.1) + spans_of(utf8(rest)) =~= spans_of(b));
                    }
                    Some(r)
                },
            }
        },
        None => {
            if len == 0 {
                return None;
            }
            let r = (MessageSpan::Text(buf), None, "");
            proof {
                reveal_strlit("");
                assert(utf8("") =~= Seq::<u8>::empty());
                assert(seq![span_view(r.0)] + pending_spans(r.1) + spans_of(utf8("")) =~= spans_of(b));
            }
            Some(r)
        },
    }
}

impl<'a> MessageSpanIter<'a> {
    /// The spans still to come.
    pub closed spec fn remaining(&self) -> Seq<SpanView> {
        pending_spans(self.mention) + spans_of(utf8(self.buf))
    }

    /// The next span, if any is left.
    #[verifier::rlimit(30)]
    pub fn next(&mut self) -> (r: Option<MessageSpan<'a>>)
        ensures
            old(self).remaining().len() == 0 ==> r is None && final(self).remaining() == old(
                self,
            ).remaining(),
            old(self).remaining().len() > 0 ==> (r matches Some(s) && span_view(s) == old(
                self,
            ).remaining()[0] && final(self).remaining() == old(self).remaining().drop_first()),
    {
        if let Some((m, raw)) = self.mention {
            self.mention = None;
            proof {
                assert(final(self).remaining() =~= old(self).remaining().drop_first());
            }
            return Some(MessageSpan::Mention(m, raw));
        }
        proof {
            assert(old(self).remaining() =~= spans_of(utf8(self.buf)));
        }
        match first_span(self.buf) {
            Some((span, pending, rest)) => {
                self.mention = pending;
                self.buf = rest;
                proof {
                    assert(final(self).remaining() =~= old(self).remaining().drop_first());
                }
                Some(span)
            },
            None => None,
        }
    }
}

/// The views of a list of spans.
pub open spec fn span_views(v: Seq<MessageSpan>) -> Seq<SpanView> {
    v.map_values(|s: MessageSpan| span_view(s))
}

impl<'a> MessageSpan<'a> {
    /// All the spans of `buf`, in order.
    pub fn spans(buf: &'a str) -> (r: Vec<MessageSpan<'a>>)
        ensures
            span_views(r@) == spans_of(utf8(buf)),
    {
        let mut it = MessageSpan::iter(buf);
        let mut out: Vec<MessageSpan<'a>> = Vec::new();
        loop
            invariant
                span_views(out@) + it.remaining() == spans_of(utf8(buf)),
            ensures
                span_views(out@) == spans_of(utf8(buf)),
            decreases it.remaining().len(),
        {
            let ghost before = it.remaining();
            match it.next() {
                Some(s) => {
                    let ghost done = out@;
                    out.push(s);
                    proof {
                        assert(span_views(out@) =~= span_views(done).push(span_view(s)));
                        assert(span_views(out@) + it.remaining() =~= span_views(done) + before);
                    }
                },
                None => {
                    proof {
                        assert(span_views(out@) + it.remaining() =~= span_views(out@));
                    }
                    break;
                },
            }
        }
        out
    }
}

/// Every mention span holds its text from `<` to `>`: at least two bytes,
/// the first `<` and the last `>`.
pub proof fn lemma_mention_spans_bracketed(b: Seq<u8>)
    ensures
        forall|i: int|
            0 <= i < spans_of(b).len() && (#[trigger] spans_of(b)[i]).0 is Some ==> {
                let t = spans_of(b)[i].1;
                t.len() >= 2 && t[0] == 60 && t[t.len() - 1] == 62
            },
    decreases b.len(),
{
    if b.len() > 0 {
        lemma_brackets(b);
        match brackets(b) {
            Some((start, end)) => {
                let rest = skip(b, end + 1);
                lemma_mention_spans_bracketed(rest);
                let tail = spans_of(rest);
                let s = spans_of(b);
                match mention_in(b.subrange(start + 1, end)) {
                    Some(m) => {
                        assert forall|i: int|
                            0 <= i < s.len() && (#[trigger] s[i]).0 is Some implies {
                                let t = s[i].1;
                                t.len() >= 2 && t[0] == 60 && t[t.len() - 1] == 62
                            } by {
                            if i >= 2 {
                                assert(s[i] == tail[i - 2]);
                            }
                        }
                    },
                    None => {
                        assert forall|i: int|
                            0 <= i < s.len() && (#[trigger] s[i]).0 is Some implies {
                                let t = s[i].1;
                                t.len() >= 2 && t[0] == 60 && t[t.len() - 1] == 62
                            } by {
                            if i >= 1 {
                                assert(s[i] == tail[i - 1]);
                            }
                        }
                    },
                }
            },
            None => {},
        }
    }
}

/// The spans of a message, one after another, give back the message.
pub proof fn lemma_spans_join(b: Seq<u8>)
    ensures
        joined(spans_of(b)) == b,
    decreases b.len(),
{
    if b.len() > 0 {
        lemma_brackets(b);
        match brackets(b) {
            Some((start, end)) => {
                let rest = skip(b, end + 1);
                lemma_spans_join(rest);
                let tail = spans_of(rest);
                match mention_in(b.subrange(start + 1, end)) {
                    Some(m) => {
                        let s = spans_of(b);
                        assert(s.drop_first().drop_first() =~= tail);
                        assert(s[0].1 == b.subrange(0, start));
                        assert(s.drop_first()[0].1 == b.subrange(start, end + 1));
                        assert(joined(s.drop_first()) == s.drop_first()[0].1 + joined(
                            s.drop_first().drop_first(),
                        ));
                        assert(joined(s) == s[0].1 + joined(s.drop_first()));
                        assert(b =~= b.subrange(0, start) + (b.subrange(start, end + 1) + rest));
                    },
                    None => {
                        let s = spans_of(b);
                        assert(s.drop_first() =~= tail);
                        assert(joined(s) == s[0].1 + joined(s.drop_first()));
                        assert(b =~= b.subrange(0, end + 1) + rest);
                    },
                }
            },
            None => {
                let s = spans_of(b);
                assert(s.drop_first() =~= Seq::<SpanView>::empty());
                assert(joined(s) == s[0].1 + joined(s.drop_first()));
                assert(b + Seq::<u8>::empty() =~= b);
            },
        }
    }
}

/* Writing mentions out by name */

/// What is known of what a message mentions: the names given for mentioned
/// users, the roles the message mentions, and what the chat client's cache
/// holds of channel, emoji and role names and of users (name, discriminator).
#[derive(Debug)]
pub struct MentionInfo {
    pub user_names: Vec<(u64, String)>,
    pub mention_roles: Vec<u64>,
    pub channel_names: Vec<(u64, String)>,
    pub emoji_names: Vec<(u64, String)>,
    pub role_names: Vec<(u64, String)>,
    pub users: Vec<(u64, String, String)>,
}

/// The name listed first under `id`.
pub open spec fn lookup(list: Seq<(u64, String)>, id: u64) -> Option<Seq<char>>
    decreases list.len(),
{
    if list.len() == 0 {
        None
    } else if list[0].0 == id {
        Some(list[0].1@)
    } else {
        lookup(list.drop_first(), id)
    }
}

/// The user listed first under `id`, as `name#discriminator`.
pub open spec fn user_tag(list: Seq<(u64, String, String)>, id: u64) -> Option<Seq<char>>
    decreases list.len(),
{
    if list.len() == 0 {
        None
    } else if list[0].0 == id {
        Some(list[0].1@ + "#"@ + list[0].2@)
    } else {
        user_tag(list.drop_first(), id)
    }
}

/// How a mention is written out: by name where the name is known, else as
/// it was written (`raw`).
pub open spec fn mention_text(m: MentionType, raw: Seq<u8>, info: MentionInfo) -> Seq<u8> {
    match m {
        MentionType::Channel(id) => match lookup(info.channel_names@, id) {
            Some(n) => encode_utf8("#"@ + n),
            None => raw,
        },
        MentionType::Emoji(id) => match lookup(info.emoji_names@, id) {
            Some(n) => encode_utf8(":"@ + n + ":"@),
            None => raw,
        },
        MentionType::Role(id) => if info.mention_roles@.contains(id) {
            match lookup(info.role_names@, id) {
                Some(n) => encode_utf8("@"@ + n),
                None => raw,
            }
        } else {
            raw
        },
        MentionType::User(id) => match lookup(info.user_names@, id) {
            Some(n) => encode_utf8("@"@ + n),
            None => raw,
        },
    }
}

/// How a span is written out.
pub open spec fn span_text(s: SpanView, info: MentionInfo) -> Seq<u8> {
    match s.0 {
        Some(m) => mention_text(m, s.1, info),
        None => s.1,
    }
}

/// The spans written out, one after another.
pub open spec fn formatted(spans: Seq<SpanView>, info: MentionInfo) -> Seq<u8>
    decreases spans.len(),
{
    if spans.len() == 0 {
        seq![]
    } else {
        formatted(spans.drop_last(), info) + span_text(spans.last(), info)
    }
}

/// A piece of a Minecraft chat message: its text, whether it is blue, and
/// the text shown when hovering over it.
#[derive(Debug, PartialEq, Eq)]
pub struct ChatPiece {
    pub text: String,
    pub blue: bool,
    pub hover: Option<String>,
}

/// The chat piece a span becomes: its text as written out; mentions of
/// channels, roles and users in blue; over a user known to the cache, the
/// user's tag.
pub open spec fn piece_of(s: SpanView, info: MentionInfo) -> (Seq<u8>, bool, Option<Seq<char>>) {
    match s.0 {
        Some(MentionType::Emoji(_)) => (span_text(s, info), false, None),
        Some(MentionType::User(id)) => (span_text(s, info), true, user_tag(info.users@, id)),
        Some(_) => (span_text(s, info), true, None),
        None => (s.1, false, None),
    }
}

/// Mentions of channels, roles and users are shown in blue; emoji and plain
/// text are not.
pub proof fn lemma_piece_colour(s: SpanView, info: MentionInfo)
    ensures
        piece_of(s, info).1 == (match s.0 {
            Some(MentionType::Channel(_)) => true,
            Some(MentionType::Role(_)) => true,
            Some(MentionType::User(_)) => true,
            Some(MentionType::Emoji(_)) => false,
            None => false,
        }),
{
}

/// What a chat piece holds.
pub open spec fn piece_view(p: ChatPiece) -> (Seq<u8>, bool, Option<Seq<char>>) {
    (
        bytes(p.text),
        p.blue,
        match p.hover {
            Some(h) => Some(h@),
            None => None,
        },
    )
}

/// Finds the name listed first under `id`.
fn find_name(list: &Vec<(u64, String)>, id: u64) -> (r: Option<&String>)
    ensures
        r matches Some(n) ==> lookup(list@, id) == Some(n@),
        r is None ==> lookup(list@, id) is None,
{
    let mut i: usize = 0;
    proof {
        assert(list@.subrange(0, list@.len() as int) =~= list@);
    }
    while i < list.len()
        invariant
            0 <= i <= list@.len(),
            lookup(list@, id) == lookup(list@.subrange(i as int, list@.len() as int), id),
        decreases list@.len() - i,
    {
        proof {
            assert(list@.subrange(i as int, list@.len() as int).drop_first() =~= list@.subrange(
                i + 1,
                list@.len() as int,
            ));
        }
        if list[i].0 == id {
            return Some(&list[i].1);
        }
        i = i + 1;
    }
    None
}

/// Finds the user listed first under `id`, as `name#discriminator`.
fn find_user_tag(list: &Vec<(u64, String, String)>, id: u64) -> (r: Option<String>)
    ensures
        r matches Some(t) ==> user_tag(list@, id) == Some(t@),
        r is None ==> user_tag(list@, id) is None,
{
    let mut i: usize = 0;
    proof {
        assert(list@.subrange(0, list@.len() as int) =~= list@);
    }
    while i < list.len()
        invariant
            0 <= i <= list@.len(),
            user_tag(list@, id) == user_tag(list@.subrange(i as int, list@.len() as int), id),
        decreases list@.len() - i,
    {
        proof {
            assert(list@.subrange(i as int, list@.len() as int).drop_first() =~= list@.subrange(
                i + 1,
                list@.len() as int,
            ));
        }
        if list[i].0 == id {
            let mut tag = list[i].1.clone();
            push_text(&mut tag, "#");
            push_text(&mut tag, list[i].2.as_str());
            return Some(tag);
        }
        i = i + 1;
    }
    None
}

/// Whether `id` is in the list.
fn has_id(list: &Vec<u64>, id: u64) -> (r: bool)
    ensures
        r == list@.contains(id),
{
    let mut i: usize = 0;
    while i < list.len()
        invariant
            0 <= i <= list@.len(),
            forall|k: int| 0 <= k < i ==> list@[k] != id,
        decreases list@.len() - i,
    {
        if list[i] == id {
            return true;
        }
        i = i + 1;
    }
    false
}

/// `prefix`, the name, and `suffix`, as one string.
fn decorated(prefix: &str, name: &String, suffix: &str) -> (r: String)
    ensures
        r@ == prefix@ + name@ + suffix@,
{
    let mut out = String::new();
    push_text(&mut out, prefix);
    push_text(&mut out, name.as_str());
    push_text(&mut out, suffix);
    proof {
        assert(out@ =~= prefix@ + name@ + suffix@);
    }
    out
}

/// Writes out a mention.
fn write_mention(m: MentionType, raw: &str, info: &MentionInfo) -> (r: String)
    ensures
        bytes(r) == mention_text(m, utf8(raw), *info),
{
    proof {
        reveal_strlit("");
        assert(""@ =~= Seq::<char>::empty());
        assert(forall|t: Seq<char>| #![auto] t + Seq::<char>::empty() =~= t);
    }
    match m {
        MentionType::Channel(id) => match find_name(&info.channel_names, id) {
            Some(n) => decorated("#", n, ""),
            None => raw.to_owned(),
        },
        MentionType::Emoji(id) => match find_name(&info.emoji_names, id) {
            Some(n) => decorated(":", n, ":"),
            None => raw.to_owned(),
        },
        MentionType::Role(id) => {
            if has_id(&info.mention_roles, id) {
                match find_name(&info.role_names, id) {
                    Some(n) => decorated("@", n, ""),
                    None => raw.to_owned(),
                }
            } else {
                raw.to_owned()
            }
        },
        MentionType::User(id) => match find_name(&info.user_names, id) {
            Some(n) => decorated("@", n, ""),
            None => raw.to_owned(),
        },
    }
}

/// Writes out the mentions in `content` by name where the names are known.
/// Returns the text, and the pieces of a Minecraft chat message that says
/// the same.
pub fn format_mentions_in(content: &str, info: &MentionInfo) -> (r: (String, Vec<ChatPiece>))
    ensures
        bytes(r.0) == formatted(spans_of(utf8(content)), *info),
        r.1@.map_values(|p: ChatPiece| piece_view(p)) == spans_of(utf8(content)).map_values(
            |s: SpanView| piece_of(s, *info),
        ),
        r.1@.len() == spans_of(utf8(content)).len(),
        forall|i: int|
            0 <= i < r.1@.len() ==> (#[trigger] r.1@[i]).blue == (match spans_of(utf8(content))[i].0 {
                Some(MentionType::Channel(_)) => true,
                Some(MentionType::Role(_)) => true,
                Some(MentionType::User(_)) => true,
                Some(MentionType::Emoji(_)) => false,
                None => false,
            }),
{
    let spans = MessageSpan::spans(content);
    let ghost sv = spans_of(utf8(content));
    let mut out = String::new();
    let mut pieces: Vec<ChatPiece> = Vec::new();
    let n = spans.len();
    let mut i: usize = 0;
    while i < n
        invariant
            n == spans@.len(),
            i <= n,
            sv == span_views(spans@),
            bytes(out) == formatted(sv.take(i as int), *info),
            pieces@.map_values(|p: ChatPiece| piece_view(p)) == sv.take(i as int).map_values(
                |s: SpanView| piece_of(s, *info),
            ),
        decreases n - i,
    {
        let ghost before = out@;
        let ghost done = pieces@;
        let piece = match spans[i] {
            MessageSpan::Text(t) => ChatPiece { text: t.to_owned(), blue: false, hover: None },
            MessageSpan::Mention(m, raw) => {
                let text = write_mention(m, raw, info);
                match m {
                    MentionType::Emoji(_) => ChatPiece { text, blue: false, hover: None },
                    MentionType::User(id) => ChatPiece {
                        text,
                        blue: true,
                        hover: find_user_tag(&info.users, id),
                    },
                    _ => ChatPiece { text, blue: true, hover: None },
                }
            },
        };
        push_text(&mut out, piece.text.as_str());
        pieces.push(piece);
        proof {
            let s = sv[i as int];
            assert(sv.take(i + 1).drop_last() =~= sv.take(i as int));
            assert(sv.take(i + 1).last() == s);
            lemma_encode_concat(before, piece.text@);
            assert(bytes(piece.text) == span_text(s, *info));
            assert(pieces@.map_values(|p: ChatPiece| piece_view(p)) =~= done.map_values(
                |p: ChatPiece| piece_view(p),
            ).push(piece_view(piece)));
            assert(sv.take(i + 1).map_values(|s: SpanView| piece_of(s, *info)) =~= sv.take(
                i as int,
            ).map_values(|s: SpanView| piece_of(s, *info)).push(piece_of(s, *info)));
        }
        i = i + 1;
    }
    proof {
        assert(sv.take(n as int) =~= sv);
    }
    proof {
        let pv = pieces@.map_values(|p: ChatPiece| piece_view(p));
        assert(pv.len() == pieces@.len());
        assert forall|k: int| 0 <= k < pieces@.len() implies (#[trigger] pieces@[k]).blue == (
        match sv[k].0 {
            Some(MentionType::Channel(_)) => true,
            Some(MentionType::Role(_)) => true,
            Some(MentionType::User(_)) => true,
            Some(MentionType::Emoji(_)) => false,
            None => false,
        }) by {
            assert(pv[k] == piece_view(pieces@[k]));
            lemma_piece_colour(sv[k], *info);
        }
    }
    (out, pieces)
}

/// No name of a user, channel, emoji or role is known.
pub open spec fn knows_no_names(info: MentionInfo) -> bool {
    &&& info.user_names@.len() == 0
    &&& info.channel_names@.len() == 0
    &&& info.emoji_names@.len() == 0
    &&& info.role_names@.len() == 0
}

proof fn lemma_joined_last(spans: Seq<SpanView>)
    requires
        spans.len() > 0,
    ensures
        joined(spans) == joined(spans.drop_last()) + spans.last().1,
    decreases spans.len(),
{
    if spans.len() == 1 {
        assert(spans.drop_first() =~= Seq::<SpanView>::empty());
        assert(spans.drop_last() =~= Seq::<SpanView>::empty());
        assert(joined(spans) =~= joined(spans.drop_last()) + spans.last().1);
    } else {
        lemma_joined_last(spans.drop_first());
        assert(spans.drop_first().drop_last() =~= spans.drop_last().drop_first());
        assert(joined(spans.drop_last()) == spans.drop_last()[0].1 + joined(
            spans.drop_last().drop_first(),
        ));
        assert(joined(spans) =~= joined(spans.drop_last()) + spans.last().1);
    }
}

proof fn lemma_formatted_plain(spans: Seq<SpanView>, info: MentionInfo)
    requires
        knows_no_names(info),
    ensures
        formatted(spans, info) == joined(spans),
    decreases spans.len(),
{
    if spans.len() > 0 {
        lemma_formatted_plain(spans.drop_last(), info);
        lemma_joined_last(spans);
    }
}

/// Where no names are known, a message is written out as it came.
pub proof fn lemma_unknown_mentions_kept(b: Seq<u8>, info: MentionInfo)
    requires
        knows_no_names(info),
    ensures
        formatted(spans_of(b), info) == b,
{
    lemma_formatted_plain(spans_of(b), info);
    lemma_spans_join(b);
}

/// The texts of chat pieces, one after another.
pub open spec fn piece_texts(pieces: Seq<(Seq<u8>, bool, Option<Seq<char>>)>) -> Seq<u8>
    decreases pieces.len(),
{
    if pieces.len() == 0 {
        seq![]
    } else {
        piece_texts(pieces.drop_last()) + pieces.last().0
    }
}

/// The Minecraft chat message says what the text says: the texts of the
/// chat pieces of a message, one after another, are its written-out text.
pub proof fn lemma_pieces_say_the_same(spans: Seq<SpanView>, info: MentionInfo)
    ensures
        piece_texts(spans.map_values(|s: SpanView| piece_of(s, info))) == formatted(spans, info),
    decreases spans.len(),
{
    if spans.len() > 0 {
        lemma_pieces_say_the_same(spans.drop_last(), info);
        let ps = spans.map_values(|s: SpanView| piece_of(s, info));
        assert(ps.drop_last() =~= spans.drop_last().map_values(|s: SpanView| piece_of(s, info)));
    }
}

} // verus!
