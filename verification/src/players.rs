//! Who is playing: the sentences that tell a chat channel, a chat command and
//! the bot's status line which players are online.
use vstd::prelude::*;
use vstd::utf8::*;

use crate::order::{
    lemma_lex_irreflexive, lemma_lex_total, lemma_lex_transitive, lex_lt, name_less, sort_names,
    sorted_names, views,
};
use crate::render::{decimal, push_decimal, push_text};
use crate::text::same_bytes;

verus! {

broadcast use vstd::utf8::encode_utf8_decode_utf8;

/* Markdown */

/// The characters that mean something in Discord markdown.
pub open spec fn is_markdown_special(c: char) -> bool {
    c == '*' || c == '_' || c == '~' || c == '>' || c == '`'
}

/// `s` with a backslash in front of every markdown character.
pub open spec fn sanitized(s: Seq<char>) -> Seq<char>
    decreases s.len(),
{
    if s.len() == 0 {
        seq![]
    } else {
        let c = s.last();
        sanitized(s.drop_last()) + if is_markdown_special(c) {
            seq!['\\', c]
        } else {
            seq![c]
        }
    }
}

/// How many markdown characters `s` holds.
pub open spec fn markdown_special_count(s: Seq<char>) -> nat
    decreases s.len(),
{
    if s.len() == 0 {
        0
    } else {
        markdown_special_count(s.drop_last()) + if is_markdown_special(s.last()) {
            1nat
        } else {
            0nat
        }
    }
}

/// Escaping adds one character, a backslash, for every markdown character.
pub proof fn lemma_sanitized_len(s: Seq<char>)
    ensures
        sanitized(s).len() == s.len() + markdown_special_count(s),
    decreases s.len(),
{
    if s.len() > 0 {
        lemma_sanitized_len(s.drop_last());
    }
}

/// Escaping two texts one after the other is escaping each, one after the
/// other: every character is escaped on its own.
pub proof fn lemma_sanitized_concat(a: Seq<char>, b: Seq<char>)
    ensures
        sanitized(a + b) == sanitized(a) + sanitized(b),
    decreases b.len(),
{
    if b.len() == 0 {
        assert(a + b =~= a);
        assert(sanitized(a) + sanitized(b) =~= sanitized(a));
    } else {
        assert((a + b).drop_last() =~= a + b.drop_last());
        assert((a + b).last() == b.last());
        lemma_sanitized_concat(a, b.drop_last());
        let tail = if is_markdown_special(b.last()) {
            seq!['\\', b.last()]
        } else {
            seq![b.last()]
        };
        assert(sanitized(a + b) == sanitized(a + b.drop_last()) + tail);
        assert(sanitized(b) == sanitized(b.drop_last()) + tail);
        assert(sanitized(a) + sanitized(b.drop_last()) + tail =~= sanitized(a) + (sanitized(
            b.drop_last(),
        ) + tail));
    }
}

/// Escapes the given text for a markdown context.
pub fn sanitize_for_markdown(text: &str) -> (r: String)
    ensures
        r@ == sanitized(text@),
{
    let mut s = String::new();
    for c in it: text.chars()
        invariant
            it.seq() == text@,
            s@ == sanitized(text@.take(it.index() as int)),
    {
        let ghost i = it.index() as int;
        proof {
            assert(text@.take(i + 1).drop_last() =~= text@.take(i));
        }
        if c == '*' || c == '_' || c == '~' || c == '>' || c == '`' {
            s.push('\\');
            s.push(c);
        } else {
            s.push(c);
        }
        proof {
            assert(s@ =~= sanitized(text@.take(i + 1)));
        }
    }
    proof {
        assert(text@.take(text@.len() as int) =~= text@);
    }
    s
}


/* Sentences about who is online */

/// `name, ` for each of the names, in order.
pub open spec fn comma_list(names: Seq<Seq<char>>) -> Seq<char>
    decreases names.len(),
{
    if names.len() == 0 {
        seq![]
    } else {
        comma_list(names.drop_last()) + names.last() + ", "@
    }
}

/// ` (+ k more)`
pub open spec fn more_text(k: nat) -> Seq<char> {
    " (+ "@ + decimal(k) + " more)"@
}

/// A list of three or more names: the first three and a count of the rest
/// when `short`, else all of them, the last after an `and`.
pub open spec fn players_list(names: Seq<Seq<char>>, short: bool) -> Seq<char> {
    if short {
        names[0] + ", "@ + names[1] + ", and "@ + names[2] + if names.len() > 3 {
            more_text((names.len() - 3) as nat)
        } else {
            seq![]
        }
    } else {
        comma_list(names.drop_last()) + "and "@ + names.last()
    }
}

/// The sentence that says who is playing, for names already in order.
pub open spec fn players_sentence(names: Seq<Seq<char>>, short: bool) -> Seq<char> {
    if names.len() == 0 {
        "Nobody is playing Minecraft"@
    } else if names.len() == 1 {
        names[0] + " is playing Minecraft"@
    } else if names.len() == 2 {
        names[0] + " and "@ + names[1] + " are playing Minecraft"@
    } else {
        players_list(names, short) + " are playing Minecraft"@
    }
}

/// Appends `more_text(k)`.
fn push_more(out: &mut String, k: usize)
    ensures
        final(out)@ == old(out)@ + more_text(k as nat),
{
    push_text(out, " (+ ");
    push_decimal(out, k as u64);
    push_text(out, " more)");
    proof {
        assert(final(out)@ =~= old(out)@ + more_text(k as nat));
    }
}

/// Appends `players_list` of the given names.
fn push_players_list(out: &mut String, names: &[String], short: bool)
    requires
        short ==> names@.len() >= 3,
        names@.len() >= 1,
    ensures
        final(out)@ == old(out)@ + players_list(views(names@), short),
{
    let ghost v = views(names@);
    let n = names.len();
    if short {
        push_text(out, names[0].as_str());
        push_text(out, ", ");
        push_text(out, names[1].as_str());
        push_text(out, ", and ");
        push_text(out, names[2].as_str());
        let ghost mid = out@;
        if n > 3 {
            push_more(out, n - 3);
        }
        proof {
            assert(mid =~= old(out)@ + (v[0] + ", "@ + v[1] + ", and "@ + v[2]));
            assert(final(out)@ =~= old(out)@ + players_list(v, short));
        }
    } else {
        let mut i: usize = 0;
        while i + 1 < n
            invariant
                n == names@.len(),
                n >= 1,
                i + 1 <= n,
                v == views(names@),
                out@ == old(out)@ + comma_list(v.take(i as int)),
            decreases n - i,
        {
            push_text(out, names[i].as_str());
            push_text(out, ", ");
            proof {
                assert(v.take(i + 1).drop_last() =~= v.take(i as int));
                assert(out@ =~= old(out)@ + comma_list(v.take(i + 1)));
            }
            i = i + 1;
        }
        push_text(out, "and ");
        push_text(out, names[n - 1].as_str());
        proof {
            assert(v.take(i as int) =~= v.drop_last());
            assert(final(out)@ =~= old(out)@ + players_list(v, short));
        }
    }
}

/// Appends `players_sentence` of the given names.
fn push_players_sentence(out: &mut String, names: &[String], short: bool)
    ensures
        final(out)@ == old(out)@ + players_sentence(views(names@), short),
{
    let ghost v = views(names@);
    let n = names.len();
    if n == 0 {
        push_text(out, "Nobody is playing Minecraft");
    } else if n == 1 {
        push_text(out, names[0].as_str());
        push_text(out, " is playing Minecraft");
    } else if n == 2 {
        push_text(out, names[0].as_str());
        push_text(out, " and ");
        push_text(out, names[1].as_str());
        push_text(out, " are playing Minecraft");
    } else {
        push_players_list(out, names, short);
        push_text(out, " are playing Minecraft");
    }
    proof {
        assert(final(out)@ =~= old(out)@ + players_sentence(v, short));
    }
}

/// The channel topic that says who is playing: the names in `String` order,
/// three of them at most and a count of the rest. The names are a set of
/// players: none occurs twice.
pub fn format_online_players_topic(online_players: &[String]) -> (r: String)
    requires
        views(online_players@).no_duplicates(),
    ensures
        r@ == players_sentence(sorted_names(views(online_players@)), true),
{
    let sorted = sort_names(online_players);
    let mut out = String::new();
    push_players_sentence(&mut out, sorted.as_slice(), true);
    proof {
        assert(out@ =~= players_sentence(views(sorted@), true));
    }
    out
}


/* The players that are online */

/// When a player joined: the Unix time in nanoseconds.
#[derive(Clone, Copy, Debug, PartialEq, Eq)]
pub struct OnlinePlayerInfo {
    joined_at: i128,
}

/// Reads the clock: the current Unix time in nanoseconds
/// (`time::OffsetDateTime::now_utc` and its `unix_timestamp_nanos`). Nothing
/// is claimed of the value, which is whatever the clock says.
#[verifier::external_body]
fn now_unix_nanos() -> i128 {
    time::OffsetDateTime::now_utc().unix_timestamp_nanos()
}

impl OnlinePlayerInfo {
    /// A player who joined at the given Unix time in nanoseconds.
    pub fn joined_at_nanos(joined_at: i128) -> (r: Self)
        ensures
            r.joined_at() == joined_at,
    {
        OnlinePlayerInfo { joined_at }
    }

    /// A player who joins now, by the clock.
    pub fn now() -> Self {
        OnlinePlayerInfo { joined_at: now_unix_nanos() }
    }

    pub closed spec fn joined_at(&self) -> i128 {
        self.joined_at
    }

    /// When the player joined, as Unix time in nanoseconds.
    pub fn joined_at_unix_nanos(&self) -> (r: i128)
        ensures
            r == self.joined_at(),
    {
        self.joined_at
    }
}

impl Default for OnlinePlayerInfo {
    /// A player who joins now, by the clock.
    fn default() -> Self {
        OnlinePlayerInfo::now()
    }
}

/// The names of the entries, in the order they are kept.
pub open spec fn entry_names(e: Seq<(String, OnlinePlayerInfo)>) -> Seq<Seq<char>> {
    e.map_values(|p: (String, OnlinePlayerInfo)| p.0@)
}

/// The names come in strictly increasing `String` order.
pub open spec fn strictly_ordered(names: Seq<Seq<char>>) -> bool {
    forall|i: int, j: int|
        0 <= i < j < names.len() ==> lex_lt(
            encode_utf8(#[trigger] names[i]),
            encode_utf8(#[trigger] names[j]),
        )
}

/// The players on the server, each under their name, kept in `String` order of
/// their names (as a `BTreeMap<String, _>` keeps them).
pub struct OnlinePlayers {
    entries: Vec<(String, OnlinePlayerInfo)>,
}

impl View for OnlinePlayers {
    type V = Map<Seq<char>, OnlinePlayerInfo>;

    closed spec fn view(&self) -> Map<Seq<char>, OnlinePlayerInfo> {
        Map::new(
            |k: Seq<char>| self.names().contains(k),
            |k: Seq<char>| self.entries@[self.names().index_of(k)].1,
        )
    }
}

/// In a list without repeats, a name is found where it stands.
proof fn lemma_index_of_unique(names: Seq<Seq<char>>, i: int)
    requires
        strictly_ordered(names),
        0 <= i < names.len(),
    ensures
        names.contains(names[i]),
        names.index_of(names[i]) == i,
{
    assert(names[i] == names[i]);
    let j = names.index_of(names[i]);
    if j != i {
        lemma_lex_irreflexive(encode_utf8(names[i]));
    }
}

impl OnlinePlayers {
    /// The entries are kept in strictly increasing order of their names.
    pub closed spec fn well_formed(&self) -> bool {
        strictly_ordered(entry_names(self.entries@))
    }

    /// The names of the online players, in `String` order.
    pub closed spec fn names(&self) -> Seq<Seq<char>> {
        entry_names(self.entries@)
    }

    /// Nobody is online.
    pub fn new() -> (r: Self)
        ensures
            r.well_formed(),
            r@ == Map::<Seq<char>, OnlinePlayerInfo>::empty(),
            r.names() == Seq::<Seq<char>>::empty(),
    {
        let r = OnlinePlayers { entries: Vec::new() };
        proof {
            assert(r@ =~= Map::<Seq<char>, OnlinePlayerInfo>::empty());
            assert(r.names() =~= Seq::<Seq<char>>::empty());
        }
        r
    }

    /// The names are the players' names, each once, in `String` order.
    pub proof fn lemma_names_in_order(&self)
        requires
            self.well_formed(),
        ensures
            strictly_ordered(self.names()),
            self.names().no_duplicates(),
            forall|k: Seq<char>| self@.dom().contains(k) <==> self.names().contains(k),
            self@.dom().finite(),
            self@.dom().len() == self.names().len(),
    {
        let n = self.names();
        assert forall|i: int, j: int| 0 <= i < n.len() && 0 <= j < n.len() && i != j implies n[i]
            != n[j] by {
            if i < j {
                assert(lex_lt(encode_utf8(n[i]), encode_utf8(n[j])));
            } else {
                assert(lex_lt(encode_utf8(n[j]), encode_utf8(n[i])));
            }
            if n[i] == n[j] {
                lemma_lex_irreflexive(encode_utf8(n[i]));
            }
        }
        assert(self@.dom() =~= n.to_set());
        n.unique_seq_to_set();
    }

    /// How many players are online.
    pub fn len(&self) -> (r: usize)
        requires
            self.well_formed(),
        ensures
            r == self@.dom().len(),
            r == self.names().len(),
    {
        proof {
            self.lemma_names_in_order();
        }
        self.entries.len()
    }
    /// Records that the named player is online, replacing what was recorded
    /// under that name; returns what was replaced.
    pub fn insert(&mut self, name: String, info: OnlinePlayerInfo) -> (r: Option<OnlinePlayerInfo>)
        requires
            old(self).well_formed(),
        ensures
            final(self).well_formed(),
            final(self)@ == old(self)@.insert(name@, info),
            r == (if old(self)@.dom().contains(name@) {
                Some(old(self)@[name@])
            } else {
                None
            }),
    {
        let ghost names0 = self.names();
        let ghost entries0 = self.entries@;
        let n = self.entries.len();
        let mut p: usize = 0;
        while p < n && name_less(&self.entries[p].0, &name)
            invariant
                p <= n,
                n == self.entries@.len(),
                self.entries@ == entries0,
                names0 == entry_names(entries0),
                forall|k: int| 0 <= k < p ==> lex_lt(encode_utf8(#[trigger] names0[k]), encode_utf8(name@)),
            decreases n - p,
        {
            p = p + 1;
        }
        if p < n && self.entries[p].0 == name {
            let old_entry = self.entries.remove(p);
            let old_info = old_entry.1;
            self.entries.insert(p, (name, info));
            proof {
                assert(self.names() =~= names0);
                lemma_index_of_unique(names0, p as int);
                assert forall|k: Seq<char>| #[trigger] self@.dom().contains(k) implies self@[k]
                    == old(self)@.insert(name@, info)[k] by {
                    let q = names0.index_of(k);
                    lemma_index_of_unique(names0, q);
                }
                assert(self@ =~= old(self)@.insert(name@, info));
            }
            Some(old_info)
        } else {
            proof {
                if p < n {
                    lemma_lex_total(encode_utf8(names0[p as int]), encode_utf8(name@));
                    if encode_utf8(names0[p as int]) == encode_utf8(name@) {
                        assert(decode_utf8(encode_utf8(names0[p as int])) == decode_utf8(
                            encode_utf8(name@),
                        ));
                    }
                }
            }
            self.entries.insert(p, (name, info));
            proof {
                let names1 = self.names();
                assert(names1 =~= names0.insert(p as int, name@));
                assert forall|i: int, j: int| 0 <= i < j < names1.len() implies lex_lt(
                    encode_utf8(#[trigger] names1[i]),
                    encode_utf8(#[trigger] names1[j]),
                ) by {
                    if j == p {
                    } else if i == p {
                        if j - 1 > p {
                            assert(lex_lt(encode_utf8(names0[p as int]), encode_utf8(names0[j - 1])));
                            lemma_lex_transitive(
                                encode_utf8(name@),
                                encode_utf8(names0[p as int]),
                                encode_utf8(names0[j - 1]),
                            );
                        }
                    } else if j < p {
                        assert(lex_lt(encode_utf8(names0[i]), encode_utf8(names0[j])));
                    } else if i < p {
                        assert(lex_lt(encode_utf8(names0[i]), encode_utf8(names0[j - 1])));
                    } else {
                        assert(lex_lt(encode_utf8(names0[i - 1]), encode_utf8(names0[j - 1])));
                    }
                }
                assert(!names0.contains(name@)) by {
                    if names0.contains(name@) {
                        let q = names0.index_of(name@);
                        if q < p {
                            assert(lex_lt(encode_utf8(names0[q]), encode_utf8(name@)));
                            lemma_lex_irreflexive(encode_utf8(name@));
                        } else if q > p {
                            assert(lex_lt(encode_utf8(names0[p as int]), encode_utf8(names0[q])));
                            lemma_lex_transitive(
                                encode_utf8(name@),
                                encode_utf8(names0[p as int]),
                                encode_utf8(name@),
                            );
                            lemma_lex_irreflexive(encode_utf8(name@));
                        }
                    }
                }
                lemma_index_of_unique(names1, p as int);
                assert forall|k: Seq<char>| #[trigger] self@.dom().contains(k) implies self@[k]
                    == old(self)@.insert(name@, info)[k] && old(self)@.insert(
                    name@,
                    info,
                ).dom().contains(k) by {
                    if k != name@ {
                        let q = names0.index_of(k);
                        lemma_index_of_unique(names0, q);
                        if q < p {
                            lemma_index_of_unique(names1, q);
                        } else {
                            lemma_index_of_unique(names1, q + 1);
                        }
                    }
                }
                assert forall|k: Seq<char>| old(self)@.insert(name@, info).dom().contains(k)
                    implies #[trigger] self@.dom().contains(k) by {
                    if k != name@ {
                        let q = names0.index_of(k);
                        if q < p {
                            assert(names1[q] == k);
                        } else {
                            assert(names1[q + 1] == k);
                        }
                    }
                }
                assert(self@ =~= old(self)@.insert(name@, info));
            }
            None
        }
    }

    /// Records that the named player left; returns what was recorded.
    pub fn remove(&mut self, name: &str) -> (r: Option<OnlinePlayerInfo>)
        requires
            old(self).well_formed(),
        ensures
            final(self).well_formed(),
            final(self)@ == old(self)@.remove(name@),
            r == (if old(self)@.dom().contains(name@) {
                Some(old(self)@[name@])
            } else {
                None
            }),
    {
        let ghost names0 = self.names();
        let ghost entries0 = self.entries@;
        let n = self.entries.len();
        let mut i: usize = 0;
        while i < n && !same_bytes(self.entries[i].0.as_str().as_bytes(), name.as_bytes())
            invariant
                i <= n,
                n == self.entries@.len(),
                self.entries@ == entries0,
                names0 == entry_names(entries0),
                forall|k: int| 0 <= k < i ==> #[trigger] names0[k] != name@,
            decreases n - i,
        {
            proof {
                if names0[i as int] == name@ {
                    assert(encode_utf8(names0[i as int]) == encode_utf8(name@));
                }
            }
            i = i + 1;
        }
        if i == n {
            proof {
                assert(!names0.contains(name@));
                assert(self@ =~= old(self)@.remove(name@));
            }
            return None;
        }
        proof {
            assert(decode_utf8(encode_utf8(names0[i as int])) == decode_utf8(encode_utf8(name@)));
            lemma_index_of_unique(names0, i as int);
        }
        let old_entry = self.entries.remove(i);
        proof {
            let names1 = self.names();
            assert(names1 =~= names0.remove(i as int));
            assert forall|a: int, b: int| 0 <= a < b < names1.len() implies lex_lt(
                encode_utf8(#[trigger] names1[a]),
                encode_utf8(#[trigger] names1[b]),
            ) by {
                if b < i {
                    assert(lex_lt(encode_utf8(names0[a]), encode_utf8(names0[b])));
                } else if a < i {
                    assert(lex_lt(encode_utf8(names0[a]), encode_utf8(names0[b + 1])));
                } else {
                    assert(lex_lt(encode_utf8(names0[a + 1]), encode_utf8(names0[b + 1])));
                }
            }
            assert forall|k: Seq<char>| #[trigger] self@.dom().contains(k) implies self@[k]
                == old(self)@.remove(name@)[k] && old(self)@.remove(name@).dom().contains(k) by {
                let q = names1.index_of(k);
                lemma_index_of_unique(names1, q);
                if q < i {
                    lemma_index_of_unique(names0, q);
                } else {
                    lemma_index_of_unique(names0, q + 1);
                }
            }
            assert forall|k: Seq<char>| old(self)@.remove(name@).dom().contains(k)
                implies #[trigger] self@.dom().contains(k) by {
                let q = names0.index_of(k);
                if q < i {
                    assert(names1[q] == k);
                } else {
                    assert(names1[q - 1] == k);
                }
            }
            assert(self@ =~= old(self)@.remove(name@));
        }
        Some(old_entry.1)
    }
    /// The names with what is recorded of each, in `String` order of the names.
    pub fn list(&self) -> (r: Vec<(String, OnlinePlayerInfo)>)
        requires
            self.well_formed(),
        ensures
            r@.len() == self.names().len(),
            forall|i: int|
                0 <= i < r@.len() ==> (#[trigger] r@[i]).0@ == self.names()[i] && r@[i].1
                    == self@[self.names()[i]],
    {
        let n = self.entries.len();
        let mut out: Vec<(String, OnlinePlayerInfo)> = Vec::new();
        let mut i: usize = 0;
        while i < n
            invariant
                i <= n,
                n == self.entries@.len(),
                out@.len() == i,
                forall|k: int|
                    0 <= k < i ==> (#[trigger] out@[k]).0@ == self.names()[k] && out@[k].1
                        == self.entries@[k].1,
            decreases n - i,
        {
            let name = self.entries[i].0.clone();
            out.push((name, self.entries[i].1));
            i = i + 1;
        }
        proof {
            assert forall|k: int| 0 <= k < out@.len() implies out@[k].1 == self@[self.names()[k]] by {
                lemma_index_of_unique(self.names(), k);
            }
        }
        out
    }

    /// The names in order, escaped for markdown when `markdown`.
    fn name_strings(&self, markdown: bool) -> (r: Vec<String>)
        ensures
            views(r@) == if markdown {
                self.names().map_values(|n: Seq<char>| sanitized(n))
            } else {
                self.names()
            },
    {
        let n = self.entries.len();
        let mut out: Vec<String> = Vec::new();
        let mut i: usize = 0;
        while i < n
            invariant
                i <= n,
                n == self.entries@.len(),
                views(out@) == if markdown {
                    self.names().take(i as int).map_values(|n: Seq<char>| sanitized(n))
                } else {
                    self.names().take(i as int)
                },
            decreases n - i,
        {
            let name = if markdown {
                sanitize_for_markdown(self.entries[i].0.as_str())
            } else {
                self.entries[i].0.clone()
            };
            let ghost before = out@;
            out.push(name);
            proof {
                assert(views(out@) =~= views(before).push(name@));
                assert(self.names().take(i + 1) =~= self.names().take(i as int).push(self.names()[i as int]));
                if markdown {
                    assert(self.names().take(i + 1).map_values(|n: Seq<char>| sanitized(n)) =~= self.names().take(i as int).map_values(|n: Seq<char>| sanitized(n)).push(sanitized(self.names()[i as int])));
                }
            }
            i = i + 1;
        }
        proof {
            assert(self.names().take(n as int) =~= self.names());
        }
        out
    }
}

/* The sentence for a chat command, and the bot's status line */

/// The forms the sentence about online players can take.
#[derive(Clone, Copy, Debug, PartialEq, Eq)]
pub enum OnlinePlayerFormat {
    /// The answer to a chat command.
    CommandResponse {
        /// Name three players at most and count the rest.
        short: bool,
    },
    /// The bot's status line.
    BotStatus,
}

/// The byte length of the UTF-8 encoding of `s`.
pub open spec fn byte_len(s: Seq<char>) -> nat {
    encode_utf8(s).len()
}

/// The status line fills up name by name: from the `i`-th name on, with
/// `text` written so far, the text and the count of names written once it
/// stops. A name goes in when the text, the name and a separator stay within
/// 95 bytes; the last name always goes in.
pub open spec fn status_fill(names: Seq<Seq<char>>, i: nat, text: Seq<char>) -> (Seq<char>, nat)
    decreases names.len() - i,
{
    if i >= names.len() {
        (text, i)
    } else if i + 1 == names.len() {
        (text + "and "@ + names[i as int], i + 1)
    } else if byte_len(text) + byte_len(names[i as int]) + 2 > 95 {
        (text, i)
    } else {
        status_fill(names, i + 1, text + names[i as int] + ", "@)
    }
}

/// The bot's status line for names already in order: as many whole names as
/// fit, then the next name and a count of the rest.
pub open spec fn bot_status(names: Seq<Seq<char>>) -> Seq<char> {
    if names.len() == 0 {
        "Minecraft with nobody"@
    } else if names.len() == 1 {
        "Minecraft with "@ + names[0]
    } else if names.len() == 2 {
        "Minecraft with "@ + names[0] + " and "@ + names[1]
    } else {
        let (text, i) = status_fill(names, 0, "Minecraft with "@);
        if i < names.len() {
            text + "and "@ + names[i as int] + more_text((names.len() - i - 1) as nat)
        } else {
            text
        }
    }
}

/// The sentence about the online players (`names` in order) in the given form.
pub open spec fn online_players_text(names: Seq<Seq<char>>, format: OnlinePlayerFormat) -> Seq<char> {
    match format {
        OnlinePlayerFormat::CommandResponse { short } => players_sentence(
            names.map_values(|n: Seq<char>| sanitized(n)),
            short,
        ),
        OnlinePlayerFormat::BotStatus => bot_status(names),
    }
}

/// Appends the bot's status line for three or more names.
fn push_bot_status_many(out: &mut String, names: &[String])
    requires
        old(out)@ == Seq::<char>::empty(),
        names@.len() >= 3,
    ensures
        final(out)@ == bot_status(views(names@)),
{
    let ghost v = views(names@);
    let n = names.len();
    push_text(out, "Minecraft with ");
    let ghost start = out@;
    proof {
        assert(start =~= "Minecraft with "@);
    }
    let mut i: usize = 0;
    while i < n
        invariant
            n == names@.len(),
            n >= 3,
            i <= n,
            v == views(names@),
            status_fill(v, 0, start) == status_fill(v, i as nat, out@),
        ensures
            status_fill(v, 0, start) == (out@, i as nat),
        decreases n - i,
    {
        let name = names[i].as_str();
        let ghost before = out@;
        if i + 1 == n {
            push_text(out, "and ");
            push_text(out, name);
            proof {
                assert(out@ =~= before + "and "@ + v[i as int]);
            }
            i = i + 1;
        } else {
            let written = out.as_str().as_bytes().len();
            let len = name.as_bytes().len();
            if len > 93 || written > 93 - len {
                break;
            }
            push_text(out, name);
            push_text(out, ", ");
            proof {
                assert(out@ =~= before + v[i as int] + ", "@);
            }
            i = i + 1;
        }
    }
    if i < n {
        push_text(out, "and ");
        push_text(out, names[i].as_str());
        push_more(out, n - i - 1);
    }
    proof {
        assert(final(out)@ =~= bot_status(v));
    }
}

/// The sentence about who is playing, in the given form: for a command the
/// names are escaped for markdown; for the status line they fill at most 95
/// bytes before the last name written and a count of the rest.
pub fn format_online_players(online_players: &OnlinePlayers, format: OnlinePlayerFormat) -> (r:
    String)
    requires
        online_players.well_formed(),
    ensures
        r@ == online_players_text(online_players.names(), format),
{
    let mut out = String::new();
    match format {
        OnlinePlayerFormat::CommandResponse { short } => {
            let names = online_players.name_strings(true);
            push_players_sentence(&mut out, names.as_slice(), short);
        },
        OnlinePlayerFormat::BotStatus => {
            let names = online_players.name_strings(false);
            let n = names.len();
            if n == 0 {
                push_text(&mut out, "Minecraft with nobody");
            } else if n == 1 {
                push_text(&mut out, "Minecraft with ");
                push_text(&mut out, names[0].as_str());
            } else if n == 2 {
                push_text(&mut out, "Minecraft with ");
                push_text(&mut out, names[0].as_str());
                push_text(&mut out, " and ");
                push_text(&mut out, names[1].as_str());
            } else {
                push_bot_status_many(&mut out, names.as_slice());
            }
            proof {
                assert(out@ =~= bot_status(views(names@)));
            }
        },
    }
    out
}

/// A list of names already in order: the first three and a count of the rest
/// when `short`, else all of them, the last after an `and`.
pub fn online_players_list(online_players: &[String], short: bool) -> (r: String)
    requires
        online_players@.len() >= 1,
        short ==> online_players@.len() >= 3,
    ensures
        r@ == players_list(views(online_players@), short),
{
    let mut out = String::new();
    push_players_list(&mut out, online_players, short);
    proof {
        assert(out@ =~= players_list(views(online_players@), short));
    }
    out
}

/* How long the status line gets */

/// The encoding of a concatenation is the concatenation of the encodings.
pub proof fn lemma_encode_concat(a: Seq<char>, b: Seq<char>)
    ensures
        encode_utf8(a + b) == encode_utf8(a) + encode_utf8(b),
    decreases a.len(),
{
    if a.len() == 0 {
        assert(a + b =~= b);
        assert(encode_utf8(a) + encode_utf8(b) =~= encode_utf8(b));
    } else {
        assert((a + b).drop_first() =~= a.drop_first() + b);
        lemma_encode_concat(a.drop_first(), b);
        assert(encode_utf8(a + b) =~= encode_utf8(a) + encode_utf8(b));
    }
}

proof fn lemma_byte_len_concat(a: Seq<char>, b: Seq<char>)
    ensures
        byte_len(a + b) == byte_len(a) + byte_len(b),
{
    lemma_encode_concat(a, b);
}

/// ASCII text takes one byte a character.
proof fn lemma_ascii_byte_len(s: Seq<char>)
    requires
        is_ascii_chars(s),
    ensures
        byte_len(s) == s.len(),
{
    is_ascii_chars_encode_utf8(s);
}

/// Decimal text is ASCII, one digit for each power of ten.
proof fn lemma_decimal_shape(k: nat)
    ensures
        is_ascii_chars(decimal(k)),
        k < 10 ==> decimal(k).len() == 1,
        k < 100 ==> decimal(k).len() <= 2,
        k < 1000 ==> decimal(k).len() <= 3,
    decreases k,
{
    if k >= 10 {
        lemma_decimal_shape(k / 10);
        let d = decimal(k);
        assert forall|i: int| 0 <= i < d.len() implies '\0' <= #[trigger] d[i] <= '\u{7f}' by {
            if i < d.len() - 1 {
                assert(d[i] == decimal(k / 10)[i]);
            }
        }
    }
}

/// A number below a thousand takes three bytes at most.
proof fn lemma_small_decimal(k: nat)
    requires
        k < 1000,
    ensures
        byte_len(decimal(k)) <= 3,
{
    lemma_decimal_shape(k);
    lemma_ascii_byte_len(decimal(k));
}

/// The fixed pieces of the status line and their lengths in bytes.
proof fn lemma_status_pieces()
    ensures
        byte_len("Minecraft with "@) == 15,
        byte_len("Minecraft with nobody"@) == 21,
        byte_len("and "@) == 4,
        byte_len(" and "@) == 5,
        byte_len(", "@) == 2,
        byte_len(" (+ "@) == 4,
        byte_len(" more)"@) == 6,
{
    reveal_strlit("Minecraft with ");
    reveal_strlit("Minecraft with nobody");
    reveal_strlit("and ");
    reveal_strlit(" and ");
    reveal_strlit(", ");
    reveal_strlit(" (+ ");
    reveal_strlit(" more)");
    lemma_ascii_byte_len("Minecraft with "@);
    lemma_ascii_byte_len("Minecraft with nobody"@);
    lemma_ascii_byte_len("and "@);
    lemma_ascii_byte_len(" and "@);
    lemma_ascii_byte_len(", "@);
    lemma_ascii_byte_len(" (+ "@);
    lemma_ascii_byte_len(" more)"@);
}

/// Names of at most 16 bytes each.
pub open spec fn short_names(names: Seq<Seq<char>>) -> bool {
    forall|i: int| 0 <= i < names.len() ==> byte_len(#[trigger] names[i]) <= 16
}

proof fn lemma_status_fill_bound(names: Seq<Seq<char>>, i: nat, text: Seq<char>)
    requires
        short_names(names),
        byte_len(text) <= 95,
    ensures
        status_fill(names, i, text).1 >= i,
        status_fill(names, i, text).1 < names.len() ==> byte_len(status_fill(names, i, text).0)
            <= 95,
        byte_len(status_fill(names, i, text).0) <= 115,
    decreases names.len() - i,
{
    lemma_status_pieces();
    if i >= names.len() {
    } else if i + 1 == names.len() {
        lemma_byte_len_concat(text, "and "@);
        lemma_byte_len_concat(text + "and "@, names[i as int]);
    } else if byte_len(text) + byte_len(names[i as int]) + 2 > 95 {
    } else {
        lemma_byte_len_concat(text, names[i as int]);
        lemma_byte_len_concat(text + names[i as int], ", "@);
        lemma_status_fill_bound(names, i + 1, text + names[i as int] + ", "@);
    }
}

/// With names of at most 16 bytes (the longest a Minecraft name can be) and
/// at most a thousand players, the status line is at most 128 bytes long, the
/// most a bot's status can hold.
pub proof fn lemma_bot_status_fits(names: Seq<Seq<char>>)
    requires
        short_names(names),
        names.len() <= 1000,
    ensures
        byte_len(bot_status(names)) <= 128,
{
    lemma_status_pieces();
    let n = names.len();
    if n == 1 {
        lemma_byte_len_concat("Minecraft with "@, names[0]);
    } else if n == 2 {
        lemma_byte_len_concat("Minecraft with "@, names[0]);
        lemma_byte_len_concat("Minecraft with "@ + names[0], " and "@);
        lemma_byte_len_concat("Minecraft with "@ + names[0] + " and "@, names[1]);
    } else if n >= 3 {
        lemma_status_fill_bound(names, 0, "Minecraft with "@);
        let (text, i) = status_fill(names, 0, "Minecraft with "@);
        if i < n {
            let k = (n - i - 1) as nat;
            lemma_small_decimal(k);
            lemma_byte_len_concat(" (+ "@, decimal(k));
            lemma_byte_len_concat(" (+ "@ + decimal(k), " more)"@);
            lemma_byte_len_concat(text, "and "@);
            lemma_byte_len_concat(text + "and "@, names[i as int]);
            lemma_byte_len_concat(text + "and "@ + names[i as int], more_text(k));
        }
    }
}

/// The status line, filled from the `j`-th name on after the names before it
/// went in whole: it stops at some name `k` before the last with those before
/// it written out, or it takes every name, the last after an `and`.
proof fn lemma_status_fill_shape(names: Seq<Seq<char>>, j: nat, pre: Seq<char>)
    requires
        j < names.len(),
    ensures
        ({
            let (t, k) = status_fill(names, j, pre + comma_list(names.take(j as int)));
            &&& j <= k <= names.len()
            &&& k < names.len() ==> k + 1 < names.len() && t == pre + comma_list(names.take(k as int))
            &&& k == names.len() ==> t == pre + comma_list(names.drop_last()) + "and "@ + names.last()
        }),
    decreases names.len() - j,
{
    let n = names.len();
    let text = pre + comma_list(names.take(j as int));
    if j + 1 == n {
        assert(names.take(j as int) =~= names.drop_last());
    } else if byte_len(text) + byte_len(names[j as int]) + 2 > 95 {
    } else {
        let next = names.take(j + 1 as int);
        assert(next.drop_last() =~= names.take(j as int));
        assert(comma_list(next) == comma_list(names.take(j as int)) + names[j as int] + ", "@);
        assert(text + names[j as int] + ", "@ =~= pre + comma_list(next));
        lemma_status_fill_shape(names, (j + 1) as nat, pre);
    }
}

/// The status line for three or more names is `Minecraft with `, the names
/// that fit whole, each followed by `, `, and then either `and` with the
/// next name and the count of those left out (at least one), or, when all
/// fit, `and` with the last name.
pub proof fn lemma_bot_status_shape(names: Seq<Seq<char>>)
    requires
        names.len() >= 3,
    ensures
        ({
            let i = status_fill(names, 0, "Minecraft with "@).1;
            &&& i <= names.len()
            &&& i < names.len() ==> i + 1 < names.len() && bot_status(names) == "Minecraft with "@
                + comma_list(names.take(i as int)) + "and "@ + names[i as int] + more_text(
                (names.len() - i - 1) as nat,
            )
            &&& i == names.len() ==> bot_status(names) == "Minecraft with "@ + comma_list(
                names.drop_last(),
            ) + "and "@ + names.last()
        }),
{
    let pre = "Minecraft with "@;
    assert(names.take(0) =~= Seq::<Seq<char>>::empty());
    assert(pre + comma_list(names.take(0)) =~= pre);
    lemma_status_fill_shape(names, 0, pre);
}

/// A player who joins and then leaves leaves the others as they were: the
/// record under a name that was not there, once removed, gives back what was
/// recorded before.
pub proof fn lemma_join_then_leave(
    before: Map<Seq<char>, OnlinePlayerInfo>,
    name: Seq<char>,
    info: OnlinePlayerInfo,
)
    requires
        !before.dom().contains(name),
    ensures
        before.insert(name, info).remove(name) == before,
{
    assert(before.insert(name, info).remove(name) =~= before);
}

} // verus!
