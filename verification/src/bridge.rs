//! The chat bridge's texts: which Discord messages are passed on to the
//! server, and how attachments, links and messages are written into the
//! server's chat and log.
use vstd::prelude::*;

use crate::render::push_text;
use crate::text::same_bytes;

verus! {

/// A Discord message is for the bridge when it is a regular message, not
/// from a bot, in the bridged channel.
pub open spec fn for_bridge(is_regular: bool, author_is_bot: bool, channel_id: u64, bridge_channel_id: u64) -> bool {
    is_regular && !author_is_bot && channel_id == bridge_channel_id
}

/// A Discord message is passed on when it is a regular message, not from a
/// bot, in the bridged channel.
pub fn should_bridge(is_regular: bool, author_is_bot: bool, channel_id: u64, bridge_channel_id: u64) -> (r:
    bool)
    ensures
        r == (is_regular && !author_is_bot && channel_id == bridge_channel_id),
        r == for_bridge(is_regular, author_is_bot, channel_id, bridge_channel_id),
{
    is_regular && !author_is_bot && channel_id == bridge_channel_id
}

/// What the bridge does with a message posted on Discord.
#[derive(Debug, Clone, Copy, PartialEq, Eq, Structural)]
pub enum DiscordAction {
    /// Nothing: the message is not passed on and not answered.
    Ignore,
    /// The channel is answered with the people playing Minecraft, as
    /// `format_online_players` writes them for a command response in full.
    ReplyOnlinePlayers,
    /// The message is passed on to the server: its attachments first, then
    /// its text when it has any, then its embeds, as Discord shows them.
    Bridge,
}

/// The command that the message was read as (`!mc NAME`) is `list`.
pub open spec fn is_list_command(command: Option<&str>) -> bool {
    command matches Some(c) && c@ == "list"@
}

/// What to do on a new Discord message. Only messages for the bridge are
/// acted on; one that reads as a command is not passed on: `list` is
/// answered with the people playing, any other command is ignored. Any
/// other message is passed on.
pub fn on_message_create(
    is_regular: bool,
    author_is_bot: bool,
    channel_id: u64,
    bridge_channel_id: u64,
    command: Option<&str>,
) -> (r: DiscordAction)
    ensures
        !for_bridge(is_regular, author_is_bot, channel_id, bridge_channel_id) ==> r is Ignore,
        for_bridge(is_regular, author_is_bot, channel_id, bridge_channel_id) && is_list_command(
            command,
        ) ==> r is ReplyOnlinePlayers,
        for_bridge(is_regular, author_is_bot, channel_id, bridge_channel_id) && command is Some
            && !is_list_command(command) ==> r is Ignore,
        for_bridge(is_regular, author_is_bot, channel_id, bridge_channel_id) && command is None
            ==> r is Bridge,
{
    if !should_bridge(is_regular, author_is_bot, channel_id, bridge_channel_id) {
        return DiscordAction::Ignore;
    }
    match command {
        None => DiscordAction::Bridge,
        Some(c) => {
            let list = "list";
            let same = same_bytes(c.as_bytes(), list.as_bytes());
            proof {
                vstd::utf8::encode_utf8_decode_utf8(c@);
                vstd::utf8::encode_utf8_decode_utf8(list@);
                assert(same == (c@ == list@));
            }
            if same {
                DiscordAction::ReplyOnlinePlayers
            } else {
                DiscordAction::Ignore
            }
        },
    }
}

/// The name an author is shown by: the nickname if there is one.
pub fn author_display_name<'a>(nick: Option<&'a str>, name: &'a str) -> (r: &'a str)
    ensures
        r@ == match nick {
            Some(n) => n@,
            None => name@,
        },
{
    match nick {
        Some(n) => n,
        None => name,
    }
}

/// `name#discriminator`
pub fn author_tag(name: &str, discriminator: &str) -> (r: String)
    ensures
        r@ == name@ + "#"@ + discriminator@,
{
    let mut out = String::new();
    push_text(&mut out, name);
    push_text(&mut out, "#");
    push_text(&mut out, discriminator);
    proof {
        assert(out@ =~= name@ + "#"@ + discriminator@);
    }
    out
}

/// `<author> `, in front of a passed-on message.
pub fn author_prefix(author: &str) -> (r: String)
    ensures
        r@ == "<"@ + author@ + "> "@,
{
    let mut out = String::new();
    push_text(&mut out, "<");
    push_text(&mut out, author);
    push_text(&mut out, "> ");
    proof {
        assert(out@ =~= "<"@ + author@ + "> "@);
    }
    out
}

/// The log line for a passed-on message: `[D] <author (name#discriminator)> content`.
pub fn message_log_text(author: &str, name: &str, discriminator: &str, content: &str) -> (r: String)
    ensures
        r@ == "[D] <"@ + author@ + " ("@ + name@ + "#"@ + discriminator@ + ")> "@ + content@,
{
    let mut out = String::new();
    push_text(&mut out, "[D] <");
    push_text(&mut out, author);
    push_text(&mut out, " (");
    push_text(&mut out, name);
    push_text(&mut out, "#");
    push_text(&mut out, discriminator);
    push_text(&mut out, ")> ");
    push_text(&mut out, content);
    proof {
        assert(out@ =~= "[D] <"@ + author@ + " ("@ + name@ + "#"@ + discriminator@ + ")> "@
            + content@);
    }
    out
}

/// What an attachment is called: an image when it has a height, else a file.
pub fn attachment_kind(has_height: bool) -> (r: &'static str)
    ensures
        r@ == if has_height {
            "image"@
        } else {
            "file"@
        },
{
    if has_height {
        "image"
    } else {
        "file"
    }
}

/// `author uploaded `, in front of the attachment's kind.
pub fn uploaded_text(author: &str) -> (r: String)
    ensures
        r@ == author@ + " uploaded "@,
{
    let mut out = String::new();
    push_text(&mut out, author);
    push_text(&mut out, " uploaded ");
    proof {
        assert(out@ =~= author@ + " uploaded "@);
    }
    out
}

/// The text shown when hovering over an attachment.
pub fn attachment_hover_text(kind: &str) -> (r: String)
    ensures
        r@ == "Click to open the "@ + kind@ + " in your web browser"@,
{
    let mut out = String::new();
    push_text(&mut out, "Click to open the ");
    push_text(&mut out, kind);
    push_text(&mut out, " in your web browser");
    proof {
        assert(out@ =~= "Click to open the "@ + kind@ + " in your web browser"@);
    }
    out
}

/// The log line for an attachment: `[D] author uploaded kind: url`.
pub fn attachment_log_text(author: &str, kind: &str, url: &str) -> (r: String)
    ensures
        r@ == "[D] "@ + author@ + " uploaded "@ + kind@ + ": "@ + url@,
{
    let mut out = String::new();
    push_text(&mut out, "[D] ");
    push_text(&mut out, author);
    push_text(&mut out, " uploaded ");
    push_text(&mut out, kind);
    push_text(&mut out, ": ");
    push_text(&mut out, url);
    proof {
        assert(out@ =~= "[D] "@ + author@ + " uploaded "@ + kind@ + ": "@ + url@);
    }
    out
}

/// The text of a link: `provider - title` when both are known, else the url.
pub fn embed_link_text(title: Option<&str>, provider: Option<Option<&str>>, url: &str) -> (r: String)
    ensures
        r@ == match (title, provider) {
            (Some(t), Some(Some(p))) => p@ + " - "@ + t@,
            _ => url@,
        },
{
    match (title, provider) {
        (Some(t), Some(Some(p))) => {
            let mut out = String::new();
            push_text(&mut out, p);
            push_text(&mut out, " - ");
            push_text(&mut out, t);
            proof {
                assert(out@ =~= p@ + " - "@ + t@);
            }
            out
        },
        _ => url.to_owned(),
    }
}

/// An attachment of a Discord message, as the bridge reads it.
#[derive(Debug, Clone, PartialEq, Eq)]
pub struct Attachment {
    /// Where the attachment can be opened.
    pub url: String,
    /// Whether Discord gives it a height (images do).
    pub has_height: bool,
}

/// An embed of a Discord message, as the bridge reads it.
#[derive(Debug, Clone, PartialEq, Eq)]
pub struct Embed {
    pub url: Option<String>,
    pub title: Option<String>,
    /// The provider, when there is one, and its name, when it has one.
    pub provider: Option<Option<String>>,
}

/// A clickable text passed on to the server: what it reads and the url it
/// opens.
#[derive(Debug, Clone, PartialEq, Eq)]
pub struct BridgedLink {
    pub text: String,
    pub url: String,
}

/// The links' texts and urls.
pub open spec fn links_view(links: Seq<BridgedLink>) -> Seq<(Seq<char>, Seq<char>)> {
    links.map_values(|l: BridgedLink| (l.text@, l.url@))
}

/// For each attachment, in order: its kind, opening its url.
pub open spec fn attachment_links_of(attachments: Seq<Attachment>) -> Seq<(Seq<char>, Seq<char>)> {
    attachments.map_values(
        |a: Attachment|
            (
                if a.has_height {
                    "image"@
                } else {
                    "file"@
                },
                a.url@,
            ),
    )
}

/// The text of an embed's link that leads to `url`.
pub open spec fn embed_link_of(e: Embed, url: Seq<char>) -> Seq<char> {
    match (e.title, e.provider) {
        (Some(t), Some(Some(p))) => p@ + " - "@ + t@,
        _ => url,
    }
}

/// For each embed that has a url, in order: its link text, opening the url;
/// embeds without a url are left out.
pub open spec fn embed_links_of(embeds: Seq<Embed>) -> Seq<(Seq<char>, Seq<char>)>
    decreases embeds.len(),
{
    if embeds.len() == 0 {
        seq![]
    } else {
        let e = embeds.last();
        embed_links_of(embeds.drop_last()) + match e.url {
            Some(u) => seq![(embed_link_of(e, u@), u@)],
            None => seq![],
        }
    }
}

/// The attachments of a message as links, in order: each reads as its kind.
pub fn attachment_links(attachments: &[Attachment]) -> (r: Vec<BridgedLink>)
    ensures
        links_view(r@) == attachment_links_of(attachments@),
{
    let mut out: Vec<BridgedLink> = Vec::new();
    let n = attachments.len();
    for i in 0..n
        invariant
            n == attachments@.len(),
            links_view(out@) == attachment_links_of(attachments@.take(i as int)),
    {
        let a = &attachments[i];
        let kind = attachment_kind(a.has_height);
        let link = BridgedLink { text: kind.to_owned(), url: a.url.clone() };
        let ghost before = out@;
        out.push(link);
        proof {
            let entry = (
                if a.has_height {
                    "image"@
                } else {
                    "file"@
                },
                a.url@,
            );
            assert(link.text@ == entry.0 && link.url@ == entry.1);
            assert(attachments@.take(i + 1) =~= attachments@.take(i as int).push(*a));
            assert(attachment_links_of(attachments@.take(i + 1)) =~= attachment_links_of(
                attachments@.take(i as int),
            ).push(entry));
            assert(links_view(out@) =~= links_view(before).push(entry));
        }
    }
    proof {
        assert(attachments@.take(n as int) =~= attachments@);
    }
    out
}

/// The embeds of a message that have a url, as links in order: `provider -
/// title` when both are known, else the url itself.
pub fn embed_links(embeds: &[Embed]) -> (r: Vec<BridgedLink>)
    ensures
        links_view(r@) == embed_links_of(embeds@),
{
    let mut out: Vec<BridgedLink> = Vec::new();
    let n = embeds.len();
    for i in 0..n
        invariant
            n == embeds@.len(),
            links_view(out@) == embed_links_of(embeds@.take(i as int)),
    {
        let e = &embeds[i];
        proof {
            assert(embeds@.take(i + 1).drop_last() =~= embeds@.take(i as int));
            assert(embeds@.take(i + 1).last() == e);
        }
        if let Some(url) = &e.url {
            let title = match &e.title {
                Some(t) => Some(t.as_str()),
                None => None,
            };
            let provider = match &e.provider {
                Some(Some(p)) => Some(Some(p.as_str())),
                Some(None) => Some(None),
                None => None,
            };
            let text = embed_link_text(title, provider, url.as_str());
            out.push(BridgedLink { text, url: url.clone() });
            proof {
                assert(links_view(out@) =~= embed_links_of(embeds@.take(i + 1)));
            }
        } else {
            proof {
                assert(links_view(out@) =~= embed_links_of(embeds@.take(i + 1)));
            }
        }
    }
    proof {
        assert(embeds@.take(n as int) =~= embeds@);
    }
    out
}

/// `author linked "`, in front of a link.
pub fn linked_text(author: &str) -> (r: String)
    ensures
        r@ == author@ + " linked \""@,
{
    let mut out = String::new();
    push_text(&mut out, author);
    push_text(&mut out, " linked \"");
    proof {
        assert(out@ =~= author@ + " linked \""@);
    }
    out
}

/// The log line for a link: `[D] author linked "text": url`.
pub fn embed_log_text(author: &str, link_text: &str, url: &str) -> (r: String)
    ensures
        r@ == "[D] "@ + author@ + " linked \""@ + link_text@ + "\": "@ + url@,
{
    let mut out = String::new();
    push_text(&mut out, "[D] ");
    push_text(&mut out, author);
    push_text(&mut out, " linked \"");
    push_text(&mut out, link_text);
    push_text(&mut out, "\": ");
    push_text(&mut out, url);
    proof {
        assert(out@ =~= "[D] "@ + author@ + " linked \""@ + link_text@ + "\": "@ + url@);
    }
    out
}

/// A log line for the terminal: `[time] [target, level]: message`, with
/// `time error` where the time could not be had.
pub fn terminal_log_line(time: Option<&str>, target: &str, level: &str, message: &str) -> (r:
    String)
    ensures
        r@ == "["@ + match time {
            Some(t) => t@,
            None => "time error"@,
        } + "] ["@ + target@ + ", "@ + level@ + "]: "@ + message@,
{
    let mut out = String::new();
    push_text(&mut out, "[");
    match time {
        Some(t) => push_text(&mut out, t),
        None => push_text(&mut out, "time error"),
    }
    push_text(&mut out, "] [");
    push_text(&mut out, target);
    push_text(&mut out, ", ");
    push_text(&mut out, level);
    push_text(&mut out, "]: ");
    push_text(&mut out, message);
    proof {
        assert(out@ =~= "["@ + match time {
            Some(t) => t@,
            None => "time error"@,
        } + "] ["@ + target@ + ", "@ + level@ + "]: "@ + message@);
    }
    out
}

/// A log line for the log file: `time[target][level] message`, with
/// `time error` where the time could not be had.
pub fn file_log_line(time: Option<&str>, target: &str, level: &str, message: &str) -> (r: String)
    ensures
        r@ == match time {
            Some(t) => t@,
            None => "time error"@,
        } + "["@ + target@ + "]["@ + level@ + "] "@ + message@,
{
    let mut out = String::new();
    match time {
        Some(t) => push_text(&mut out, t),
        None => push_text(&mut out, "time error"),
    }
    push_text(&mut out, "[");
    push_text(&mut out, target);
    push_text(&mut out, "][");
    push_text(&mut out, level);
    push_text(&mut out, "] ");
    push_text(&mut out, message);
    proof {
        assert(out@ =~= match time {
            Some(t) => t@,
            None => "time error"@,
        } + "["@ + target@ + "]["@ + level@ + "] "@ + message@);
    }
    out
}

} // verus!
