//! The chat bridge's texts and the wrapper's log lines.

use mc_server_wrapper::bridge::{
    attachment_hover_text, attachment_kind, attachment_log_text, author_display_name, author_prefix,
    author_tag, embed_link_text, embed_log_text, file_log_line, linked_text, message_log_text,
    on_message_create, should_bridge, terminal_log_line, uploaded_text, DiscordAction,
};
use mc_server_wrapper::bridge::{attachment_links, embed_links, Attachment, BridgedLink, Embed};
use mc_server_wrapper::players::{format_online_players, OnlinePlayerFormat, OnlinePlayerInfo, OnlinePlayers};

#[test]
fn which_messages_are_bridged() {
    assert!(should_bridge(true, false, 7, 7));
    assert!(!should_bridge(false, false, 7, 7));
    assert!(!should_bridge(true, true, 7, 7));
    assert!(!should_bridge(true, false, 7, 8));
}

#[test]
fn author_names() {
    assert_eq!(author_display_name(Some("Nick"), "name"), "Nick");
    assert_eq!(author_display_name(None, "name"), "name");
    assert_eq!(author_tag("name", "0042"), "name#0042");
    assert_eq!(author_prefix("Nick"), "<Nick> ");
}

#[test]
fn message_log() {
    assert_eq!(
        message_log_text("Nick", "name", "0042", "hello"),
        "[D] <Nick (name#0042)> hello"
    );
}

#[test]
fn attachments() {
    assert_eq!(attachment_kind(true), "image");
    assert_eq!(attachment_kind(false), "file");
    assert_eq!(uploaded_text("Nick"), "Nick uploaded ");
    assert_eq!(
        attachment_hover_text("image"),
        "Click to open the image in your web browser"
    );
    assert_eq!(
        attachment_log_text("Nick", "file", "https://x/y.txt"),
        "[D] Nick uploaded file: https://x/y.txt"
    );
}

#[test]
fn links() {
    assert_eq!(
        embed_link_text(Some("A video"), Some(Some("YouTube")), "https://y"),
        "YouTube - A video"
    );
    assert_eq!(embed_link_text(Some("A video"), Some(None), "https://y"), "https://y");
    assert_eq!(embed_link_text(None, Some(Some("YouTube")), "https://y"), "https://y");
    assert_eq!(linked_text("Nick"), "Nick linked \"");
    assert_eq!(
        embed_log_text("Nick", "YouTube - A video", "https://y"),
        "[D] Nick linked \"YouTube - A video\": https://y"
    );
}

#[test]
fn log_lines() {
    assert_eq!(
        terminal_log_line(Some("3:04:05 PM"), "mc", "INFO", "hi"),
        "[3:04:05 PM] [mc, INFO]: hi"
    );
    assert_eq!(terminal_log_line(None, "mc", "WARN", "hi"), "[time error] [mc, WARN]: hi");
    assert_eq!(
        file_log_line(Some("[01-02-2024][3:04:05 PM]"), "mc_server_wrapper", "INFO", "hi"),
        "[01-02-2024][3:04:05 PM][mc_server_wrapper][INFO] hi"
    );
    assert_eq!(file_log_line(None, "t", "ERROR", "m"), "time error[t][ERROR] m");
}

#[test]
fn discord_messages_are_dispatched() {
    // a plain message in the bridged channel is passed on
    assert_eq!(on_message_create(true, false, 7, 7, None), DiscordAction::Bridge);
    // `!mc list` is answered with the people playing
    assert_eq!(on_message_create(true, false, 7, 7, Some("list")), DiscordAction::ReplyOnlinePlayers);
    // other commands are neither answered nor passed on
    assert_eq!(on_message_create(true, false, 7, 7, Some("lists")), DiscordAction::Ignore);
    assert_eq!(on_message_create(true, false, 7, 7, Some("List")), DiscordAction::Ignore);
    // messages that are not for the bridge are ignored, commands or not
    assert_eq!(on_message_create(true, true, 7, 7, Some("list")), DiscordAction::Ignore);
    assert_eq!(on_message_create(true, false, 8, 7, None), DiscordAction::Ignore);
    assert_eq!(on_message_create(false, false, 7, 7, None), DiscordAction::Ignore);
}

#[test]
fn list_command_reply() {
    let mut players = OnlinePlayers::new();
    players.insert("Cldfire".to_string(), OnlinePlayerInfo::default());
    assert_eq!(on_message_create(true, false, 7, 7, Some("list")), DiscordAction::ReplyOnlinePlayers);
    let reply = format_online_players(&players, OnlinePlayerFormat::CommandResponse { short: false });
    assert!(reply.contains("Cldfire"));
}

#[test]
fn attachments_become_links() {
    let attachments = vec![
        Attachment { url: "https://cdn/a.png".to_string(), has_height: true },
        Attachment { url: "https://cdn/b.txt".to_string(), has_height: false },
    ];
    assert_eq!(
        attachment_links(&attachments),
        vec![
            BridgedLink { text: "image".to_string(), url: "https://cdn/a.png".to_string() },
            BridgedLink { text: "file".to_string(), url: "https://cdn/b.txt".to_string() },
        ]
    );
}

#[test]
fn embeds_with_urls_become_links() {
    let embeds = vec![
        Embed {
            url: Some("https://youtu.be/x".to_string()),
            title: Some("A video".to_string()),
            provider: Some(Some("YouTube".to_string())),
        },
        Embed { url: None, title: Some("No link".to_string()), provider: None },
        Embed {
            url: Some("https://example.com".to_string()),
            title: Some("Example".to_string()),
            provider: Some(None),
        },
    ];
    assert_eq!(
        embed_links(&embeds),
        vec![
            BridgedLink { text: "YouTube - A video".to_string(), url: "https://youtu.be/x".to_string() },
            BridgedLink { text: "https://example.com".to_string(), url: "https://example.com".to_string() },
        ]
    );
}
