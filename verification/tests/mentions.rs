//! Mentions in chat messages, and writing them out by name.

use mc_server_wrapper::mention::{
    find_after, format_mentions_in, MentionInfo, MentionType, MessageSpan,
};

fn no_info() -> MentionInfo {
    MentionInfo {
        user_names: vec![],
        mention_roles: vec![],
        channel_names: vec![],
        emoji_names: vec![],
        role_names: vec![],
        users: vec![],
    }
}

fn with_text_channel(mut info: MentionInfo) -> MentionInfo {
    info.channel_names.push((1234, "test-channel".to_string()));
    info
}

fn with_role(mut info: MentionInfo) -> MentionInfo {
    info.role_names.push((2345, "test-role".to_string()));
    info
}

fn formatted(msg: &str, info: &MentionInfo) -> String {
    format_mentions_in(msg, info).0
}

#[test]
fn empty_string() {
    let spans = MessageSpan::spans("");
    assert!(spans.is_empty());
}

#[test]
fn various_mention_types() {
    let spans = MessageSpan::spans("channel <#12> emoji <:name:34> role <@&56> user <@78>");
    assert_eq!(
        spans,
        vec![
            MessageSpan::Text("channel "),
            MessageSpan::Mention(MentionType::Channel(12), "<#12>"),
            MessageSpan::Text(" emoji "),
            MessageSpan::Mention(MentionType::Emoji(34), "<:name:34>"),
            MessageSpan::Text(" role "),
            MessageSpan::Mention(MentionType::Role(56), "<@&56>"),
            MessageSpan::Text(" user "),
            MessageSpan::Mention(MentionType::User(78), "<@78>"),
        ]
    );
}

#[test]
fn spans_one_at_a_time() {
    let mut it = MessageSpan::iter("<@!5>x");
    assert_eq!(it.next(), Some(MessageSpan::Text("")));
    assert_eq!(it.next(), Some(MessageSpan::Mention(MentionType::User(5), "<@!5>")));
    assert_eq!(it.next(), Some(MessageSpan::Text("x")));
    assert_eq!(it.next(), None);
    assert_eq!(it.next(), None);
}

#[test]
fn bad_mentions_stay_text() {
    assert_eq!(
        MessageSpan::spans("a <b> c"),
        vec![MessageSpan::Text("a <b>"), MessageSpan::Text(" c")]
    );
    assert_eq!(
        MessageSpan::spans("<@99999999999999999999>"),
        vec![MessageSpan::Text("<@99999999999999999999>")]
    );
}

#[test]
fn parse_mention_insides() {
    assert_eq!(MentionType::try_parse("@!21984"), Some(MentionType::User(21984)));
    assert_eq!(MentionType::try_parse("@21984"), Some(MentionType::User(21984)));
    assert_eq!(MentionType::try_parse("@&7"), Some(MentionType::Role(7)));
    assert_eq!(MentionType::try_parse("#7"), Some(MentionType::Channel(7)));
    assert_eq!(MentionType::try_parse(":wave:7"), Some(MentionType::Emoji(7)));
    assert_eq!(MentionType::try_parse(":wave7"), None);
    assert_eq!(MentionType::try_parse("@+7"), Some(MentionType::User(7)));
    assert_eq!(MentionType::try_parse("@"), None);
    assert_eq!(MentionType::try_parse("x7"), None);
    assert_eq!(MentionType::try_parse(""), None);
}

#[test]
fn find_after_looks_past_the_index() {
    assert_eq!(find_after("<a><b>", 0, ">"), Some(2));
    assert_eq!(find_after("<a><b>", 2, ">"), Some(5));
    assert_eq!(find_after("<a><b>", 5, ">"), None);
    assert_eq!(find_after("<a><b>", 9, ">"), None);
    assert_eq!(find_after("é>", 0, ">"), None);
}

#[test]
fn blank_message() {
    assert_eq!(formatted("", &no_info()), "");
}

#[test]
fn fake_mention() {
    let msg = "the upcoming bracket <@thing is not a mention";
    assert_eq!(formatted(msg, &no_info()), msg);
}

#[test]
fn closing_bracket_then_start_mention() {
    let msg = "><@!kksdk";
    assert_eq!(formatted(msg, &no_info()), msg);
}

#[test]
fn fake_mention_crazy() {
    let msg = "<<><><@!><#><>#<>>>>";
    assert_eq!(formatted(msg, &no_info()), msg);
}

#[test]
fn fake_mention_bad_id() {
    let msg = "<@!12notanumber>";
    assert_eq!(formatted(msg, &no_info()), msg);
}

#[test]
fn one_mention_no_info() {
    let msg = "this has a mention: <@123>, but we're not passing mentions";
    assert_eq!(formatted(msg, &no_info()), msg);
}

#[test]
fn one_mention_with_info() {
    let msg = "this has a mention: <@123>, and we are passing mentions";
    let mut info = no_info();
    info.user_names.push((123, "TestName".to_string()));
    assert_eq!(
        formatted(msg, &info),
        "this has a mention: @TestName, and we are passing mentions"
    );
}

#[test]
fn two_mentions_with_info() {
    let msg = "<@123>, and even <@!321>!";
    let mut info = no_info();
    info.user_names.push((123, "TestName".to_string()));
    info.user_names.push((321, "AnotherTest".to_string()));
    assert_eq!(formatted(msg, &info), "@TestName, and even @AnotherTest!");
}

#[test]
fn three_mentions_some_with_info() {
    let msg = "<@123>, and even <@!321>, and wow: <@3234>";
    let mut info = no_info();
    info.user_names.push((123, "TestName".to_string()));
    info.user_names.push((3234, "WowTest".to_string()));
    assert_eq!(
        formatted(msg, &info),
        "@TestName, and even <@!321>, and wow: @WowTest"
    );
}

#[test]
fn channel_mention_no_info() {
    let msg = "this is a channel mention: <#1234>";
    assert_eq!(formatted(msg, &no_info()), msg);
}

#[test]
fn channel_mention_with_info() {
    let msg = "this is a channel mention: <#1234>";
    let info = with_text_channel(no_info());
    assert_eq!(formatted(msg, &info), "this is a channel mention: #test-channel");
}

#[test]
fn channel_mention_with_others() {
    let msg = "<@1234> <#245> this is a channel mention: <#1234>";
    let info = with_text_channel(no_info());
    assert_eq!(
        formatted(msg, &info),
        "<@1234> <#245> this is a channel mention: #test-channel"
    );
}

#[test]
fn role_mention_no_info() {
    let msg = "this is a role mention: <@&2345>";
    assert_eq!(formatted(msg, &no_info()), "this is a role mention: <@&2345>");
}

#[test]
fn role_mention_with_partial_info() {
    let msg = "this is a role mention: <@&2345>";
    let info = with_role(no_info());
    assert_eq!(formatted(msg, &info), msg);
}

#[test]
fn role_mention_with_info() {
    let msg = "this is a role mention: <@&2345>";
    let mut info = with_role(no_info());
    info.mention_roles.push(2345);
    assert_eq!(formatted(msg, &info), "this is a role mention: @test-role");
}

#[test]
fn all_combined() {
    let msg = "<@1212> this channel (<#1234>) is pretty cool for the role <@&2345>!";
    let mut info = with_text_channel(with_role(no_info()));
    info.user_names.push((1212, "TestName".to_string()));
    info.mention_roles.push(2345);
    assert_eq!(
        formatted(msg, &info),
        "@TestName this channel (#test-channel) is pretty cool for the role @test-role!"
    );
}

#[test]
fn emoji_by_name_and_chat_pieces() {
    let mut info = no_info();
    info.emoji_names.push((34, "wave".to_string()));
    info.user_names.push((78, "Nick".to_string()));
    info.users.push((78, "someone".to_string(), "0042".to_string()));
    let (text, pieces) = format_mentions_in("hi <:wave:34> <@78>", &info);
    assert_eq!(text, "hi :wave: @Nick");
    assert_eq!(pieces.len(), 4);
    assert_eq!(pieces[0].text, "hi ");
    assert!(!pieces[0].blue);
    assert_eq!(pieces[1].text, ":wave:");
    assert!(!pieces[1].blue);
    assert_eq!(pieces[2].text, " ");
    assert_eq!(pieces[3].text, "@Nick");
    assert!(pieces[3].blue);
    assert_eq!(pieces[3].hover.as_deref(), Some("someone#0042"));
    let joined: String = pieces.iter().map(|p| p.text.as_str()).collect();
    assert_eq!(joined, text);
}
