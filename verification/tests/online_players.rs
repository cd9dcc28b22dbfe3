//! Sentences about who is online, and the collection of online players.

use mc_server_wrapper::players::{
    format_online_players, format_online_players_topic, online_players_list, sanitize_for_markdown,
    OnlinePlayerFormat, OnlinePlayerInfo, OnlinePlayers,
};

fn names(list: &[&str]) -> Vec<String> {
    list.iter().map(|n| n.to_string()).collect()
}

fn make_players_map(list: &[&str]) -> OnlinePlayers {
    let mut players = OnlinePlayers::new();
    for n in list {
        players.insert(n.to_string(), OnlinePlayerInfo::default());
    }
    players
}

#[test]
fn discord_no_players() {
    let formatted = format_online_players_topic(&names(&[]));
    assert_eq!(&formatted, "Nobody is playing Minecraft");
}

#[test]
fn discord_one_player() {
    let formatted = format_online_players_topic(&names(&["p1"]));
    assert_eq!(&formatted, "p1 is playing Minecraft");
}

#[test]
fn discord_two_players() {
    let formatted = format_online_players_topic(&names(&["p1", "p2"]));
    assert_eq!(&formatted, "p1 and p2 are playing Minecraft");
}

#[test]
fn discord_three_players() {
    let formatted = format_online_players_topic(&names(&["p1", "p2", "p3"]));
    assert_eq!(&formatted, "p1, p2, and p3 are playing Minecraft");
}

#[test]
fn discord_four_players() {
    let formatted = format_online_players_topic(&names(&["p1", "p2", "p3", "p4"]));
    assert_eq!(&formatted, "p1, p2, and p3 (+ 1 more) are playing Minecraft");
}

#[test]
fn discord_seven_players() {
    let formatted =
        format_online_players_topic(&names(&["p1", "p2", "p3", "p4", "p5", "p6", "p7"]));
    assert_eq!(&formatted, "p1, p2, and p3 (+ 4 more) are playing Minecraft");
}

#[test]
fn topic_sorts_names() {
    let formatted = format_online_players_topic(&names(&["zed", "Bob", "amy"]));
    assert_eq!(&formatted, "Bob, amy, and zed are playing Minecraft");
}

#[test]
fn sanitize_markdown() {
    let testcase = "~*`cdawg_m`>";
    assert_eq!(sanitize_for_markdown(testcase), "\\~\\*\\`cdawg\\_m\\`\\>");
}

#[test]
fn sanitize_keeps_other_text() {
    assert_eq!(sanitize_for_markdown("héllo wörld [x]"), "héllo wörld [x]");
    assert_eq!(sanitize_for_markdown(""), "");
}

#[test]
fn markdown_in_names() {
    let online_players = make_players_map(&["p1_", "*`p2`"]);
    let expected = "\\*\\`p2\\` and p1\\_ are playing Minecraft";

    let formatted = format_online_players(
        &online_players,
        OnlinePlayerFormat::CommandResponse { short: true },
    );
    assert_eq!(&formatted, expected);

    let formatted = format_online_players(
        &online_players,
        OnlinePlayerFormat::CommandResponse { short: false },
    );
    assert_eq!(&formatted, expected);
}

#[test]
fn util_no_players() {
    let online_players = make_players_map(&[]);
    let expected = "Nobody is playing Minecraft";

    let formatted = format_online_players(
        &online_players,
        OnlinePlayerFormat::CommandResponse { short: true },
    );
    assert_eq!(&formatted, expected);

    let formatted = format_online_players(
        &online_players,
        OnlinePlayerFormat::CommandResponse { short: false },
    );
    assert_eq!(&formatted, expected);
}

#[test]
fn util_one_player() {
    let online_players = make_players_map(&["p1"]);
    let expected = "p1 is playing Minecraft";

    let formatted = format_online_players(
        &online_players,
        OnlinePlayerFormat::CommandResponse { short: true },
    );
    assert_eq!(&formatted, expected);

    let formatted = format_online_players(
        &online_players,
        OnlinePlayerFormat::CommandResponse { short: false },
    );
    assert_eq!(&formatted, expected);

    let formatted = format_online_players(&online_players, OnlinePlayerFormat::BotStatus);
    assert_eq!(&formatted, "Minecraft with p1");
}

#[test]
fn util_two_players() {
    let online_players = make_players_map(&["p1", "p2"]);
    let expected = "p1 and p2 are playing Minecraft";

    let formatted = format_online_players(
        &online_players,
        OnlinePlayerFormat::CommandResponse { short: true },
    );
    assert_eq!(&formatted, expected);

    let formatted = format_online_players(
        &online_players,
        OnlinePlayerFormat::CommandResponse { short: false },
    );
    assert_eq!(&formatted, expected);

    let formatted = format_online_players(&online_players, OnlinePlayerFormat::BotStatus);
    assert_eq!(&formatted, "Minecraft with p1 and p2");
}

#[test]
fn util_three_players() {
    let online_players = make_players_map(&["p1", "p2", "p3"]);
    let expected = "p1, p2, and p3 are playing Minecraft";

    let formatted = format_online_players(
        &online_players,
        OnlinePlayerFormat::CommandResponse { short: true },
    );
    assert_eq!(&formatted, expected);

    let formatted = format_online_players(
        &online_players,
        OnlinePlayerFormat::CommandResponse { short: false },
    );
    assert_eq!(&formatted, expected);

    let formatted = format_online_players(&online_players, OnlinePlayerFormat::BotStatus);
    assert_eq!(&formatted, "Minecraft with p1, p2, and p3");
}

#[test]
fn util_four_players() {
    let online_players = make_players_map(&["p1", "p2", "p3", "p4"]);
    let formatted = format_online_players(
        &online_players,
        OnlinePlayerFormat::CommandResponse { short: true },
    );
    assert_eq!(&formatted, "p1, p2, and p3 (+ 1 more) are playing Minecraft");

    let formatted = format_online_players(&online_players, OnlinePlayerFormat::BotStatus);
    assert_eq!(&formatted, "Minecraft with p1, p2, p3, and p4");
}

#[test]
fn util_seven_players() {
    let online_players = make_players_map(&["p1", "p3", "p2", "p4", "p6", "p5", "p7"]);
    let formatted = format_online_players(
        &online_players,
        OnlinePlayerFormat::CommandResponse { short: true },
    );
    assert_eq!(&formatted, "p1, p2, and p3 (+ 4 more) are playing Minecraft");

    let online_players = make_players_map(&["p1", "p2", "p3", "p4", "p5", "p6", "p7"]);
    let formatted = format_online_players(
        &online_players,
        OnlinePlayerFormat::CommandResponse { short: false },
    );
    assert_eq!(&formatted, "p1, p2, p3, p4, p5, p6, and p7 are playing Minecraft");
}

#[test]
fn lots_of_players() {
    let online_players = make_players_map(&[
        "player1", "player2", "player3", "player11", "player5", "player6", "player7", "player8",
        "player9", "player10", "player4", "player12", "player13", "player14", "player15",
    ]);
    let formatted = format_online_players(&online_players, OnlinePlayerFormat::BotStatus);

    assert_eq!(&formatted, "Minecraft with player1, player10, player11, player12, player13, player14, player15, player2, and player3 (+ 6 more)");
    assert!(formatted.len() <= 128);
}

#[test]
fn status_with_long_names_stays_short() {
    let list: Vec<String> = (0..999).map(|i| format!("abcdefghijkl{:04}", i)).collect();
    let refs: Vec<&str> = list.iter().map(|s| s.as_str()).collect();
    let online_players = make_players_map(&refs);
    let formatted = format_online_players(&online_players, OnlinePlayerFormat::BotStatus);
    assert!(formatted.len() <= 128);
    assert_eq!(
        &formatted,
        "Minecraft with abcdefghijkl0000, abcdefghijkl0001, abcdefghijkl0002, abcdefghijkl0003, and abcdefghijkl0004 (+ 994 more)"
    );
}

#[test]
fn status_nobody() {
    let online_players = make_players_map(&[]);
    let formatted = format_online_players(&online_players, OnlinePlayerFormat::BotStatus);
    assert_eq!(&formatted, "Minecraft with nobody");
}

#[test]
fn players_list_long_and_short() {
    assert_eq!(online_players_list(&names(&["a"]), false), "and a");
    assert_eq!(online_players_list(&names(&["a", "b", "c"]), false), "a, b, and c");
    assert_eq!(online_players_list(&names(&["a", "b", "c"]), true), "a, b, and c");
    assert_eq!(
        online_players_list(&names(&["a", "b", "c", "d", "e"]), true),
        "a, b, and c (+ 2 more)"
    );
}

#[test]
fn players_join_and_leave() {
    let mut players = OnlinePlayers::new();
    assert_eq!(players.len(), 0);
    assert!(players.insert("b".to_string(), OnlinePlayerInfo::joined_at_nanos(2)).is_none());
    assert!(players.insert("a".to_string(), OnlinePlayerInfo::joined_at_nanos(1)).is_none());
    let replaced = players.insert("b".to_string(), OnlinePlayerInfo::joined_at_nanos(3));
    assert_eq!(replaced.map(|i| i.joined_at_unix_nanos()), Some(2));
    assert_eq!(players.len(), 2);
    let list = players.list();
    assert_eq!(list[0].0, "a");
    assert_eq!(list[1].0, "b");
    assert_eq!(list[1].1.joined_at_unix_nanos(), 3);
    assert_eq!(players.remove("a").map(|i| i.joined_at_unix_nanos()), Some(1));
    assert!(players.remove("a").is_none());
    assert_eq!(players.len(), 1);
}

#[test]
fn sanitize_counts_and_concatenates() {
    let a = "a*b";
    let b = "_c>";
    let joined = format!("{}{}", a, b);
    assert_eq!(
        sanitize_for_markdown(&joined),
        format!("{}{}", sanitize_for_markdown(a), sanitize_for_markdown(b))
    );
    assert_eq!(sanitize_for_markdown(&joined).chars().count(), joined.chars().count() + 3);
}
