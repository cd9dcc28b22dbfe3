//! Reading vanilla and Spigot console output.

use mc_server_wrapper::parse::{ClockTime, ConsoleMsg, ConsoleMsgType, MalformedLine};
use mc_server_wrapper::mc_wrapper;
use mc_server_wrapper::specific::ConsoleMsgSpecific;
use mc_server_wrapper::text::is_float_text;

fn coords_of(coords: &(String, String, String)) -> (f32, f32, f32) {
    (
        coords.0.parse().unwrap(),
        coords.1.parse().unwrap(),
        coords.2.parse().unwrap(),
    )
}

#[test]
fn warn_msg() {
    let msg = "[23:10:30] [main/WARN]: Ambiguity between arguments [teleport, targets, location] \
        and [teleport, targets, destination] with inputs: [0.1 -0.5 .9, 0 0 0]";
    let console_msg = ConsoleMsg::try_parse_from(msg).unwrap();

    assert_eq!(console_msg.timestamp.hour(), 23);
    assert_eq!(console_msg.timestamp.minute(), 10);
    assert_eq!(console_msg.timestamp.second(), 30);
    assert_eq!(console_msg.thread_name, "main");
    assert_eq!(console_msg.msg_type, ConsoleMsgType::Warn);
    assert_eq!(
        console_msg.msg,
        "Ambiguity between arguments [teleport, targets, location] \
        and [teleport, targets, destination] with inputs: [0.1 -0.5 .9, 0 0 0]"
    );

    assert!(ConsoleMsgSpecific::try_parse_from(&console_msg).is_none());
}

#[test]
fn info_msg() {
    let msg = "[23:10:31] [Server thread/INFO]: Starting Minecraft server on *:25565";
    let console_msg = ConsoleMsg::try_parse_from(msg).unwrap();

    assert_eq!(console_msg.timestamp.hour(), 23);
    assert_eq!(console_msg.timestamp.minute(), 10);
    assert_eq!(console_msg.timestamp.second(), 31);
    assert_eq!(console_msg.thread_name, "Server thread");
    assert_eq!(console_msg.msg_type, ConsoleMsgType::Info);
    assert_eq!(console_msg.msg, "Starting Minecraft server on *:25565");

    assert!(ConsoleMsgSpecific::try_parse_from(&console_msg).is_none());
}

#[test]
fn newline() {
    let msg = "\n";
    assert!(ConsoleMsg::try_parse_from(msg).is_none());
}

#[test]
fn blank_here() {
    // somehow occurs when rapidly firing unknown commands
    let msg = "[19:23:04] [Server thread/INFO]: <--[HERE]";
    let console_msg = ConsoleMsg::try_parse_from(msg).unwrap();

    assert!(ConsoleMsgSpecific::try_parse_from(&console_msg).is_none());
}

#[test]
fn must_accept_eula() {
    let msg = "[00:03:56] [Server thread/INFO]: You need to agree to the EULA in order to run the \
        server. Go to eula.txt for more info.";
    let specific_msg =
        ConsoleMsgSpecific::try_parse_from(&ConsoleMsg::try_parse_from(msg).unwrap()).unwrap();

    assert_eq!(specific_msg, ConsoleMsgSpecific::MustAcceptEula);
}

#[test]
fn vanilla_player_msg() {
    let msg = "[23:12:39] [Server thread/INFO]: <Cldfire> hi!";
    let specific_msg =
        ConsoleMsgSpecific::try_parse_from(&ConsoleMsg::try_parse_from(msg).unwrap()).unwrap();

    match specific_msg {
        ConsoleMsgSpecific::PlayerMsg { name, msg } => {
            assert_eq!(name, "Cldfire");
            assert_eq!(msg, "hi!");
        }
        _ => unreachable!(),
    }
}

#[test]
fn vanilla_player_login() {
    let msg = "[23:11:12] [Server thread/INFO]: Cldfire[/127.0.0.1:56538] logged in with entity \
        id 121 at (-2.5, 63.0, 256.5)";
    let specific_msg =
        ConsoleMsgSpecific::try_parse_from(&ConsoleMsg::try_parse_from(msg).unwrap()).unwrap();

    match specific_msg {
        ConsoleMsgSpecific::PlayerLogin {
            name,
            ip,
            entity_id,
            coords,
            world,
        } => {
            assert_eq!(name, "Cldfire");
            assert_eq!(ip, "127.0.0.1:56538");
            assert_eq!(entity_id, 121);
            assert_eq!(coords_of(&coords), (-2.5, 63.0, 256.5));
            assert!(world.is_none());
        }
        _ => unreachable!(),
    }
}

#[test]
fn player_auth() {
    let msg = "[23:11:12] [User Authenticator #1/INFO]: UUID of player Cldfire is \
        361e5fb3-dbce-4f91-86b2-43423a4888d5";
    let specific_msg =
        ConsoleMsgSpecific::try_parse_from(&ConsoleMsg::try_parse_from(msg).unwrap()).unwrap();

    match specific_msg {
        ConsoleMsgSpecific::PlayerAuth { name, uuid } => {
            assert_eq!(name, "Cldfire");
            assert_eq!(uuid, "361e5fb3-dbce-4f91-86b2-43423a4888d5");
        }
        _ => unreachable!(),
    }
}

#[test]
fn spawn_prepare_progress() {
    let msg = "[23:10:35] [Server thread/INFO]: Preparing spawn area: 44%";
    let specific_msg =
        ConsoleMsgSpecific::try_parse_from(&ConsoleMsg::try_parse_from(msg).unwrap()).unwrap();

    match specific_msg {
        ConsoleMsgSpecific::SpawnPrepareProgress { progress } => {
            assert_eq!(progress, 44);
        }
        _ => unreachable!(),
    }
}

#[test]
fn spawn_prepare_finished() {
    let msg = "[23:10:35] [Server thread/INFO]: Time elapsed: 3292 ms";
    let specific_msg =
        ConsoleMsgSpecific::try_parse_from(&ConsoleMsg::try_parse_from(msg).unwrap()).unwrap();

    match specific_msg {
        ConsoleMsgSpecific::SpawnPrepareFinish { time_elapsed_ms } => {
            assert_eq!(time_elapsed_ms, 3292);
        }
        _ => unreachable!(),
    }
}

#[test]
fn player_lost_connection() {
    let msg = "[19:10:21] [Server thread/INFO]: Cldfire lost connection: Disconnected";
    let specific_msg =
        ConsoleMsgSpecific::try_parse_from(&ConsoleMsg::try_parse_from(msg).unwrap()).unwrap();

    match specific_msg {
        ConsoleMsgSpecific::PlayerLostConnection { name, reason } => {
            assert_eq!(name, "Cldfire");
            assert_eq!(reason, "Disconnected");
        }
        _ => unreachable!(),
    }
}

#[test]
fn player_left_game() {
    let msg = "[19:10:21] [Server thread/INFO]: Cldfire left the game";
    let specific_msg =
        ConsoleMsgSpecific::try_parse_from(&ConsoleMsg::try_parse_from(msg).unwrap()).unwrap();

    match specific_msg {
        ConsoleMsgSpecific::PlayerLogout { name } => {
            assert_eq!(name, "Cldfire");
        }
        _ => unreachable!(),
    }
}

#[test]
fn server_finished_loading() {
    let msg = "[21:57:50] [Server thread/INFO]: Done (7.410s)! For help, type \"help\"";
    let specific_msg =
        ConsoleMsgSpecific::try_parse_from(&ConsoleMsg::try_parse_from(msg).unwrap()).unwrap();

    match specific_msg {
        ConsoleMsgSpecific::FinishedLoading { time_elapsed_s } => {
            assert_eq!(time_elapsed_s.parse::<f32>().unwrap(), 7.410);
        }
        _ => unreachable!(),
    }
}

#[test]
fn spigot_loading_libraries() {
    // spigot prints this non-standard line without a timestamp
    let msg = "Loading libraries, please wait...";
    assert!(ConsoleMsg::try_parse_from(msg).is_none());
    assert!(mc_wrapper::ConsoleMsgSpecific::try_parse_from(msg).is_none());
}

#[test]
fn spigot_player_login() {
    let msg =
        "[23:11:12] [Server thread/INFO]: Cldfire[/127.0.0.1:56538] logged in with entity id 97 \
        at ([world]8185.897723692287, 65.0, -330.1145592972985)";
    let specific_msg =
        ConsoleMsgSpecific::try_parse_from(&ConsoleMsg::try_parse_from(msg).unwrap()).unwrap();

    match specific_msg {
        ConsoleMsgSpecific::PlayerLogin {
            name,
            ip,
            entity_id,
            coords,
            world,
        } => {
            assert_eq!(name, "Cldfire");
            assert_eq!(ip, "127.0.0.1:56538");
            assert_eq!(entity_id, 97);
            assert_eq!(coords_of(&coords), (8_185.898, 65.0, -330.114_56));
            assert_eq!(world.unwrap(), "world");
        }
        _ => unreachable!(),
    }

    match mc_wrapper::ConsoleMsgSpecific::try_parse_from(msg).unwrap() {
        mc_wrapper::ConsoleMsgSpecific::PlayerLogin {
            generic_msg,
            player,
            ip,
            entity_id,
            coords,
            world,
        } => {
            assert_eq!(
                generic_msg.msg,
                "Cldfire[/127.0.0.1:56538] logged in with entity id 97 \
                at ([world]8185.897723692287, 65.0, -330.1145592972985)"
            );
            assert_eq!(player, "Cldfire");
            assert_eq!(ip, "127.0.0.1:56538");
            assert_eq!(entity_id, 97);
            assert_eq!(coords_of(&coords), (8185.897723692287, 65.0, -330.1145592972985));
            assert_eq!(world.unwrap(), "world");
        }
        _ => unreachable!(),
    }
}

#[test]
fn spigot_player_msg() {
    let msg = "[23:12:39] [Async Chat Thread - #8/INFO]: <Cldfire> hi!";
    let specific_msg =
        ConsoleMsgSpecific::try_parse_from(&ConsoleMsg::try_parse_from(msg).unwrap()).unwrap();

    match specific_msg {
        ConsoleMsgSpecific::PlayerMsg { name, msg } => {
            assert_eq!(name, "Cldfire");
            assert_eq!(msg, "hi!");
        }
        _ => unreachable!(),
    }

    match mc_wrapper::ConsoleMsgSpecific::try_parse_from(msg).unwrap() {
        mc_wrapper::ConsoleMsgSpecific::PlayerMsg { generic_msg, player, player_msg } => {
            assert_eq!(generic_msg.thread_name, "Async Chat Thread - #8");
            assert_eq!(generic_msg.msg, "<Cldfire> hi!");
            assert_eq!(player, "Cldfire");
            assert_eq!(player_msg, "hi!");
        }
        _ => unreachable!(),
    }
}

#[test]
fn not_secure_player_msg() {
    let msg = "[23:12:39] [Server thread/INFO]: [Not Secure] <Cldfire> hello there";
    let console_msg = ConsoleMsg::try_parse_from(msg).unwrap();
    match ConsoleMsgSpecific::try_parse_from(&console_msg).unwrap() {
        ConsoleMsgSpecific::PlayerMsg { name, msg } => {
            assert_eq!(name, "Cldfire");
            assert_eq!(msg, "hello there");
        }
        _ => unreachable!(),
    }
}

#[test]
fn out_of_range_time_reads_as_midnight() {
    let console_msg = ConsoleMsg::try_parse_from("[25:61:99] [main/INFO]: x").unwrap();
    assert_eq!(
        (
            console_msg.timestamp.hour(),
            console_msg.timestamp.minute(),
            console_msg.timestamp.second()
        ),
        (0, 0, 0)
    );
}

#[test]
fn unknown_message_type_is_kept() {
    let console_msg = ConsoleMsg::try_parse_from("[01:02:03] [main/DEBUG]: x").unwrap();
    assert_eq!(console_msg.msg_type, ConsoleMsgType::Unknown("DEBUG".to_string()));
    assert_eq!(console_msg.msg_type.to_string(), "DEBUG");
    assert_eq!(console_msg.msg, "x");
}

#[test]
fn malformed_lines_are_reported() {
    // the first `]` comes first: there is no timestamp to cut out
    assert_eq!(ConsoleMsg::read_line("]/]"), Err(MalformedLine));
    // the hour does not read as a number
    assert_eq!(ConsoleMsg::read_line("[ab:00:00] [main/INFO]: x"), Err(MalformedLine));
    // a line without the second `]` is not console output
    assert_eq!(ConsoleMsg::read_line("[00:00:00] [main/INFO: x"), Ok(None));
}

#[test]
fn malformed_login_is_reported() {
    let console_msg =
        ConsoleMsg::try_parse_from("[00:00:00] [Server thread/INFO]: logged in with entity id")
            .unwrap();
    assert_eq!(ConsoleMsgSpecific::read(&console_msg), Err(MalformedLine));
}

#[test]
fn display_twelve_hour_clock() {
    let console_msg = ConsoleMsg::try_parse_from("[23:04:05] [main/WARN]: careful").unwrap();
    assert_eq!(console_msg.to_string(), "[11:04:05 PM] [mc, WARN]: careful");
    let console_msg = ConsoleMsg::try_parse_from("[00:10:00] [main/INFO]: hi").unwrap();
    assert_eq!(console_msg.to_string(), "[12:10:00 AM] [mc, INFO]: hi");
}

#[test]
fn message_type_round_trip() {
    for t in ["INFO", "WARN", "ERROR", "TRACE", ""] {
        assert_eq!(ConsoleMsgType::parse_from(t).to_string(), t);
    }
}

#[test]
fn coordinates_must_be_numbers() {
    let console_msg = ConsoleMsg::try_parse_from(
        "[23:11:12] [Server thread/INFO]: Cldfire[/127.0.0.1:56538] logged in with entity id 121 at (-2.5, up, 256.5)",
    )
    .unwrap();
    assert_eq!(ConsoleMsgSpecific::read(&console_msg), Err(MalformedLine));
    let console_msg =
        ConsoleMsg::try_parse_from("[21:57:50] [Server thread/INFO]: Done (soon)! For help").unwrap();
    assert_eq!(ConsoleMsgSpecific::read(&console_msg), Err(MalformedLine));
}

#[test]
fn float_texts() {
    for good in ["1", "-2.5", "+.5", "5.", "1e5", "1E-5", "inf", "-Infinity", "NaN", "0.000"] {
        assert!(is_float_text(good.as_bytes()), "{}", good);
        assert!(good.parse::<f32>().is_ok(), "{}", good);
    }
    for bad in ["", ".", "-", "e5", "1e", "1.2.3", " 1", "1 ", "in", "0x10", "1_0"] {
        assert!(!is_float_text(bad.as_bytes()), "{}", bad);
        assert!(bad.parse::<f32>().is_err(), "{}", bad);
    }
}

#[test]
fn clock_time_on_twelve_hours() {
    assert_eq!(ClockTime::from_hms(13, 5, 9).unwrap().twelve_hour(), "1:05:09 PM");
    assert_eq!(ClockTime::midnight().twelve_hour(), "12:00:00 AM");
}
