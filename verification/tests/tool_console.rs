//! The `mc-wrapper` tool's console reading and decisions.

use mc_server_wrapper::mc_wrapper::{
    after_run, discord_chat_line, on_command, read_output_line, ConsoleMsg, ConsoleMsgSpecific,
    ConsoleMsgType, McServerConfig, RunOutcome, ServerCommand, ShutdownReason, ToolAction,
};
use std::path::PathBuf;

#[test]
fn parse_warn_msg() {
    let msg = "[23:10:30] [main/WARN]: Ambiguity between arguments [teleport, targets, location] \
        and [teleport, targets, destination] with inputs: [0.1 -0.5 .9, 0 0 0]";
    let msg_struct = ConsoleMsgSpecific::try_parse_from(msg).unwrap();

    match msg_struct {
        ConsoleMsgSpecific::GenericMsg(generic_msg) => {
            assert!(generic_msg.timestamp.hour() == 23);
            assert!(generic_msg.timestamp.minute() == 10);
            assert!(generic_msg.timestamp.second() == 30);
            assert!(generic_msg.thread_name == "main");
            assert!(generic_msg.msg_type == ConsoleMsgType::Warn);
            assert!(
                generic_msg.msg
                    == "Ambiguity between arguments [teleport, targets, location] \
                and [teleport, targets, destination] with inputs: [0.1 -0.5 .9, 0 0 0]"
            );
        }
        _ => panic!("wrong variant"),
    }
}

#[test]
fn parse_info_msg() {
    let msg = "[23:10:31] [Server thread/INFO]: Starting Minecraft server on *:25565";
    let msg_struct = ConsoleMsgSpecific::try_parse_from(msg).unwrap();

    match msg_struct {
        ConsoleMsgSpecific::GenericMsg(generic_msg) => {
            assert!(generic_msg.timestamp.hour() == 23);
            assert!(generic_msg.timestamp.minute() == 10);
            assert!(generic_msg.timestamp.second() == 31);
            assert!(generic_msg.thread_name == "Server thread");
            assert!(generic_msg.msg_type == ConsoleMsgType::Info);
            assert!(generic_msg.msg == "Starting Minecraft server on *:25565");
        }
        _ => panic!("wrong variant"),
    }
}

#[test]
fn parse_must_accept_eula() {
    let msg = "[00:03:56] [Server thread/INFO]: You need to agree to the EULA in order to run the \
        server. Go to eula.txt for more info.";
    let msg_struct = ConsoleMsgSpecific::try_parse_from(msg).unwrap();

    match msg_struct {
        ConsoleMsgSpecific::MustAcceptEula(generic_msg) => {
            assert!(generic_msg.timestamp.hour() == 00);
            assert!(generic_msg.timestamp.minute() == 03);
            assert!(generic_msg.timestamp.second() == 56);
            assert!(generic_msg.thread_name == "Server thread");
            assert!(generic_msg.msg_type == ConsoleMsgType::Info);
            assert!(
                generic_msg.msg
                    == "You need to agree to the EULA in order to run the \
                server. Go to eula.txt for more info."
            );
        }
        _ => panic!("wrong variant"),
    }
}

#[test]
fn parse_player_msg() {
    let msg = "[23:12:39] [Server thread/INFO]: <Cldfire> hi!";
    let msg_struct = ConsoleMsgSpecific::try_parse_from(msg).unwrap();

    match msg_struct {
        ConsoleMsgSpecific::PlayerMsg { generic_msg, player, player_msg } => {
            assert!(generic_msg.timestamp.hour() == 23);
            assert!(generic_msg.timestamp.minute() == 12);
            assert!(generic_msg.timestamp.second() == 39);
            assert!(generic_msg.thread_name == "Server thread");
            assert!(generic_msg.msg_type == ConsoleMsgType::Info);
            assert!(generic_msg.msg == "<Cldfire> hi!");

            assert!(player == "Cldfire");
            assert!(player_msg == "hi!");
        }
        _ => panic!("wrong variant"),
    }
}

#[test]
fn parse_player_msg_spigot() {
    let msg = "[23:12:39] [Async Chat Thread - #8/INFO]: <Cldfire> hi!";
    let msg_struct = ConsoleMsgSpecific::try_parse_from(msg).unwrap();

    match msg_struct {
        ConsoleMsgSpecific::PlayerMsg { generic_msg, player, player_msg } => {
            assert!(generic_msg.timestamp.hour() == 23);
            assert!(generic_msg.timestamp.minute() == 12);
            assert!(generic_msg.timestamp.second() == 39);
            assert!(generic_msg.thread_name == "Async Chat Thread - #8");
            assert!(generic_msg.msg_type == ConsoleMsgType::Info);
            assert!(generic_msg.msg == "<Cldfire> hi!");

            assert!(player == "Cldfire");
            assert!(player_msg == "hi!");
        }
        _ => panic!("wrong variant"),
    }
}

#[test]
fn parse_player_login() {
    let msg = "[23:11:12] [Server thread/INFO]: Cldfire[/127.0.0.1:56538] logged in with entity \
        id 121 at (-2.5, 63.0, 256.5)";
    let msg_struct = ConsoleMsgSpecific::try_parse_from(msg).unwrap();

    match msg_struct {
        ConsoleMsgSpecific::PlayerLogin { generic_msg, player, ip, entity_id, coords, world } => {
            assert!(generic_msg.timestamp.hour() == 23);
            assert!(generic_msg.timestamp.minute() == 11);
            assert!(generic_msg.timestamp.second() == 12);
            assert!(generic_msg.thread_name == "Server thread");
            assert!(generic_msg.msg_type == ConsoleMsgType::Info);
            assert!(
                generic_msg.msg
                    == "Cldfire[/127.0.0.1:56538] logged in with entity \
                id 121 at (-2.5, 63.0, 256.5)"
            );

            assert!(player == "Cldfire");
            assert!(ip == "127.0.0.1:56538");
            assert!(entity_id == 121);
            let coords: (f32, f32, f32) = (
                coords.0.parse().unwrap(),
                coords.1.parse().unwrap(),
                coords.2.parse().unwrap(),
            );
            assert!(coords == (-2.5, 63.0, 256.5));
            assert!(world.is_none());
        }
        _ => panic!("wrong variant"),
    }
}

#[test]
fn parse_player_auth() {
    let msg = "[23:11:12] [User Authenticator #1/INFO]: UUID of player Cldfire is \
        361e5fb3-dbce-4f91-86b2-43423a4888d5";
    let msg_struct = ConsoleMsgSpecific::try_parse_from(msg).unwrap();

    match msg_struct {
        ConsoleMsgSpecific::PlayerAuth { generic_msg, player, uuid } => {
            assert!(generic_msg.timestamp.hour() == 23);
            assert!(generic_msg.timestamp.minute() == 11);
            assert!(generic_msg.timestamp.second() == 12);
            assert!(generic_msg.thread_name == "User Authenticator #1");
            assert!(generic_msg.msg_type == ConsoleMsgType::Info);
            assert!(
                generic_msg.msg
                    == "UUID of player Cldfire is \
                361e5fb3-dbce-4f91-86b2-43423a4888d5"
            );

            assert!(player == "Cldfire");
            assert!(uuid == "361e5fb3-dbce-4f91-86b2-43423a4888d5");
        }
        _ => panic!("wrong variant"),
    }
}

#[test]
fn parse_spawn_prepare_progress() {
    let msg = "[23:10:35] [Server thread/INFO]: Preparing spawn area: 44%";
    let msg_struct = ConsoleMsgSpecific::try_parse_from(msg).unwrap();

    match msg_struct {
        ConsoleMsgSpecific::SpawnPrepareProgress { generic_msg, progress } => {
            assert!(generic_msg.timestamp.hour() == 23);
            assert!(generic_msg.timestamp.minute() == 10);
            assert!(generic_msg.timestamp.second() == 35);
            assert!(generic_msg.thread_name == "Server thread");
            assert!(generic_msg.msg_type == ConsoleMsgType::Info);
            assert!(generic_msg.msg == "Preparing spawn area: 44%");

            assert!(progress == 44);
        }
        _ => panic!("wrong variant"),
    }
}

#[test]
fn parse_newline() {
    let msg = "\n";
    assert!(ConsoleMsgSpecific::try_parse_from(msg).is_none());
}

#[test]
fn parse_loading_libraries() {
    // spigot prints this non-standard line without a timestamp
    let msg = "Loading libraries, please wait...";
    assert!(ConsoleMsgSpecific::try_parse_from(msg).is_none());
}

#[test]
fn parse_blank_here() {
    // somehow occurs when rapidly firing unknown commands
    let msg = "[19:23:04] [Server thread/INFO]: <--[HERE]";
    let msg_struct = ConsoleMsgSpecific::try_parse_from(msg).unwrap();

    match msg_struct {
        ConsoleMsgSpecific::GenericMsg(_) => {}
        _ => panic!("wrong variant"),
    }
}

#[test]
fn chat_without_closing_bracket_is_generic() {
    let msg = "[19:23:04] [Server thread/INFO]: <nobody";
    assert!(matches!(
        ConsoleMsgSpecific::try_parse_from(msg),
        Some(ConsoleMsgSpecific::GenericMsg(_))
    ));
}

#[test]
fn timestamps_must_be_times_of_day() {
    assert!(ConsoleMsg::read_line("[24:00:00] [main/INFO]: x").is_err());
    assert!(ConsoleMsg::read_line("[ab:cd:ef] [main/INFO]: x").is_err());
    assert!(ConsoleMsg::read_line("[] [main/INFO]: x").is_err());
    let m = ConsoleMsg::read_line("[23:59:59] [main/ERROR]: x").unwrap().unwrap();
    assert_eq!(m.msg_type, ConsoleMsgType::Unknown);
    assert_eq!(m.to_string(), "[11:59:59 PM] [Unknown]: x");
    assert!(ConsoleMsg::read_line("no brackets").unwrap().is_none());
}

#[test]
fn output_lines_and_the_eula() {
    let mut reason = None;
    let r = read_output_line("[00:03:56] [Server thread/INFO]: You need to agree to the EULA in order to run the server. Go to eula.txt for more info.", &mut reason);
    assert!(matches!(r, Ok(Some(ConsoleMsgSpecific::MustAcceptEula(_)))));
    assert_eq!(reason, Some(ShutdownReason::EulaNotAccepted));
    let mut reason = None;
    assert!(read_output_line("Loading libraries, please wait...", &mut reason)
        .unwrap()
        .is_none());
    assert_eq!(reason, None);
}

#[test]
fn tool_commands() {
    match on_command(ServerCommand::TellRaw("{}".to_string()), true) {
        ToolAction::Write(t) => assert_eq!(t, "tellraw @a {}\n"),
        other => panic!("unexpected {:?}", other),
    }
    assert!(matches!(on_command(ServerCommand::TellRaw("{}".to_string()), false), ToolAction::Ignore));
    match on_command(ServerCommand::WriteCommandToStdin("list".to_string()), true) {
        ToolAction::Write(t) => assert_eq!(t, "list\n"),
        other => panic!("unexpected {:?}", other),
    }
    match on_command(ServerCommand::StopServer, true) {
        ToolAction::Write(t) => assert_eq!(t, "stop\n"),
        other => panic!("unexpected {:?}", other),
    }
    assert!(matches!(on_command(ServerCommand::StartServer, true), ToolAction::Ignore));
    assert!(matches!(on_command(ServerCommand::StartServer, false), ToolAction::Start));
    match on_command(ServerCommand::EndInstance, true) {
        ToolAction::EndInstance(Some(t)) => assert_eq!(t, "stop\n"),
        other => panic!("unexpected action: {:?}", other),
    }
    assert!(matches!(on_command(ServerCommand::EndInstance, false), ToolAction::EndInstance(None)));
}

#[test]
fn tool_launch() {
    let config = McServerConfig { server_path: PathBuf::from("/srv/s.jar"), memory: 512 };
    assert_eq!(
        config.launch_args("/srv", "s.jar"),
        vec![
            "-c".to_string(),
            "cd /srv && exec java -Xms512M -Xmx512M -jar s.jar nogui".to_string()
        ]
    );
}

#[test]
fn restarts() {
    let a = vec!["Error".to_string()];
    let b = vec!["Other".to_string()];
    assert_eq!(after_run(true, &a, &a, 5), RunOutcome::Exit);
    assert_eq!(after_run(false, &a, &a, 5), RunOutcome::GiveUp);
    assert_eq!(after_run(false, &a, &a, 60), RunOutcome::Restart);
    assert_eq!(after_run(false, &a, &b, 5), RunOutcome::Restart);
    assert_eq!(discord_chat_line("Nick", "hi"), "Nick: hi");
}

#[test]
fn run_reason_is_set_by_any_eula_notice() {
    let eula = "[00:03:56] [Server thread/INFO]: You need to agree to the EULA in order to run the server. Go to eula.txt for more info.";
    let lines = [
        "Loading libraries, please wait...",
        "[00:03:55] [Server thread/INFO]: Starting minecraft server version 1.16.1",
        eula,
        "[00:03:57] [Server thread/INFO]: Stopping server",
    ];
    let mut reason = None;
    for line in lines.iter() {
        let _ = read_output_line(line, &mut reason);
    }
    assert_eq!(reason, Some(ShutdownReason::EulaNotAccepted));

    let mut reason = None;
    for line in lines.iter().filter(|l| **l != eula) {
        let _ = read_output_line(line, &mut reason);
    }
    assert_eq!(reason, None);
}
