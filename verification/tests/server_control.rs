//! The manager's and the wrapper's decisions.

use std::path::PathBuf;

use mc_server_wrapper::parse::ConsoleMsgType;
use mc_server_wrapper::players::{OnlinePlayerInfo, OnlinePlayers};
use mc_server_wrapper::server::{
    final_shutdown_reason, read_stdout_line, shutdown_reason_for_write, CommandListener,
    ListenerAction, McServerConfig, McServerConfigError, ServerCommand, ShutdownReason, StdoutLine,
};
use mc_server_wrapper::specific::ConsoleMsgSpecific;
use mc_server_wrapper::ui::{LogsState, ProgressBarState};
use mc_server_wrapper::wrapper::{
    after_server_stopped, channel_messages_after_stop, chat_message, command_after_eula,
    command_after_stop, handle_command_from_edge, joined_message, left_message,
    react_to_console_msg, status_after_stop, web_console_command, AfterStop, EdgeToCoreCommand,
    LiveViewFromServer, MainViewMessage, WebConsole,
};

fn config() -> McServerConfig {
    McServerConfig::new(PathBuf::from("/srv/mc/server.jar"), 1024, None, false)
}

#[test]
fn java_arguments() {
    let c = McServerConfig::new(
        PathBuf::from("/srv/mc/server.jar"),
        2048,
        Some("-XX:+UseG1GC".to_string()),
        false,
    );
    assert_eq!(
        c.java_args("\"server.jar\""),
        "-Xms2048M -Xmx2048M -XX:+UseG1GC -jar \"server.jar\" nogui"
    );
    assert_eq!(config().java_args("\"s.jar\""), "-Xms1024M -Xmx1024M  -jar \"s.jar\" nogui");
}

#[test]
fn launch_commands() {
    let (program, args) = config().launch_command("/srv/mc", "\"server.jar\"", false);
    assert_eq!(program, "sh");
    assert_eq!(
        args,
        vec![
            "-c".to_string(),
            "cd /srv/mc && exec java -Xms1024M -Xmx1024M  -jar \"server.jar\" nogui".to_string()
        ]
    );
    let (program, args) = config().launch_command("C:\\mc", "\"server.jar\"", true);
    assert_eq!(program, "PowerShell");
    assert_eq!(args.len(), 8);
    assert_eq!(args[5], "C:\\mc");
    assert_eq!(args[7], "'-Xms1024M -Xmx1024M  -jar \"server.jar\" nogui'");
}

#[test]
fn missing_server_jar() {
    let c = config();
    assert!(c.check_server_path(true).is_ok());
    match c.check_server_path(false) {
        Err(McServerConfigError::ServerPathFileNotPresent(p)) => {
            assert_eq!(p, PathBuf::from("/srv/mc/server.jar"))
        }
        Ok(()) => panic!("a missing jar was accepted"),
    }
}

#[test]
fn listener_commands() {
    let mut l = CommandListener::new();
    match l.on_command(ServerCommand::TellRawAll("{\"text\":\"hi\"}".to_string()), true) {
        ListenerAction::WriteToStdin(t) => assert_eq!(t, "tellraw @a {\"text\":\"hi\"}\n"),
        other => panic!("unexpected {:?}", other),
    }
    match l.on_command(ServerCommand::WriteCommandToStdin("list".to_string()), true) {
        ListenerAction::WriteToStdin(t) => assert_eq!(t, "list\n"),
        other => panic!("unexpected {:?}", other),
    }
    match l.on_command(ServerCommand::WriteToStdin("raw".to_string()), true) {
        ListenerAction::WriteToStdin(t) => assert_eq!(t, "raw"),
        other => panic!("unexpected {:?}", other),
    }
    assert!(matches!(l.on_command(ServerCommand::AgreeToEula, false), ListenerAction::Ignore));
    assert!(matches!(
        l.on_command(ServerCommand::StartServer { config: None }, false),
        ListenerAction::NoPreviousConfig
    ));
    assert!(matches!(
        l.on_command(ServerCommand::StartServer { config: Some(config()) }, true),
        ListenerAction::Ignore
    ));
    assert!(l.current_config().is_none());
    assert!(matches!(
        l.on_command(ServerCommand::StartServer { config: Some(config()) }, false),
        ListenerAction::StartServer
    ));
    assert_eq!(l.current_config().unwrap().memory_mb(), 1024);
    assert!(matches!(
        l.on_command(ServerCommand::StartServer { config: None }, false),
        ListenerAction::StartServer
    ));
    match l.on_command(ServerCommand::AgreeToEula, false) {
        ListenerAction::AgreeToEula(p) => assert_eq!(p, PathBuf::from("/srv/mc/server.jar")),
        other => panic!("unexpected {:?}", other),
    }
    assert!(matches!(
        l.on_command(ServerCommand::StopServer { forever: true }, true),
        ListenerAction::StopServer { forever: true }
    ));
}

#[test]
fn stop_written_to_stdin() {
    assert_eq!(shutdown_reason_for_write(b"stop\n"), Some(ShutdownReason::RequestedToStop));
    assert_eq!(shutdown_reason_for_write(b"stop"), None);
    assert_eq!(shutdown_reason_for_write(b"say stop\n"), None);
}

#[test]
fn manager_reason_wins() {
    assert_eq!(
        final_shutdown_reason(
            Some(ShutdownReason::EulaNotAccepted),
            Some(ShutdownReason::RequestedToStop)
        ),
        Some(ShutdownReason::RequestedToStop)
    );
    assert_eq!(
        final_shutdown_reason(Some(ShutdownReason::EulaNotAccepted), None),
        Some(ShutdownReason::EulaNotAccepted)
    );
    assert_eq!(final_shutdown_reason(None, None), None);
}

#[test]
fn stdout_lines() {
    let mut reason = None;
    match read_stdout_line("Loading libraries, please wait...", &mut reason) {
        Ok(StdoutLine::Plain(t)) => assert_eq!(t, "Loading libraries, please wait..."),
        other => panic!("unexpected {:?}", other),
    }
    assert_eq!(reason, None);
    match read_stdout_line("[23:10:31] [Server thread/INFO]: Starting minecraft server", &mut reason) {
        Ok(StdoutLine::Console(msg, None)) => assert_eq!(msg.msg_type, ConsoleMsgType::Info),
        other => panic!("unexpected {:?}", other),
    }
    assert_eq!(reason, None);
    let eula = "[00:03:56] [Server thread/INFO]: You need to agree to the EULA in order to run the server. Go to eula.txt for more info.";
    match read_stdout_line(eula, &mut reason) {
        Ok(StdoutLine::Console(_, Some(ConsoleMsgSpecific::MustAcceptEula))) => {}
        other => panic!("unexpected {:?}", other),
    }
    assert_eq!(reason, Some(ShutdownReason::EulaNotAccepted));
    assert!(read_stdout_line("[ab:cd:ef] [Server thread/INFO]: hi", &mut reason).is_err());
}

#[test]
fn channel_messages() {
    assert_eq!(left_message("p_1"), "_**p\\_1** left the game_");
    assert_eq!(joined_message("p_1"), "_**p\\_1** joined the game_");
    assert_eq!(chat_message("*a*", "hi *there*"), "**\\*a\\*** hi *there*");
}

#[test]
fn logins_and_logouts() {
    let mut players = OnlinePlayers::new();
    let mut logs = LogsState::new();
    let login = ConsoleMsgSpecific::PlayerLogin {
        name: "Cldfire".to_string(),
        ip: "127.0.0.1:56538".to_string(),
        entity_id: 121,
        coords: ("1.0".to_string(), "2.0".to_string(), "3.0".to_string()),
        world: None,
    };
    let r = react_to_console_msg(&login, &mut players, &mut logs, OnlinePlayerInfo::joined_at_nanos(5));
    assert_eq!(r.channel_message.as_deref(), Some("_**Cldfire** joined the game_"));
    assert_eq!(r.status.as_deref(), Some("Minecraft with Cldfire"));
    assert!(r.log);
    assert_eq!(players.len(), 1);

    let logout = ConsoleMsgSpecific::PlayerLogout { name: "Cldfire".to_string() };
    let r = react_to_console_msg(&logout, &mut players, &mut logs, OnlinePlayerInfo::joined_at_nanos(6));
    assert_eq!(r.channel_message.as_deref(), Some("_**Cldfire** left the game_"));
    assert_eq!(r.status.as_deref(), Some("Minecraft with nobody"));
    assert_eq!(players.len(), 0);
}

#[test]
fn loading_progress() {
    let mut players = OnlinePlayers::new();
    let mut logs = LogsState::new();
    let r = react_to_console_msg(
        &ConsoleMsgSpecific::SpawnPrepareProgress { progress: 44 },
        &mut players,
        &mut logs,
        OnlinePlayerInfo::joined_at_nanos(0),
    );
    assert!(!r.log);
    assert!(r.channel_message.is_none());
    assert_eq!(logs.progress_bar(), Some(ProgressBarState { complete: 44, out_of: 100 }));
    let r = react_to_console_msg(
        &ConsoleMsgSpecific::SpawnPrepareFinish { time_elapsed_ms: 3292 },
        &mut players,
        &mut logs,
        OnlinePlayerInfo::joined_at_nanos(0),
    );
    assert!(r.log);
    assert_eq!(logs.progress_bar(), None);
    let r = react_to_console_msg(
        &ConsoleMsgSpecific::FinishedLoading { time_elapsed_s: "7.410".to_string() },
        &mut players,
        &mut logs,
        OnlinePlayerInfo::joined_at_nanos(0),
    );
    assert_eq!(r.status.as_deref(), Some("Minecraft with nobody"));
    let r = react_to_console_msg(
        &ConsoleMsgSpecific::PlayerMsg { name: "a_b".to_string(), msg: "hi".to_string() },
        &mut players,
        &mut logs,
        OnlinePlayerInfo::joined_at_nanos(0),
    );
    assert_eq!(r.channel_message.as_deref(), Some("**a\\_b** hi"));
    assert!(r.status.is_none());
}

#[test]
fn after_a_stop() {
    let eula = after_server_stopped(Some(ShutdownReason::EulaNotAccepted), true, 10);
    assert_eq!(eula, AfterStop::AgreeToEula);
    assert!(matches!(command_after_stop(eula), Some(ServerCommand::AgreeToEula)));
    assert!(channel_messages_after_stop(eula).is_empty());
    assert_eq!(status_after_stop(eula), None);

    let asked = after_server_stopped(Some(ShutdownReason::RequestedToStop), true, 1000);
    assert_eq!(asked, AfterStop::Offline { crashed: false });
    assert_eq!(status_after_stop(asked).as_deref(), Some("server is offline"));

    let early_crash = after_server_stopped(None, true, 300);
    assert_eq!(early_crash, AfterStop::Offline { crashed: true });
    assert_eq!(channel_messages_after_stop(early_crash), vec!["The Minecraft server crashed!".to_string()]);
    assert!(command_after_stop(early_crash).is_none());

    let late_crash = after_server_stopped(None, true, 301);
    assert_eq!(late_crash, AfterStop::Restart);
    assert!(matches!(
        command_after_stop(late_crash),
        Some(ServerCommand::StartServer { config: None })
    ));
    assert_eq!(
        channel_messages_after_stop(late_crash),
        vec![
            "The Minecraft server crashed!".to_string(),
            "Restarting the Minecraft server...".to_string()
        ]
    );
    assert_eq!(status_after_stop(late_crash).as_deref(), Some("server is restarting"));

    let lost = after_server_stopped(None, false, 1000);
    assert_eq!(lost, AfterStop::Offline { crashed: false });
}

#[test]
fn after_the_eula() {
    assert!(matches!(command_after_eula(true), ServerCommand::StartServer { config: None }));
    assert!(matches!(command_after_eula(false), ServerCommand::StopServer { forever: true }));
}

#[test]
fn edge_commands() {
    let (cmd, clock) = handle_command_from_edge(EdgeToCoreCommand::MinecraftCommand(
        ServerCommand::StartServer { config: None },
    ));
    assert!(clock);
    assert!(matches!(cmd, ServerCommand::StartServer { config: None }));
    let (cmd, clock) = handle_command_from_edge(EdgeToCoreCommand::MinecraftCommand(
        ServerCommand::StopServer { forever: false },
    ));
    assert!(!clock);
    assert!(matches!(cmd, ServerCommand::StopServer { forever: false }));
}

#[test]
fn web_console_lines() {
    match web_console_command("list".to_string(), true) {
        Some(EdgeToCoreCommand::MinecraftCommand(ServerCommand::WriteCommandToStdin(t))) => {
            assert_eq!(t, "list")
        }
        other => panic!("unexpected {:?}", other),
    }
    assert!(matches!(
        web_console_command("start".to_string(), false),
        Some(EdgeToCoreCommand::MinecraftCommand(ServerCommand::StartServer { config: None }))
    ));
    assert!(matches!(
        web_console_command("stop".to_string(), false),
        Some(EdgeToCoreCommand::MinecraftCommand(ServerCommand::StopServer { forever: true }))
    ));
    assert!(web_console_command("list".to_string(), false).is_none());
    assert_eq!(
        LiveViewFromServer::LogMessage("x".to_string()),
        LiveViewFromServer::LogMessage("x".to_string())
    );
}

#[test]
fn web_console_page() {
    let mut page = WebConsole::new();
    assert!(!page.can_submit());
    assert!(page
        .update(MainViewMessage::FromServer(LiveViewFromServer::LogMessage("log".to_string())), None)
        .is_none());
    assert_eq!(page.message_list(), &vec!["log".to_string()]);
    assert!(page.update(MainViewMessage::InputChange, Some("list".to_string())).is_none());
    assert!(page.can_submit());
    assert_eq!(page.update(MainViewMessage::InputSubmit, None).as_deref(), Some("list"));
    assert!(!page.can_submit());
}

#[test]
fn run_shutdown_reason_over_lines() {
    let eula = "[00:03:56] [Server thread/INFO]: You need to agree to the EULA in order to run the server. Go to eula.txt for more info.";
    let lines = [
        "[00:03:55] [Server thread/INFO]: Starting minecraft server version 1.16.1",
        eula,
        "[00:03:57] [Server thread/INFO]: Stopping server",
    ];
    let mut reason = None;
    for line in lines.iter() {
        let _ = read_stdout_line(line, &mut reason);
    }
    assert_eq!(final_shutdown_reason(reason, None), Some(ShutdownReason::EulaNotAccepted));
    assert_eq!(
        final_shutdown_reason(reason, Some(ShutdownReason::RequestedToStop)),
        Some(ShutdownReason::RequestedToStop)
    );

    let mut reason = None;
    for line in [lines[0], lines[2]].iter() {
        let _ = read_stdout_line(line, &mut reason);
    }
    assert_eq!(final_shutdown_reason(reason, None), None);
}

#[test]
fn config_clone_is_the_same_configuration() {
    let c = McServerConfig::new(PathBuf::from("/srv/mc/server.jar"), 2048, Some("-XX:+UseG1GC".to_string()), true);
    let d = c.clone();
    assert_eq!(d.server_path(), c.server_path());
    assert_eq!(d.memory_mb(), 2048);
    assert!(d.inherits_stdin());
    assert_eq!(d.java_args("server.jar"), c.java_args("server.jar"));
}
