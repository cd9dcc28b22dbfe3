//! The wrapper's decisions: what it tells the chat channel and the bot's
//! status when the server reports something, what it does when the server
//! stops, and how commands from its other front ends reach the server.
use vstd::prelude::*;

use crate::players::{
    format_online_players, online_players_text, sanitize_for_markdown, sanitized, OnlinePlayerFormat,
    OnlinePlayerInfo, OnlinePlayers,
};
use crate::render::push_text;
use crate::server::{ServerCommand, ShutdownReason};
use crate::specific::ConsoleMsgSpecific;
use crate::ui::{progress_after, LogsState};

verus! {

/* Reacting to what the server reports */

/// `_**<name>** left the game_`, the name escaped for markdown.
pub open spec fn left_text(name: Seq<char>) -> Seq<char> {
    "_**"@ + sanitized(name) + "** left the game_"@
}

/// `_**<name>** joined the game_`, the name escaped for markdown.
pub open spec fn joined_text(name: Seq<char>) -> Seq<char> {
    "_**"@ + sanitized(name) + "** joined the game_"@
}

/// `**<name>** <message>`, the name escaped for markdown.
pub open spec fn chat_text(name: Seq<char>, msg: Seq<char>) -> Seq<char> {
    "**"@ + sanitized(name) + "** "@ + msg
}

/// The channel message that a player left.
pub fn left_message(name: &str) -> (r: String)
    ensures
        r@ == left_text(name@),
{
    let mut out = String::new();
    push_text(&mut out, "_**");
    let n = sanitize_for_markdown(name);
    push_text(&mut out, n.as_str());
    push_text(&mut out, "** left the game_");
    proof {
        assert(out@ =~= left_text(name@));
    }
    out
}

/// The channel message that a player joined.
pub fn joined_message(name: &str) -> (r: String)
    ensures
        r@ == joined_text(name@),
{
    let mut out = String::new();
    push_text(&mut out, "_**");
    let n = sanitize_for_markdown(name);
    push_text(&mut out, n.as_str());
    push_text(&mut out, "** joined the game_");
    proof {
        assert(out@ =~= joined_text(name@));
    }
    out
}

/// The channel message that passes on what a player said.
pub fn chat_message(name: &str, msg: &str) -> (r: String)
    ensures
        r@ == chat_text(name@, msg@),
{
    let mut out = String::new();
    push_text(&mut out, "**");
    let n = sanitize_for_markdown(name);
    push_text(&mut out, n.as_str());
    push_text(&mut out, "** ");
    push_text(&mut out, msg);
    proof {
        assert(out@ =~= chat_text(name@, msg@));
    }
    out
}

/// What the wrapper does about a console message: a message for the chat
/// channel, a new status for the bot, and whether the message is logged.
#[derive(Debug)]
pub struct ConsoleReaction {
    pub channel_message: Option<String>,
    pub status: Option<String>,
    pub log: bool,
}

/// The text of an optional string.
pub open spec fn opt_view(s: Option<String>) -> Option<Seq<char>> {
    match s {
        Some(t) => Some(t@),
        None => None,
    }
}

/// Reacts to a console message the wrapper knows: logins and logouts update
/// the online players (a login joining at `now`), are told to the channel
/// and update the bot's status; chat is passed on to the channel; progress
/// in preparing the spawn area moves the progress bar (unlogged), its end
/// completes it; once the server has loaded the bot's status is set.
pub fn react_to_console_msg(
    specific: &ConsoleMsgSpecific,
    players: &mut OnlinePlayers,
    logs: &mut LogsState,
    now: OnlinePlayerInfo,
) -> (r: ConsoleReaction)
    requires
        old(players).well_formed(),
    ensures
        final(players).well_formed(),
        final(logs).records() == old(logs).records(),
        final(logs).input() == old(logs).input(),
        match specific {
            ConsoleMsgSpecific::PlayerLogout { name } => {
                &&& final(players)@ == old(players)@.remove(name@)
                &&& opt_view(r.channel_message) == Some(left_text(name@))
                &&& opt_view(r.status) == Some(
                    online_players_text(final(players).names(), OnlinePlayerFormat::BotStatus),
                )
                &&& r.log
                &&& final(logs).bar() == old(logs).bar()
            },
            ConsoleMsgSpecific::PlayerLogin { name, .. } => {
                &&& final(players)@ == old(players)@.insert(name@, now)
                &&& opt_view(r.channel_message) == Some(joined_text(name@))
                &&& opt_view(r.status) == Some(
                    online_players_text(final(players).names(), OnlinePlayerFormat::BotStatus),
                )
                &&& r.log
                &&& final(logs).bar() == old(logs).bar()
            },
            ConsoleMsgSpecific::PlayerMsg { name, msg } => {
                &&& final(players)@ == old(players)@
                &&& opt_view(r.channel_message) == Some(chat_text(name@, msg@))
                &&& r.status is None
                &&& r.log
                &&& final(logs).bar() == old(logs).bar()
            },
            ConsoleMsgSpecific::SpawnPrepareProgress { progress } => {
                &&& final(players)@ == old(players)@
                &&& r.channel_message is None
                &&& r.status is None
                &&& !r.log
                &&& final(logs).bar() == progress_after(old(logs).bar(), *progress as u32)
            },
            ConsoleMsgSpecific::SpawnPrepareFinish { .. } => {
                &&& final(players)@ == old(players)@
                &&& r.channel_message is None
                &&& r.status is None
                &&& r.log
                &&& final(logs).bar() == progress_after(old(logs).bar(), 100)
            },
            ConsoleMsgSpecific::FinishedLoading { .. } => {
                &&& final(players)@ == old(players)@
                &&& r.channel_message is None
                &&& opt_view(r.status) == Some(
                    online_players_text(final(players).names(), OnlinePlayerFormat::BotStatus),
                )
                &&& r.log
                &&& final(logs).bar() == old(logs).bar()
            },
            _ => {
                &&& final(players)@ == old(players)@
                &&& r.channel_message is None
                &&& r.status is None
                &&& r.log
                &&& final(logs).bar() == old(logs).bar()
            },
        },
{
    match specific {
        ConsoleMsgSpecific::PlayerLogout { name } => {
            let message = left_message(name.as_str());
            players.remove(name.as_str());
            let status = format_online_players(players, OnlinePlayerFormat::BotStatus);
            ConsoleReaction { channel_message: Some(message), status: Some(status), log: true }
        },
        ConsoleMsgSpecific::PlayerLogin { name, .. } => {
            let message = joined_message(name.as_str());
            players.insert(name.clone(), now);
            let status = format_online_players(players, OnlinePlayerFormat::BotStatus);
            ConsoleReaction { channel_message: Some(message), status: Some(status), log: true }
        },
        ConsoleMsgSpecific::PlayerMsg { name, msg } => {
            let message = chat_message(name.as_str(), msg.as_str());
            ConsoleReaction { channel_message: Some(message), status: None, log: true }
        },
        ConsoleMsgSpecific::SpawnPrepareProgress { progress } => {
            logs.set_progress_percent(*progress as u32);
            ConsoleReaction { channel_message: None, status: None, log: false }
        },
        ConsoleMsgSpecific::SpawnPrepareFinish { .. } => {
            logs.set_progress_percent(100);
            ConsoleReaction { channel_message: None, status: None, log: true }
        },
        ConsoleMsgSpecific::FinishedLoading { .. } => {
            let status = format_online_players(players, OnlinePlayerFormat::BotStatus);
            ConsoleReaction { channel_message: None, status: Some(status), log: true }
        },
        _ => ConsoleReaction { channel_message: None, status: None, log: true },
    }
}

/* When the server stops */

/// What the wrapper does once the server has stopped.
#[derive(Debug, Clone, Copy, PartialEq, Eq)]
pub enum AfterStop {
    /// The EULA was not agreed to: agree to it (and start again).
    AgreeToEula,
    /// The server crashed after running long enough: start it again.
    Restart,
    /// Leave it stopped; `crashed` when it exited without being asked to.
    Offline { crashed: bool },
}

/// How long the server must have run, in seconds, for a crash to be met
/// with a restart.
pub const RESTART_AFTER_SECS: u64 = 300;

/// Decides what to do once the server stopped, given why (if known),
/// whether its process exited (rather than failing to be waited on), and for
/// how many seconds it ran: a missing EULA agreement is agreed to; a stop
/// that was asked for, or a process that could not be waited on, leaves it
/// stopped; an exit nobody asked for is a crash, restarted when the server
/// had run for more than five minutes.
pub fn after_server_stopped(reason: Option<ShutdownReason>, process_exited: bool, seconds_up: u64) -> (r:
    AfterStop)
    ensures
        r == match reason {
            Some(ShutdownReason::EulaNotAccepted) => AfterStop::AgreeToEula,
            Some(ShutdownReason::RequestedToStop) => AfterStop::Offline { crashed: false },
            None => if !process_exited {
                AfterStop::Offline { crashed: false }
            } else if seconds_up > RESTART_AFTER_SECS {
                AfterStop::Restart
            } else {
                AfterStop::Offline { crashed: true }
            },
        },
{
    match reason {
        Some(ShutdownReason::EulaNotAccepted) => AfterStop::AgreeToEula,
        Some(ShutdownReason::RequestedToStop) => AfterStop::Offline { crashed: false },
        None => {
            if !process_exited {
                AfterStop::Offline { crashed: false }
            } else if seconds_up > RESTART_AFTER_SECS {
                AfterStop::Restart
            } else {
                AfterStop::Offline { crashed: true }
            }
        },
    }
}

/// The command that follows the decision: agreeing to the EULA, starting
/// again with the configuration given before, or none.
pub fn command_after_stop(decision: AfterStop) -> (r: Option<ServerCommand>)
    ensures
        decision is AgreeToEula ==> r matches Some(ServerCommand::AgreeToEula),
        decision is Restart ==> r matches Some(ServerCommand::StartServer { config: None }),
        decision is Offline ==> r is None,
{
    match decision {
        AfterStop::AgreeToEula => Some(ServerCommand::AgreeToEula),
        AfterStop::Restart => Some(ServerCommand::StartServer { config: None }),
        AfterStop::Offline { .. } => None,
    }
}

/// The messages for the chat channel after the decision: that the server
/// crashed, and that it is restarting.
pub fn channel_messages_after_stop(decision: AfterStop) -> (r: Vec<String>)
    ensures
        r@.map_values(|s: String| s@) == match decision {
            AfterStop::AgreeToEula => Seq::<Seq<char>>::empty(),
            AfterStop::Restart => seq![
                "The Minecraft server crashed!"@,
                "Restarting the Minecraft server..."@,
            ],
            AfterStop::Offline { crashed } => if crashed {
                seq!["The Minecraft server crashed!"@]
            } else {
                Seq::<Seq<char>>::empty()
            },
        },
{
    let mut out: Vec<String> = Vec::new();
    match decision {
        AfterStop::AgreeToEula => {},
        AfterStop::Restart => {
            out.push("The Minecraft server crashed!".to_owned());
            out.push("Restarting the Minecraft server...".to_owned());
        },
        AfterStop::Offline { crashed } => {
            if crashed {
                out.push("The Minecraft server crashed!".to_owned());
            }
        },
    }
    proof {
        assert(out@.map_values(|s: String| s@) =~= match decision {
            AfterStop::AgreeToEula => Seq::<Seq<char>>::empty(),
            AfterStop::Restart => seq![
                "The Minecraft server crashed!"@,
                "Restarting the Minecraft server..."@,
            ],
            AfterStop::Offline { crashed } => if crashed {
                seq!["The Minecraft server crashed!"@]
            } else {
                Seq::<Seq<char>>::empty()
            },
        });
    }
    out
}

/// The bot's status after the decision.
pub fn status_after_stop(decision: AfterStop) -> (r: Option<String>)
    ensures
        opt_view(r) == match decision {
            AfterStop::AgreeToEula => None,
            AfterStop::Restart => Some("server is restarting"@),
            AfterStop::Offline { .. } => Some("server is offline"@),
        },
{
    match decision {
        AfterStop::AgreeToEula => None,
        AfterStop::Restart => Some("server is restarting".to_owned()),
        AfterStop::Offline { .. } => Some("server is offline".to_owned()),
    }
}

/// After trying to agree to the EULA: start the server when that worked,
/// else stop for good.
pub fn command_after_eula(agreed: bool) -> (r: ServerCommand)
    ensures
        agreed ==> r matches ServerCommand::StartServer { config: None },
        !agreed ==> r matches ServerCommand::StopServer { forever: true },
{
    if agreed {
        ServerCommand::StartServer { config: None }
    } else {
        ServerCommand::StopServer { forever: true }
    }
}

/* Commands from the front ends */

/// A command from one of the wrapper's front ends (the terminal, the web
/// console, the chat bridge) to its core.
#[derive(Debug)]
pub enum EdgeToCoreCommand {
    MinecraftCommand(ServerCommand),
}

/// Passes a front end's command on to the server; a start also restarts the
/// clock that measures how long the server has run.
pub fn handle_command_from_edge(command: EdgeToCoreCommand) -> (r: (ServerCommand, bool))
    ensures
        match command {
            EdgeToCoreCommand::MinecraftCommand(c) => r.0 == c && r.1 == (c is StartServer),
        },
{
    match command {
        EdgeToCoreCommand::MinecraftCommand(server_command) => {
            let restarts_clock = match &server_command {
                ServerCommand::StartServer { .. } => true,
                _ => false,
            };
            (server_command, restarts_clock)
        },
    }
}

/// What a line typed into the web console asks for: while the server runs,
/// the line is a command for it; otherwise `start` starts it, `stop` stops
/// the wrapper, and anything else does nothing.
pub fn web_console_command(input: String, running: bool) -> (r: Option<EdgeToCoreCommand>)
    ensures
        running ==> (r matches Some(EdgeToCoreCommand::MinecraftCommand(
            ServerCommand::WriteCommandToStdin(t),
        )) && t@ == input@),
        !running && input@ == "start"@ ==> r matches Some(EdgeToCoreCommand::MinecraftCommand(
            ServerCommand::StartServer { config: None },
        )),
        !running && input@ == "stop"@ ==> r matches Some(EdgeToCoreCommand::MinecraftCommand(
            ServerCommand::StopServer { forever: true },
        )),
        !running && input@ != "start"@ && input@ != "stop"@ ==> r is None,
{
    if running {
        return Some(EdgeToCoreCommand::MinecraftCommand(ServerCommand::WriteCommandToStdin(input)));
    }
    let start = "start".to_owned();
    let stop = "stop".to_owned();
    proof {
        reveal_strlit("start");
        reveal_strlit("stop");
        assert("start"@.len() != "stop"@.len());
    }
    if input == start {
        Some(EdgeToCoreCommand::MinecraftCommand(ServerCommand::StartServer { config: None }))
    } else if input == stop {
        Some(EdgeToCoreCommand::MinecraftCommand(ServerCommand::StopServer { forever: true }))
    } else {
        None
    }
}

/// What the server side of the web console sends to its pages.
#[derive(Debug, Clone, PartialEq, Eq)]
pub enum LiveViewFromServer {
    LogMessage(String),
}

/// What the web console's page reacts to.
#[derive(Debug)]
pub enum MainViewMessage {
    /// Something the server side sent.
    FromServer(LiveViewFromServer),
    /// The input field changed.
    InputChange,
    /// The input was sent.
    InputSubmit,
}

/// The state of a web console page: the log lines it shows and what is typed
/// into its input field.
#[derive(Debug)]
pub struct WebConsole {
    messages: Vec<String>,
    input_value: String,
}

impl WebConsole {
    pub closed spec fn messages(&self) -> Seq<Seq<char>> {
        self.messages@.map_values(|m: String| m@)
    }

    pub closed spec fn input(&self) -> Seq<char> {
        self.input_value@
    }

    /// A page that shows nothing yet.
    pub fn new() -> (r: Self)
        ensures
            r.messages() == Seq::<Seq<char>>::empty(),
            r.input() == Seq::<char>::empty(),
    {
        let r = WebConsole { messages: Vec::new(), input_value: String::new() };
        proof {
            assert(r.messages() =~= Seq::<Seq<char>>::empty());
        }
        r
    }

    /// Updates the page: a log line from the server is shown; a change of
    /// the input field (whose new text is `input`) is kept; a submission
    /// takes the input (returned, for the command it may be) and clears the
    /// field.
    pub fn update(&mut self, msg: MainViewMessage, input: Option<String>) -> (r: Option<String>)
        requires
            msg is InputChange ==> input is Some,
        ensures
            match msg {
                MainViewMessage::FromServer(LiveViewFromServer::LogMessage(m)) => {
                    &&& final(self).messages() == old(self).messages().push(m@)
                    &&& final(self).input() == old(self).input()
                    &&& r is None
                },
                MainViewMessage::InputChange => {
                    &&& final(self).messages() == old(self).messages()
                    &&& final(self).input() == input.unwrap()@
                    &&& r is None
                },
                MainViewMessage::InputSubmit => {
                    &&& final(self).messages() == old(self).messages()
                    &&& final(self).input() == Seq::<char>::empty()
                    &&& r matches Some(t) && t@ == old(self).input()
                },
            },
    {
        match msg {
            MainViewMessage::FromServer(LiveViewFromServer::LogMessage(m)) => {
                self.messages.push(m);
                proof {
                    assert(final(self).messages() =~= old(self).messages().push(m@));
                }
                None
            },
            MainViewMessage::InputChange => {
                match input {
                    Some(text) => {
                        self.input_value = text;
                    },
                    None => {},
                }
                None
            },
            MainViewMessage::InputSubmit => {
                let submitted = self.input_value.clone();
                self.input_value.clear();
                Some(submitted)
            },
        }
    }

    /// The log lines the page shows.
    pub fn message_list(&self) -> (r: &Vec<String>)
        ensures
            r@.map_values(|m: String| m@) == self.messages(),
    {
        &self.messages
    }

    /// The send button works only with something typed.
    pub fn can_submit(&self) -> (r: bool)
        ensures
            r == (self.input().len() > 0),
    {
        !self.input_value.as_str().is_empty()
    }
}

} // verus!
