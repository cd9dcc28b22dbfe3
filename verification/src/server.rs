//! Running one Minecraft server: its configuration, the commands and the
//! reasons it stops, and the decisions the manager takes on each command and
//! each line the server prints.
use vstd::prelude::*;

use std::path::PathBuf;

use crate::parse::{ConsoleMsg, MalformedLine};
use crate::render::{decimal, push_decimal, push_text};
use crate::specific::ConsoleMsgSpecific;
use crate::text::{same_bytes, utf8};

verus! {

/// A file system path, carried through as it is.
#[verifier::external_type_specification]
#[verifier::external_body]
pub struct ExPathBuf(std::path::PathBuf);

/// An error of an I/O operation, carried through as it is.
#[verifier::external_type_specification]
#[verifier::external_body]
pub struct ExIoError(std::io::Error);

/// `PathBuf::clone` gives an equal path.
pub assume_specification[ <std::path::PathBuf as Clone>::clone ](p: &std::path::PathBuf) -> (r:
    std::path::PathBuf)
    ensures
        r == *p,
;

/// What a Minecraft server is run with.
#[derive(Debug)]
pub struct McServerConfig {
    /// The path to the server jar.
    server_path: PathBuf,
    /// The memory for the server, in megabytes.
    memory: u16,
    /// Further flags for the JVM.
    jvm_flags: Option<String>,
    /// Whether the server reads the wrapper's own stdin; such a server
    /// ignores commands to write to its stdin.
    inherit_stdin: bool,
}

impl Clone for McServerConfig {
    /// The same configuration.
    fn clone(&self) -> (r: Self)
        ensures
            r == *self,
    {
        let jvm_flags = match &self.jvm_flags {
            Some(f) => Some(f.clone()),
            None => None,
        };
        McServerConfig {
            server_path: self.server_path.clone(),
            memory: self.memory,
            jvm_flags,
            inherit_stdin: self.inherit_stdin,
        }
    }
}

/// What is wrong with a configuration.
#[derive(Debug)]
pub enum McServerConfigError {
    /// The server path is not a file that can be reached.
    ServerPathFileNotPresent(PathBuf),
}

/// Why a server could not be started.
#[derive(Debug)]
pub enum McServerStartError {
    ConfigError(McServerConfigError),
    IoError(std::io::Error),
    /// No configuration came with the request and none was given before.
    NoPreviousConfig,
}

impl McServerConfig {
    pub closed spec fn path(&self) -> PathBuf {
        self.server_path
    }

    pub closed spec fn memory(&self) -> u16 {
        self.memory
    }

    pub closed spec fn jvm_flags(&self) -> Option<Seq<char>> {
        match self.jvm_flags {
            Some(f) => Some(f@),
            None => None,
        }
    }

    pub closed spec fn inherit_stdin(&self) -> bool {
        self.inherit_stdin
    }

    /// A configuration.
    pub fn new(server_path: PathBuf, memory: u16, jvm_flags: Option<String>, inherit_stdin: bool) -> (r:
        Self)
        ensures
            r.path() == server_path,
            r.memory() == memory,
            r.jvm_flags() == (match jvm_flags {
                Some(f) => Some(f@),
                None => None,
            }),
            r.inherit_stdin() == inherit_stdin,
    {
        McServerConfig { server_path, memory, jvm_flags, inherit_stdin }
    }

    /// The path to the server jar.
    pub fn server_path(&self) -> (r: &PathBuf)
        ensures
            *r == self.path(),
    {
        &self.server_path
    }

    /// The memory for the server, in megabytes.
    pub fn memory_mb(&self) -> (r: u16)
        ensures
            r == self.memory(),
    {
        self.memory
    }

    /// Whether the server reads the wrapper's own stdin.
    pub fn inherits_stdin(&self) -> (r: bool)
        ensures
            r == self.inherit_stdin(),
    {
        self.inherit_stdin
    }

    /// Whether the server's stdin is a pipe the manager writes to; a server
    /// that reads the wrapper's own stdin gets nothing written to it.
    pub fn stdin_piped(&self) -> (r: bool)
        ensures
            r == !self.inherit_stdin(),
    {
        !self.inherit_stdin
    }

    /// The verdict on the configuration once it is known whether the server
    /// path is a file: an error naming the path when it is not.
    pub fn check_server_path(&self, is_file: bool) -> (r: Result<(), McServerConfigError>)
        ensures
            is_file <==> r is Ok,
            r matches Err(McServerConfigError::ServerPathFileNotPresent(p)) ==> p == self.path(),
    {
        if !is_file {
            return Err(McServerConfigError::ServerPathFileNotPresent(self.server_path.clone()));
        }
        Ok(())
    }

    /// The arguments for the JVM: the memory as both the least and the most
    /// heap, the further flags (or nothing), and the jar (as given, already
    /// quoted), without a GUI.
    pub fn java_args(&self, jar: &str) -> (r: String)
        ensures
            r@ == java_args_text(self.memory(), self.jvm_flags(), jar@),
    {
        let mut out = String::new();
        push_text(&mut out, "-Xms");
        push_decimal(&mut out, self.memory as u64);
        push_text(&mut out, "M -Xmx");
        push_decimal(&mut out, self.memory as u64);
        push_text(&mut out, "M ");
        match &self.jvm_flags {
            Some(f) => push_text(&mut out, f.as_str()),
            None => {},
        }
        push_text(&mut out, " -jar ");
        push_text(&mut out, jar);
        push_text(&mut out, " nogui");
        proof {
            assert(out@ =~= java_args_text(self.memory(), self.jvm_flags(), jar@));
        }
        out
    }

    /// The program that runs the server and its arguments: PowerShell
    /// starting `java.exe` in the server's folder on Windows, else `sh`
    /// changing into that folder and running `java`.
    pub fn launch_command(&self, folder: &str, jar: &str, windows: bool) -> (r: (String, Vec<String>))
        ensures
            r.0@ == (if windows {
                "PowerShell"@
            } else {
                "sh"@
            }),
            r.1@.map_values(|a: String| a@) == launch_args(
                folder@,
                java_args_text(self.memory(), self.jvm_flags(), jar@),
                windows,
            ),
            windows ==> {
                &&& r.1@.len() == 8
                &&& r.1@[0]@ == "Start-Process"@
                &&& r.1@[1]@ == "-NoNewWindow"@
                &&& r.1@[2]@ == "-FilePath"@
                &&& r.1@[3]@ == "java.exe"@
                &&& r.1@[4]@ == "-WorkingDirectory"@
                &&& r.1@[5]@ == folder@
                &&& r.1@[6]@ == "-ArgumentList"@
                &&& r.1@[7]@ == "'"@ + java_args_text(self.memory(), self.jvm_flags(), jar@) + "'"@
            },
            !windows ==> {
                &&& r.1@.len() == 2
                &&& r.1@[0]@ == "-c"@
                &&& r.1@[1]@ == "cd "@ + folder@ + " && exec java "@ + java_args_text(
                    self.memory(),
                    self.jvm_flags(),
                    jar@,
                )
            },
    {
        let java_args = self.java_args(jar);
        let mut args: Vec<String> = Vec::new();
        if windows {
            args.push("Start-Process".to_owned());
            args.push("-NoNewWindow".to_owned());
            args.push("-FilePath".to_owned());
            args.push("java.exe".to_owned());
            args.push("-WorkingDirectory".to_owned());
            args.push(folder.to_owned());
            args.push("-ArgumentList".to_owned());
            let mut quoted = String::new();
            push_text(&mut quoted, "'");
            push_text(&mut quoted, java_args.as_str());
            push_text(&mut quoted, "'");
            args.push(quoted);
        } else {
            args.push("-c".to_owned());
            let mut line = String::new();
            push_text(&mut line, "cd ");
            push_text(&mut line, folder);
            push_text(&mut line, " && exec java ");
            push_text(&mut line, java_args.as_str());
            args.push(line);
        }
        proof {
            assert(args@.map_values(|a: String| a@) =~= launch_args(folder@, java_args@, windows));
            lemma_launch_args(folder@, java_args@, windows);
            let views = args@.map_values(|a: String| a@);
            assert forall|k: int| 0 <= k < args@.len() implies #[trigger] args@[k]@ == views[k] by {}
        }
        (if windows {
            "PowerShell".to_owned()
        } else {
            "sh".to_owned()
        }, args)
    }
}

/// `-Xms<memory>M -Xmx<memory>M <flags> -jar <jar> nogui`
pub open spec fn java_args_text(memory: u16, flags: Option<Seq<char>>, jar: Seq<char>) -> Seq<char> {
    "-Xms"@ + decimal(memory as nat) + "M -Xmx"@ + decimal(memory as nat) + "M "@ + match flags {
        Some(f) => f,
        None => Seq::<char>::empty(),
    } + " -jar "@ + jar + " nogui"@
}

/// The arguments of the program that runs the server.
pub open spec fn launch_args(folder: Seq<char>, java_args: Seq<char>, windows: bool) -> Seq<
    Seq<char>,
> {
    if windows {
        seq![
            "Start-Process"@,
            "-NoNewWindow"@,
            "-FilePath"@,
            "java.exe"@,
            "-WorkingDirectory"@,
            folder,
            "-ArgumentList"@,
            "'"@ + java_args + "'"@,
        ]
    } else {
        seq!["-c"@, "cd "@ + folder + " && exec java "@ + java_args]
    }
}

/// The server is run in the wrapper's own window, so that the wrapper sees
/// its output: on Windows, PowerShell is told `Start-Process -NoNewWindow
/// -FilePath java.exe -WorkingDirectory FOLDER -ArgumentList 'ARGS'`; elsewhere
/// `sh -c` changes into the folder and runs java there.
pub proof fn lemma_launch_args(folder: Seq<char>, java_args: Seq<char>, windows: bool)
    ensures
        windows ==> {
            let a = launch_args(folder, java_args, windows);
            &&& a.len() == 8
            &&& a[0] == "Start-Process"@
            &&& a[1] == "-NoNewWindow"@
            &&& a[2] == "-FilePath"@
            &&& a[3] == "java.exe"@
            &&& a[4] == "-WorkingDirectory"@
            &&& a[5] == folder
            &&& a[6] == "-ArgumentList"@
            &&& a[7] == "'"@ + java_args + "'"@
        },
        !windows ==> {
            let a = launch_args(folder, java_args, windows);
            &&& a.len() == 2
            &&& a[0] == "-c"@
            &&& a[1] == "cd "@ + folder + " && exec java "@ + java_args
        },
{
}

/* Commands, and why a server stops */

/// Why a server stopped running.
#[derive(Debug, Clone, Copy, PartialEq, Eq)]
pub enum ShutdownReason {
    /// The EULA has not been agreed to.
    EulaNotAccepted,
    /// The server was told to stop.
    RequestedToStop,
}

/// What the manager can be told to do. Commands that need the server to be
/// running do nothing when it is not.
#[derive(Debug)]
pub enum ServerCommand {
    /// Sends a message (raw chat JSON) to every player.
    TellRawAll(String),
    /// Writes a command, with a newline after it, to the server's stdin.
    WriteCommandToStdin(String),
    /// Writes the text as it is to the server's stdin.
    WriteToStdin(String),
    /// Agrees to the EULA, which the server needs in order to run.
    AgreeToEula,
    /// Starts the server with the given configuration, or with the one given
    /// before.
    StartServer { config: Option<McServerConfig> },
    /// Stops the server; `forever` also stops the manager.
    StopServer { forever: bool },
}

/// What the manager does on a command.
#[derive(Debug)]
pub enum ListenerAction {
    /// Writes the text to the server's stdin.
    WriteToStdin(String),
    /// Writes `eula=true` into `eula.txt` beside the server jar at this path.
    AgreeToEula(PathBuf),
    /// Starts the server with the current configuration.
    StartServer,
    /// Reports that there is no configuration to start the server with.
    NoPreviousConfig,
    /// Writes `stop` to the server's stdin; with `forever`, the manager then
    /// stops listening.
    StopServer { forever: bool },
    /// Nothing to do.
    Ignore,
}

/// The manager's memory between commands: the configuration last given.
#[derive(Debug)]
pub struct CommandListener {
    current_config: Option<McServerConfig>,
}

impl CommandListener {
    /// The configuration last given, if any.
    pub closed spec fn config(&self) -> Option<McServerConfig> {
        self.current_config
    }

    /// A listener that has no configuration yet.
    pub fn new() -> (r: Self)
        ensures
            r.config() is None,
    {
        CommandListener { current_config: None }
    }

    /// The configuration last given, if any.
    pub fn current_config(&self) -> (r: Option<&McServerConfig>)
        ensures
            r matches Some(c) ==> self.config() == Some(*c),
            r is None ==> self.config() is None,
    {
        match &self.current_config {
            Some(c) => Some(c),
            None => None,
        }
    }

    /// Decides what to do on a command, given whether the server runs: chat
    /// goes out as `tellraw @a <json>`, commands get a newline; the EULA is
    /// agreed to where a configuration names the jar; a start while running
    /// is ignored, else it uses the new configuration (which is kept), or the
    /// one kept, or reports that there is none; a stop writes `stop`.
    pub fn on_command(&mut self, cmd: ServerCommand, running: bool) -> (r: ListenerAction)
        ensures
            match cmd {
                ServerCommand::TellRawAll(json) => r matches ListenerAction::WriteToStdin(t) && t@
                    == "tellraw @a "@ + json@ + "\n"@ && final(self).config() == old(self).config(),
                ServerCommand::WriteCommandToStdin(text) => r matches ListenerAction::WriteToStdin(t)
                    && t@ == text@ + "\n"@ && final(self).config() == old(self).config(),
                ServerCommand::WriteToStdin(text) => r matches ListenerAction::WriteToStdin(t) && t@
                    == text@ && final(self).config() == old(self).config(),
                ServerCommand::AgreeToEula => final(self).config() == old(self).config() && match old(
                    self,
                ).config() {
                    Some(c) => r matches ListenerAction::AgreeToEula(p) && p == c.path(),
                    None => r is Ignore,
                },
                ServerCommand::StartServer { config } => if running {
                    r is Ignore && final(self).config() == old(self).config()
                } else {
                    match config {
                        Some(c) => r is StartServer && final(self).config() == Some(c),
                        None => final(self).config() == old(self).config() && if old(
                            self,
                        ).config() is Some {
                            r is StartServer
                        } else {
                            r is NoPreviousConfig
                        },
                    }
                },
                ServerCommand::StopServer { forever } => r matches ListenerAction::StopServer {
                    forever: f,
                } && f == forever && final(self).config() == old(self).config(),
            },
    {
        match cmd {
            ServerCommand::TellRawAll(json) => {
                let mut t = String::new();
                push_text(&mut t, "tellraw @a ");
                push_text(&mut t, json.as_str());
                push_text(&mut t, "\n");
                proof {
                    assert(t@ =~= "tellraw @a "@ + json@ + "\n"@);
                }
                ListenerAction::WriteToStdin(t)
            },
            ServerCommand::WriteCommandToStdin(text) => {
                let mut t = text;
                push_text(&mut t, "\n");
                ListenerAction::WriteToStdin(t)
            },
            ServerCommand::WriteToStdin(text) => ListenerAction::WriteToStdin(text),
            ServerCommand::AgreeToEula => match &self.current_config {
                Some(c) => ListenerAction::AgreeToEula(c.server_path.clone()),
                None => ListenerAction::Ignore,
            },
            ServerCommand::StartServer { config } => {
                if running {
                    return ListenerAction::Ignore;
                }
                match config {
                    Some(c) => {
                        self.current_config = Some(c);
                        ListenerAction::StartServer
                    },
                    None => {
                        if self.current_config.is_some() {
                            ListenerAction::StartServer
                        } else {
                            ListenerAction::NoPreviousConfig
                        }
                    },
                }
            },
            ServerCommand::StopServer { forever } => ListenerAction::StopServer { forever },
        }
    }
}

/// Writing exactly `stop\n` to the server's stdin tells it to stop.
pub fn shutdown_reason_for_write(written: &[u8]) -> (r: Option<ShutdownReason>)
    ensures
        r == (if written@ == seq![115u8, 116u8, 111u8, 112u8, 10u8] {
            Some(ShutdownReason::RequestedToStop)
        } else {
            None
        }),
{
    let stop: [u8; 5] = [115, 116, 111, 112, 10];
    if same_bytes(written, stop.as_slice()) {
        proof {
            assert(stop@ =~= seq![115u8, 116u8, 111u8, 112u8, 10u8]);
        }
        Some(ShutdownReason::RequestedToStop)
    } else {
        proof {
            assert(stop@ =~= seq![115u8, 116u8, 111u8, 112u8, 10u8]);
        }
        None
    }
}

/// The reason a server stopped: the manager's own, if it gave one, else what
/// the server's output showed.
pub open spec fn chosen_reason(from_output: Option<ShutdownReason>, from_manager: Option<
    ShutdownReason,
>) -> Option<ShutdownReason> {
    if from_manager is Some {
        from_manager
    } else {
        from_output
    }
}

/// The reason a server stopped: the manager's own, if it gave one, else what
/// the server's output showed.
pub fn final_shutdown_reason(from_output: Option<ShutdownReason>, from_manager: Option<
    ShutdownReason,
>) -> (r: Option<ShutdownReason>)
    ensures
        r == (if from_manager is Some {
            from_manager
        } else {
            from_output
        }),
        r == chosen_reason(from_output, from_manager),
{
    match from_manager {
        Some(reason) => Some(reason),
        None => from_output,
    }
}

/// What a line of the server's stdout is taken for.
#[derive(Debug)]
pub enum StdoutLine {
    /// Console output, with what it says specifically if it is one of the
    /// messages the wrapper knows.
    Console(ConsoleMsg, Option<ConsoleMsgSpecific>),
    /// Anything else, as it was printed.
    Plain(String),
}

/// The line is console output that reads as the server's notice that the
/// EULA must be agreed to.
pub open spec fn is_eula_notice_line(line: Seq<u8>) -> bool {
    crate::parse::read_console_line(line) matches crate::parse::Reading::Recognised(v)
        && crate::specific::specific_of(v) matches crate::parse::Reading::Recognised(
        crate::specific::SpecificView::MustAcceptEula,
    )
}

/// The reason the server will stop, after one more line of its stdout.
pub open spec fn stdout_reason_step(reason: Option<ShutdownReason>, line: Seq<u8>) -> Option<
    ShutdownReason,
> {
    if is_eula_notice_line(line) {
        Some(ShutdownReason::EulaNotAccepted)
    } else {
        reason
    }
}

/// The reason the server will stop, after the lines of its stdout in order.
pub open spec fn stdout_reason_after(reason: Option<ShutdownReason>, lines: Seq<Seq<u8>>) -> Option<
    ShutdownReason,
>
    decreases lines.len(),
{
    if lines.len() == 0 {
        reason
    } else {
        stdout_reason_step(stdout_reason_after(reason, lines.drop_last()), lines.last())
    }
}

/// Reads a line the server printed on stdout. A notice that the EULA must be
/// agreed to sets the reason the server will stop. A line that looks like
/// console output but breaks its layout is reported.
pub fn read_stdout_line(line: &str, reason: &mut Option<ShutdownReason>) -> (r: Result<
    StdoutLine,
    MalformedLine,
>)
    ensures
        *final(reason) == stdout_reason_step(*old(reason), utf8(line)),
        match crate::parse::read_console_line(utf8(line)) {
            crate::parse::Reading::Malformed => r is Err && *final(reason) == *old(reason),
            crate::parse::Reading::Unrecognised => r matches Ok(StdoutLine::Plain(t)) && t@
                == line@ && *final(reason) == *old(reason),
            crate::parse::Reading::Recognised(v) => match r {
                Ok(StdoutLine::Console(m, specific)) => m@ == v && match crate::specific::specific_of(
                    v,
                ) {
                    crate::parse::Reading::Recognised(sv) => specific matches Some(sp) && sp@ == sv
                        && *final(reason) == (if sv is MustAcceptEula {
                        Some(ShutdownReason::EulaNotAccepted)
                    } else {
                        *old(reason)
                    }),
                    crate::parse::Reading::Unrecognised => specific is None && *final(reason)
                        == *old(reason),
                    crate::parse::Reading::Malformed => false,
                },
                Err(_) => crate::specific::specific_of(v) is Malformed && *final(reason) == *old(
                    reason,
                ),
                _ => false,
            },
        },
{
    match ConsoleMsg::read_line(line) {
        Err(e) => Err(e),
        Ok(None) => Ok(StdoutLine::Plain(line.to_owned())),
        Ok(Some(msg)) => match ConsoleMsgSpecific::read(&msg) {
            Err(e) => Err(e),
            Ok(specific) => {
                if let Some(ConsoleMsgSpecific::MustAcceptEula) = &specific {
                    *reason = Some(ShutdownReason::EulaNotAccepted);
                }
                Ok(StdoutLine::Console(msg, specific))
            },
        },
    }
}

/// Over a whole run that starts with no reason from the output: the reason
/// the server stopped is the manager's, when it gave one; otherwise it is
/// that the EULA was not agreed to exactly when one of the lines on stdout
/// was the notice that it must be, and no reason is known when none was.
pub proof fn lemma_run_shutdown_reason(lines: Seq<Seq<u8>>, from_manager: Option<ShutdownReason>)
    ensures
        chosen_reason(stdout_reason_after(None, lines), from_manager) == if from_manager is Some {
            from_manager
        } else if exists|i: int| 0 <= i < lines.len() && #[trigger] is_eula_notice_line(lines[i]) {
            Some(ShutdownReason::EulaNotAccepted)
        } else {
            None
        },
{
    lemma_stdout_reason(lines);
}

/// Starting with no reason, the output alone gives the EULA as the reason
/// exactly when one of its lines is the notice, and no reason otherwise.
pub proof fn lemma_stdout_reason(lines: Seq<Seq<u8>>)
    ensures
        stdout_reason_after(None, lines) == if exists|i: int|
            0 <= i < lines.len() && #[trigger] is_eula_notice_line(lines[i]) {
            Some(ShutdownReason::EulaNotAccepted)
        } else {
            None
        },
    decreases lines.len(),
{
    if lines.len() > 0 {
        let init = lines.drop_last();
        lemma_stdout_reason(init);
        if exists|i: int| 0 <= i < init.len() && #[trigger] is_eula_notice_line(init[i]) {
            let i = choose|i: int| 0 <= i < init.len() && #[trigger] is_eula_notice_line(init[i]);
            assert(lines[i] == init[i]);
        }
        if exists|i: int| 0 <= i < lines.len() && #[trigger] is_eula_notice_line(lines[i]) {
            let i = choose|i: int| 0 <= i < lines.len() && #[trigger] is_eula_notice_line(lines[i]);
            if i < init.len() {
                assert(init[i] == lines[i]);
            }
        }
    }
}

} // verus!
