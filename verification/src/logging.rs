//! Which log records the wrapper keeps: the level for every target, in the
//! log file and on the terminal.
use vstd::prelude::*;

use crate::text::same_bytes;

verus! {

/// How much of a target's logging is kept: nothing, or the records at this
/// level and every more severe one.
#[derive(Debug, Clone, Copy, PartialEq, Eq, Structural)]
pub enum LevelFilter {
    Off,
    Error,
    Warn,
    Info,
    Debug,
    Trace,
}

/// The target under which the server's console output is logged.
pub const CONSOLE_MSG_LOG_TARGET: &'static str = "mc";

/// The targets of the Discord client's libraries, which share one level.
pub open spec fn discord_targets() -> Seq<Seq<char>> {
    seq![
        "twilight_http"@,
        "twilight_gateway"@,
        "twilight-cache"@,
        "twilight-command-parser"@,
        "twilight-model"@,
        "twilight-cache-inmemory"@,
        "twilight-cache-trait"@,
    ]
}

/// The levels set by target: the Discord libraries', the wrapper's own and
/// the server console's, in this order.
pub open spec fn target_levels(discord: LevelFilter, own: LevelFilter, console: LevelFilter) -> Seq<
    (Seq<char>, LevelFilter),
> {
    discord_targets().map_values(|t: Seq<char>| (t, discord)) + seq![
        ("mc_server_wrapper"@, own),
        (CONSOLE_MSG_LOG_TARGET@, console),
    ]
}

/// A table of levels by target, as text and level.
pub open spec fn table_view(v: Seq<(&'static str, LevelFilter)>) -> Seq<(Seq<char>, LevelFilter)> {
    v.map_values(|p: (&'static str, LevelFilter)| (p.0@, p.1))
}

/// The levels by target for the given levels of each group.
fn levels_by_target(discord: LevelFilter, own: LevelFilter, console: LevelFilter) -> (r: Vec<
    (&'static str, LevelFilter),
>)
    ensures
        table_view(r@) == target_levels(discord, own, console),
{
    let mut v: Vec<(&'static str, LevelFilter)> = Vec::new();
    v.push(("twilight_http", discord));
    v.push(("twilight_gateway", discord));
    v.push(("twilight-cache", discord));
    v.push(("twilight-command-parser", discord));
    v.push(("twilight-model", discord));
    v.push(("twilight-cache-inmemory", discord));
    v.push(("twilight-cache-trait", discord));
    v.push(("mc_server_wrapper", own));
    v.push((CONSOLE_MSG_LOG_TARGET, console));
    proof {
        assert(table_view(v@) =~= target_levels(discord, own, console));
    }
    v
}

/// The log file's levels: `all` for any target not named, `discord` for the
/// Discord libraries, `own` for the wrapper itself; the server's console
/// output is left out of the file.
pub fn file_log_levels(all: LevelFilter, own: LevelFilter, discord: LevelFilter) -> (r: (
    LevelFilter,
    Vec<(&'static str, LevelFilter)>,
))
    ensures
        r.0 == all,
        table_view(r.1@) == target_levels(discord, own, LevelFilter::Off),
{
    (all, levels_by_target(discord, own, LevelFilter::Off))
}

/// The terminal's levels: errors only for any target not named, warnings
/// and errors of the Discord libraries, and information and up from the
/// wrapper itself and from the server's console.
pub fn terminal_log_levels() -> (r: (LevelFilter, Vec<(&'static str, LevelFilter)>))
    ensures
        r.0 == LevelFilter::Error,
        table_view(r.1@) == target_levels(LevelFilter::Warn, LevelFilter::Info, LevelFilter::Info),
{
    (LevelFilter::Error, levels_by_target(LevelFilter::Warn, LevelFilter::Info, LevelFilter::Info))
}

/// How severe a log record is, the most severe first.
#[derive(Debug, Clone, Copy, PartialEq, Eq, Structural)]
pub enum LogLevel {
    Error,
    Warn,
    Info,
    Debug,
    Trace,
}

/// The rank of a record's level: 1 for errors up to 5 for traces.
pub open spec fn level_rank(level: LogLevel) -> nat {
    match level {
        LogLevel::Error => 1,
        LogLevel::Warn => 2,
        LogLevel::Info => 3,
        LogLevel::Debug => 4,
        LogLevel::Trace => 5,
    }
}

/// The rank up to which a filter keeps records: 0 for `Off`.
pub open spec fn filter_rank(filter: LevelFilter) -> nat {
    match filter {
        LevelFilter::Off => 0,
        LevelFilter::Error => 1,
        LevelFilter::Warn => 2,
        LevelFilter::Info => 3,
        LevelFilter::Debug => 4,
        LevelFilter::Trace => 5,
    }
}

/// Whether a filter keeps a record of the given level: the record is at
/// least as severe as the filter's level.
pub fn keeps(filter: LevelFilter, level: LogLevel) -> (r: bool)
    ensures
        r == (level_rank(level) <= filter_rank(filter)),
{
    let f: u8 = match filter {
        LevelFilter::Off => 0,
        LevelFilter::Error => 1,
        LevelFilter::Warn => 2,
        LevelFilter::Info => 3,
        LevelFilter::Debug => 4,
        LevelFilter::Trace => 5,
    };
    let l: u8 = match level {
        LogLevel::Error => 1,
        LogLevel::Warn => 2,
        LogLevel::Info => 3,
        LogLevel::Debug => 4,
        LogLevel::Trace => 5,
    };
    l <= f
}

/// The name a level is printed with.
pub fn level_name(level: LogLevel) -> (r: &'static str)
    ensures
        r@ == match level {
            LogLevel::Error => "ERROR"@,
            LogLevel::Warn => "WARN"@,
            LogLevel::Info => "INFO"@,
            LogLevel::Debug => "DEBUG"@,
            LogLevel::Trace => "TRACE"@,
        },
{
    match level {
        LogLevel::Error => "ERROR",
        LogLevel::Warn => "WARN",
        LogLevel::Info => "INFO",
        LogLevel::Debug => "DEBUG",
        LogLevel::Trace => "TRACE",
    }
}

/// The level set for a target: that of the first entry naming it, else the
/// default.
pub open spec fn level_of(default: LevelFilter, table: Seq<(Seq<char>, LevelFilter)>, target: Seq<
    char,
>) -> LevelFilter
    decreases table.len(),
{
    if table.len() == 0 {
        default
    } else if table[0].0 == target {
        table[0].1
    } else {
        level_of(default, table.drop_first(), target)
    }
}

/// Looks up the level set for a target.
pub fn level_for(default: LevelFilter, table: &[(&'static str, LevelFilter)], target: &str) -> (r:
    LevelFilter)
    ensures
        r == level_of(default, table_view(table@), target@),
{
    let n = table.len();
    let mut i: usize = 0;
    proof {
        assert(table@.skip(0) =~= table@);
    }
    while i < n
        invariant
            n == table@.len(),
            i <= n,
            level_of(default, table_view(table@), target@) == level_of(
                default,
                table_view(table@.skip(i as int)),
                target@,
            ),
        decreases n - i,
    {
        let (name, level) = table[i];
        let same = same_bytes(name.as_bytes(), target.as_bytes());
        proof {
            vstd::utf8::encode_utf8_decode_utf8(name@);
            vstd::utf8::encode_utf8_decode_utf8(target@);
            assert(table_view(table@.skip(i as int))[0] == (name@, level));
            assert(table_view(table@.skip(i as int)).drop_first() =~= table_view(
                table@.skip(i + 1),
            ));
        }
        if same {
            return level;
        }
        i = i + 1;
    }
    proof {
        assert(table_view(table@.skip(n as int)) =~= Seq::<(Seq<char>, LevelFilter)>::empty());
    }
    default
}

} // verus!
