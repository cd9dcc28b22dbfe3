//! The levels the wrapper logs at, by target.

use mc_server_wrapper::logging::{
    file_log_levels, keeps, level_for, level_name, terminal_log_levels, LevelFilter, LogLevel,
};

#[test]
fn file_levels_by_target() {
    let (default, table) = file_log_levels(LevelFilter::Debug, LevelFilter::Trace, LevelFilter::Warn);
    assert_eq!(default, LevelFilter::Debug);
    assert_eq!(
        table,
        vec![
            ("twilight_http", LevelFilter::Warn),
            ("twilight_gateway", LevelFilter::Warn),
            ("twilight-cache", LevelFilter::Warn),
            ("twilight-command-parser", LevelFilter::Warn),
            ("twilight-model", LevelFilter::Warn),
            ("twilight-cache-inmemory", LevelFilter::Warn),
            ("twilight-cache-trait", LevelFilter::Warn),
            ("mc_server_wrapper", LevelFilter::Trace),
            ("mc", LevelFilter::Off),
        ]
    );
}

#[test]
fn terminal_levels_by_target() {
    let (default, table) = terminal_log_levels();
    assert_eq!(default, LevelFilter::Error);
    assert_eq!(table.len(), 9);
    assert!(table[..7].iter().all(|(_, level)| *level == LevelFilter::Warn));
    assert_eq!(table[7], ("mc_server_wrapper", LevelFilter::Info));
    assert_eq!(table[8], ("mc", LevelFilter::Info));
}

#[test]
fn records_kept_by_target() {
    let (default, table) = terminal_log_levels();
    assert_eq!(level_for(default, &table, "mc"), LevelFilter::Info);
    assert_eq!(level_for(default, &table, "twilight_http"), LevelFilter::Warn);
    assert_eq!(level_for(default, &table, "hyper"), LevelFilter::Error);
    assert!(keeps(level_for(default, &table, "mc"), LogLevel::Info));
    assert!(!keeps(level_for(default, &table, "mc"), LogLevel::Debug));
    assert!(!keeps(level_for(default, &table, "hyper"), LogLevel::Warn));
    assert!(keeps(level_for(default, &table, "hyper"), LogLevel::Error));
    let (default, table) = file_log_levels(LevelFilter::Trace, LevelFilter::Debug, LevelFilter::Info);
    assert!(!keeps(level_for(default, &table, "mc"), LogLevel::Error));
    assert!(keeps(level_for(default, &table, "anything"), LogLevel::Trace));
    assert!(!keeps(LevelFilter::Off, LogLevel::Error));
}

#[test]
fn level_names() {
    assert_eq!(level_name(LogLevel::Error), "ERROR");
    assert_eq!(level_name(LogLevel::Warn), "WARN");
    assert_eq!(level_name(LogLevel::Info), "INFO");
    assert_eq!(level_name(LogLevel::Debug), "DEBUG");
    assert_eq!(level_name(LogLevel::Trace), "TRACE");
}
