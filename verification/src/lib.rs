//! Parsing and bookkeeping for a wrapper around a Java Minecraft server.
pub mod bridge;
pub mod logging;
pub mod mc_wrapper;
pub mod mention;
pub mod order;
pub mod parse;
pub mod players;
pub mod render;
pub mod server;
pub mod specific;
pub mod text;
pub mod ui;
pub mod wrapper;
