//! The decisions of an idle bot for Minecraft servers.
//!
//! A bot stands in the game, keeps looking in one direction, and uses its item or
//! attacks at fixed intervals. It is started from the terminal, or with others from
//! a web console that shows how each is doing. This library decides what happens;
//! the program around it talks to the game, the disk and the network.
//!
//! * `bot` and `active`: what a bot does about what happens to it, and which bots
//!   the terminal speaks to.
//! * `manager` and `requests`: starting, reaching and stopping bots.
//! * `state` and `table`: what the web console shows.
//! * `config`, `cli`: the configuration file and the command line.
//! * `key_cache` and `cipher`: reading the files in which accounts are kept.
//! * `ansi`, `decimal`, `text` and `clock`: what the others are built from.

pub mod active;
pub mod ansi;
pub mod bot;
pub mod cipher;
pub mod cli;
pub mod clock;
pub mod config;
pub mod decimal;
pub mod key_cache;
pub mod manager;
pub mod requests;
pub mod state;
pub mod table;
pub mod text;
