//! Clipboard history with local-network synchronisation: the rules of the program.

pub mod client;
pub mod clips;
pub mod config;
pub mod dib;
pub mod discovery;
pub mod hashing;
pub mod hotkey;
pub mod http;
pub mod imaging;
pub mod json;
pub mod lan;
pub mod listing;
pub mod numbers;
pub mod pairing;
pub mod panel;
pub mod ranking;
pub mod server;
pub mod store;
pub mod strmap;
pub mod sync;
pub mod text;
pub mod transfer;
pub mod url;
pub mod watcher;
