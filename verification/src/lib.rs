//! Speed Daemon: the verified core of a home-network probe dashboard.
pub mod assign;
pub mod clock;
pub mod config;
pub mod db;
pub mod discovery;
pub mod edits;
pub mod handoff;
pub mod icmp;
pub mod json;
pub mod link;
pub mod model;
pub mod net;
pub mod pairing;
pub mod poll;
pub mod poller;
pub mod probes;
pub mod table;
pub mod text;
pub mod viewer;
pub mod wire;
