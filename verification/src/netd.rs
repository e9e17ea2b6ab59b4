//! The daemon: what it observes, what it wants, and how it gets there.

pub mod attributes;
pub mod config;
pub mod control;
pub mod daemon;
pub mod dhcp;
pub mod intent;
pub mod interface;
pub mod inventory;
pub mod ipv6;
pub mod judging;
pub mod laws;
pub mod matching;
pub mod model;
pub mod netlink;
pub mod networks;
pub mod planning;
pub mod policy;
pub mod profile;
pub mod reconcile;
pub mod report;
pub mod running;
pub mod shapes;
pub mod sources;
pub mod spelling;
pub mod telling;
pub mod wanted;

