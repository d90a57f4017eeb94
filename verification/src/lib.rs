use vstd::prelude::*;

pub mod text;
pub mod collections;
pub mod clock;
pub mod ids;
pub mod uid_gate;
pub mod ordering;
pub mod event_bus;
pub mod remote_plugins;
pub mod storage;
pub mod cluster;
pub mod server;
pub mod domain;
pub mod plugin_host;
pub mod plugins;
pub mod api;
pub mod startup;
pub mod net;

verus! {
}
