//! The verified core of a mesh VPN agent.
//!
//! Everything here computes on plain values: sockets, clocks, actors and the
//! operating system stay with the caller, which performs the actions that the
//! state machines below ask for and hands the outcomes back.

pub mod accept;
pub mod buffers;
pub mod commands;
pub mod conn_pool;
pub mod connectivity;
pub mod control;
pub mod control_laws;
pub mod dataplane;
pub mod drops;
pub mod endpoint;
pub mod flow;
pub mod forward;
pub mod frame;
pub mod host_laws;
pub mod hub;
pub mod json;
pub mod kernel_route;
pub mod local_api;
pub mod lookup;
pub mod lookup_laws;
pub mod membership;
pub mod net;
pub mod net_text;
pub mod network_laws;
pub mod peer;
pub mod peer_laws;
pub mod peer_map;
pub mod plane_laws;
pub mod policy_key;
pub mod pool;
pub mod pool_laws;
pub mod prefixes;
pub mod reassembly;
pub mod report_laws;
pub mod route_engine;
pub mod route_laws;
pub mod route_spec;
pub mod routing;
pub mod routing_laws;
pub mod scan;
pub mod service;
pub mod ssh_api;
pub mod summaries;
pub mod supervisor;
pub mod sync;
pub mod system_dns;
pub mod system_routes;
pub mod table_laws;
pub mod tables;
pub mod text;
pub mod text_laws;
pub mod tun;
pub mod tunnel_mesh;
pub mod underlay;
pub mod wrap_key;
