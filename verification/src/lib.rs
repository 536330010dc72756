//! Verified core of the p2proxy peer-to-peer SOCKS5 proxy.
#![allow(unused_imports)]

use vstd::prelude::*;

pub mod text;
pub mod time;
pub mod backoff;
pub mod route;
pub mod selection;
pub mod config;
pub mod sticky;
pub mod filters;
pub mod errors;
pub mod events;
pub mod connect;
pub mod flow;
pub mod auth;
pub mod identity;
pub mod network;
pub mod discovery;
pub mod server_state;
pub mod wireguard;
pub mod socks;
pub mod socks_session;
pub mod keyed;
pub mod pool;
pub mod sessions;
pub mod streams;
pub mod testing;

verus! {

} // verus!
