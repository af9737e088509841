//! Verified core logic of the hyveOS mesh runtime and its command line tools.
use vstd::prelude::*;

pub mod ack;
pub mod addr_filter;
pub mod cid;
pub mod containers;
pub mod debug_events;
pub mod download;
pub mod debug_subscribers;
pub mod faker;
pub mod color;
pub mod future_map;
pub mod graph;
pub mod hinter;
pub mod ifaddr;
pub mod ifwatcher;
pub mod interface_choice;
pub mod command_line;
pub mod mirror;
pub mod neighbour_resolvers;
pub mod out;
pub mod pending;
pub mod output;
pub mod presenter;
pub mod printer;
pub mod provider_choice;
pub mod render;
pub mod reports;
pub mod req_resp;
pub mod round_trip;
pub mod scripting;
pub mod stack;
pub mod text;
pub mod topics;

verus! {

} // verus!
