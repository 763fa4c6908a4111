//! The options that routing decisions read.
use vstd::prelude::*;

verus! {

/// How this client reaches the network.
#[derive(Clone, Copy, Debug, PartialEq, Eq, Structural)]
pub enum NetworkType {
    Direct,
    ProxySocks,
}

/// The options as they stand when a decision is made.
pub struct Config {
    /// The hosts that are reached past any tunnel, as a comma-separated list.
    pub force_direct_server: String,
    /// How this client reaches the network.
    pub network_type: NetworkType,
    /// Whether a SOCKS server is configured.
    pub has_socks: bool,
}

} // verus!
