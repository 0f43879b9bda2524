//! Settings of the state synchronizer.

use vstd::prelude::*;
use crate::hash_value::AccountAddress;

verus! {

/// The peers from which state is fetched.
#[derive(Clone, Debug, PartialEq, Eq)]
pub struct UpstreamPeersConfig {
    pub upstream_peers: Vec<AccountAddress>,
}

impl Default for UpstreamPeersConfig {
    fn default() -> (c: UpstreamPeersConfig)
        ensures
            c.upstream_peers@ == Seq::<AccountAddress>::empty(),
    {
        UpstreamPeersConfig { upstream_peers: Vec::new() }
    }
}

/// How the state synchronizer asks for chunks and how long it waits.
#[derive(Clone, Debug, PartialEq, Eq)]
pub struct StateSyncConfig {
    /// Size of the chunk to request.
    pub chunk_limit: u64,
    /// Interval at which progress is looked at, in milliseconds.
    pub tick_interval_ms: u64,
    /// Timeout of a long poll to a remote peer, in milliseconds.
    pub long_poll_timeout_ms: u64,
    /// The largest chunk limit that is accepted.
    pub max_chunk_limit: u64,
    /// The largest timeout that is accepted, in milliseconds.
    pub max_timeout_ms: u64,
    /// The peers to use as upstream.
    pub upstream_peers: UpstreamPeersConfig,
}

impl StateSyncConfig {
    /// The settings that `default` gives, without the peers.
    pub open spec fn is_default(&self) -> bool {
        &&& self.chunk_limit == 250
        &&& self.tick_interval_ms == 100
        &&& self.long_poll_timeout_ms == 30000
        &&& self.max_chunk_limit == 1000
        &&& self.max_timeout_ms == 120_000
        &&& self.upstream_peers.upstream_peers@ == Seq::<AccountAddress>::empty()
    }
}

impl Default for StateSyncConfig {
    fn default() -> (c: StateSyncConfig)
        ensures
            c.is_default(),
    {
        StateSyncConfig {
            chunk_limit: 250,
            tick_interval_ms: 100,
            long_poll_timeout_ms: 30000,
            max_chunk_limit: 1000,
            max_timeout_ms: 120_000,
            upstream_peers: UpstreamPeersConfig::default(),
        }
    }
}

} // verus!
