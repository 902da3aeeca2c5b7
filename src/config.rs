//! The miner's configuration, as the host reads it.

use vstd::prelude::*;

verus! {

/// Identity advertised to the chain, and where the collaborators are.
#[derive(Debug, Clone)]
pub struct Conf {
    pub nickname: String,
    pub region: String,
    pub url: String,
    pub capacity: u64,
    pub unit_price: u64,
    pub meta_path: String,
    pub ipfs_url: String,
    pub chain_url: String,
}

} // verus!
