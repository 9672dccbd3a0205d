use vstd::prelude::*;

use crate::pricing::{DexType, PoolConfig};

verus! {

/// A DEX of the market snapshot.
#[derive(Debug, Clone)]
pub struct Dex {
    pub id: String,
    pub name: String,
    pub chain_id: u64,
    pub dex_type: DexType,
    pub default_fee_bps: u32,
    /// Gas units one swap on this DEX costs.
    pub gas_estimate_swap: u64,
    pub is_active: bool,
    pub supports_flash_loans: bool,
}

/// An asset of the market snapshot; its price is in micro-USD per whole token.
#[derive(Debug, Clone)]
pub struct Asset {
    pub symbol: String,
    pub chain_id: u64,
    pub address: String,
    pub decimals: u8,
    pub price_usd: u64,
    pub is_active: bool,
    pub min_arbitrage_profit_usd: u64,
}

/// A pool of the market snapshot: the pricing record plus its owner and depth.
#[derive(Debug, Clone)]
pub struct Pool {
    pub dex_id: String,
    pub total_liquidity_usd: u64,
    pub volume_24h_usd: u64,
    pub config: PoolConfig,
}

/// A point-in-time view of DEXes, assets and pools; read-only during a cycle.
#[derive(Debug, Clone)]
pub struct MarketSnapshot {
    pub dexes: Vec<Dex>,
    pub assets: Vec<Asset>,
    pub pools: Vec<Pool>,
}

/// Index of the first asset with the given symbol on the given chain, searching from `k`.
pub open spec fn first_asset_from(assets: Seq<Asset>, symbol: Seq<char>, chain: u64, k: int) -> Option<
    int,
>
    decreases assets.len() - k,
{
    if k < 0 || k >= assets.len() {
        None
    } else if assets[k].symbol@ == symbol && assets[k].chain_id == chain {
        Some(k)
    } else {
        first_asset_from(assets, symbol, chain, k + 1)
    }
}

/// Index of the first asset with the given symbol on the given chain.
pub open spec fn first_asset(assets: Seq<Asset>, symbol: Seq<char>, chain: u64) -> Option<int> {
    first_asset_from(assets, symbol, chain, 0)
}

/// A token is usable on a chain when its asset record exists there and is active.
pub open spec fn token_active(assets: Seq<Asset>, symbol: Seq<char>, chain: u64) -> bool {
    match first_asset(assets, symbol, chain) {
        Some(i) => assets[i].is_active,
        None => false,
    }
}

proof fn lemma_first_asset_bounds(assets: Seq<Asset>, symbol: Seq<char>, chain: u64, k: int)
    ensures
        first_asset_from(assets, symbol, chain, k) matches Some(i) ==> k <= i < assets.len()
            && assets[i].symbol@ == symbol && assets[i].chain_id == chain,
    decreases assets.len() - k,
{
    if 0 <= k < assets.len() {
        lemma_first_asset_bounds(assets, symbol, chain, k + 1);
    }
}

impl MarketSnapshot {
    /// Finds the first asset with the given symbol on the given chain.
    pub fn find_asset(&self, symbol: &String, chain: u64) -> (r: Option<usize>)
        ensures
            r matches Some(i) ==> Some(i as int) == first_asset(self.assets@, symbol@, chain),
            r is None ==> first_asset(self.assets@, symbol@, chain) is None,
            r matches Some(i) ==> i < self.assets@.len(),
    {
        let mut k: usize = 0;
        while k < self.assets.len()
            invariant
                0 <= k <= self.assets@.len(),
                first_asset(self.assets@, symbol@, chain) == first_asset_from(
                    self.assets@,
                    symbol@,
                    chain,
                    k as int,
                ),
            decreases self.assets@.len() - k,
        {
            if self.assets[k].symbol == *symbol && self.assets[k].chain_id == chain {
                return Some(k);
            }
            k = k + 1;
        }
        None
    }
}

} // verus!

verus! {

/// Why a configuration cannot support arbitrage.
#[derive(Debug, Clone, Copy, PartialEq, Eq, Structural)]
pub enum ConfigError {
    NoBlockchains,
    TooFewDexes,
    NoAssets,
    /// The configuration sheet holds no data row.
    EmptyConfigSheet,
}

impl MarketSnapshot {
    /// Checks the minimum configuration: a chain, two DEXes and an asset.
    pub fn validate_configuration(&self, chain_count: usize) -> (r: Result<(), ConfigError>)
        ensures
            chain_count == 0 ==> r == Err::<(), ConfigError>(ConfigError::NoBlockchains),
            chain_count > 0 && self.dexes@.len() < 2 ==> r == Err::<(), ConfigError>(
                ConfigError::TooFewDexes,
            ),
            chain_count > 0 && self.dexes@.len() >= 2 && self.assets@.len() == 0 ==> r == Err::<
                (),
                ConfigError,
            >(ConfigError::NoAssets),
            chain_count > 0 && self.dexes@.len() >= 2 && self.assets@.len() > 0 ==> r is Ok,
    {
        if chain_count == 0 {
            Err(ConfigError::NoBlockchains)
        } else if self.dexes.len() < 2 {
            Err(ConfigError::TooFewDexes)
        } else if self.assets.len() == 0 {
            Err(ConfigError::NoAssets)
        } else {
            Ok(())
        }
    }
}

} // verus!
