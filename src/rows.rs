use vstd::prelude::*;
use vstd::string::StringSliceAdditionalSpecFns;

use crate::parse::{decimal_micros, integer_value, parse_decimal_micros, parse_integer};
use crate::pricing::{lower_of, lowercase, names_dex_type, same_text, DexType, PoolConfig};
use crate::snapshot::{Asset, Dex, MarketSnapshot, Pool};

verus! {

/// Default fee of a DEX row without a readable fee: 30 basis points.
pub const DEFAULT_FEE_BPS: u32 = 30;

/// Default decimals of an asset row without readable decimals.
pub const DEFAULT_DECIMALS: u8 = 18;

/// A sheet cell reads as true when, ignoring case, it is `true`.
pub open spec fn cell_true(s: Seq<char>) -> bool {
    lower_of(s) == "true"@
}

/// An integer cell, or a default when it does not read as one within `max`.
pub open spec fn int_or(s: Seq<u8>, max: int, default: int) -> int {
    match integer_value(s) {
        Some(v) => if v <= max {
            v
        } else {
            default
        },
        None => default,
    }
}

/// A decimal cell in millionths, or zero when it does not read as one.
pub open spec fn micros_or_zero(s: Seq<u8>) -> int {
    match decimal_micros(s) {
        Some(v) => v,
        None => 0,
    }
}

fn read_bool(cell: &str) -> (r: bool)
    ensures
        r == cell_true(cell@),
{
    let l = lowercase(cell);
    same_text(&l, "true")
}

fn read_u64_or(cell: &str, max: u64, default: u64) -> (r: u64)
    requires
        default <= max,
    ensures
        r == int_or(cell.spec_bytes(), max as int, default as int),
{
    match parse_integer(cell) {
        Some(v) => if v <= max {
            v
        } else {
            default
        },
        None => default,
    }
}

fn read_micros_or_zero(cell: &str) -> (r: u64)
    ensures
        r == micros_or_zero(cell.spec_bytes()),
{
    match parse_decimal_micros(cell) {
        Some(v) => v,
        None => 0,
    }
}

/// `d` is the DEX read from `row`.
pub open spec fn dex_of_row(row: Seq<&str>, d: Dex) -> bool {
    &&& row.len() >= 9
    &&& integer_value(row[3].spec_bytes()) is Some
    &&& d.id@ == row[0]@
    &&& d.name@ == row[1]@
    &&& names_dex_type(lower_of(row[2]@), d.dex_type)
    &&& d.chain_id == integer_value(row[3].spec_bytes())->Some_0
    &&& d.default_fee_bps == int_or(row[6].spec_bytes(), u32::MAX as int, DEFAULT_FEE_BPS as int)
    &&& d.is_active == cell_true(row[7]@)
    &&& d.supports_flash_loans == cell_true(row[8]@)
    &&& d.gas_estimate_swap == (if row.len() > 9 {
        int_or(row[9].spec_bytes(), u64::MAX as int, 0)
    } else {
        0
    })
}

/// `a` is the asset read from `row`.
pub open spec fn asset_of_row(row: Seq<&str>, a: Asset) -> bool {
    &&& row.len() >= 8
    &&& integer_value(row[3].spec_bytes()) is Some
    &&& a.symbol@ == row[0]@
    &&& a.address@ == row[2]@
    &&& a.chain_id == integer_value(row[3].spec_bytes())->Some_0
    &&& a.decimals == int_or(row[4].spec_bytes(), u8::MAX as int, DEFAULT_DECIMALS as int)
    &&& a.price_usd == micros_or_zero(row[5].spec_bytes())
    &&& a.is_active == cell_true(row[7]@)
    &&& a.min_arbitrage_profit_usd == (if row.len() > 8 {
        micros_or_zero(row[8].spec_bytes())
    } else {
        0
    })
}

/// `p` is the pool read from `row`, priced as `dex_type` with fee `fee_bps`.
pub open spec fn pool_of_row(row: Seq<&str>, p: Pool, dex_type: DexType, fee_bps: u32) -> bool {
    &&& row.len() >= 9
    &&& p.config.pool_id@ == row[0]@
    &&& p.dex_id@ == row[1]@
    &&& p.config.token_a@ == row[2]@
    &&& p.config.token_b@ == row[3]@
    &&& p.config.reserve_a == micros_or_zero(row[4].spec_bytes())
    &&& p.config.reserve_b == micros_or_zero(row[5].spec_bytes())
    &&& p.total_liquidity_usd == micros_or_zero(row[6].spec_bytes())
    &&& p.volume_24h_usd == micros_or_zero(row[7].spec_bytes())
    &&& p.config.is_active == cell_true(row[8]@)
    &&& p.config.dex_type == dex_type
    &&& p.config.fee_bps == fee_bps
    &&& p.config.current_tick is None
    &&& p.config.amplification is None
    &&& p.config.weights is None
}

/// `d` was read from one of the data rows (after the header row).
pub open spec fn dex_read(rows: Seq<Vec<&str>>, d: Dex) -> bool {
    exists|i: int| 1 <= i < rows.len() && dex_of_row(rows[i]@, d)
}

/// `a` was read from one of the data rows (after the header row).
pub open spec fn asset_read(rows: Seq<Vec<&str>>, a: Asset) -> bool {
    exists|i: int| 1 <= i < rows.len() && asset_of_row(rows[i]@, a)
}

/// Some pool of `ps` carries the id.
pub open spec fn pool_id_listed(ps: Seq<Pool>, id: Seq<char>) -> bool {
    exists|x: int| 0 <= x < ps.len() && ps[x].config.pool_id@ == id
}

/// `p` was read from one of the data rows (after the header row).
pub open spec fn pool_read(rows: Seq<Vec<&str>>, p: Pool) -> bool {
    exists|i: int| 1 <= i < rows.len() && pool_of_row(rows[i]@, p, p.config.dex_type, p.config.fee_bps)
}

/// A DEX from a sheet row `[id, name, type, chain, router, factory, fee, active, flash]`
/// (with the gas per swap in a tenth cell when present); nothing for a short
/// row or an unreadable chain id.
pub fn parse_dex_row(row: &[&str]) -> (r: Option<Dex>)
    ensures
        (row@.len() < 9 || integer_value(row@[3].spec_bytes()) is None) <==> r is None,
        r matches Some(d) ==> dex_of_row(row@, d),
{
    if row.len() < 9 {
        return None;
    }
    let chain_id = match parse_integer(row[3]) {
        Some(c) => c,
        None => {
            return None;
        },
    };
    let gas = if row.len() > 9 {
        read_u64_or(row[9], u64::MAX, 0)
    } else {
        0
    };
    Some(
        Dex {
            id: row[0].to_owned(),
            name: row[1].to_owned(),
            chain_id,
            dex_type: DexType::from_string(row[2]),
            default_fee_bps: read_u64_or(row[6], u32::MAX as u64, DEFAULT_FEE_BPS as u64) as u32,
            gas_estimate_swap: gas,
            is_active: read_bool(row[7]),
            supports_flash_loans: read_bool(row[8]),
        },
    )
}

/// An asset from a sheet row `[symbol, name, address, chain, decimals, price, stable, active]`
/// (with the minimum arbitrage profit in a ninth cell when present);
/// nothing for a short row or an unreadable chain id.
pub fn parse_asset_row(row: &[&str]) -> (r: Option<Asset>)
    ensures
        (row@.len() < 8 || integer_value(row@[3].spec_bytes()) is None) <==> r is None,
        r matches Some(a) ==> asset_of_row(row@, a),
{
    if row.len() < 8 {
        return None;
    }
    let chain_id = match parse_integer(row[3]) {
        Some(c) => c,
        None => {
            return None;
        },
    };
    Some(
        Asset {
            symbol: row[0].to_owned(),
            chain_id,
            address: row[2].to_owned(),
            decimals: read_u64_or(row[4], u8::MAX as u64, DEFAULT_DECIMALS as u64) as u8,
            price_usd: read_micros_or_zero(row[5]),
            is_active: read_bool(row[7]),
            min_arbitrage_profit_usd: if row.len() > 8 {
                read_micros_or_zero(row[8])
            } else {
                0
            },
        },
    )
}

/// A copy of a protocol kind.
pub fn copy_dex_type(t: &DexType) -> (r: DexType)
    ensures
        r == *t,
{
    match t {
        DexType::UniswapV2 => DexType::UniswapV2,
        DexType::UniswapV3 => DexType::UniswapV3,
        DexType::SushiSwap => DexType::SushiSwap,
        DexType::PancakeSwap => DexType::PancakeSwap,
        DexType::Curve => DexType::Curve,
        DexType::Balancer => DexType::Balancer,
        DexType::DODO => DexType::DODO,
        DexType::KyberElastic => DexType::KyberElastic,
        DexType::Custom(s) => DexType::Custom(s.clone()),
    }
}

/// A pool from a sheet row `[id, dex, token a, token b, reserve a, reserve b, tvl, volume, active]`,
/// priced as `dex_type` with fee `fee_bps`; nothing for a short row.
pub fn parse_pool_row(row: &[&str], dex_type: DexType, fee_bps: u32) -> (r: Option<Pool>)
    ensures
        row@.len() < 9 <==> r is None,
        r matches Some(p) ==> pool_of_row(row@, p, dex_type, fee_bps),
{
    if row.len() < 9 {
        return None;
    }
    Some(
        Pool {
            dex_id: row[1].to_owned(),
            total_liquidity_usd: read_micros_or_zero(row[6]),
            volume_24h_usd: read_micros_or_zero(row[7]),
            config: PoolConfig {
                pool_id: row[0].to_owned(),
                dex_type,
                token_a: row[2].to_owned(),
                token_b: row[3].to_owned(),
                reserve_a: read_micros_or_zero(row[4]),
                reserve_b: read_micros_or_zero(row[5]),
                fee_bps,
                is_active: read_bool(row[8]),
                tick_spacing: None,
                current_tick: None,
                amplification: None,
                weights: None,
            },
        },
    )
}

/// Protocol kind and fee of the first DEX with the given id; a custom kind
/// with the default fee when none has it.
pub open spec fn owner_terms(dexes: Seq<Dex>, id: Seq<char>) -> (DexType, u32) {
    if exists|i: int| 0 <= i < dexes.len() && dexes[i].id@ == id {
        let i = choose|i: int|
            0 <= i < dexes.len() && dexes[i].id@ == id && forall|j: int|
                0 <= j < i ==> dexes[j].id@ != id;
        (dexes[i].dex_type, dexes[i].default_fee_bps)
    } else {
        (DexType::Custom(arbitrary()), DEFAULT_FEE_BPS)
    }
}

impl MarketSnapshot {
    /// Protocol kind and fee of the DEX that owns a pool.
    pub fn owner_terms(&self, dex_id: &str) -> (r: (DexType, u32))
        ensures
            (exists|i: int| 0 <= i < self.dexes@.len() && self.dexes@[i].id@ == dex_id@) ==> r
                == owner_terms(self.dexes@, dex_id@),
            !(exists|i: int| 0 <= i < self.dexes@.len() && self.dexes@[i].id@ == dex_id@) ==> (
            r.0 is Custom && r.1 == DEFAULT_FEE_BPS),
    {
        let mut i: usize = 0;
        while i < self.dexes.len()
            invariant
                0 <= i <= self.dexes@.len(),
                forall|j: int| 0 <= j < i ==> self.dexes@[j].id@ != dex_id@,
            decreases self.dexes@.len() - i,
        {
            if same_text(&self.dexes[i].id, dex_id) {
                proof {
                    let c = choose|k: int|
                        0 <= k < self.dexes@.len() && self.dexes@[k].id@ == dex_id@ && forall|j: int|
                            0 <= j < k ==> self.dexes@[j].id@ != dex_id@;
                    assert(self.dexes@[i as int].id@ == dex_id@);
                    if c < i {
                    } else if c > i {
                        assert(self.dexes@[i as int].id@ != dex_id@);
                    }
                    assert(c == i);
                }
                return (copy_dex_type(&self.dexes[i].dex_type), self.dexes[i].default_fee_bps);
            }
            i = i + 1;
        }
        (DexType::Custom(dex_id.to_owned()), DEFAULT_FEE_BPS)
    }
}

/// The DEXes read from the data rows (after the header row); unreadable rows are skipped.
#[verifier::rlimit(100)]
pub fn dexes_from_rows(dex_rows: &Vec<Vec<&str>>) -> (r: Vec<Dex>)
    ensures
        forall|x: int| 0 <= x < r@.len() ==> dex_read(dex_rows@, #[trigger] r@[x]),
        forall|i: int|
            1 <= i < dex_rows@.len() && (#[trigger] dex_rows@[i])@.len() >= 9 && integer_value(
                dex_rows@[i]@[3].spec_bytes(),
            ) is Some ==> exists|x: int| 0 <= x < r@.len() && dex_of_row(dex_rows@[i]@, r@[x]),
{
    let mut dexes: Vec<Dex> = Vec::new();
    let mut i: usize = 1;
    while i < dex_rows.len()
        invariant
            1 <= i <= dex_rows@.len() || (i == 1 && dex_rows@.len() == 0),
            forall|x: int| 0 <= x < dexes@.len() ==> dex_read(dex_rows@, #[trigger] dexes@[x]),
            forall|j: int|
                1 <= j < i && j < dex_rows@.len() && (#[trigger] dex_rows@[j])@.len() >= 9 && integer_value(
                    dex_rows@[j]@[3].spec_bytes(),
                ) is Some ==> exists|x: int| 0 <= x < dexes@.len() && dex_of_row(dex_rows@[j]@, dexes@[x]),
        decreases dex_rows@.len() - i,
    {
        let ghost before = dexes@;
        match parse_dex_row(dex_rows[i].as_slice()) {
            Some(d) => {
                dexes.push(d);
                proof {
                    assert(dex_of_row(dex_rows@[i as int]@, dexes@[before.len() as int]));
                    assert forall|x: int| 0 <= x < dexes@.len() implies dex_read(dex_rows@, #[trigger] dexes@[x]) by {
                        if x < before.len() {
                            assert(dexes@[x] == before[x]);
                        } else {
                            assert(dex_of_row(dex_rows@[i as int]@, dexes@[x]));
                        }
                    }
                    assert forall|j: int|
                        1 <= j < i + 1 && j < dex_rows@.len() && (#[trigger] dex_rows@[j])@.len() >= 9 && integer_value(
                            dex_rows@[j]@[3].spec_bytes(),
                        ) is Some implies exists|x: int| 0 <= x < dexes@.len() && dex_of_row(dex_rows@[j]@, dexes@[x]) by {
                        if j < i {
                            let x = choose|x: int| 0 <= x < before.len() && dex_of_row(dex_rows@[j]@, before[x]);
                            assert(dexes@[x] == before[x]);
                        } else {
                            assert(dex_of_row(dex_rows@[j]@, dexes@[before.len() as int]));
                        }
                    }
                }
            },
            None => {},
        }
        i = i + 1;
    }
    dexes
}

/// The assets read from the data rows (after the header row); unreadable rows are skipped.
#[verifier::rlimit(100)]
pub fn assets_from_rows(asset_rows: &Vec<Vec<&str>>) -> (r: Vec<Asset>)
    ensures
        forall|x: int| 0 <= x < r@.len() ==> asset_read(asset_rows@, #[trigger] r@[x]),
        forall|i: int|
            1 <= i < asset_rows@.len() && (#[trigger] asset_rows@[i])@.len() >= 8 && integer_value(
                asset_rows@[i]@[3].spec_bytes(),
            ) is Some ==> exists|x: int| 0 <= x < r@.len() && asset_of_row(asset_rows@[i]@, r@[x]),
{
    let mut assets: Vec<Asset> = Vec::new();
    let mut i: usize = 1;
    while i < asset_rows.len()
        invariant
            1 <= i <= asset_rows@.len() || (i == 1 && asset_rows@.len() == 0),
            forall|x: int| 0 <= x < assets@.len() ==> asset_read(asset_rows@, #[trigger] assets@[x]),
            forall|j: int|
                1 <= j < i && j < asset_rows@.len() && (#[trigger] asset_rows@[j])@.len() >= 8 && integer_value(
                    asset_rows@[j]@[3].spec_bytes(),
                ) is Some ==> exists|x: int| 0 <= x < assets@.len() && asset_of_row(asset_rows@[j]@, assets@[x]),
        decreases asset_rows@.len() - i,
    {
        let ghost before = assets@;
        match parse_asset_row(asset_rows[i].as_slice()) {
            Some(a) => {
                assets.push(a);
                proof {
                    assert forall|x: int| 0 <= x < assets@.len() implies asset_read(asset_rows@, #[trigger] assets@[x]) by {
                        if x < before.len() {
                            assert(assets@[x] == before[x]);
                        } else {
                            assert(asset_of_row(asset_rows@[i as int]@, assets@[x]));
                        }
                    }
                    assert forall|j: int|
                        1 <= j < i + 1 && j < asset_rows@.len() && (#[trigger] asset_rows@[j])@.len() >= 8 && integer_value(
                            asset_rows@[j]@[3].spec_bytes(),
                        ) is Some implies exists|x: int| 0 <= x < assets@.len() && asset_of_row(asset_rows@[j]@, assets@[x]) by {
                        if j < i {
                            let x = choose|x: int| 0 <= x < before.len() && asset_of_row(asset_rows@[j]@, before[x]);
                            assert(assets@[x] == before[x]);
                        } else {
                            assert(asset_of_row(asset_rows@[j]@, assets@[before.len() as int]));
                        }
                    }
                }
            },
            None => {},
        }
        i = i + 1;
    }
    assets
}

/// The pools read from the data rows (after the header row), each priced by
/// the protocol kind and fee of its owner among `owners`; short rows are skipped.
/// A pool from one row, priced by the terms of its owner among `owners`.
fn read_pool_row(row: &[&str], owners: &MarketSnapshot) -> (r: Option<Pool>)
    ensures
        row@.len() >= 9 <==> r is Some,
        r matches Some(p) ==> pool_of_row(row@, p, p.config.dex_type, p.config.fee_bps),
{
    if row.len() < 9 {
        return None;
    }
    let (kind, fee) = owners.owner_terms(row[1]);
    parse_pool_row(row, kind, fee)
}

#[verifier::rlimit(100)]
pub fn pools_from_rows(pool_rows: &Vec<Vec<&str>>, owners: &MarketSnapshot) -> (r: Vec<Pool>)
    ensures
        forall|x: int| 0 <= x < r@.len() ==> pool_read(pool_rows@, #[trigger] r@[x]),
        forall|i: int|
            1 <= i < pool_rows@.len() && (#[trigger] pool_rows@[i])@.len() >= 9 ==> pool_id_listed(r@, pool_rows@[i]@[0]@),
{
    let mut pools: Vec<Pool> = Vec::new();
    let mut i: usize = 1;
    while i < pool_rows.len()
        invariant
            1 <= i <= pool_rows@.len() || (i == 1 && pool_rows@.len() == 0),
            forall|x: int| 0 <= x < pools@.len() ==> pool_read(pool_rows@, #[trigger] pools@[x]),
            forall|j: int|
                1 <= j < i && j < pool_rows@.len() && (#[trigger] pool_rows@[j])@.len() >= 9 ==> pool_id_listed(pools@, pool_rows@[j]@[0]@),
        decreases pool_rows@.len() - i,
    {
        let ghost before = pools@;
        match read_pool_row(pool_rows[i].as_slice(), owners) {
            Some(p) => {
                pools.push(p);
                proof {
                    assert forall|x: int| 0 <= x < pools@.len() implies pool_read(pool_rows@, #[trigger] pools@[x]) by {
                        if x < before.len() {
                            assert(pools@[x] == before[x]);
                        } else {
                            assert(pool_of_row(pool_rows@[i as int]@, pools@[x], pools@[x].config.dex_type, pools@[x].config.fee_bps));
                        }
                    }
                    assert forall|j: int|
                        1 <= j < i + 1 && j < pool_rows@.len() && (#[trigger] pool_rows@[j])@.len() >= 9 implies pool_id_listed(pools@, pool_rows@[j]@[0]@) by {
                        if j < i {
                            assert(pool_id_listed(before, pool_rows@[j]@[0]@));
                            let x = choose|x: int| 0 <= x < before.len() && before[x].config.pool_id@ == pool_rows@[j]@[0]@;
                            assert(pools@[x] == before[x]);
                            assert(pools@[x].config.pool_id@ == pool_rows@[j]@[0]@);
                        } else {
                            assert(pools@[before.len() as int].config.pool_id@ == pool_rows@[j]@[0]@);
                        }
                    }
                }
            },
            None => {},
        }
        i = i + 1;
    }
    pools
}

/// The snapshot read from the data rows (after the header row) of the DEX,
/// asset and pool sheets; rows that cannot be read are skipped. A pool is
/// priced by the protocol kind and fee of the DEX that owns it.
pub fn snapshot_from_rows(
    dex_rows: &Vec<Vec<&str>>,
    asset_rows: &Vec<Vec<&str>>,
    pool_rows: &Vec<Vec<&str>>,
) -> (r: MarketSnapshot)
    ensures
        forall|x: int| 0 <= x < r.dexes@.len() ==> dex_read(dex_rows@, #[trigger] r.dexes@[x]),
        forall|x: int| 0 <= x < r.assets@.len() ==> asset_read(asset_rows@, #[trigger] r.assets@[x]),
        forall|x: int| 0 <= x < r.pools@.len() ==> pool_read(pool_rows@, #[trigger] r.pools@[x]),
{
    let dexes = dexes_from_rows(dex_rows);
    let assets = assets_from_rows(asset_rows);
    let owners = MarketSnapshot { dexes, assets: Vec::new(), pools: Vec::new() };
    let pools = pools_from_rows(pool_rows, &owners);
    MarketSnapshot { dexes: owners.dexes, assets, pools }
}

} // verus!

verus! {

/// System settings read from the configuration sheet. Percentages are in
/// basis points, amounts in millionths.
#[derive(Debug, Clone, Copy, PartialEq, Eq, Structural)]
pub struct SystemConfig {
    pub max_slippage_bps: u64,
    pub max_price_impact_bps: u64,
    pub min_profit_usd: u64,
    pub max_gas_price_gwei: u64,
    pub flash_loan_enabled: bool,
    pub max_concurrent_routes: u32,
}

/// The value cell of the last data row among `rows[1..k)` whose key cell is `key`.
pub open spec fn config_cell(rows: Seq<Vec<&str>>, key: Seq<char>, k: int) -> Option<&str>
    decreases k,
{
    if k <= 1 {
        None
    } else if rows[k - 1]@.len() >= 2 && rows[k - 1]@[0]@ == key {
        Some(rows[k - 1]@[1])
    } else {
        config_cell(rows, key, k - 1)
    }
}

/// A percentage cell in basis points, or the default when absent or unreadable.
pub open spec fn percent_bps_or(cell: Option<&str>, default: int) -> int {
    match cell {
        Some(t) => match decimal_micros(t.spec_bytes()) {
            Some(v) => v / 10_000,
            None => default,
        },
        None => default,
    }
}

/// A decimal cell in millionths, or the default when absent or unreadable.
pub open spec fn micros_or(cell: Option<&str>, default: int) -> int {
    match cell {
        Some(t) => match decimal_micros(t.spec_bytes()) {
            Some(v) => v,
            None => default,
        },
        None => default,
    }
}

fn find_config_cell<'a>(rows: &Vec<Vec<&'a str>>, key: &str) -> (r: Option<&'a str>)
    ensures
        r == config_cell(rows@, key@, rows@.len() as int),
{
    let mut found: Option<&str> = None;
    let mut i: usize = 1;
    while i < rows.len()
        invariant
            1 <= i,
            i <= rows@.len() || rows@.len() <= 1,
            rows@.len() <= 1 ==> i == 1,
            found == config_cell(rows@, key@, i as int),
        decreases rows@.len() - i,
    {
        let row = &rows[i];
        if row.len() >= 2 {
            let owned = row[0].to_owned();
            if same_text(&owned, key) {
                found = Some(row[1]);
            }
        }
        proof {
            assert(row@ == rows@[i as int]@);
        }
        i = i + 1;
    }
    proof {
        if rows@.len() <= 1 {
            assert(config_cell(rows@, key@, rows@.len() as int) is None);
            assert(config_cell(rows@, key@, i as int) is None);
        } else {
            assert(i == rows@.len());
        }
    }
    found
}

fn percent_bps(cell: Option<&str>, default: u64) -> (r: u64)
    ensures
        r == percent_bps_or(cell, default as int),
{
    match cell {
        Some(t) => match parse_decimal_micros(t) {
            Some(v) => v / 10_000,
            None => default,
        },
        None => default,
    }
}

fn micros(cell: Option<&str>, default: u64) -> (r: u64)
    ensures
        r == micros_or(cell, default as int),
{
    match cell {
        Some(t) => match parse_decimal_micros(t) {
            Some(v) => v,
            None => default,
        },
        None => default,
    }
}

/// Reads the system settings from the key/value rows of the configuration
/// sheet (after its header row); the last row of a key wins, and a missing or
/// unreadable value takes its default (5% slippage, 3% price impact, $10
/// minimum profit, 100 gwei, flash loans on, 40 routes).
pub fn system_config_from_rows(rows: &Vec<Vec<&str>>) -> (r: Result<SystemConfig, crate::snapshot::ConfigError>)
    ensures
        rows@.len() < 2 <==> r is Err,
        r matches Err(e) ==> e == crate::snapshot::ConfigError::EmptyConfigSheet,
        r matches Ok(c) ==> {
            let n = rows@.len() as int;
            &&& c.max_slippage_bps == percent_bps_or(config_cell(rows@, "MAX_SLIPPAGE"@, n), 500)
            &&& c.max_price_impact_bps == percent_bps_or(config_cell(rows@, "MAX_PRICE_IMPACT"@, n), 300)
            &&& c.min_profit_usd == micros_or(config_cell(rows@, "MIN_PROFIT_USD"@, n), 10_000_000)
            &&& c.max_gas_price_gwei == micros_or(config_cell(rows@, "MAX_GAS_PRICE_GWEI"@, n), 100_000_000)
            &&& c.flash_loan_enabled == match config_cell(rows@, "FLASH_LOAN_ENABLED"@, n) {
                Some(t) => cell_true(t@),
                None => true,
            }
            &&& c.max_concurrent_routes == match config_cell(rows@, "MAX_CONCURRENT_ROUTES"@, n) {
                Some(t) => int_or(t.spec_bytes(), u32::MAX as int, 40),
                None => 40,
            }
        },
{
    if rows.len() < 2 {
        return Err(crate::snapshot::ConfigError::EmptyConfigSheet);
    }
    let flash = match find_config_cell(rows, "FLASH_LOAN_ENABLED") {
        Some(t) => read_bool(t),
        None => true,
    };
    let routes = match find_config_cell(rows, "MAX_CONCURRENT_ROUTES") {
        Some(t) => read_u64_or(t, u32::MAX as u64, 40) as u32,
        None => 40,
    };
    Ok(
        SystemConfig {
            max_slippage_bps: percent_bps(find_config_cell(rows, "MAX_SLIPPAGE"), 500),
            max_price_impact_bps: percent_bps(find_config_cell(rows, "MAX_PRICE_IMPACT"), 300),
            min_profit_usd: micros(find_config_cell(rows, "MIN_PROFIT_USD"), 10_000_000),
            max_gas_price_gwei: micros(find_config_cell(rows, "MAX_GAS_PRICE_GWEI"), 100_000_000),
            flash_loan_enabled: flash,
            max_concurrent_routes: routes,
        },
    )
}

} // verus!
