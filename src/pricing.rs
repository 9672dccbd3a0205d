use vstd::prelude::*;

use crate::arith::{lemma_div_bounds, lemma_div_le_bound, lemma_floor_monotone, lemma_mul_bounded};
use crate::units::{BPS_ONE, MAX_AMOUNT, UNIT};

verus! {

/// Largest amplification factor a stableswap pool may carry.
pub const MAX_AMPLIFICATION: u64 = 1_000_000;

/// Scale of the retained fraction handed to the weighted-pool formula.
pub const PPM_ONE: u64 = 1_000_000;

/// Largest weight (in basis points of the pool) of one side of a weighted pool.
pub const MAX_WEIGHT: u64 = 10_000;

/// Protocol family of a DEX; decides which invariant prices its pools.
#[derive(Debug, Clone, PartialEq, Eq, Hash)]
pub enum DexType {
    UniswapV2,
    UniswapV3,
    SushiSwap,
    PancakeSwap,
    Curve,
    Balancer,
    DODO,
    KyberElastic,
    Custom(String),
}

impl DexType {
    /// Priced by the plain constant-product invariant.
    pub open spec fn is_constant_product(self) -> bool {
        self is UniswapV2 || self is SushiSwap || self is PancakeSwap || self is DODO
    }

    /// Concentrated liquidity, priced as constant product on a tick-adjusted reserve.
    pub open spec fn is_concentrated(self) -> bool {
        self is UniswapV3 || self is KyberElastic
    }

    /// Builds the protocol kind from a name, ignoring letter case.
    pub fn from_string(s: &str) -> (r: DexType)
        ensures
            names_dex_type(lower_of(s@), r),
    {
        let l = lowercase(s);
        DexType::from_lowercase(&l)
    }

    /// Builds the protocol kind from a name that is already in lower case.
    pub fn from_lowercase(l: &String) -> (r: DexType)
        ensures
            names_dex_type(l@, r),
    {
        if same_text(l, "uniswapv2") || same_text(l, "uniswap_v2") {
            DexType::UniswapV2
        } else if same_text(l, "uniswapv3") || same_text(l, "uniswap_v3") {
            DexType::UniswapV3
        } else if same_text(l, "sushiswap") || same_text(l, "sushi") {
            DexType::SushiSwap
        } else if same_text(l, "pancakeswap") || same_text(l, "pancake") {
            DexType::PancakeSwap
        } else if same_text(l, "curve") {
            DexType::Curve
        } else if same_text(l, "balancer") {
            DexType::Balancer
        } else if same_text(l, "dodo") {
            DexType::DODO
        } else if same_text(l, "kyber") || same_text(l, "kyberelastic") {
            DexType::KyberElastic
        } else {
            DexType::Custom(l.clone())
        }
    }
}

/// What a lower-case protocol name stands for.
pub open spec fn names_dex_type(l: Seq<char>, t: DexType) -> bool {
    if l == "uniswapv2"@ || l == "uniswap_v2"@ {
        t == DexType::UniswapV2
    } else if l == "uniswapv3"@ || l == "uniswap_v3"@ {
        t == DexType::UniswapV3
    } else if l == "sushiswap"@ || l == "sushi"@ {
        t == DexType::SushiSwap
    } else if l == "pancakeswap"@ || l == "pancake"@ {
        t == DexType::PancakeSwap
    } else if l == "curve"@ {
        t == DexType::Curve
    } else if l == "balancer"@ {
        t == DexType::Balancer
    } else if l == "dodo"@ {
        t == DexType::DODO
    } else if l == "kyber"@ || l == "kyberelastic"@ {
        t == DexType::KyberElastic
    } else {
        match t {
            DexType::Custom(c) => c@ == l,
            _ => false,
        }
    }
}

/// The lower-case form of a text.
pub uninterp spec fn lower_of(s: Seq<char>) -> Seq<char>;

/// Relies on `str::to_lowercase`: the result depends on the characters alone.
#[verifier::external_body]
pub(crate) fn lowercase(s: &str) -> (r: String)
    ensures
        r@ == lower_of(s@),
{
    s.to_lowercase()
}

/// Whether a string holds exactly the characters of `t`.
pub(crate) fn same_text(s: &String, t: &str) -> (r: bool)
    ensures
        r == (s@ == t@),
{
    let owned = t.to_owned();
    *s == owned
}

/// A pool as the pricing model sees it.
#[derive(Debug, Clone)]
pub struct PoolConfig {
    pub pool_id: String,
    pub dex_type: DexType,
    pub token_a: String,
    pub token_b: String,
    pub reserve_a: u64,
    pub reserve_b: u64,
    /// Fee in basis points (30 = 0.3%).
    pub fee_bps: u32,
    pub is_active: bool,
    pub tick_spacing: Option<u32>,
    pub current_tick: Option<i32>,
    pub amplification: Option<u64>,
    /// Weights of the two sides of a weighted pool, in basis points.
    pub weights: Option<Vec<u64>>,
}

/// Advisory notes attached to a quote; they never turn a quote into an error.
#[derive(Debug, Clone, Copy, PartialEq, Eq, Structural)]
pub enum PricingWarning {
    PriceImpactAboveMax,
    SlippageAboveMax,
}

/// The outcome of pricing one swap.
#[derive(Debug, Clone)]
pub struct PricingResult {
    pub output_amount: u128,
    /// Price impact in basis points.
    pub price_impact_bps: u128,
    /// Output per unit of input, scaled by `UNIT`.
    pub effective_price: u128,
    /// Slippage against the spot price, in basis points.
    pub slippage_bps: u128,
    pub fee_amount: u128,
    pub is_profitable: bool,
    pub warnings: Vec<PricingWarning>,
}

/// Why a pool could not be priced.
#[derive(Debug, Clone, Copy, PartialEq, Eq, Structural)]
pub enum PricingError {
    PoolNotFound,
    PoolInactive,
    TokenNotInPool,
    InvalidAmount,
    InvalidReserves,
    InvalidFee,
    MissingParameters,
    /// A weighted pool needs the retained fraction `(r_in / (r_in + x))^(w_in / w_out)`,
    /// which is computed outside this library.
    WeightedPowerRequired,
    Unsupported,
}

// ---------------------------------------------------------------------------
// The exact quantities of one quote
// ---------------------------------------------------------------------------

/// Input left after the fee, scaled by `BPS_ONE`.
pub open spec fn input_after_fee(input: int, fee: int) -> int {
    input * (BPS_ONE - fee)
}

/// Numerator of the exact constant-product output.
pub open spec fn cp_numerator(input: int, rout: int, fee: int) -> int {
    input_after_fee(input, fee) * rout
}

/// Denominator of the exact constant-product output.
pub open spec fn cp_denominator(input: int, rin: int, fee: int) -> int {
    rin * BPS_ONE + input_after_fee(input, fee)
}

/// `(x·(1−f)·r_out) / (r_in + x·(1−f))`, rounded down.
pub open spec fn cp_output(input: int, rin: int, rout: int, fee: int) -> int {
    cp_numerator(input, rout, fee) / cp_denominator(input, rin, fee)
}

/// `|spot − effective| / spot` in basis points, with spot `r_out / r_in`
/// and effective price `out / x`.
pub open spec fn cp_impact(input: int, rin: int, rout: int, out: int) -> int {
    (rout * input - out * rin) * BPS_ONE / (rout * input)
}

/// The fee charged on an amount, rounded down.
pub open spec fn fee_on(amount: int, fee: int) -> int {
    amount * fee / (BPS_ONE as int)
}

/// (output, fee amount, price impact, slippage) of a constant-product swap.
pub open spec fn cp_quote(input: int, rin: int, rout: int, fee: int) -> (int, int, int, int) {
    let out = cp_output(input, rin, rout, fee);
    let impact = cp_impact(input, rin, rout, out);
    (out, fee_on(input, fee), impact, impact)
}

/// Absolute difference.
pub open spec fn abs_diff(a: int, b: int) -> int {
    if a >= b { a - b } else { b - a }
}

/// (output, fee amount, price impact, slippage) of a stableswap swap: the
/// invariant `D = r_in + r_out` with amplification `A` moves the input by
/// `x·2A/D`; the output is `x·r_out / (r_in + x·2A/D)` less the fee, priced
/// against a spot of one.
pub open spec fn curve_quote(input: int, rin: int, rout: int, fee: int, amp: int) -> (
    int,
    int,
    int,
    int,
) {
    let shift = input * (2 * amp) / (rin + rout);
    let raw = input * rout / (rin + shift);
    let fee_amount = fee_on(raw, fee);
    let out = raw - fee_amount;
    let dev = abs_diff(input, out) * BPS_ONE / input;
    (out, fee_amount, dev, dev)
}

/// (output, fee amount, price impact, slippage) of a weighted-pool swap,
/// given the retained fraction `(r_in / (r_in + x))^(w_in / w_out)` in
/// millionths; spot price is `(r_out / w_out) / (r_in / w_in)`.
pub open spec fn weighted_quote(
    input: int,
    rin: int,
    rout: int,
    fee: int,
    w_in: int,
    w_out: int,
    retained_ppm: int,
) -> (int, int, int, int) {
    let raw = rout * (PPM_ONE - retained_ppm) / (PPM_ONE as int);
    let fee_amount = fee_on(raw, fee);
    let out = raw - fee_amount;
    let spot_scaled = rout * w_in * input;
    let impact = abs_diff(spot_scaled, out * rin * w_out) * BPS_ONE / spot_scaled;
    (out, fee_amount, impact, impact)
}

/// Tick of a concentrated-liquidity pool (zero when not given).
pub open spec fn tick_of(pool: PoolConfig) -> int {
    match pool.current_tick {
        Some(t) => t as int,
        None => 0,
    }
}

/// Output reserve after the tick adjustment `r_out · (1 + tick / 10000)`.
pub open spec fn tick_adjusted(rout: int, tick: int) -> int {
    rout * (BPS_ONE + tick) / (BPS_ONE as int)
}

/// Whether a weighted pool's weights are usable.
pub open spec fn usable_weights(w: Seq<u64>) -> bool {
    w.len() >= 2 && 0 < w[0] <= MAX_WEIGHT && 0 < w[1] <= MAX_WEIGHT
}

/// The checks shared by every protocol, in order.
pub open spec fn common_check(fee: int, input: int, rin: int, rout: int) -> Option<PricingError> {
    if input <= 0 || input > MAX_AMOUNT {
        Some(PricingError::InvalidAmount)
    } else if rin <= 0 || rout <= 0 || rin > MAX_AMOUNT || rout > MAX_AMOUNT {
        Some(PricingError::InvalidReserves)
    } else if fee > BPS_ONE {
        Some(PricingError::InvalidFee)
    } else {
        None
    }
}

/// The exact quote of a pool for an input entering on the side with
/// reserve `rin`: (output, fee amount, price impact, slippage), or the error.
pub open spec fn quote_spec(pool: PoolConfig, input: int, rin: int, rout: int) -> Result<
    (int, int, int, int),
    PricingError,
> {
    let fee = pool.fee_bps as int;
    match common_check(fee, input, rin, rout) {
        Some(e) => Err(e),
        None => {
            if pool.dex_type.is_constant_product() {
                Ok(cp_quote(input, rin, rout, fee))
            } else if pool.dex_type.is_concentrated() {
                let adj = tick_adjusted(rout, tick_of(pool));
                if tick_of(pool) <= -(BPS_ONE as int) || adj <= 0 || adj > MAX_AMOUNT {
                    Err(PricingError::InvalidReserves)
                } else {
                    Ok(cp_quote(input, rin, adj, fee))
                }
            } else if pool.dex_type is Curve {
                match pool.amplification {
                    Some(a) => if 1 <= a <= MAX_AMPLIFICATION {
                        Ok(curve_quote(input, rin, rout, fee, a as int))
                    } else {
                        Err(PricingError::MissingParameters)
                    },
                    None => Err(PricingError::MissingParameters),
                }
            } else if pool.dex_type is Balancer {
                match pool.weights {
                    Some(w) => if usable_weights(w@) {
                        Err(PricingError::WeightedPowerRequired)
                    } else {
                        Err(PricingError::MissingParameters)
                    },
                    None => Err(PricingError::MissingParameters),
                }
            } else {
                Err(PricingError::Unsupported)
            }
        },
    }
}

/// Reserves (in, out) of a pool for an input token, when the token is one of its sides.
pub open spec fn sides(pool: PoolConfig, token_in: Seq<char>) -> Option<(int, int)> {
    if token_in == pool.token_a@ {
        Some((pool.reserve_a as int, pool.reserve_b as int))
    } else if token_in == pool.token_b@ {
        Some((pool.reserve_b as int, pool.reserve_a as int))
    } else {
        None
    }
}

/// The quote of a pool for an input token, or why there is none.
pub open spec fn pool_quote(pool: PoolConfig, input: int, token_in: Seq<char>) -> Result<
    (int, int, int, int),
    PricingError,
> {
    match sides(pool, token_in) {
        None => Err(PricingError::TokenNotInPool),
        Some(s) => quote_spec(pool, input, s.0, s.1),
    }
}

/// Warnings for an impact and a slippage against their maxima.
pub open spec fn expected_warnings(impact: int, slippage: int, max_impact: int, max_slippage: int) -> Seq<
    PricingWarning,
> {
    let first = if impact > max_impact {
        seq![PricingWarning::PriceImpactAboveMax]
    } else {
        Seq::empty()
    };
    if slippage > max_slippage {
        first.push(PricingWarning::SlippageAboveMax)
    } else {
        first
    }
}

/// A result carries exactly the quantities `q` of a quote for `input`.
pub open spec fn result_matches(
    r: PricingResult,
    q: (int, int, int, int),
    input: int,
    max_impact: int,
    max_slippage: int,
) -> bool {
    &&& r.output_amount == q.0
    &&& r.fee_amount == q.1
    &&& r.price_impact_bps == q.2
    &&& r.slippage_bps == q.3
    &&& r.effective_price == q.0 * UNIT / input
    &&& r.warnings@ == expected_warnings(q.2, q.3, max_impact, max_slippage)
    &&& r.is_profitable == (r.warnings@.len() == 0 && q.0 > 0)
}

// ---------------------------------------------------------------------------
// Laws of constant-product pricing
// ---------------------------------------------------------------------------

/// Constant-product output never exceeds what the spot price gives, nor the
/// output reserve.
pub proof fn lemma_cp_output_bounds(input: int, rin: int, rout: int, fee: int)
    requires
        input > 0,
        rin > 0,
        rout > 0,
        0 <= fee <= BPS_ONE,
    ensures
        0 <= cp_output(input, rin, rout, fee) < rout,
        cp_output(input, rin, rout, fee) * rin <= rout * input,
{
    let n = cp_numerator(input, rout, fee);
    let d = cp_denominator(input, rin, fee);
    let ie = input_after_fee(input, fee);
    assert(ie >= 0) by (nonlinear_arith)
        requires
            ie == input * (BPS_ONE - fee),
            input > 0,
            fee <= BPS_ONE,
    ;
    assert(n >= 0) by (nonlinear_arith)
        requires
            n == ie * rout,
            ie >= 0,
            rout > 0,
    ;
    assert(d > 0) by (nonlinear_arith)
        requires
            d == rin * BPS_ONE + ie,
            ie >= 0,
            rin > 0,
    ;
    lemma_div_bounds(n, d);
    let q = n / d;
    assert(q < rout) by (nonlinear_arith)
        requires
            q * d <= n,
            n == ie * rout,
            d == rin * BPS_ONE + ie,
            rin > 0,
            rout > 0,
            ie >= 0,
    ;
    assert(q * (rin * BPS_ONE) <= q * d) by (nonlinear_arith)
        requires
            d == rin * BPS_ONE + ie,
            q >= 0,
            ie >= 0,
    ;
    assert(ie * rout <= input * BPS_ONE * rout) by (nonlinear_arith)
        requires
            ie == input * (BPS_ONE - fee),
            0 <= fee,
            input > 0,
            rout > 0,
    ;
    assert(q * rin <= rout * input) by (nonlinear_arith)
        requires
            q * (rin * BPS_ONE) <= input * BPS_ONE * rout,
    ;
}

/// Pricing monotonicity in the input: for fixed reserves and a fee below
/// 100%, a larger input gives a strictly larger exact output (compared as
/// fractions), and never a smaller output after rounding down.
pub proof fn lemma_cp_monotone_in_input(a1: int, a2: int, rin: int, rout: int, fee: int)
    requires
        0 < a1 < a2,
        rin > 0,
        rout > 0,
        0 <= fee < BPS_ONE,
    ensures
        cp_numerator(a1, rout, fee) * cp_denominator(a2, rin, fee) < cp_numerator(a2, rout, fee)
            * cp_denominator(a1, rin, fee),
        cp_output(a1, rin, rout, fee) <= cp_output(a2, rin, rout, fee),
{
    let e1 = input_after_fee(a1, fee);
    let e2 = input_after_fee(a2, fee);
    assert(0 < e1 < e2) by (nonlinear_arith)
        requires
            e1 == a1 * (BPS_ONE - fee),
            e2 == a2 * (BPS_ONE - fee),
            0 < a1 < a2,
            fee < BPS_ONE,
    ;
    let r = rin * BPS_ONE;
    assert(r > 0) by (nonlinear_arith)
        requires
            r == rin * BPS_ONE,
            rin > 0,
    ;
    assert(e1 * rout * (r + e2) < e2 * rout * (r + e1)) by (nonlinear_arith)
        requires
            0 < e1 < e2,
            r > 0,
            rout > 0,
    ;
    lemma_cp_output_bounds(a1, rin, rout, fee);
    lemma_cp_output_bounds(a2, rin, rout, fee);
    lemma_floor_monotone(e1 * rout, r + e1, e2 * rout, r + e2);
}

/// Pricing monotonicity in the fee: for a fixed input and reserves, a larger
/// fee gives a strictly smaller exact output (compared as fractions), and
/// never a larger output after rounding down.
pub proof fn lemma_cp_monotone_in_fee(input: int, rin: int, rout: int, f1: int, f2: int)
    requires
        input > 0,
        rin > 0,
        rout > 0,
        0 <= f1 < f2 <= BPS_ONE,
    ensures
        cp_numerator(input, rout, f2) * cp_denominator(input, rin, f1) < cp_numerator(
            input,
            rout,
            f1,
        ) * cp_denominator(input, rin, f2),
        cp_output(input, rin, rout, f2) <= cp_output(input, rin, rout, f1),
{
    let e1 = input_after_fee(input, f1);
    let e2 = input_after_fee(input, f2);
    assert(0 <= e2 < e1) by (nonlinear_arith)
        requires
            e1 == input * (BPS_ONE - f1),
            e2 == input * (BPS_ONE - f2),
            input > 0,
            f1 < f2 <= BPS_ONE,
    ;
    let r = rin * BPS_ONE;
    assert(r > 0) by (nonlinear_arith)
        requires
            r == rin * BPS_ONE,
            rin > 0,
    ;
    assert(e2 * rout * (r + e1) < e1 * rout * (r + e2)) by (nonlinear_arith)
        requires
            0 <= e2 < e1,
            r > 0,
            rout > 0,
    ;
    lemma_cp_output_bounds(input, rin, rout, f1);
    lemma_cp_output_bounds(input, rin, rout, f2);
    lemma_floor_monotone(e2 * rout, r + e2, e1 * rout, r + e1);
}

} // verus!

verus! {

/// The quote of a weighted pool once the retained fraction is known.
pub open spec fn weighted_spec(pool: PoolConfig, input: int, rin: int, rout: int, retained_ppm: int) -> Result<
    (int, int, int, int),
    PricingError,
> {
    let fee = pool.fee_bps as int;
    match common_check(fee, input, rin, rout) {
        Some(e) => Err(e),
        None => match pool.weights {
            Some(w) => if !usable_weights(w@) {
                Err(PricingError::MissingParameters)
            } else if retained_ppm > PPM_ONE {
                Err(PricingError::InvalidAmount)
            } else {
                Ok(weighted_quote(input, rin, rout, fee, w@[0] as int, w@[1] as int, retained_ppm))
            },
            None => Err(PricingError::MissingParameters),
        },
    }
}

/// A result is the exact image of the spec outcome `q` for `input`.
pub open spec fn outcome_matches(
    r: Result<PricingResult, PricingError>,
    q: Result<(int, int, int, int), PricingError>,
    input: int,
    max_impact: int,
    max_slippage: int,
) -> bool {
    match q {
        Err(e) => r == Err::<PricingResult, PricingError>(e),
        Ok(t) => r is Ok && result_matches(r->Ok_0, t, input, max_impact, max_slippage),
    }
}

/// Largest quantity a finished quote may carry.
pub const MAX_QUOTED: u128 = 100_000_000_000_000_000_000_000_000_000_000;

/// Pricing engine: the active pools of one snapshot and the advisory maxima.
pub struct DexPricingEngine {
    pub pools: Vec<PoolConfig>,
    /// Maximum slippage, in basis points, above which a quote carries a warning.
    pub max_slippage: u64,
    /// Maximum price impact, in basis points, above which a quote carries a warning.
    pub max_price_impact: u64,
}

/// Pool ids are pairwise distinct.
pub open spec fn unique_ids(pools: Seq<PoolConfig>) -> bool {
    forall|i: int, j: int|
        0 <= i < j < pools.len() ==> pools[i].pool_id@ != pools[j].pool_id@
}

/// The last active pool of a list with the given id, if any.
pub open spec fn last_active(pools: Seq<PoolConfig>, id: Seq<char>) -> Option<PoolConfig>
    decreases pools.len(),
{
    if pools.len() == 0 {
        None
    } else {
        let p = pools.last();
        if p.is_active && p.pool_id@ == id {
            Some(p)
        } else {
            last_active(pools.drop_last(), id)
        }
    }
}

/// The pool stored under an id, if any.
pub open spec fn stored(pools: Seq<PoolConfig>, id: Seq<char>) -> Option<PoolConfig> {
    if exists|i: int| 0 <= i < pools.len() && pools[i].pool_id@ == id {
        Some(pools[choose|i: int| 0 <= i < pools.len() && pools[i].pool_id@ == id])
    } else {
        None
    }
}

impl DexPricingEngine {
    /// Well-formed: pool ids are unique.
    pub open spec fn wf(&self) -> bool {
        unique_ids(self.pools@)
    }

    /// An engine with no pools and the given advisory maxima (basis points).
    pub fn new(max_slippage: u64, max_price_impact: u64) -> (r: DexPricingEngine)
        ensures
            r.wf(),
            r.pools@.len() == 0,
            r.max_slippage == max_slippage,
            r.max_price_impact == max_price_impact,
    {
        DexPricingEngine { pools: Vec::new(), max_slippage, max_price_impact }
    }

    /// Finishes a quote from its exact quantities.
    fn finish(&self, input: u128, out: u128, fee_amount: u128, impact: u128, slippage: u128) -> (r:
        PricingResult)
        requires
            0 < input,
            out <= MAX_QUOTED,
        ensures
            result_matches(
                r,
                (out as int, fee_amount as int, impact as int, slippage as int),
                input as int,
                self.max_price_impact as int,
                self.max_slippage as int,
            ),
    {
        let mut warnings: Vec<PricingWarning> = Vec::new();
        if impact > self.max_price_impact as u128 {
            warnings.push(PricingWarning::PriceImpactAboveMax);
        }
        if slippage > self.max_slippage as u128 {
            warnings.push(PricingWarning::SlippageAboveMax);
        }
        proof {
            assert(warnings@ =~= expected_warnings(
                impact as int,
                slippage as int,
                self.max_price_impact as int,
                self.max_slippage as int,
            ));
        }
        let is_profitable = warnings.len() == 0 && out > 0;
        proof {
            lemma_mul_bounded(out as int, UNIT as int, MAX_QUOTED as int, UNIT as int);
        }
        PricingResult {
            output_amount: out,
            price_impact_bps: impact,
            effective_price: out * (UNIT as u128) / input,
            slippage_bps: slippage,
            fee_amount,
            is_profitable,
            warnings,
        }
    }

    /// Checks shared by every protocol.
    fn check_common(input: u128, rin: u128, rout: u128, fee_bps: u32) -> (r: Option<PricingError>)
        ensures
            r == common_check(fee_bps as int, input as int, rin as int, rout as int),
    {
        if input == 0 || input > MAX_AMOUNT as u128 {
            Some(PricingError::InvalidAmount)
        } else if rin == 0 || rout == 0 || rin > MAX_AMOUNT as u128 || rout > MAX_AMOUNT as u128 {
            Some(PricingError::InvalidReserves)
        } else if fee_bps as u64 > BPS_ONE {
            Some(PricingError::InvalidFee)
        } else {
            None
        }
    }

    /// Constant-product (Uniswap-V2 style) quote.
    pub fn calculate_constant_product(
        &self,
        input_amount: u128,
        reserve_in: u128,
        reserve_out: u128,
        fee_bps: u32,
    ) -> (r: Result<PricingResult, PricingError>)
        ensures
            outcome_matches(
                r,
                match common_check(
                    fee_bps as int,
                    input_amount as int,
                    reserve_in as int,
                    reserve_out as int,
                ) {
                    Some(e) => Err(e),
                    None => Ok(
                        cp_quote(
                            input_amount as int,
                            reserve_in as int,
                            reserve_out as int,
                            fee_bps as int,
                        ),
                    ),
                },
                input_amount as int,
                self.max_price_impact as int,
                self.max_slippage as int,
            ),
    {
        if let Some(e) = Self::check_common(input_amount, reserve_in, reserve_out, fee_bps) {
            return Err(e);
        }
        let input = input_amount;
        let rin = reserve_in;
        let rout = reserve_out;
        let fee = fee_bps as u128;
        proof {
            lemma_mul_bounded(input as int, (BPS_ONE - fee) as int, MAX_AMOUNT as int, BPS_ONE as int);
        }
        let ie = input * (10_000 - fee);
        proof {
            lemma_mul_bounded(ie as int, rout as int, MAX_AMOUNT * BPS_ONE, MAX_AMOUNT as int);
            lemma_mul_bounded(rin as int, BPS_ONE as int, MAX_AMOUNT as int, BPS_ONE as int);
        }
        let num = ie * rout;
        let den = rin * 10_000 + ie;
        let out = num / den;
        proof {
            lemma_cp_output_bounds(input as int, rin as int, rout as int, fee as int);
            lemma_mul_bounded(rout as int, input as int, MAX_AMOUNT as int, MAX_AMOUNT as int);
        }
        let spot = rout * input;
        proof {
            assert(spot > 0) by (nonlinear_arith)
                requires
                    spot == rout * input,
                    rout > 0,
                    input > 0,
            ;
        }
        let moved = out * rin;
        proof {
            lemma_mul_bounded(
                (spot - moved) as int,
                BPS_ONE as int,
                MAX_AMOUNT * MAX_AMOUNT,
                BPS_ONE as int,
            );
            lemma_mul_bounded(input as int, fee as int, MAX_AMOUNT as int, BPS_ONE as int);
        }
        let impact = (spot - moved) * 10_000 / spot;
        let fee_amount = input * fee / 10_000;
        Ok(self.finish(input, out, fee_amount, impact, impact))
    }

    /// Concentrated-liquidity quote: constant product on the output reserve
    /// adjusted by the pool's current tick.
    pub fn calculate_uniswap_v3(
        &self,
        input_amount: u128,
        reserve_in: u128,
        reserve_out: u128,
        pool: &PoolConfig,
    ) -> (r: Result<PricingResult, PricingError>)
        requires
            pool.dex_type.is_concentrated(),
        ensures
            outcome_matches(
                r,
                quote_spec(*pool, input_amount as int, reserve_in as int, reserve_out as int),
                input_amount as int,
                self.max_price_impact as int,
                self.max_slippage as int,
            ),
    {
        if let Some(e) = Self::check_common(input_amount, reserve_in, reserve_out, pool.fee_bps) {
            return Err(e);
        }
        let tick: i64 = match pool.current_tick {
            Some(t) => t as i64,
            None => 0,
        };
        if tick <= -10_000 {
            return Err(PricingError::InvalidReserves);
        }
        let factor = (10_000 + tick) as u128;
        proof {
            lemma_mul_bounded(reserve_out as int, factor as int, MAX_AMOUNT as int, 10_000 + 0x8000_0000int);
        }
        let adjusted = reserve_out * factor / 10_000;
        if adjusted == 0 || adjusted > MAX_AMOUNT as u128 {
            return Err(PricingError::InvalidReserves);
        }
        self.calculate_constant_product(input_amount, reserve_in, adjusted, pool.fee_bps)
    }

    /// Stableswap (Curve style) quote.
    pub fn calculate_curve(
        &self,
        input_amount: u128,
        reserve_in: u128,
        reserve_out: u128,
        pool: &PoolConfig,
    ) -> (r: Result<PricingResult, PricingError>)
        requires
            pool.dex_type is Curve,
        ensures
            outcome_matches(
                r,
                quote_spec(*pool, input_amount as int, reserve_in as int, reserve_out as int),
                input_amount as int,
                self.max_price_impact as int,
                self.max_slippage as int,
            ),
    {
        if let Some(e) = Self::check_common(input_amount, reserve_in, reserve_out, pool.fee_bps) {
            return Err(e);
        }
        let amp = match pool.amplification {
            Some(a) => a,
            None => {
                return Err(PricingError::MissingParameters);
            },
        };
        if amp == 0 || amp > MAX_AMPLIFICATION {
            return Err(PricingError::MissingParameters);
        }
        let input = input_amount;
        let fee = pool.fee_bps as u128;
        proof {
            lemma_mul_bounded(input as int, 2 * amp, MAX_AMOUNT as int, 2 * MAX_AMPLIFICATION);
            lemma_mul_bounded(input as int, reserve_out as int, MAX_AMOUNT as int, MAX_AMOUNT as int);
        }
        let shift = input * (2 * amp as u128) / (reserve_in + reserve_out);
        let raw = input * reserve_out / (reserve_in + shift);
        proof {
            lemma_div_le_bound(
                (input * reserve_out) as int,
                (reserve_in + shift) as int,
                MAX_AMOUNT * MAX_AMOUNT,
            );
            lemma_mul_bounded(raw as int, fee as int, MAX_AMOUNT * MAX_AMOUNT, BPS_ONE as int);
            lemma_mul_bounded(raw as int, fee as int, raw as int, BPS_ONE as int);
            lemma_div_le_bound((raw * fee) as int, BPS_ONE as int, raw as int);
        }
        let fee_amount = raw * fee / 10_000;
        let out = raw - fee_amount;
        let dev = if input >= out {
            input - out
        } else {
            out - input
        };
        proof {
            lemma_mul_bounded(dev as int, BPS_ONE as int, MAX_AMOUNT * MAX_AMOUNT, BPS_ONE as int);
        }
        let deviation = dev * 10_000 / input;
        Ok(self.finish(input, out, fee_amount, deviation, deviation))
    }

    /// Weighted-pool (Balancer style) quote, given the retained fraction
    /// `(r_in / (r_in + x))^(w_in / w_out)` in millionths.
    pub fn calculate_balancer(
        &self,
        input_amount: u128,
        reserve_in: u128,
        reserve_out: u128,
        pool: &PoolConfig,
        retained_ppm: u64,
    ) -> (r: Result<PricingResult, PricingError>)
        ensures
            outcome_matches(
                r,
                weighted_spec(
                    *pool,
                    input_amount as int,
                    reserve_in as int,
                    reserve_out as int,
                    retained_ppm as int,
                ),
                input_amount as int,
                self.max_price_impact as int,
                self.max_slippage as int,
            ),
    {
        if let Some(e) = Self::check_common(input_amount, reserve_in, reserve_out, pool.fee_bps) {
            return Err(e);
        }
        let (w_in, w_out) = match &pool.weights {
            Some(w) => {
                if w.len() < 2 || w[0] == 0 || w[0] > MAX_WEIGHT || w[1] == 0 || w[1] > MAX_WEIGHT {
                    return Err(PricingError::MissingParameters);
                }
                (w[0], w[1])
            },
            None => {
                return Err(PricingError::MissingParameters);
            },
        };
        if retained_ppm > PPM_ONE {
            return Err(PricingError::InvalidAmount);
        }
        let input = input_amount;
        let fee = pool.fee_bps as u128;
        proof {
            lemma_mul_bounded(
                reserve_out as int,
                (PPM_ONE - retained_ppm) as int,
                MAX_AMOUNT as int,
                PPM_ONE as int,
            );
        }
        let raw = reserve_out * ((PPM_ONE - retained_ppm) as u128) / (PPM_ONE as u128);
        proof {
            lemma_mul_bounded(
                reserve_out as int,
                (PPM_ONE - retained_ppm) as int,
                reserve_out as int,
                PPM_ONE as int,
            );
            lemma_div_le_bound(
                (reserve_out * ((PPM_ONE - retained_ppm) as u128)) as int,
                PPM_ONE as int,
                reserve_out as int,
            );
            lemma_mul_bounded(raw as int, fee as int, MAX_AMOUNT as int, BPS_ONE as int);
            lemma_mul_bounded(raw as int, fee as int, raw as int, BPS_ONE as int);
            lemma_div_le_bound((raw * fee) as int, BPS_ONE as int, raw as int);
            lemma_mul_bounded(reserve_out as int, w_in as int, MAX_AMOUNT as int, MAX_WEIGHT as int);
            lemma_mul_bounded(
                (reserve_out * w_in as u128) as int,
                input as int,
                MAX_AMOUNT * MAX_WEIGHT,
                MAX_AMOUNT as int,
            );
        }
        let fee_amount = raw * fee / 10_000;
        let out = raw - fee_amount;
        let spot_scaled = reserve_out * (w_in as u128) * input;
        proof {
            lemma_mul_bounded(out as int, reserve_in as int, MAX_AMOUNT as int, MAX_AMOUNT as int);
            lemma_mul_bounded(
                (out * reserve_in) as int,
                w_out as int,
                MAX_AMOUNT * MAX_AMOUNT,
                MAX_WEIGHT as int,
            );
            assert(spot_scaled > 0) by (nonlinear_arith)
                requires
                    spot_scaled == reserve_out * w_in * input,
                    reserve_out > 0,
                    w_in > 0,
                    input > 0,
            ;
        }
        let moved = out * reserve_in * (w_out as u128);
        let gap = if spot_scaled >= moved {
            spot_scaled - moved
        } else {
            moved - spot_scaled
        };
        proof {
            lemma_mul_bounded(
                gap as int,
                BPS_ONE as int,
                MAX_AMOUNT * MAX_AMOUNT * MAX_WEIGHT,
                BPS_ONE as int,
            );
        }
        let impact = gap * 10_000 / spot_scaled;
        Ok(self.finish(input, out, fee_amount, impact, impact))
    }
}

} // verus!

verus! {

impl DexPricingEngine {
    /// Quotes a swap of `input_amount` of `token_in` through `pool`.
    pub fn quote_pool(&self, pool: &PoolConfig, input_amount: u128, token_in: &str) -> (r: Result<
        PricingResult,
        PricingError,
    >)
        ensures
            outcome_matches(
                r,
                pool_quote(*pool, input_amount as int, token_in@),
                input_amount as int,
                self.max_price_impact as int,
                self.max_slippage as int,
            ),
    {
        let (rin, rout) = if same_text(&pool.token_a, token_in) {
            (pool.reserve_a as u128, pool.reserve_b as u128)
        } else if same_text(&pool.token_b, token_in) {
            (pool.reserve_b as u128, pool.reserve_a as u128)
        } else {
            return Err(PricingError::TokenNotInPool);
        };
        match &pool.dex_type {
            DexType::UniswapV2 | DexType::SushiSwap | DexType::PancakeSwap | DexType::DODO => {
                self.calculate_constant_product(input_amount, rin, rout, pool.fee_bps)
            },
            DexType::UniswapV3 | DexType::KyberElastic => {
                self.calculate_uniswap_v3(input_amount, rin, rout, pool)
            },
            DexType::Curve => self.calculate_curve(input_amount, rin, rout, pool),
            DexType::Balancer => {
                if let Some(e) = Self::check_common(input_amount, rin, rout, pool.fee_bps) {
                    return Err(e);
                }
                match &pool.weights {
                    Some(w) => {
                        if w.len() >= 2 && w[0] > 0 && w[0] <= MAX_WEIGHT && w[1] > 0 && w[1]
                            <= MAX_WEIGHT {
                            Err(PricingError::WeightedPowerRequired)
                        } else {
                            Err(PricingError::MissingParameters)
                        }
                    },
                    None => Err(PricingError::MissingParameters),
                }
            },
            DexType::Custom(_) => {
                if let Some(e) = Self::check_common(input_amount, rin, rout, pool.fee_bps) {
                    return Err(e);
                }
                Err(PricingError::Unsupported)
            },
        }
    }

    /// Index of the pool stored under an id.
    fn find_pool(&self, pool_id: &str) -> (r: Option<usize>)
        requires
            self.wf(),
        ensures
            r matches Some(i) ==> i < self.pools@.len() && stored(self.pools@, pool_id@) == Some(
                self.pools@[i as int],
            ),
            r is None ==> stored(self.pools@, pool_id@) is None,
    {
        let mut i: usize = 0;
        while i < self.pools.len()
            invariant
                0 <= i <= self.pools@.len(),
                self.wf(),
                forall|j: int| 0 <= j < i ==> self.pools@[j].pool_id@ != pool_id@,
            decreases self.pools@.len() - i,
        {
            if same_text(&self.pools[i].pool_id, pool_id) {
                proof {
                    let c = choose|j: int|
                        0 <= j < self.pools@.len() && self.pools@[j].pool_id@ == pool_id@;
                    assert(self.pools@[i as int].pool_id@ == pool_id@);
                    if c < i {
                        assert(self.pools@[c].pool_id@ != self.pools@[i as int].pool_id@);
                    } else if c > i {
                        assert(self.pools@[i as int].pool_id@ != self.pools@[c].pool_id@);
                    }
                    assert(c == i);
                }
                return Some(i);
            }
            i = i + 1;
        }
        None
    }

    /// The pool stored under an id.
    pub fn get_pool(&self, pool_id: &str) -> (r: Option<&PoolConfig>)
        requires
            self.wf(),
        ensures
            match stored(self.pools@, pool_id@) {
                Some(p) => r == Some(&p),
                None => r is None,
            },
    {
        match self.find_pool(pool_id) {
            Some(i) => Some(&self.pools[i]),
            None => None,
        }
    }

    /// Quotes a swap through the pool stored under `pool_id`.
    pub fn calculate_swap(&self, pool_id: &str, input_amount: u128, token_in: &str) -> (r: Result<
        PricingResult,
        PricingError,
    >)
        requires
            self.wf(),
        ensures
            match stored(self.pools@, pool_id@) {
                None => r == Err::<PricingResult, PricingError>(PricingError::PoolNotFound),
                Some(p) => if !p.is_active {
                    r == Err::<PricingResult, PricingError>(PricingError::PoolInactive)
                } else {
                    outcome_matches(
                        r,
                        pool_quote(p, input_amount as int, token_in@),
                        input_amount as int,
                        self.max_price_impact as int,
                        self.max_slippage as int,
                    )
                },
            },
    {
        match self.find_pool(pool_id) {
            None => Err(PricingError::PoolNotFound),
            Some(i) => {
                let pool = &self.pools[i];
                if !pool.is_active {
                    return Err(PricingError::PoolInactive);
                }
                self.quote_pool(pool, input_amount, token_in)
            },
        }
    }

    /// Replaces the reserves of the pool stored under `pool_id`.
    pub fn update_pool_reserves(&mut self, pool_id: &str, new_reserve_a: u64, new_reserve_b: u64) -> (r:
        Result<(), PricingError>)
        requires
            old(self).wf(),
        ensures
            final(self).wf(),
            final(self).max_slippage == old(self).max_slippage,
            final(self).max_price_impact == old(self).max_price_impact,
            final(self).pools@.len() == old(self).pools@.len(),
            match stored(old(self).pools@, pool_id@) {
                None => r == Err::<(), PricingError>(PricingError::PoolNotFound) && final(self).pools@
                    == old(self).pools@,
                Some(p) => r is Ok && exists|i: int|
                    0 <= i < old(self).pools@.len() && old(self).pools@[i] == p && final(self).pools@
                        == old(self).pools@.update(
                        i,
                        PoolConfig { reserve_a: new_reserve_a, reserve_b: new_reserve_b, ..p },
                    ),
            },
    {
        match self.find_pool(pool_id) {
            None => Err(PricingError::PoolNotFound),
            Some(i) => {
                let ghost before = self.pools@;
                self.pools[i].reserve_a = new_reserve_a;
                self.pools[i].reserve_b = new_reserve_b;
                proof {
                    assert(self.pools@ =~= before.update(
                        i as int,
                        PoolConfig {
                            reserve_a: new_reserve_a,
                            reserve_b: new_reserve_b,
                            ..before[i as int]
                        },
                    ));
                    assert forall|x: int, y: int|
                        0 <= x < y < self.pools@.len() implies self.pools@[x].pool_id@
                        != self.pools@[y].pool_id@ by {
                        assert(before[x].pool_id@ != before[y].pool_id@);
                    }
                }
                Ok(())
            },
        }
    }
}

} // verus!

verus! {

/// With unique ids, the pool stored under an id is the one carrying it.
proof fn lemma_stored_unique(pools: Seq<PoolConfig>, i: int)
    requires
        unique_ids(pools),
        0 <= i < pools.len(),
    ensures
        stored(pools, pools[i].pool_id@) == Some(pools[i]),
{
    let id = pools[i].pool_id@;
    let c = choose|j: int| 0 <= j < pools.len() && pools[j].pool_id@ == id;
    if c < i {
        assert(pools[c].pool_id@ != pools[i].pool_id@);
    } else if c > i {
        assert(pools[i].pool_id@ != pools[c].pool_id@);
    }
}

impl DexPricingEngine {
    /// Replaces the pools with the active ones of `pools`, keyed by id; of
    /// several active pools with one id the last one is kept.
    pub fn load_pools(&mut self, pools: Vec<PoolConfig>)
        ensures
            final(self).wf(),
            final(self).max_slippage == old(self).max_slippage,
            final(self).max_price_impact == old(self).max_price_impact,
            forall|id: Seq<char>| #[trigger] stored(final(self).pools@, id) == last_active(pools@, id),
    {
        let ghost all = pools@;
        self.pools = Vec::new();
        let n = pools.len();
        let mut rest = pools;
        let mut k: usize = 0;
        while k < n
            invariant
                0 <= k <= n,
                n == all.len(),
                rest@ == all.skip(k as int),
                self.wf(),
                self.max_slippage == old(self).max_slippage,
                self.max_price_impact == old(self).max_price_impact,
                forall|id: Seq<char>| #[trigger] stored(self.pools@, id) == last_active(all.take(k as int), id),
            decreases n - k,
        {
            let ghost r0 = rest@;
            let p = rest.remove(0);
            proof {
                assert(p == all[k as int]);
                assert(rest@ =~= all.skip(k + 1));
                assert(all.take(k + 1).drop_last() =~= all.take(k as int));
                assert(all.take(k + 1).last() == p);
            }
            if p.is_active {
                let ghost before = self.pools@;
                let ghost pid = p.pool_id@;
                match self.find_pool(p.pool_id.as_str()) {
                    Some(j) => {
                        self.pools.set(j, p);
                        proof {
                            assert forall|x: int, y: int|
                                0 <= x < y < self.pools@.len() implies self.pools@[x].pool_id@
                                != self.pools@[y].pool_id@ by {
                                assert(before[x].pool_id@ != before[y].pool_id@);
                            }
                            assert forall|id: Seq<char>| #[trigger] stored(self.pools@, id) == last_active(
                                all.take(k + 1),
                                id,
                            ) by {
                                if id == pid {
                                    lemma_stored_unique(self.pools@, j as int);
                                } else {
                                    if exists|x: int| 0 <= x < before.len() && before[x].pool_id@ == id {
                                        let x = choose|x: int| 0 <= x < before.len() && before[x].pool_id@ == id;
                                        lemma_stored_unique(before, x);
                                        lemma_stored_unique(self.pools@, x);
                                    } else {
                                        assert(!exists|x: int| 0 <= x < self.pools@.len() && self.pools@[x].pool_id@ == id);
                                    }
                                }
                            }
                        }
                    },
                    None => {
                        self.pools.push(p);
                        proof {
                            assert forall|x: int, y: int|
                                0 <= x < y < self.pools@.len() implies self.pools@[x].pool_id@
                                != self.pools@[y].pool_id@ by {
                                if y == before.len() {
                                    assert(self.pools@[x] == before[x]);
                                } else {
                                    assert(before[x].pool_id@ != before[y].pool_id@);
                                }
                            }
                            assert(unique_ids(self.pools@));
                            assert(self.pools@[before.len() as int] == p);
                            assert forall|id: Seq<char>| #[trigger] stored(self.pools@, id) == last_active(
                                all.take(k + 1),
                                id,
                            ) by {
                                if id == pid {
                                    lemma_stored_unique(self.pools@, before.len() as int);
                                } else {
                                    if exists|x: int| 0 <= x < before.len() && before[x].pool_id@ == id {
                                        let x = choose|x: int| 0 <= x < before.len() && before[x].pool_id@ == id;
                                        lemma_stored_unique(before, x);
                                        assert(self.pools@[x] == before[x]);
                                        lemma_stored_unique(self.pools@, x);
                                    } else {
                                        assert forall|x: int| 0 <= x < self.pools@.len() implies self.pools@[x].pool_id@ != id by {
                                            if x < before.len() {
                                                assert(self.pools@[x] == before[x]);
                                            } else {
                                                assert(self.pools@[x] == p);
                                            }
                                        }
                                        assert(stored(self.pools@, id) is None);
                                        assert(stored(before, id) is None);
                                    }
                                }
                            }
                        }
                    },
                }
            }
            k = k + 1;
        }
        proof {
            assert(all.take(n as int) =~= all);
        }
    }
}

} // verus!
