use vstd::prelude::*;

verus! {

/// Connection data of one blockchain.
#[derive(Debug, Clone)]
pub struct ChainConfig {
    pub chain_id: u64,
    pub name: String,
    pub rpc_url: String,
    pub explorer_url: String,
    pub native_token: String,
    pub is_active: bool,
}

/// A transaction to submit.
#[derive(Debug, Clone)]
pub struct TransactionParams {
    pub from: String,
    pub to: String,
    pub data: String,
    pub value: String,
    pub gas_limit: Option<u64>,
    pub gas_price: Option<String>,
    pub nonce: Option<u64>,
}

/// Where a submitted transaction stands.
#[derive(Debug, Clone, Copy, PartialEq, Eq, Structural)]
pub enum TransactionStatus {
    Pending,
    Confirmed,
    Failed,
    Reverted,
}

/// The outcome of a submitted transaction.
#[derive(Debug, Clone)]
pub struct TransactionResult {
    pub tx_hash: String,
    pub status: TransactionStatus,
    pub block_number: Option<u64>,
    pub gas_used: Option<u64>,
    pub effective_gas_price: Option<String>,
}

/// Where the market data spreadsheet lives and how long fetched sheets stay fresh.
#[derive(Debug, Clone)]
pub struct SheetsConfig {
    pub spreadsheet_id: String,
    pub api_key: Option<String>,
    pub service_account_json: Option<String>,
    pub cache_ttl_seconds: u64,
}

/// Counters of the search stages.
#[derive(Debug, Clone, Copy, PartialEq, Eq, Structural)]
pub struct PathfinderStats {
    pub two_hop_calls: u64,
    pub three_hop_calls: u64,
    pub total_routes_found: u64,
    pub avg_calculation_time_us: u64,
}

/// Errors reported by the engine around the core.
#[derive(Debug, Clone)]
pub enum ArbitrageError {
    SheetsError(String),
    CalculationError(String),
    ValidationError(String),
    NetworkError(String),
}

/// Errors of the core computations.
#[derive(Debug, Clone)]
pub enum CoreError {
    InvalidInput(String),
    Computation(String),
}

/// A value wrapped for transport.
#[derive(Debug, Clone)]
pub struct JsonWrapper<T> {
    pub data: T,
}

/// Lower-case hexadecimal digit of a value below 16.
pub open spec fn hex_digit(d: int) -> char {
    if d < 10 {
        ((d + 48) as u8) as char
    } else {
        ((d - 10 + 97) as u8) as char
    }
}

/// Lower-case hexadecimal text of a number, without leading zeros.
pub open spec fn hex_text(n: nat) -> Seq<char>
    decreases n,
{
    if n < 16 {
        seq![hex_digit(n as int)]
    } else {
        hex_text(n / 16) + seq![hex_digit((n % 16) as int)]
    }
}

/// Hash of a route's DEX path and tokens.
pub uninterp spec fn route_hash_of(path: Seq<Seq<char>>, tokens: Seq<Seq<char>>) -> u64;

/// The texts of a list of strings.
pub open spec fn texts(v: Seq<String>) -> Seq<Seq<char>> {
    v.map_values(|s: String| s@)
}

/// Relies on std's `DefaultHasher` (SipHash with fixed keys): the hash of the
/// path followed by the tokens depends on their texts alone.
#[verifier::external_body]
fn hash_route(path: &[String], tokens: &[String]) -> (r: u64)
    ensures
        r == route_hash_of(texts(path@), texts(tokens@)),
{
    let mut hasher = std::collections::hash_map::DefaultHasher::new();
    std::hash::Hash::hash(path, &mut hasher);
    std::hash::Hash::hash(tokens, &mut hasher);
    std::hash::Hasher::finish(&hasher)
}

/// Relies on `String`'s `FromIterator<char>` (`collect`): the string holds
/// exactly the given characters, in order.
#[verifier::external_body]
fn string_from_chars(chars: &Vec<char>) -> (r: String)
    ensures
        r@ == chars@,
{
    chars.iter().collect()
}

/// Appends the lower-case hexadecimal digits of `n`.
fn push_hex(n: u64, out: &mut Vec<char>)
    ensures
        final(out)@ == old(out)@ + hex_text(n as nat),
    decreases n,
{
    let ghost start = out@;
    if n >= 16 {
        push_hex(n / 16, out);
    }
    let d = n % 16;
    let c = if d < 10 {
        ((d as u8) + 48) as char
    } else {
        ((d as u8) - 10 + 97) as char
    };
    proof {
        assert(c == hex_digit((n % 16) as int));
    }
    out.push(c);
    proof {
        if n >= 16 {
            assert((n / 16) as nat == (n as nat) / 16);
            assert(hex_text(n as nat) == hex_text((n as nat) / 16) + seq![hex_digit(((n as nat) % 16) as int)]);
            assert(out@ =~= start + hex_text(n as nat));
        } else {
            assert(hex_text(n as nat) == seq![hex_digit(n as int)]);
            assert(out@ =~= start + hex_text(n as nat));
        }
    }
}

/// Identifier of a route: `route_` and the hexadecimal hash of its DEX path and tokens.
pub fn generate_route_id(path: &[String], tokens: &[String]) -> (r: String)
    ensures
        r@ == "route_"@ + hex_text(route_hash_of(texts(path@), texts(tokens@)) as nat),
{
    let h = hash_route(path, tokens);
    let mut chars: Vec<char> = vec!['r', 'o', 'u', 't', 'e', '_'];
    proof {
        reveal_strlit("route_");
        assert(chars@ =~= "route_"@);
    }
    push_hex(h, &mut chars);
    string_from_chars(&chars)
}

} // verus!
