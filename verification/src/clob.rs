//! Orders: their limits and sizes, who signs them, and which are signed ahead.
use vstd::prelude::*;
use crate::config::{raw_text, Config, ConfigError};
use crate::gamma::{Market, MarketInfo};
use crate::strategy::intents::{cent_price, clamp_price};
use crate::strategy::sides::PositionSide;
use crate::strategy::sim::sell_price;
use crate::text::{digits, digits_of, has_at, padded, padded_digits, same, starts_with};
use crate::units::{magnitude, ATTO, CENT};

verus! {

/// Address of the order book.
pub const CLOB_HOST: &'static str = "https://clob.polymarket.com";

/// Chain that orders are signed for.
pub const CHAIN_ID: u64 = 137;

/// Limit of a buy that is signed ahead.
pub const BUY_CEILING: i64 = 990_000_000;

/// Limit of a sale.
pub const SELL_FLOOR: i64 = 10_000_000;

/// Limit of a presigned buy: the highest price there is, so that the buy crosses
/// the book.
pub open spec fn max_limit_price() -> int {
    BUY_CEILING as int
}

/// Limit of a presigned buy.
pub fn default_max_limit() -> (r: i64)
    ensures
        r == max_limit_price(),
        r == 990_000_000,
{
    BUY_CEILING
}

/// The price that a buy at up to `worst_ask` is booked at.
pub fn booked_buy(worst_ask: i64) -> (r: i64)
    requires
        magnitude(worst_ask as int) <= 4_000_000_000_000,
    ensures
        r == cent_price(worst_ask as int),
        CENT <= r <= max_limit_price(),
        10_000_000 <= worst_ask <= 990_000_000 ==> magnitude(2 * (r - worst_ask)) <= 10_000_000,
{
    proof {
        crate::strategy::pairing_laws::a_limit_is_in_whole_cents(worst_ask as int);
    }
    clamp_price(worst_ask)
}

/// The price that a sale is booked at: a cent below the ask, and a cent at least.
pub fn booked_sale(worst_ask: i64) -> (r: i64)
    requires
        magnitude(worst_ask as int) <= 4_000_000_000_000,
    ensures
        r == sell_price(worst_ask as int),
        r >= SELL_FLOOR,
        worst_ask >= 20_000_000 ==> r == worst_ask - 10_000_000,
        worst_ask < 20_000_000 ==> r == 10_000_000,
{
    if worst_ask - CENT > CENT {
        worst_ask - CENT
    } else {
        CENT
    }
}

/// `x / d` to the nearest whole number, halves to the even one.
pub open spec fn even_quotient(x: int, d: int) -> int {
    if 2 * (x % d) > d || (2 * (x % d) == d && (x / d) % 2 == 1) {
        x / d + 1
    } else {
        x / d
    }
}

/// So many cents, as dollars with two places.
pub open spec fn cents_text(minus: bool, cents: int) -> Seq<char> {
    (if minus {
        seq!['-']
    } else {
        Seq::empty()
    }) + digits_of(cents / 100) + seq!['.'] + padded(digits_of(cents % 100), 2)
}

/// An amount with two places.
pub open spec fn two_places(n: int) -> Seq<char> {
    cents_text(n < 0, even_quotient(magnitude(n), CENT as int))
}

/// Cents of an amount with two places.
pub open spec fn cents_of(n: int) -> int {
    if n < 0 {
        -even_quotient(magnitude(n), CENT as int)
    } else {
        even_quotient(n, CENT as int)
    }
}

/// An amount with two places.
pub fn amount_text(n: i64) -> (r: String)
    ensures
        r@ == two_places(n as int),
{
    let size: u64 = if n == i64::MIN {
        9_223_372_036_854_775_808
    } else if n < 0 {
        (-n) as u64
    } else {
        n as u64
    };
    let whole: u64 = size / 10_000_000;
    let rest: u64 = size % 10_000_000;
    let cents: u64 = if 2 * rest > 10_000_000 || (2 * rest == 10_000_000 && whole % 2 == 1) {
        whole + 1
    } else {
        whole
    };
    let mut r: String = String::new();
    if n < 0 {
        r.push('-');
    }
    r.append(digits(cents / 100).as_str());
    r.push('.');
    r.append(padded_digits(cents % 100, 2).as_str());
    proof {
        assert(r@ =~= cents_text(n < 0, cents as int));
    }
    r
}

/// What `rust_decimal::Decimal::from_str` makes of a text: the digits of the
/// number and how many of them stand behind the point.
pub uninterp spec fn decimal_parts(s: Seq<char>) -> Option<(i128, u32)>;

/// Calls `rust_decimal::Decimal::from_str` and takes the number apart with
/// `mantissa` and `scale`.  A text of dollars with two places keeps both of
/// them, so that its digits are its cents; what other texts give is named.
#[verifier::external_body]
fn read_decimal_parts(s: &str) -> (r: Option<(i128, u32)>)
    ensures
        r == decimal_parts(s@),
        forall|minus: bool, cents: int|
            0 <= cents <= i64::MAX && s@ == #[trigger] cents_text(minus, cents) ==> r == Some(
                (
                    (if minus {
                        -cents
                    } else {
                        cents
                    }) as i128,
                    2u32,
                ),
            ),
{
    let number: Option<rust_decimal::Decimal> = std::str::FromStr::from_str(s).ok();
    number.map(|d: rust_decimal::Decimal| (d.mantissa(), d.scale()))
}

/// The cents that an amount comes to on an order, with their two places.
pub fn order_amount(n: i64) -> (r: (i128, u32))
    ensures
        r == (cents_of(n as int) as i128, 2u32),
        decimal_parts(two_places(n as int)) == Some(r),
{
    let text: String = amount_text(n);
    proof {
        assert(text@ == cents_text(n < 0, even_quotient(magnitude(n as int), CENT as int)));
    }
    match read_decimal_parts(text.as_str()) {
        Some(parts) => parts,
        None => vstd::pervasive::unreached(),
    }
}

/// What signs an order.
#[derive(Clone, Copy, Debug, PartialEq, Eq, Structural)]
pub enum SignatureKind {
    Eoa,
    Proxy,
    GnosisSafe,
    Poly1271,
}

/// What a signature type stands for.
pub open spec fn signature_kind(n: Option<u8>) -> SignatureKind {
    match n {
        Some(1) => SignatureKind::Proxy,
        Some(2) => SignatureKind::GnosisSafe,
        Some(3) => SignatureKind::Poly1271,
        _ => SignatureKind::Eoa,
    }
}

/// What signs the orders of a configuration.
pub fn signature_type_from_cfg(cfg: &Config) -> (r: SignatureKind)
    ensures
        r == signature_kind(cfg.signature_type),
{
    match cfg.signature_type {
        Some(1) => SignatureKind::Proxy,
        Some(2) => SignatureKind::GnosisSafe,
        Some(3) => SignatureKind::Poly1271,
        _ => SignatureKind::Eoa,
    }
}

/// Why an order is not placed.
#[derive(Clone, Copy, Debug, PartialEq, Eq, Structural)]
pub enum OrderError {
    /// Live trading needs a private key.
    NoPrivateKey,
    /// The private key is none.
    BadPrivateKey,
    /// The API key is no UUID.
    BadApiKey,
    /// The wallet that pays is no address.
    BadFunder,
    /// The order comes to less than a dollar.
    BelowMinimum,
    /// There is no session to place it in.
    NoSession,
    /// The token is no number.
    BadToken,
}

impl OrderError {
    /// Text of the error.
    pub open spec fn text(self) -> Seq<char> {
        match self {
            OrderError::NoPrivateKey => "POLYMARKET_PRIVATE_KEY required for live trading"@,
            OrderError::BadPrivateKey => "invalid private key"@,
            OrderError::BadApiKey => "POLYMARKET_API_KEY must be a UUID"@,
            OrderError::BadFunder => "POLYMARKET_FUNDER address"@,
            OrderError::BelowMinimum => "minimum order is $1"@,
            OrderError::NoSession => "live session not initialized"@,
            OrderError::BadToken => "token id parse"@,
        }
    }

    /// Text of the error.
    pub fn message(self) -> (r: &'static str)
        ensures
            r@ == self.text(),
    {
        match self {
            OrderError::NoPrivateKey => "POLYMARKET_PRIVATE_KEY required for live trading",
            OrderError::BadPrivateKey => "invalid private key",
            OrderError::BadApiKey => "POLYMARKET_API_KEY must be a UUID",
            OrderError::BadFunder => "POLYMARKET_FUNDER address",
            OrderError::BelowMinimum => "minimum order is $1",
            OrderError::NoSession => "live session not initialized",
            OrderError::BadToken => "token id parse",
        }
    }
}

/// A private key as it is signed with: with `0x` before it.
pub open spec fn prefixed(key: Seq<char>) -> Seq<char> {
    if has_at(key, "0x"@, 0) {
        key
    } else {
        "0x"@ + key
    }
}

/// The key that orders are signed with.
pub fn signing_key(cfg: &Config) -> (r: Result<String, OrderError>)
    ensures
        r is Ok <==> cfg.has_key(),
        r matches Ok(key) ==> key@ == prefixed(raw_text(cfg.private_key)->0),
        r matches Err(e) ==> e == OrderError::NoPrivateKey,
{
    match &cfg.private_key {
        Some(key) => {
            if key.as_str().is_empty() {
                return Err(OrderError::NoPrivateKey);
            }
            if starts_with(key.as_str(), "0x") {
                Ok(key.clone())
            } else {
                let mut r: String = "0x".to_string();
                r.append(key.as_str());
                Ok(r)
            }
        },
        None => Err(OrderError::NoPrivateKey),
    }
}

/// What `uuid::Uuid::parse_str` makes of a text: its 128 bits.
pub uninterp spec fn uuid_of(s: Seq<char>) -> Option<u128>;

/// Calls `uuid::Uuid::parse_str`.  What it makes of a text is named and not
/// stated further.
#[verifier::external_body]
fn parse_uuid(s: &str) -> (r: Option<u128>)
    ensures
        r == uuid_of(s@),
{
    uuid::Uuid::parse_str(s).ok().map(|u: uuid::Uuid| u.as_u128())
}

/// What a session is opened with.
#[derive(Debug)]
pub struct ApiCredentials {
    pub key: u128,
    pub secret: String,
    pub passphrase: String,
}

/// Whether all of the credentials are set.
pub open spec fn has_credentials(cfg: Config) -> bool {
    cfg.api_key is Some && cfg.api_secret is Some && cfg.api_passphrase is Some
}

/// Whether credentials are those of a configuration, with `key` for its key.
pub open spec fn are_credentials(c: ApiCredentials, cfg: Config, key: u128) -> bool {
    &&& c.key == key
    &&& raw_text(cfg.api_secret) == Some(c.secret@)
    &&& raw_text(cfg.api_passphrase) == Some(c.passphrase@)
}

/// The credentials of a configuration, given what its key was read as.  They
/// are used if all of them are set, and the key must have been read.
pub fn credentials_with(cfg: &Config, key: Option<u128>) -> (r: Result<
    Option<ApiCredentials>,
    OrderError,
>)
    ensures
        match r {
            Ok(Some(c)) => has_credentials(*cfg) && (key matches Some(k) && are_credentials(
                c,
                *cfg,
                k,
            )),
            Ok(None) => !has_credentials(*cfg),
            Err(e) => has_credentials(*cfg) && key is None && e == OrderError::BadApiKey,
        },
{
    match (&cfg.api_key, &cfg.api_secret, &cfg.api_passphrase) {
        (Some(_), Some(secret), Some(passphrase)) => match key {
            Some(key) => Ok(
                Some(ApiCredentials { key, secret: secret.clone(), passphrase: passphrase.clone() }),
            ),
            None => Err(OrderError::BadApiKey),
        },
        _ => Ok(None),
    }
}

/// The value of a hexadecimal digit.
pub open spec fn hex_value(c: char) -> Option<int> {
    if '0' <= c <= '9' {
        Some(c as int - 48)
    } else if 'a' <= c <= 'f' {
        Some(c as int - 87)
    } else if 'A' <= c <= 'F' {
        Some(c as int - 55)
    } else {
        None
    }
}

/// A text without the `0x` before it.
pub open spec fn unprefixed(s: Seq<char>) -> Seq<char> {
    if has_at(s, "0x"@, 0) || has_at(s, "0X"@, 0) {
        s.skip(2)
    } else {
        s
    }
}

/// The bytes that a text of two hexadecimal digits for each of them stands for.
pub open spec fn hex_bytes(s: Seq<char>, n: nat) -> Option<Seq<u8>> {
    if s.len() == 2 * n && forall|i: int| 0 <= i < s.len() ==> hex_value(#[trigger] s[i]) is Some {
        Some(
            Seq::new(
                n,
                |i: int| (16 * hex_value(s[2 * i])->0 + hex_value(s[2 * i + 1])->0) as u8,
            ),
        )
    } else {
        None
    }
}

/// Whether bytes are those of a view.
pub open spec fn same_bytes(a: Option<Vec<u8>>, b: Option<Seq<u8>>) -> bool {
    match (a, b) {
        (Some(a), Some(b)) => a@ == b,
        (None, None) => true,
        _ => false,
    }
}

/// Calls `alloy::primitives::Address::from_str`, which reads twenty bytes of
/// two hexadecimal digits each, in either case, with or without `0x` before
/// them, and nothing else.
#[verifier::external_body]
fn parse_address(s: &str) -> (r: Option<Vec<u8>>)
    ensures
        same_bytes(r, hex_bytes(unprefixed(s@), 20)),
{
    let address: Option<alloy::primitives::Address> = std::str::FromStr::from_str(s).ok();
    address.map(|a: alloy::primitives::Address| a.to_vec())
}

/// The address of the key that `alloy::signers::local::PrivateKeySigner::from_str`
/// makes of a text.
pub uninterp spec fn signer_of(s: Seq<char>) -> Option<Seq<u8>>;

/// Calls `alloy::signers::local::PrivateKeySigner::from_str` and gives the
/// address of the key.  Whether a text is a key, and what its address is, is
/// named and not stated further.
#[verifier::external_body]
fn parse_signer(key: &str) -> (r: Option<Vec<u8>>)
    ensures
        same_bytes(r, signer_of(key@)),
{
    let signer: Option<alloy::signers::local::PrivateKeySigner> =
        std::str::FromStr::from_str(key).ok();
    signer.map(|s: alloy::signers::local::PrivateKeySigner| s.address().to_vec())
}

/// The wallet that pays: none unless one is set, and that must be an address.
pub fn funder(cfg: &Config) -> (r: Result<Option<Vec<u8>>, OrderError>)
    ensures
        match (r, raw_text(cfg.funder)) {
            (Ok(Some(a)), Some(f)) => f.len() > 0 && hex_bytes(unprefixed(f), 20) == Some(a@),
            (Ok(None), Some(f)) => f.len() == 0,
            (Ok(None), None) => true,
            (Err(e), Some(f)) => f.len() > 0 && hex_bytes(unprefixed(f), 20) is None && e
                == OrderError::BadFunder,
            _ => false,
        },
{
    match &cfg.funder {
        Some(f) => if f.as_str().is_empty() {
            Ok(None)
        } else {
            match parse_address(f.as_str()) {
                Some(a) => Ok(Some(a)),
                None => Err(OrderError::BadFunder),
            }
        },
        None => Ok(None),
    }
}

/// What a session is opened with: a key and the address that it signs for, the
/// credentials of the order book, the wallet that pays, and what signs.
#[derive(Debug)]
pub struct Login {
    pub key: String,
    pub signer: Vec<u8>,
    pub credentials: Option<ApiCredentials>,
    pub funder: Option<Vec<u8>>,
    pub signature: SignatureKind,
}

/// What is wrong with a configuration that a session is opened with, given the
/// address of its key and what its API key was read as.
pub open spec fn login_error(cfg: Config, signer: Option<Seq<u8>>, key: Option<u128>) -> Option<
    OrderError,
> {
    if !cfg.has_key() {
        Some(OrderError::NoPrivateKey)
    } else if signer is None {
        Some(OrderError::BadPrivateKey)
    } else if has_credentials(cfg) && key is None {
        Some(OrderError::BadApiKey)
    } else if raw_text(cfg.funder) matches Some(f) && f.len() > 0 && hex_bytes(unprefixed(f), 20)
        is None {
        Some(OrderError::BadFunder)
    } else {
        None
    }
}

/// Whether a session is opened with what a configuration says.
pub open spec fn is_login(l: Login, cfg: Config, signer: Seq<u8>, key: Option<u128>) -> bool {
    &&& l.key@ == prefixed(raw_text(cfg.private_key)->0)
    &&& l.signer@ == signer
    &&& match l.credentials {
        Some(c) => has_credentials(cfg) && (key matches Some(k) && are_credentials(c, cfg, k)),
        None => !has_credentials(cfg),
    }
    &&& match (l.funder, raw_text(cfg.funder)) {
        (Some(a), Some(f)) => f.len() > 0 && hex_bytes(unprefixed(f), 20) == Some(a@),
        (None, Some(f)) => f.len() == 0,
        (None, None) => true,
        _ => false,
    }
    &&& l.signature == signature_kind(cfg.signature_type)
}

/// What a session is opened with, given the address of the private key and what
/// the API key was read as.
pub fn login_with(cfg: &Config, signer: Option<Vec<u8>>, key: Option<u128>) -> (r: Result<
    Login,
    OrderError,
>)
    ensures
        ({
            let address: Option<Seq<u8>> = match signer {
                Some(a) => Some(a@),
                None => None,
            };
            match r {
                Ok(l) => login_error(*cfg, address, key) is None && is_login(
                    l,
                    *cfg,
                    signer->0@,
                    key,
                ),
                Err(e) => login_error(*cfg, address, key) == Some(e),
            }
        }),
{
    let private: String = match signing_key(cfg) {
        Ok(k) => k,
        Err(e) => return Err(e),
    };
    let signer: Vec<u8> = match signer {
        Some(a) => a,
        None => return Err(OrderError::BadPrivateKey),
    };
    let credentials: Option<ApiCredentials> = match credentials_with(cfg, key) {
        Ok(c) => c,
        Err(e) => return Err(e),
    };
    let funder: Option<Vec<u8>> = match funder(cfg) {
        Ok(f) => f,
        Err(e) => return Err(e),
    };
    Ok(
        Login {
            key: private,
            signer,
            credentials,
            funder,
            signature: signature_type_from_cfg(cfg),
        },
    )
}

/// What a session is opened with.
pub fn login(cfg: &Config) -> (r: Result<Login, OrderError>)
    ensures
        ({
            let address = signer_of(prefixed(raw_text(cfg.private_key)->0));
            let key = if cfg.api_key is Some {
                uuid_of(cfg.api_key->0@)
            } else {
                None
            };
            match r {
                Ok(l) => login_error(*cfg, address, key) is None && is_login(
                    l,
                    *cfg,
                    address->0,
                    key,
                ),
                Err(e) => login_error(*cfg, address, key) == Some(e),
            }
        }),
{
    let private: String = match signing_key(cfg) {
        Ok(k) => k,
        Err(e) => return Err(e),
    };
    let signer: Option<Vec<u8>> = parse_signer(private.as_str());
    let key: Option<u128> = match &cfg.api_key {
        Some(key) => parse_uuid(key.as_str()),
        None => None,
    };
    login_with(cfg, signer, key)
}

/// The number that `alloy::primitives::U256::from_str` makes of a text, as 32
/// bytes with the highest first.
pub uninterp spec fn token_number(s: Seq<char>) -> Option<Seq<u8>>;

/// Calls `alloy::primitives::U256::from_str`.  Whether a text is a number, and
/// which, is named and not stated further.
#[verifier::external_body]
fn parse_token(s: &str) -> (r: Option<Vec<u8>>)
    ensures
        same_bytes(r, token_number(s@)),
{
    let number: Option<alloy::primitives::U256> = std::str::FromStr::from_str(s).ok();
    number.map(|n: alloy::primitives::U256| n.to_be_bytes_vec())
}

/// A limit order.  The token is a number of 32 bytes, the highest first; price
/// and size are digits and how many of them stand behind the point.
#[derive(Debug)]
pub struct LimitOrder {
    pub token_id: String,
    pub token: Vec<u8>,
    pub buy: bool,
    pub price: (i128, u32),
    pub size: (i128, u32),
}

/// Whether an order is for so many shares of a token at a limit.
pub open spec fn is_order(o: LimitOrder, token: Seq<char>, buy: bool, limit: int, shares: int) -> bool {
    &&& o.token_id@ == token
    &&& token_number(token) == Some(o.token@)
    &&& o.buy == buy
    &&& o.price == (cents_of(limit) as i128, 2u32)
    &&& o.size == (cents_of(shares) as i128, 2u32)
}

/// The order for so many shares of a token at a limit, given the number that
/// the token was read as.
pub fn order_for(
    token_id: &str,
    token: Option<Vec<u8>>,
    buy: bool,
    limit: i64,
    shares: i64,
) -> (r: Result<LimitOrder, OrderError>)
    ensures
        match (r, token) {
            (Ok(o), Some(n)) => {
                &&& o.token_id@ == token_id@
                &&& o.token@ == n@
                &&& o.buy == buy
                &&& o.price == (cents_of(limit as int) as i128, 2u32)
                &&& o.size == (cents_of(shares as int) as i128, 2u32)
            },
            (Err(e), None) => e == OrderError::BadToken,
            _ => false,
        },
{
    match token {
        Some(token) => Ok(
            LimitOrder {
                token_id: token_id.to_string(),
                token,
                buy,
                price: order_amount(limit),
                size: order_amount(shares),
            },
        ),
        None => Err(OrderError::BadToken),
    }
}

/// The order for so many shares of a token at a limit.
pub fn limit_order(token_id: &str, buy: bool, limit: i64, shares: i64) -> (r: Result<
    LimitOrder,
    OrderError,
>)
    ensures
        match r {
            Ok(o) => is_order(o, token_id@, buy, limit as int, shares as int),
            Err(e) => token_number(token_id@) is None && e == OrderError::BadToken,
        },
{
    order_for(token_id, parse_token(token_id), buy, limit, shares)
}

/// An order that is signed ahead.
#[derive(Debug)]
pub struct PresignedSlot {
    pub token_id: String,
    pub limit_px: i64,
}

/// The limits of the orders that are signed ahead, by token.
pub open spec fn slot_limits(slots: Seq<PresignedSlot>) -> Map<Seq<char>, i64>
    decreases slots.len(),
{
    if slots.len() == 0 {
        Map::empty()
    } else {
        slot_limits(slots.drop_last()).insert(slots.last().token_id@, slots.last().limit_px)
    }
}

/// The limit of a token's order in a list of limits.
pub open spec fn limit_at(m: Map<Seq<char>, i64>, token: Seq<char>) -> Option<i64> {
    if m.contains_key(token) {
        Some(m[token])
    } else {
        None
    }
}

/// Takes a token's order out of those signed ahead.
fn take_slot(slots: Vec<PresignedSlot>, token: &str) -> (r: (Vec<PresignedSlot>, Option<i64>))
    ensures
        slot_limits(r.0@) == slot_limits(slots@).remove(token@),
        r.1 == limit_at(slot_limits(slots@), token@),
{
    let mut rest: Vec<PresignedSlot> = Vec::new();
    let mut found: Option<i64> = None;
    let mut i: usize = 0;
    proof {
        assert(slot_limits(rest@) =~= slot_limits(slots@.take(0)).remove(token@));
    }
    while i < slots.len()
        invariant
            i <= slots.len(),
            slot_limits(rest@) == slot_limits(slots@.take(i as int)).remove(token@),
            found == limit_at(slot_limits(slots@.take(i as int)), token@),
        decreases slots.len() - i,
    {
        let slot: &PresignedSlot = &slots[i];
        let ghost before = rest@;
        proof {
            assert(slots@.take(i + 1).drop_last() =~= slots@.take(i as int));
        }
        if same(slot.token_id.as_str(), token) {
            found = Some(slot.limit_px);
        } else {
            rest.push(
                PresignedSlot { token_id: slot.token_id.clone(), limit_px: slot.limit_px },
            );
            proof {
                assert(rest@.drop_last() =~= before);
            }
        }
        proof {
            assert(slot_limits(rest@) =~= slot_limits(slots@.take(i + 1)).remove(token@));
        }
        i = i + 1;
    }
    proof {
        assert(slots@.take(slots@.len() as int) =~= slots@);
    }
    (rest, found)
}

/// Puts an order into those signed ahead, in place of the token's former one.
fn put_slot(slots: Vec<PresignedSlot>, token: &str, limit_px: i64) -> (r: Vec<PresignedSlot>)
    ensures
        slot_limits(r@) == slot_limits(slots@).insert(token@, limit_px),
{
    let ghost before = slot_limits(slots@);
    let (mut rest, _) = take_slot(slots, token);
    let ghost kept = rest@;
    rest.push(PresignedSlot { token_id: token.to_string(), limit_px });
    proof {
        assert(rest@.drop_last() =~= kept);
        assert(slot_limits(rest@) =~= before.insert(token@, limit_px));
    }
    rest
}

/// Who trades, how much, and what is signed ahead.
pub struct Orders {
    pub live: bool,
    pub shares: i64,
    pub max_limit: i64,
    /// Limits of the buys that are signed ahead, by token, once there is a
    /// session.
    pub presigned: Option<Map<Seq<char>, i64>>,
    /// Limits of the sales that are signed ahead, by token.
    pub sales: Map<Seq<char>, i64>,
}

/// What is signed ahead in a session.
struct SignedAhead {
    buys: Vec<PresignedSlot>,
    sales: Vec<PresignedSlot>,
}

/// Places orders.
pub struct OrderClient {
    live: bool,
    shares: i64,
    max_limit: i64,
    session: Option<SignedAhead>,
}

impl View for OrderClient {
    type V = Orders;

    closed spec fn view(&self) -> Orders {
        Orders {
            live: self.live,
            shares: self.shares,
            max_limit: self.max_limit,
            presigned: match self.session {
                Some(ahead) => Some(slot_limits(ahead.buys@)),
                None => None,
            },
            sales: match self.session {
                Some(ahead) => slot_limits(ahead.sales@),
                None => Map::empty(),
            },
        }
    }
}

/// The token of a market's side.
pub open spec fn token_on(m: Market, side: PositionSide) -> Seq<char> {
    match side {
        PositionSide::Up => m.up_token_id,
        PositionSide::Down => m.down_token_id,
    }
}

/// How an order is placed.
#[derive(Debug)]
pub enum OrderPlan {
    /// Not at all: this is no live trading.
    Dry,
    /// The buy or the sale that was signed ahead for the token.
    PostPresigned { token_id: String, limit_px: i64 },
    /// An order that is signed first.
    SignAndPost(LimitOrder),
}

/// Whether an order at a limit comes to less than a dollar.
pub open spec fn below_minimum(shares: int, limit: int) -> bool {
    shares * limit < ATTO
}

/// Whether a plan is that of a buy.
pub open spec fn is_buy_plan(p: OrderPlan, o: Orders, token: Seq<char>, limit: i64) -> bool {
    match p {
        OrderPlan::Dry => !o.live,
        OrderPlan::PostPresigned { token_id, limit_px } => o.live && token_id@ == token && (
        o.presigned matches Some(slots) && limit_at(slots, token) == Some(limit_px) && limit_px
            >= limit),
        OrderPlan::SignAndPost(order) => o.live && is_order(
            order,
            token,
            true,
            limit as int,
            o.shares as int,
        ) && (o.presigned matches Some(slots) && !(limit_at(slots, token) matches Some(had) && had
            >= limit)),
    }
}

/// Whether a plan is that of a sale.
pub open spec fn is_sale_plan(p: OrderPlan, o: Orders, token: Seq<char>, shares: i64) -> bool {
    match p {
        OrderPlan::Dry => !o.live,
        OrderPlan::PostPresigned { token_id, limit_px } => o.live && token_id@ == token
            && o.presigned is Some && shares == o.shares && limit_at(o.sales, token) == Some(
            limit_px,
        ),
        OrderPlan::SignAndPost(order) => o.live && o.presigned is Some && is_order(
            order,
            token,
            false,
            SELL_FLOOR as int,
            shares as int,
        ) && (shares != o.shares || limit_at(o.sales, token) is None),
    }
}

/// What is signed ahead for a market: buys, sales, and what stops it after them.
#[derive(Debug)]
pub struct Presigning {
    pub orders: Vec<LimitOrder>,
    pub sales: Vec<LimitOrder>,
    pub error: Option<OrderError>,
}

/// Whether this is what is signed ahead for a market.
pub open spec fn is_presigning(p: Presigning, o: Orders, m: Market) -> bool {
    if !o.live {
        p.orders.len() == 0 && p.sales.len() == 0 && p.error is None
    } else if o.presigned is None {
        p.orders.len() == 0 && p.sales.len() == 0 && p.error == Some(OrderError::NoSession)
    } else if token_number(m.up_token_id) is None {
        p.orders.len() == 0 && p.sales.len() == 0 && p.error == Some(OrderError::BadToken)
    } else {
        &&& p.orders.len() >= 1
        &&& is_order(p.orders[0], m.up_token_id, true, o.max_limit as int, o.shares as int)
        &&& if token_number(m.down_token_id) is None {
            p.orders.len() == 1 && p.sales.len() == 0 && p.error == Some(OrderError::BadToken)
        } else {
            &&& p.orders.len() == 2
            &&& is_order(p.orders[1], m.down_token_id, true, o.max_limit as int, o.shares as int)
            &&& p.sales.len() == 2
            &&& is_order(p.sales[0], m.up_token_id, false, SELL_FLOOR as int, o.shares as int)
            &&& is_order(p.sales[1], m.down_token_id, false, SELL_FLOOR as int, o.shares as int)
            &&& p.error is None
        }
    }
}

impl OrderClient {
    /// A client without a session.
    pub fn new(cfg: &Config) -> (r: Result<OrderClient, ConfigError>)
        ensures
            r is Ok <==> !cfg.live_trading || cfg.has_key(),
            r matches Ok(c) ==> c@ == (Orders {
                live: cfg.live_trading,
                shares: cfg.order_shares,
                max_limit: max_limit_price() as i64,
                presigned: None,
                sales: Map::empty(),
            }),
            r matches Ok(c) ==> c@.max_limit == 990_000_000 && c@.shares == cfg.order_shares
                && c@.live == cfg.live_trading,
            r matches Err(e) ==> e is NoPrivateKey,
    {
        match cfg.validate_for_live() {
            Ok(_) => Ok(
                OrderClient {
                    live: cfg.live_trading,
                    shares: cfg.order_shares,
                    max_limit: default_max_limit(),
                    session: None,
                },
            ),
            Err(e) => Err(e),
        }
    }

    /// Whether orders are placed.
    pub fn is_live(&self) -> (r: bool)
        ensures
            r == self@.live,
    {
        self.live
    }

    /// Opens a session; nothing is signed ahead in it.
    pub fn connected(&mut self)
        ensures
            final(self)@ == (Orders {
                presigned: if old(self)@.live {
                    Some(Map::empty())
                } else {
                    old(self)@.presigned
                },
                sales: if old(self)@.live {
                    Map::empty()
                } else {
                    old(self)@.sales
                },
                ..old(self)@
            }),
    {
        if self.live {
            self.session = Some(SignedAhead { buys: Vec::new(), sales: Vec::new() });
        }
    }

    /// The orders to sign ahead for a market, up to the first token that is no
    /// number: a buy of each token at the highest limit, then a sale of each at
    /// the lowest.
    pub fn prepare_market(&self, market: &MarketInfo) -> (r: Presigning)
        ensures
            is_presigning(r, self@, market@),
    {
        let mut orders: Vec<LimitOrder> = Vec::new();
        let mut sales: Vec<LimitOrder> = Vec::new();
        if !self.live {
            return Presigning { orders, sales, error: None };
        }
        if self.session.is_none() {
            return Presigning { orders, sales, error: Some(OrderError::NoSession) };
        }
        let up: &str = market.up_token_id.as_str();
        let down: &str = market.down_token_id.as_str();
        match limit_order(up, true, self.max_limit, self.shares) {
            Ok(o) => orders.push(o),
            Err(e) => return Presigning { orders, sales, error: Some(e) },
        }
        match limit_order(down, true, self.max_limit, self.shares) {
            Ok(o) => orders.push(o),
            Err(e) => return Presigning { orders, sales, error: Some(e) },
        }
        match limit_order(up, false, SELL_FLOOR, self.shares) {
            Ok(o) => sales.push(o),
            Err(e) => return Presigning { orders, sales, error: Some(e) },
        }
        match limit_order(down, false, SELL_FLOOR, self.shares) {
            Ok(o) => sales.push(o),
            Err(e) => return Presigning { orders, sales, error: Some(e) },
        }
        Presigning { orders, sales, error: None }
    }

    /// The buy that takes the place of one that was placed.
    pub fn replenishment(&self, token_id: &str) -> (r: Result<LimitOrder, OrderError>)
        ensures
            match r {
                Ok(o) => is_order(
                    o,
                    token_id@,
                    true,
                    self@.max_limit as int,
                    self@.shares as int,
                ),
                Err(e) => token_number(token_id@) is None && e == OrderError::BadToken,
            },
    {
        limit_order(token_id, true, self.max_limit, self.shares)
    }

    /// The sale that takes the place of one that was placed.
    pub fn sale_replenishment(&self, token_id: &str) -> (r: Result<LimitOrder, OrderError>)
        ensures
            match r {
                Ok(o) => is_order(o, token_id@, false, SELL_FLOOR as int, self@.shares as int),
                Err(e) => token_number(token_id@) is None && e == OrderError::BadToken,
            },
    {
        limit_order(token_id, false, SELL_FLOOR, self.shares)
    }

    /// Notes that a buy at the highest limit has been signed ahead.
    pub fn presigned(&mut self, token_id: &str)
        ensures
            final(self)@ == (Orders {
                presigned: match old(self)@.presigned {
                    Some(slots) => Some(slots.insert(token_id@, old(self)@.max_limit)),
                    None => None,
                },
                ..old(self)@
            }),
    {
        match self.session.take() {
            Some(ahead) => {
                let buys: Vec<PresignedSlot> = put_slot(ahead.buys, token_id, self.max_limit);
                self.session = Some(SignedAhead { buys, sales: ahead.sales });
            },
            None => {},
        }
    }

    /// Notes that a sale at the lowest limit has been signed ahead.
    pub fn presigned_sale(&mut self, token_id: &str)
        ensures
            final(self)@ == (Orders {
                sales: if old(self)@.presigned is Some {
                    old(self)@.sales.insert(token_id@, SELL_FLOOR)
                } else {
                    old(self)@.sales
                },
                ..old(self)@
            }),
    {
        match self.session.take() {
            Some(ahead) => {
                let sales: Vec<PresignedSlot> = put_slot(ahead.sales, token_id, SELL_FLOOR);
                self.session = Some(SignedAhead { buys: ahead.buys, sales });
            },
            None => {},
        }
    }

    /// How a side of a market is bought at up to `worst_ask`: by the order that
    /// was signed ahead if its limit reaches that far, else by a new one.  An
    /// order signed ahead is used up either way.
    pub fn buy_side(&mut self, market: &MarketInfo, side: PositionSide, worst_ask: i64) -> (r:
        Result<OrderPlan, OrderError>)
        requires
            magnitude(worst_ask as int) <= 4_000_000_000_000,
        ensures
            ({
                let o = old(self)@;
                let limit = cent_price(worst_ask as int);
                let token = token_on(market@, side);
                match r {
                    Ok(plan) => {
                        &&& !below_minimum(o.shares as int, limit)
                        &&& o.live ==> o.presigned is Some
                        &&& is_buy_plan(plan, o, token, limit as i64)
                        &&& final(self)@ == used_up(o, token)
                    },
                    Err(e) => if below_minimum(o.shares as int, limit) {
                        e == OrderError::BelowMinimum && final(self)@ == o
                    } else if o.presigned is None {
                        e == OrderError::NoSession && o.live && final(self)@ == o
                    } else {
                        &&& e == OrderError::BadToken
                        &&& o.live
                        &&& token_number(token) is None
                        &&& !(limit_at(o.presigned->0, token) matches Some(had) && had >= limit)
                        &&& final(self)@ == used_up(o, token)
                    },
                }
            }),
    {
        let limit: i64 = clamp_price(worst_ask);
        proof {
            assert(magnitude(self.shares * limit) <= 9_223_372_036_854_775_808
                * 9_223_372_036_854_775_808) by (nonlinear_arith)
                requires
                    -9_223_372_036_854_775_808 <= self.shares <= 9_223_372_036_854_775_807,
                    0 <= limit <= 9_223_372_036_854_775_807,
            ;
        }
        let amount: i128 = self.shares as i128 * limit as i128;
        if amount < 1_000_000_000_000_000_000 {
            return Err(OrderError::BelowMinimum);
        }
        let token: &str = match side {
            PositionSide::Up => market.up_token_id.as_str(),
            PositionSide::Down => market.down_token_id.as_str(),
        };
        if !self.live {
            return Ok(OrderPlan::Dry);
        }
        match self.session.take() {
            None => Err(OrderError::NoSession),
            Some(ahead) => {
                let (rest, slot) = take_slot(ahead.buys, token);
                self.session = Some(SignedAhead { buys: rest, sales: ahead.sales });
                match slot {
                    Some(had) => if had >= limit {
                        return Ok(
                            OrderPlan::PostPresigned { token_id: token.to_string(), limit_px: had },
                        );
                    },
                    None => {},
                }
                match limit_order(token, true, limit, self.shares) {
                    Ok(o) => Ok(OrderPlan::SignAndPost(o)),
                    Err(e) => Err(e),
                }
            },
        }
    }

    /// How `shares` of a side of a market are sold: at the lowest limit, so
    /// that the sale crosses the book; by the order that was signed ahead, which
    /// is used up, if it is for so many shares, else by a new one.
    pub fn sell_side(&mut self, market: &MarketInfo, side: PositionSide, shares: i64) -> (r: Result<
        OrderPlan,
        OrderError,
    >)
        ensures
            ({
                let o = old(self)@;
                let token = token_on(market@, side);
                match r {
                    Ok(plan) => is_sale_plan(plan, o, token, shares) && final(self)@ == (
                    if plan is PostPresigned {
                        sale_used_up(o, token)
                    } else {
                        o
                    }),
                    Err(e) => {
                        &&& o.live
                        &&& final(self)@ == o
                        &&& if o.presigned is None {
                            e == OrderError::NoSession
                        } else {
                            &&& e == OrderError::BadToken
                            &&& token_number(token) is None
                            &&& shares != o.shares || limit_at(o.sales, token) is None
                        }
                    },
                }
            }),
    {
        if !self.live {
            return Ok(OrderPlan::Dry);
        }
        let token: &str = match side {
            PositionSide::Up => market.up_token_id.as_str(),
            PositionSide::Down => market.down_token_id.as_str(),
        };
        match self.session.take() {
            None => return Err(OrderError::NoSession),
            Some(ahead) => {
                if shares == self.shares {
                    let ghost before = slot_limits(ahead.sales@);
                    let (rest, slot) = take_slot(ahead.sales, token);
                    self.session = Some(SignedAhead { buys: ahead.buys, sales: rest });
                    match slot {
                        Some(limit_px) => {
                            return Ok(
                                OrderPlan::PostPresigned { token_id: token.to_string(), limit_px },
                            );
                        },
                        None => {
                            proof {
                                assert(before.remove(token@) =~= before);
                            }
                        },
                    }
                } else {
                    self.session = Some(ahead);
                }
            },
        }
        match limit_order(token, false, SELL_FLOOR, shares) {
            Ok(o) => Ok(OrderPlan::SignAndPost(o)),
            Err(e) => Err(e),
        }
    }
}

/// The orders after a token has been bought.
pub open spec fn used_up(o: Orders, token: Seq<char>) -> Orders {
    Orders {
        presigned: if o.live {
            Some(o.presigned->0.remove(token))
        } else {
            o.presigned
        },
        ..o
    }
}

/// The orders after a token has been sold by an order that was signed ahead.
pub open spec fn sale_used_up(o: Orders, token: Seq<char>) -> Orders {
    Orders { sales: o.sales.remove(token), ..o }
}

/// An order that is signed ahead is placed at most once: unless another one
/// takes its place, the next buy of its token signs a new order.  Orders for
/// other tokens, and all sales, stay.
pub proof fn an_order_is_placed_once(
    o: Orders,
    token: Seq<char>,
    other: Seq<char>,
    next: OrderPlan,
    limit: i64,
)
    requires
        o.live,
        o.presigned is Some,
        is_buy_plan(next, used_up(o, token), token, limit),
    ensures
        next is SignAndPost,
        other != token ==> limit_at(used_up(o, token).presigned->0, other) == limit_at(
            o.presigned->0,
            other,
        ),
        used_up(o, token).sales == o.sales,
{
}

/// A sale that is signed ahead is placed at most once: unless another one takes
/// its place, the next sale of its token signs a new order.  Sales of other
/// tokens, and all buys, stay.
pub proof fn a_sale_is_placed_once(
    o: Orders,
    token: Seq<char>,
    other: Seq<char>,
    next: OrderPlan,
    shares: i64,
)
    requires
        o.live,
        o.presigned is Some,
        is_sale_plan(next, sale_used_up(o, token), token, shares),
    ensures
        next is SignAndPost,
        other != token ==> limit_at(sale_used_up(o, token).sales, other) == limit_at(
            o.sales,
            other,
        ),
        sale_used_up(o, token).presigned == o.presigned,
{
}

/// Once a market's orders have been signed ahead, a buy of either token at any
/// ask, and a sale of the usual size, place an order that is signed already:
/// nothing is signed when a signal comes.
pub proof fn a_prepared_market_signs_nothing(
    o: Orders,
    token: Seq<char>,
    buy: OrderPlan,
    worst_ask: int,
    sale: OrderPlan,
)
    requires
        o.live,
        o.presigned is Some,
        o.max_limit == max_limit_price(),
        is_buy_plan(
            buy,
            Orders { presigned: Some(o.presigned->0.insert(token, o.max_limit)), ..o },
            token,
            cent_price(worst_ask) as i64,
        ),
        is_sale_plan(
            sale,
            Orders { sales: o.sales.insert(token, SELL_FLOOR), ..o },
            token,
            o.shares,
        ),
    ensures
        buy is PostPresigned,
        sale is PostPresigned,
{
}

} // verus!
