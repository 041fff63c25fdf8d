//! What is set, and what orders say.
use vstd::prelude::*;
use crate::clob::{
    below_minimum, cents_of, has_credentials, hex_bytes, hex_value, is_buy_plan, is_login, is_order,
    is_presigning, is_sale_plan, limit_at, login_error, prefixed, sale_used_up, signature_kind,
    slot_limits, token_number, token_on, unprefixed, used_up, LimitOrder, Login, OrderError,
    OrderPlan, Orders, PresignedSlot, Presigning, SignatureKind,
};
use crate::config::{is_config, raw_text, setting, strategy_of, Config, RawEnv, StrategyKind};
use crate::decimal::{amount_of, whole_of};
use crate::gamma::Market;
use crate::strategy::sides::PositionSide;
use crate::text::{has_at, lowered, trimmed};
use crate::units::magnitude;

verus! {

/// Trading is live only where `true` or `1` is set; the strategy is venue swing and
/// the size ten shares where none is set.
pub proof fn nothing_set_is_a_dry_run_of_ten_shares(c: Config, raw: RawEnv)
    requires
        is_config(c, raw),
    ensures
        raw.live_trading is None ==> !c.live_trading,
        raw.live_trading matches Some(s) ==> (c.live_trading <==> trimmed(s@) == "true"@ || trimmed(
            s@,
        ) == "1"@),
        raw.strategy is None ==> c.strategy == StrategyKind::VenueSwing,
        raw.order_shares is None ==> c.order_shares == 10_000_000_000,
        raw.signature_type is None ==> c.signature_type is None,
        raw.private_key is None ==> c.private_key is None && !c.has_key(),
        raw.funder is None ==> c.funder is None,
        raw.api_key is None ==> c.api_key is None,
        raw.api_secret is None ==> c.api_secret is None,
        raw.api_passphrase is None ==> c.api_passphrase is None,
{
    reveal_strlit("true");
    reveal_strlit("1");
}

/// What is set is taken without the space around it; blanks set nothing.
pub proof fn what_is_set_is_taken(c: Config, raw: RawEnv)
    requires
        is_config(c, raw),
    ensures
        raw.private_key matches Some(s) ==> (if trimmed(s@).len() > 0 {
            c.has_key() && c.private_key->0@ == trimmed(s@)
        } else {
            c.private_key is None
        }),
        raw.funder matches Some(s) ==> (if trimmed(s@).len() > 0 {
            c.funder is Some && c.funder->0@ == trimmed(s@)
        } else {
            c.funder is None
        }),
        raw.api_key matches Some(s) ==> (if trimmed(s@).len() > 0 {
            c.api_key is Some && c.api_key->0@ == trimmed(s@)
        } else {
            c.api_key is None
        }),
        raw.api_secret matches Some(s) ==> (if trimmed(s@).len() > 0 {
            c.api_secret is Some && c.api_secret->0@ == trimmed(s@)
        } else {
            c.api_secret is None
        }),
        raw.api_passphrase matches Some(s) ==> (if trimmed(s@).len() > 0 {
            c.api_passphrase is Some && c.api_passphrase->0@ == trimmed(s@)
        } else {
            c.api_passphrase is None
        }),
        raw.order_shares matches Some(s) ==> (if trimmed(s@).len() > 0 && amount_of(trimmed(s@), 9)
            is Some {
            c.order_shares == amount_of(trimmed(s@), 9)->0
        } else {
            c.order_shares == 10_000_000_000
        }),
        raw.signature_type matches Some(s) ==> (if trimmed(s@).len() > 0 {
            c.signature_type is Some && (if whole_of(trimmed(s@)) is Some && 0 <= whole_of(
                trimmed(s@),
            )->0 <= 255 && trimmed(s@)[0] != '-' {
                c.signature_type->0 == whole_of(trimmed(s@))->0
            } else {
                c.signature_type->0 == 2
            })
        } else {
            c.signature_type is None
        }),
{
    assert(raw_text(c.private_key) == setting(raw_text(raw.private_key)));
    assert(raw_text(c.funder) == setting(raw_text(raw.funder)));
    assert(raw_text(c.api_key) == setting(raw_text(raw.api_key)));
    assert(raw_text(c.api_secret) == setting(raw_text(raw.api_secret)));
    assert(raw_text(c.api_passphrase) == setting(raw_text(raw.api_passphrase)));
}

/// The names of strategies, in any case and with space around them.
pub proof fn strategies_have_their_names(s: Seq<char>)
    ensures
        ({
            let name = lowered(trimmed(s));
            &&& strategy_of(s) == Some(StrategyKind::Pairing) <==> name == "pairing"@ || name
                == "pair"@
            &&& strategy_of(s) == Some(StrategyKind::GapSwing) <==> name == "gap_swing"@ || name
                == "gap-swing"@ || name == "gapswing"@ || name == "gap"@ || name == "swing"@
            &&& strategy_of(s) == Some(StrategyKind::VenueSwing) <==> name == "venue_swing"@
        }),
{
    reveal_strlit("pairing");
    reveal_strlit("pair");
    reveal_strlit("gap_swing");
    reveal_strlit("gap-swing");
    reveal_strlit("gapswing");
    reveal_strlit("gap");
    reveal_strlit("swing");
    reveal_strlit("venue_swing");
    assert("pairing"@.len() == 7 && "pair"@.len() == 4 && "gap_swing"@.len() == 9
        && "gap-swing"@.len() == 9 && "gapswing"@.len() == 8 && "gap"@.len() == 3 && "swing"@.len()
        == 5 && "venue_swing"@.len() == 11);
}

/// Amounts on an order are in cents, the nearest to what is asked for, the even one of
/// two that are as near; below nothing they are the same with a minus.
pub proof fn amounts_are_in_cents(n: int)
    ensures
        magnitude(2 * (cents_of(n) * 10_000_000 - n)) <= 10_000_000,
        magnitude(2 * (cents_of(n) * 10_000_000 - n)) == 10_000_000 ==> cents_of(n) % 2 == 0,
        cents_of(-n) == -cents_of(n),
{
}

/// An order is for the token, on the side, at the limit and of the size that it is made
/// for, in cents.
pub proof fn an_order_says_what_it_is_for(
    o: LimitOrder,
    token: Seq<char>,
    buy: bool,
    limit: i64,
    shares: i64,
)
    requires
        is_order(o, token, buy, limit as int, shares as int),
    ensures
        o.token_id@ == token,
        token_number(token) == Some(o.token@),
        o.buy == buy,
        o.price.1 == 2,
        o.size.1 == 2,
        magnitude(2 * (o.price.0 * 10_000_000 - limit)) <= 10_000_000,
        magnitude(2 * (o.size.0 * 10_000_000 - shares)) <= 10_000_000,
        limit % 10_000_000 == 0 ==> o.price.0 * 10_000_000 == limit,
        shares % 10_000_000 == 0 ==> o.size.0 * 10_000_000 == shares,
{
    amounts_are_in_cents(limit as int);
    amounts_are_in_cents(shares as int);
}

/// UP orders are for the UP token and DOWN orders for the DOWN token.
pub proof fn each_side_has_its_token(m: Market)
    ensures
        token_on(m, PositionSide::Up) == m.up_token_id,
        token_on(m, PositionSide::Down) == m.down_token_id,
{
}

/// An order of less than a dollar is too small.
pub proof fn orders_come_to_a_dollar(shares: int, limit: int)
    ensures
        below_minimum(shares, limit) <==> shares * limit < 1_000_000_000_000_000_000,
{
}

/// A buy of a dry run is not placed.  A live one is placed by the order that was signed
/// ahead for its token if its limit reaches as far, else by a new buy at the limit for
/// the size of the client.
pub proof fn a_buy_is_signed_ahead_or_anew(
    p: OrderPlan,
    o: Orders,
    token: Seq<char>,
    limit: i64,
)
    requires
        is_buy_plan(p, o, token, limit),
    ensures
        !o.live <==> p is Dry,
        o.live ==> {
            let ahead = limit_at(o.presigned->0, token);
            &&& ahead is Some && ahead->0 >= limit ==> (p matches OrderPlan::PostPresigned {
                token_id,
                limit_px,
            } && token_id@ == token && limit_px == ahead->0)
            &&& ahead is None || ahead->0 < limit ==> (p matches OrderPlan::SignAndPost(order)
                && is_order(order, token, true, limit as int, o.shares as int))
        },
{
}

/// A sale of a dry run is not placed.  A live one is placed by the sale that was signed
/// ahead for its token if it is of the usual size, else by a new sale of the shares at
/// a cent.
pub proof fn a_sale_is_signed_ahead_or_anew(
    p: OrderPlan,
    o: Orders,
    token: Seq<char>,
    shares: i64,
)
    requires
        is_sale_plan(p, o, token, shares),
    ensures
        !o.live <==> p is Dry,
        o.live ==> {
            let ahead = limit_at(o.sales, token);
            &&& ahead is Some && shares == o.shares ==> (p matches OrderPlan::PostPresigned {
                token_id,
                limit_px,
            } && token_id@ == token && limit_px == ahead->0)
            &&& ahead is None || shares != o.shares ==> (p matches OrderPlan::SignAndPost(order)
                && is_order(order, token, false, 10_000_000, shares as int))
        },
{
}

/// Both tokens of a market that are numbers are signed ahead in a live session: a buy of
/// each at the highest limit and a sale of each at a cent, of the usual size.
pub proof fn both_tokens_are_signed_ahead(p: Presigning, o: Orders, m: Market)
    requires
        is_presigning(p, o, m),
        o.live,
        o.presigned is Some,
        token_number(m.up_token_id) is Some,
        token_number(m.down_token_id) is Some,
    ensures
        p.error is None,
        p.orders.len() == 2,
        p.sales.len() == 2,
        is_order(p.orders[0], m.up_token_id, true, o.max_limit as int, o.shares as int),
        is_order(p.orders[1], m.down_token_id, true, o.max_limit as int, o.shares as int),
        is_order(p.sales[0], m.up_token_id, false, 10_000_000, o.shares as int),
        is_order(p.sales[1], m.down_token_id, false, 10_000_000, o.shares as int),
{
}

/// Without live trading nothing is signed ahead, and neither without a session, which
/// is an error.
pub proof fn nothing_is_signed_without_a_session(p: Presigning, o: Orders, m: Market)
    requires
        is_presigning(p, o, m),
    ensures
        !o.live || o.presigned is None ==> p.orders.len() == 0 && p.sales.len() == 0,
        !o.live ==> p.error is None,
        o.live && o.presigned is None ==> p.error == Some(OrderError::NoSession),
        o.live && o.presigned is Some && (token_number(m.up_token_id) is None || token_number(
            m.down_token_id,
        ) is None) ==> p.error == Some(OrderError::BadToken) && p.sales.len() == 0,
{
}

/// A buy uses up the order that was signed ahead for its token and no other.
pub proof fn a_buy_uses_up_its_order(o: Orders, token: Seq<char>, other: Seq<char>)
    requires
        o.live,
        o.presigned is Some,
    ensures
        ({
            let after = used_up(o, token);
            &&& after.live && after.shares == o.shares && after.max_limit == o.max_limit
            &&& after.presigned is Some && after.sales == o.sales
            &&& limit_at(after.presigned->0, token) is None
            &&& other != token ==> limit_at(after.presigned->0, other) == limit_at(
                o.presigned->0,
                other,
            )
        }),
        ({
            let after = sale_used_up(o, token);
            &&& after.presigned == o.presigned && after.live && after.shares == o.shares
            &&& limit_at(after.sales, token) is None
            &&& other != token ==> limit_at(after.sales, other) == limit_at(o.sales, other)
        }),
{
}

/// The limit of a token is that of the order that was signed for it last.
pub proof fn the_last_order_of_a_token_counts(
    slots: Seq<PresignedSlot>,
    slot: PresignedSlot,
    other: Seq<char>,
)
    ensures
        limit_at(slot_limits(slots.push(slot)), slot.token_id@) == Some(slot.limit_px),
        other != slot.token_id@ ==> limit_at(slot_limits(slots.push(slot)), other) == limit_at(
            slot_limits(slots),
            other,
        ),
{
    assert(slots.push(slot).drop_last() =~= slots);
}

/// Signature types 1, 2 and 3 are a proxy, a safe and a contract wallet; all others
/// are plain keys.
pub proof fn signatures_are_of_four_kinds(n: Option<u8>)
    ensures
        n == Some(1u8) <==> signature_kind(n) == SignatureKind::Proxy,
        n == Some(2u8) <==> signature_kind(n) == SignatureKind::GnosisSafe,
        n == Some(3u8) <==> signature_kind(n) == SignatureKind::Poly1271,
{
}

/// A key is signed with as it is if it has `0x` before it, else with that before it.
pub proof fn a_key_has_its_prefix(key: Seq<char>)
    ensures
        has_at(prefixed(key), "0x"@, 0),
        has_at(key, "0x"@, 0) ==> prefixed(key) == key,
        !has_at(key, "0x"@, 0) ==> prefixed(key).skip(2) == key && prefixed(key).len() == key.len()
            + 2,
{
    reveal_strlit("0x");
    if !has_at(key, "0x"@, 0) {
        let p = prefixed(key);
        assert(p.subrange(0, "0x"@.len() as int) =~= "0x"@);
        assert(p.skip(2) =~= key);
    }
}

/// Bytes are written as two hexadecimal digits each, the higher one first.
pub proof fn bytes_are_two_digits(s: Seq<char>, n: nat, i: int)
    requires
        hex_bytes(s, n) is Some,
        0 <= i < n,
    ensures
        s.len() == 2 * n,
        hex_bytes(s, n)->0.len() == n,
        hex_value(s[2 * i]) is Some && hex_value(s[2 * i + 1]) is Some,
        0 <= hex_value(s[2 * i])->0 < 16 && 0 <= hex_value(s[2 * i + 1])->0 < 16,
        hex_bytes(s, n)->0[i] / 16 == hex_value(s[2 * i])->0,
        hex_bytes(s, n)->0[i] % 16 == hex_value(s[2 * i + 1])->0,
{
}

/// A session needs a private key that signs, an API key that was read if all
/// credentials are set, and a wallet that is an address if one is set.
pub proof fn a_session_needs_its_keys(cfg: Config, signer: Option<Seq<u8>>, key: Option<u128>)
    ensures
        !cfg.has_key() ==> login_error(cfg, signer, key) == Some(OrderError::NoPrivateKey),
        cfg.has_key() && signer is None ==> login_error(cfg, signer, key) == Some(
            OrderError::BadPrivateKey,
        ),
        has_credentials(cfg) <==> cfg.api_key is Some && cfg.api_secret is Some
            && cfg.api_passphrase is Some,
        cfg.has_key() && signer is Some && cfg.api_key is Some && cfg.api_secret is Some
            && cfg.api_passphrase is Some && key is None ==> login_error(cfg, signer, key) == Some(
            OrderError::BadApiKey,
        ),
        cfg.has_key() && signer is Some && (key is Some || cfg.api_key is None || cfg.api_secret
            is None || cfg.api_passphrase is None) && (cfg.funder is None || cfg.funder->0@.len()
            == 0 || hex_bytes(unprefixed(cfg.funder->0@), 20) is Some) ==> login_error(
            cfg,
            signer,
            key,
        ) is None,
{
}

/// A session is opened with the key, the credentials, the wallet and the signature
/// type that are set.
pub proof fn a_session_is_opened_with_what_is_set(
    l: Login,
    cfg: Config,
    signer: Seq<u8>,
    key: Option<u128>,
)
    requires
        is_login(l, cfg, signer, key),
        cfg.private_key is Some,
    ensures
        l.key@ == prefixed(cfg.private_key->0@),
        l.signer@ == signer,
        l.credentials is Some <==> cfg.api_key is Some && cfg.api_secret is Some
            && cfg.api_passphrase is Some,
        l.credentials matches Some(c) ==> Some(c.key) == key && c.secret@ == cfg.api_secret->0@
            && c.passphrase@ == cfg.api_passphrase->0@,
        l.funder is Some <==> cfg.funder is Some && cfg.funder->0@.len() > 0,
        l.signature == signature_kind(cfg.signature_type),
{
}

} // verus!
