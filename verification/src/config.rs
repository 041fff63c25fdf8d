//! Settings.
use vstd::prelude::*;
use crate::decimal::{amount_of, read_nanos, read_whole, whole_of};
use crate::json::seen_text;
use crate::text::{lowered, same, to_lower, trim, trimmed};

verus! {

/// A trading strategy.
#[derive(Clone, Copy, Debug, PartialEq, Eq, Structural)]
pub enum StrategyKind {
    /// Impulse, pullback entry and pair exit.
    Pairing,
    /// Swings of the distance from the strike.
    GapSwing,
    /// Swings of each venue's distance from its own open.
    VenueSwing,
}

/// What is wrong with the settings.
#[derive(Debug)]
pub enum ConfigError {
    /// There is no strategy of this name.
    UnknownStrategy(String),
    /// Live trading needs a private key.
    NoPrivateKey,
}

/// The strategy that a name in small letters is.
pub open spec fn strategy_named(s: Seq<char>) -> Option<StrategyKind> {
    if s == "pairing"@ || s == "pair"@ {
        Some(StrategyKind::Pairing)
    } else if s == "gap_swing"@ || s == "gap-swing"@ || s == "gapswing"@ || s == "gap"@ || s
        == "swing"@ {
        Some(StrategyKind::GapSwing)
    } else if s == "venue_swing"@ {
        Some(StrategyKind::VenueSwing)
    } else {
        None
    }
}

/// The strategy that a text names, whatever its case and the space around it.
pub open spec fn strategy_of(s: Seq<char>) -> Option<StrategyKind> {
    strategy_named(lowered(trimmed(s)))
}

impl StrategyKind {
    /// The strategy that a text names.
    pub fn parse(s: &str) -> (r: Result<StrategyKind, ConfigError>)
        ensures
            match (r, strategy_of(s@)) {
                (Ok(a), Some(b)) => a == b,
                (Err(ConfigError::UnknownStrategy(name)), None) => name@ == lowered(trimmed(s@)),
                _ => false,
            },
    {
        let t: String = trim(s);
        let name: String = to_lower(t.as_str());
        let n: &str = name.as_str();
        if same(n, "pairing") || same(n, "pair") {
            return Ok(StrategyKind::Pairing);
        }
        if same(n, "gap_swing") || same(n, "gap-swing") || same(n, "gapswing") || same(n, "gap")
            || same(n, "swing") {
            return Ok(StrategyKind::GapSwing);
        }
        if same(n, "venue_swing") {
            return Ok(StrategyKind::VenueSwing);
        }
        Err(ConfigError::UnknownStrategy(name))
    }

    /// The name of a strategy.
    pub open spec fn name(self) -> Seq<char> {
        match self {
            StrategyKind::Pairing => "pairing"@,
            StrategyKind::GapSwing => "gap_swing"@,
            StrategyKind::VenueSwing => "venue_swing"@,
        }
    }

    /// The name of a strategy.
    pub fn label(self) -> (r: &'static str)
        ensures
            r@ == self.name(),
    {
        match self {
            StrategyKind::Pairing => "pairing",
            StrategyKind::GapSwing => "gap_swing",
            StrategyKind::VenueSwing => "venue_swing",
        }
    }
}

/// Every strategy is found by its own name.
pub proof fn strategies_are_found_by_name(k: StrategyKind)
    ensures
        strategy_of(k.name()) == Some(k),
{
    reveal_strlit("pairing");
    reveal_strlit("pair");
    reveal_strlit("gap_swing");
    reveal_strlit("gap-swing");
    reveal_strlit("gapswing");
    reveal_strlit("gap");
    reveal_strlit("swing");
    reveal_strlit("venue_swing");
    reveal_strlit("venue-swing");
    reveal_strlit("venueswing");
    reveal_strlit("venue");
    let s = k.name();
    let n = s.len() as int;
    assert(!crate::text::is_space(s[0]));
    assert(!crate::text::is_space(s[n - 1]));
    assert(trimmed(s) =~= s);
    assert(lowered(s) =~= s);
    if k == StrategyKind::VenueSwing {
        assert(s.len() == 11);
        assert("gap_swing"@.len() == 9);
        assert(s != "gap-swing"@ && s != "gapswing"@ && s != "pairing"@);
    }
}

/// Raw settings, as the environment has them.
#[derive(Debug)]
pub struct RawEnv {
    pub live_trading: Option<String>,
    pub strategy: Option<String>,
    pub private_key: Option<String>,
    pub funder: Option<String>,
    pub signature_type: Option<String>,
    pub api_key: Option<String>,
    pub api_secret: Option<String>,
    pub api_passphrase: Option<String>,
    pub order_shares: Option<String>,
}

/// Settings.
#[derive(Debug)]
pub struct Config {
    pub live_trading: bool,
    pub strategy: StrategyKind,
    pub private_key: Option<String>,
    pub funder: Option<String>,
    pub signature_type: Option<u8>,
    pub api_key: Option<String>,
    pub api_secret: Option<String>,
    pub api_passphrase: Option<String>,
    pub order_shares: i64,
}

/// A setting without the space around it; an empty one is none.
pub open spec fn setting(raw: Option<Seq<char>>) -> Option<Seq<char>> {
    match raw {
        Some(s) => if trimmed(s).len() == 0 {
            None
        } else {
            Some(trimmed(s))
        },
        None => None,
    }
}

/// Whether a setting is on.
pub open spec fn switch(raw: Option<Seq<char>>, default: bool) -> bool {
    match setting(raw) {
        Some(s) => s == "true"@ || s == "1"@,
        None => default,
    }
}

/// The strategy that is set; venue swing if none is.
pub open spec fn strategy_set(raw: Option<Seq<char>>) -> Option<StrategyKind> {
    match setting(raw) {
        Some(s) => strategy_of(s),
        None => Some(StrategyKind::VenueSwing),
    }
}

/// The signature type that a text is: a byte, else two.
pub open spec fn signature_of(s: Seq<char>) -> int {
    match whole_of(s) {
        Some(n) => if 0 <= n <= 255 && s[0] != '-' {
            n
        } else {
            2
        },
        None => 2,
    }
}

/// The size of an order that is set; ten shares if none is.
pub open spec fn shares_set(raw: Option<Seq<char>>) -> int {
    match setting(raw) {
        Some(s) => match amount_of(s, 9) {
            Some(n) => n,
            None => 10_000_000_000,
        },
        None => 10_000_000_000,
    }
}

/// The view of an optional text that is borrowed.
pub open spec fn raw_text(s: Option<String>) -> Option<Seq<char>> {
    seen_text(s)
}

/// Whether settings are those that raw ones give.
pub open spec fn is_config(c: Config, raw: RawEnv) -> bool {
    &&& c.live_trading == switch(raw_text(raw.live_trading), false)
    &&& Some(c.strategy) == strategy_set(raw_text(raw.strategy))
    &&& raw_text(c.private_key) == setting(raw_text(raw.private_key))
    &&& raw_text(c.funder) == setting(raw_text(raw.funder))
    &&& match (c.signature_type, setting(raw_text(raw.signature_type))) {
        (Some(n), Some(s)) => n == signature_of(s),
        (None, None) => true,
        _ => false,
    }
    &&& raw_text(c.api_key) == setting(raw_text(raw.api_key))
    &&& raw_text(c.api_secret) == setting(raw_text(raw.api_secret))
    &&& raw_text(c.api_passphrase) == setting(raw_text(raw.api_passphrase))
    &&& c.order_shares == shares_set(raw_text(raw.order_shares))
}

/// A setting without the space around it; an empty one is none.
fn env_opt(raw: &Option<String>) -> (r: Option<String>)
    ensures
        raw_text(r) == setting(raw_text(*raw)),
{
    match raw {
        Some(s) => {
            let t: String = trim(s.as_str());
            if t.as_str().is_empty() {
                None
            } else {
                Some(t)
            }
        },
        None => None,
    }
}

/// Whether a setting is on.
fn env_switch(raw: &Option<String>, default: bool) -> (r: bool)
    ensures
        r == switch(raw_text(*raw), default),
{
    match env_opt(raw) {
        Some(s) => same(s.as_str(), "true") || same(s.as_str(), "1"),
        None => default,
    }
}

/// The signature type that a text is.
fn parse_signature(s: &str) -> (r: u8)
    requires
        s@.len() > 0,
    ensures
        r == signature_of(s@),
{
    match read_whole(s) {
        Some(n) => if 0 <= n && n <= 255 && s.get_char(0) != '-' {
            n as u8
        } else {
            2
        },
        None => 2,
    }
}

/// The size of an order that is set.
fn env_shares(raw: &Option<String>) -> (r: i64)
    ensures
        r == shares_set(raw_text(*raw)),
{
    match env_opt(raw) {
        Some(s) => match read_nanos(s.as_str()) {
            Some(n) => n,
            None => 10_000_000_000,
        },
        None => 10_000_000_000,
    }
}

impl Config {
    /// The settings that raw ones give; an unknown strategy is an error.
    pub fn from_env(raw: &RawEnv) -> (r: Result<Config, ConfigError>)
        ensures
            match r {
                Ok(c) => is_config(c, *raw),
                Err(ConfigError::UnknownStrategy(name)) => strategy_set(raw_text(raw.strategy))
                    is None && (setting(raw_text(raw.strategy)) matches Some(s) && name@ == lowered(
                    trimmed(s),
                )),
                Err(_) => false,
            },
    {
        let strategy: StrategyKind = match env_opt(&raw.strategy) {
            Some(s) => match StrategyKind::parse(s.as_str()) {
                Ok(k) => k,
                Err(e) => return Err(e),
            },
            None => StrategyKind::VenueSwing,
        };
        let signature_type: Option<u8> = match env_opt(&raw.signature_type) {
            Some(s) => Some(parse_signature(s.as_str())),
            None => None,
        };
        Ok(
            Config {
                live_trading: env_switch(&raw.live_trading, false),
                strategy,
                private_key: env_opt(&raw.private_key),
                funder: env_opt(&raw.funder),
                signature_type,
                api_key: env_opt(&raw.api_key),
                api_secret: env_opt(&raw.api_secret),
                api_passphrase: env_opt(&raw.api_passphrase),
                order_shares: env_shares(&raw.order_shares),
            },
        )
    }

    /// Whether a private key is set.
    pub open spec fn has_key(&self) -> bool {
        raw_text(self.private_key) matches Some(k) && k.len() > 0
    }

    /// Live trading needs a private key.
    pub fn validate_for_live(&self) -> (r: Result<(), ConfigError>)
        ensures
            r is Ok <==> !self.live_trading || self.has_key(),
            r matches Err(e) ==> e is NoPrivateKey,
    {
        if !self.live_trading {
            return Ok(());
        }
        match &self.private_key {
            Some(k) => if k.as_str().is_empty() {
                Err(ConfigError::NoPrivateKey)
            } else {
                Ok(())
            },
            None => Err(ConfigError::NoPrivateKey),
        }
    }
}

impl ConfigError {
    /// The text of an error.
    pub open spec fn text(&self) -> Seq<char> {
        match self {
            ConfigError::UnknownStrategy(name) => "unknown STRATEGY="@ + name@
                + " (use venue_swing | gap_swing | pairing)"@,
            ConfigError::NoPrivateKey => "LIVE_TRADING=true requires POLYMARKET_PRIVATE_KEY"@,
        }
    }

    /// The text of an error.
    pub fn message(&self) -> (r: String)
        ensures
            r@ == self.text(),
    {
        match self {
            ConfigError::UnknownStrategy(name) => {
                let mut r: String = "unknown STRATEGY=".to_string();
                r.append(name.as_str());
                r.append(" (use venue_swing | gap_swing | pairing)");
                r
            },
            ConfigError::NoPrivateKey => {
                "LIVE_TRADING=true requires POLYMARKET_PRIVATE_KEY".to_string()
            },
        }
    }
}

} // verus!
