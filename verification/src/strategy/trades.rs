//! Trades and the reasons for them.
use vstd::prelude::*;
use super::sides::PositionSide;
use crate::units::{ask_ok, magnitude, MAX_MS};

verus! {

/// What a trade does.
#[derive(Clone, Copy, Debug, PartialEq, Eq, Structural)]
pub enum TradeKind {
    Buy,
    Sell,
    Pair,
    Settle,
}

impl TradeKind {
    /// Text of the kind.
    pub open spec fn text(self) -> Seq<char> {
        match self {
            TradeKind::Buy => "BUY"@,
            TradeKind::Sell => "SELL"@,
            TradeKind::Pair => "PAIR"@,
            TradeKind::Settle => "SETTLE"@,
        }
    }

    /// Text of the kind.
    pub fn as_str(self) -> (r: &'static str)
        ensures
            r@ == self.text(),
    {
        match self {
            TradeKind::Buy => "BUY",
            TradeKind::Sell => "SELL",
            TradeKind::Pair => "PAIR",
            TradeKind::Settle => "SETTLE",
        }
    }
}

/// Why a trade is made.
#[derive(Clone, Copy, Debug, PartialEq, Eq, Structural)]
pub enum Reason {
    SwingPeak,
    SwingTrough,
    SwingPeakSecond,
    SwingTroughSecond,
    EarlyOpposite,
    Pair,
    Flatten,
    Settle,
    PullbackFill,
    ChaseFill,
    DeadFlatten,
    LastTickFlatten,
}

impl Reason {
    /// Text of the reason.
    pub open spec fn text(self) -> Seq<char> {
        match self {
            Reason::SwingPeak => "SWING_PEAK"@,
            Reason::SwingTrough => "SWING_TROUGH"@,
            Reason::SwingPeakSecond => "SWING_PEAK_2"@,
            Reason::SwingTroughSecond => "SWING_TROUGH_2"@,
            Reason::EarlyOpposite => "EARLY_OPP"@,
            Reason::Pair => "pair"@,
            Reason::Flatten => "flatten"@,
            Reason::Settle => "settle"@,
            Reason::PullbackFill => "pullback fill"@,
            Reason::ChaseFill => "chase fill"@,
            Reason::DeadFlatten => "dead flatten"@,
            Reason::LastTickFlatten => "last tick flatten"@,
        }
    }

    /// Text of the reason.
    pub fn as_str(self) -> (r: &'static str)
        ensures
            r@ == self.text(),
    {
        match self {
            Reason::SwingPeak => "SWING_PEAK",
            Reason::SwingTrough => "SWING_TROUGH",
            Reason::SwingPeakSecond => "SWING_PEAK_2",
            Reason::SwingTroughSecond => "SWING_TROUGH_2",
            Reason::EarlyOpposite => "EARLY_OPP",
            Reason::Pair => "pair",
            Reason::Flatten => "flatten",
            Reason::Settle => "settle",
            Reason::PullbackFill => "pullback fill",
            Reason::ChaseFill => "chase fill",
            Reason::DeadFlatten => "dead flatten",
            Reason::LastTickFlatten => "last tick flatten",
        }
    }

    /// Whether the reason completes a pair.
    pub open spec fn completes_pair(self) -> bool {
        self == Reason::SwingPeakSecond || self == Reason::SwingTroughSecond || self
            == Reason::EarlyOpposite
    }

    /// Whether the reason completes a pair.
    pub fn is_second_leg(self) -> (r: bool)
        ensures
            r == self.completes_pair(),
    {
        match self {
            Reason::SwingPeakSecond | Reason::SwingTroughSecond | Reason::EarlyOpposite => true,
            _ => false,
        }
    }
}

/// A simulated trade.  Cash is in billionths of billionths of a dollar.
#[derive(Clone, Copy, Debug, PartialEq, Eq, Structural)]
pub struct SimTrade {
    pub kind: TradeKind,
    pub side: PositionSide,
    pub t: i64,
    pub fill: i64,
    pub shares: i64,
    pub reason: Reason,
    pub net: i128,
    /// Delta of the first leg's extreme; zero on what is not bought.
    pub anchor_d: i64,
}

/// An order that a strategy wants placed.
#[derive(Clone, Copy, Debug, PartialEq, Eq, Structural)]
pub enum BotAction {
    BuyEntry { side: PositionSide, signal_t: i64, worst_ask: i64, reason: Reason },
    BuyPair { side: PositionSide, signal_t: i64, worst_ask: i64, reason: Reason },
    SellFlatten { side: PositionSide, signal_t: i64, worst_ask: i64, reason: Reason },
}

/// Whether an order is in range.
pub open spec fn action_ok(a: BotAction) -> bool {
    let (signal_t, worst_ask) = match a {
        BotAction::BuyEntry { signal_t, worst_ask, .. } => (signal_t, worst_ask),
        BotAction::BuyPair { signal_t, worst_ask, .. } => (signal_t, worst_ask),
        BotAction::SellFlatten { signal_t, worst_ask, .. } => (signal_t, worst_ask),
    };
    magnitude(signal_t as int) <= 4 * MAX_MS && ask_ok(worst_ask as int)
}

/// Whether all orders are in range.
pub open spec fn actions_ok(actions: Seq<BotAction>) -> bool {
    forall|i: int| 0 <= i < actions.len() ==> action_ok(#[trigger] actions[i])
}

/// A pair is completed by a second leg at a swing and by an early opposite, and by
/// nothing else.
pub proof fn second_legs_complete_pairs(r: Reason)
    ensures
        r.completes_pair() <==> r is SwingPeakSecond || r is SwingTroughSecond || r
            is EarlyOpposite,
{
}

/// Reasons are told apart by their texts.
pub proof fn reasons_have_their_own_texts(a: Reason, b: Reason)
    ensures
        a.text() == b.text() ==> a == b,
        Reason::EarlyOpposite.text() == "EARLY_OPP"@,
        Reason::SwingPeak.text() == "SWING_PEAK"@,
        Reason::SwingTrough.text() == "SWING_TROUGH"@,
        Reason::SwingPeakSecond.text() == Reason::SwingPeak.text() + "_2"@,
        Reason::SwingTroughSecond.text() == Reason::SwingTrough.text() + "_2"@,
{
    reveal_strlit("SWING_PEAK");
    reveal_strlit("SWING_TROUGH");
    reveal_strlit("SWING_PEAK_2");
    reveal_strlit("SWING_TROUGH_2");
    reveal_strlit("EARLY_OPP");
    reveal_strlit("pair");
    reveal_strlit("flatten");
    reveal_strlit("settle");
    reveal_strlit("pullback fill");
    reveal_strlit("chase fill");
    reveal_strlit("dead flatten");
    reveal_strlit("last tick flatten");
    reveal_strlit("_2");
    assert("SWING_PEAK_2"@ =~= "SWING_PEAK"@ + "_2"@);
    assert("SWING_TROUGH_2"@ =~= "SWING_TROUGH"@ + "_2"@);
    assert("pair"@.len() == 4 && "settle"@.len() == 6 && "flatten"@.len() == 7 && "EARLY_OPP"@.len()
        == 9 && "SWING_PEAK"@.len() == 10 && "chase fill"@.len() == 10 && "SWING_TROUGH"@.len() == 12
        && "SWING_PEAK_2"@.len() == 12 && "dead flatten"@.len() == 12 && "pullback fill"@.len() == 13
        && "SWING_TROUGH_2"@.len() == 14 && "last tick flatten"@.len() == 17);
    assert("SWING_PEAK"@[0] == 'S' && "chase fill"@[0] == 'c');
    assert("SWING_TROUGH"@[6] == 'T' && "SWING_PEAK_2"@[6] == 'P' && "dead flatten"@[6] == 'l');
}

} // verus!
