use polybot::strategy::gap_swing::{run_window, GapSwingEngine};
use polybot::strategy::pairing_replay::run_pairing_window;
use polybot::strategy::sides::PositionSide;
use polybot::strategy::trades::{BotAction, SimTrade, TradeKind};
use polybot::strategy::venue_engine::VenueSwingEngine;
use polybot::strategy::venue_swing::run_venue_swing_window;

const OPEN: i64 = 1_700_000_100_000;
const END: i64 = OPEN + 300_000;
const CENT: i64 = 10_000_000;
const SHARES: i64 = 10_000_000_000;

/// A linear congruential generator.
struct Rng(u64);

impl Rng {
    fn below(&mut self, n: u64) -> i64 {
        self.0 = self.0.wrapping_mul(6364136223846793005).wrapping_add(1442695040888963407);
        ((self.0 >> 33) % n) as i64
    }
}

type Prints = Vec<(i64, i64)>;
type Quotes = Vec<(i64, i64, i64)>;

fn cents_of(c: i64) -> i64 {
    c * CENT
}

/// Prices that wander, and asks that follow them.
fn wandering_window(seed: u64) -> (Prints, Prints, Quotes) {
    let mut r = Rng(seed);
    let tape = |r: &mut Rng, start: i64| {
        let mut p = start;
        let mut out = vec![];
        let mut t = OPEN - 5_000 + r.below(1_000);
        while t < END {
            out.push((t, p));
            t += 150 + r.below(500);
            p += r.below(1_601) - 800;
        }
        out
    };
    let start = 10_000_000 + r.below(4_001) - 2_000;
    let bn = tape(&mut r, start);
    let start = 10_000_500 + r.below(4_001) - 2_000;
    let cb = tape(&mut r, start);
    let mut asks = vec![];
    let mut t = OPEN - 3_000;
    let mut i = 0;
    while t < END {
        while i + 1 < bn.len() && bn[i + 1].0 <= t {
            i += 1;
        }
        let d = bn[i].1 - 10_000_000;
        let up = (50 + d.div_euclid(350) + r.below(9) - 4).clamp(2, 98);
        let down = (101 - up + r.below(9) - 5).clamp(2, 98);
        asks.push((t, cents_of(up), cents_of(down)));
        t += 200 + r.below(600);
    }
    let px = |v: Prints| v.into_iter().map(|(t, p)| (t, cents_of(p))).collect::<Prints>();
    (px(bn), px(cb), asks)
}

fn winner(seed: u64) -> Option<PositionSide> {
    match seed % 3 {
        0 => Some(PositionSide::Up),
        1 => Some(PositionSide::Down),
        _ => None,
    }
}

/// A number that stands for a list of trades.
fn fingerprint(trades: &[SimTrade]) -> u64 {
    let mut h: u64 = 0;
    for tr in trades {
        let kind = match tr.kind {
            TradeKind::Buy => 0,
            TradeKind::Sell => 1,
            TradeKind::Pair => 2,
            TradeKind::Settle => 3,
        };
        let up = (tr.side == PositionSide::Up) as u64;
        let n = (tr.t - OPEN) as u64 * 7
            + (tr.fill / CENT) as u64 * 13
            + kind * 3
            + up * 5
            + tr.reason.as_str().len() as u64;
        h = ((h as u128 * 1_000_003 + n as u128) % (1u128 << 61)) as u64;
    }
    h
}

fn dollars(attos: i128) -> f64 {
    attos as f64 / 1e18
}

type WindowRow = (u64, f64, u64, u64, usize, u64, f64, u64, u64, usize, u64);

const WINDOWS: [WindowRow; 40] = [
    (1, 0.000000000, 0, 0, 0, 0, 0.603740000, 2, 0, 6, 1452835770833395246),
    (2, 2.431850000, 2, 0, 6, 201307908030980691, 1.217150000, 2, 0, 6, 645309518535807174),
    (3, 7.491390000, 5, 0, 15, 1601872664366934458, 6.747310000, 4, 0, 12, 808543258766313854),
    (4, 1.057420000, 1, 0, 3, 46453063610558236, 1.754680000, 3, 0, 9, 164366051653906406),
    (5, 4.884950000, 5, 0, 15, 164219619986411999, 4.781190000, 4, 0, 12, 1167197891568313133),
    (6, 1.818460000, 3, 0, 9, 860956328186733129, 3.054390000, 2, 0, 6, 1692059400576930165),
    (7, 0.930310000, 3, 0, 11, 944445678323510881, 0.571140000, 2, 0, 8, 845557968798207036),
    (8, 6.743620000, 2, 0, 8, 1078868379459056082, 5.788390000, 3, 0, 9, 376649714721294746),
    (9, 0.544520000, 1, 1, 5, 1202888731785090336, 1.464800000, 2, 0, 8, 989997124114165849),
    (10, -3.082100000, 0, 0, 2, 175980454946, 0.355950000, 1, 1, 3, 75026661194520059),
    (11, -2.821880000, 1, 0, 5, 2251016116300410719, 2.840950000, 2, 0, 6, 1975213088807917776),
    (12, 1.055090000, 2, 0, 6, 1947573295577571170, 1.929820000, 2, 0, 6, 2028177803731323487),
    (13, 2.222470000, 2, 0, 6, 1999690261099169417, 1.360430000, 1, 1, 3, 11916933871557294),
    (14, 1.572970000, 2, 0, 6, 1540526619458911220, 1.928140000, 3, 0, 9, 994956619767567382),
    (15, 0.160320000, 1, 0, 3, 215873013335815514, 1.248570000, 2, 0, 6, 486813477364449005),
    (16, 1.873800000, 0, 0, 2, 279217765294, -2.509400000, 0, 0, 2, 480977368760),
    (17, 2.902260000, 4, 0, 12, 413782160166492244, 6.418340000, 5, 0, 15, 1350541011969937662),
    (18, 9.241000000, 4, 0, 12, 2150293909111545194, 4.207290000, 3, 0, 9, 2249601018016655130),
    (19, 0.256750000, 1, 0, 3, 196621423961746797, -0.709320000, 1, 0, 5, 351551148074015640),
    (20, 2.015330000, 2, 0, 6, 764323775086196756, 2.026440000, 3, 0, 9, 2248828952701131358),
    (21, -0.381310000, 1, 0, 5, 1698046198066283359, 0.362580000, 1, 0, 5, 495308829350648899),
    (22, 4.335450000, 2, 0, 6, 2197266961249558300, 2.211300000, 2, 0, 6, 932131691881110793),
    (23, -1.464320000, 0, 0, 2, 51535081624, 1.094370000, 3, 0, 9, 1559638488384029314),
    (24, -2.487700000, 0, 0, 2, 51678082066, 0.065980000, 2, 0, 8, 439458818062455614),
    (25, 0.592140000, 2, 0, 8, 1141401634111148701, 1.524040000, 4, 1, 12, 1395109355869826062),
    (26, 2.072750000, 3, 0, 9, 1552249511098526870, 0.353430000, 1, 0, 3, 113417270001379314),
    (27, -1.332500000, 0, 0, 2, 23703998326, 3.202340000, 2, 0, 6, 1124381292110495634),
    (28, -1.221650000, 0, 0, 2, 144402360381, -0.304640000, 0, 0, 2, 253275685740),
    (29, 0.369000000, 1, 0, 3, 482601433092494363, 0.868140000, 2, 0, 6, 1403934771257178634),
    (30, 2.688360000, 1, 0, 3, 72665305712133420, 1.259520000, 1, 0, 3, 71379389694488612),
    (31, 0.466240000, 1, 0, 3, 188339821764462699, 1.143400000, 1, 0, 5, 1654881393300317314),
    (32, 3.247460000, 3, 0, 11, 1916187959967292757, 1.588850000, 5, 0, 15, 800994345573693551),
    (33, -4.112730000, 0, 0, 2, 132204323449, -3.155100000, 1, 0, 5, 1788619988171542566),
    (34, 3.402140000, 3, 0, 9, 864643696026041074, 1.295860000, 2, 0, 6, 1108278312505848749),
    (35, 4.310130000, 3, 0, 9, 398408373609249365, 1.527580000, 2, 0, 6, 1331871984685079590),
    (36, -1.129730000, 1, 0, 5, 95618346909579932, 2.920750000, 2, 0, 6, 743601242240144627),
    (37, 3.733440000, 1, 0, 3, 14940336209121306, 3.986100000, 2, 0, 6, 2010771075853438196),
    (38, 3.293620000, 2, 0, 6, 2231783148071926046, -4.083050000, 0, 0, 2, 97635218425),
    (39, 2.496130000, 2, 0, 8, 903646349622995148, 0.961180000, 2, 0, 6, 423351377341687015),
    (40, 3.236610000, 2, 0, 6, 2141092053982756532, 3.094450000, 3, 0, 9, 1277401583584681853),
];

#[test]
fn generated_gap_windows() {
    for row in WINDOWS {
        let (bn, _, asks) = wandering_window(row.0);
        let res = run_window(
            OPEN,
            END,
            Some(100_000_000_000_000),
            &bn,
            &asks,
            winner(row.0),
            SHARES,
            Some(END),
            250,
        );
        assert_eq!((row.0, res.pairs, res.missed), (row.0, row.2, row.3));
        assert_eq!((row.0, res.trades.len()), (row.0, row.4));
        assert_eq!((row.0, fingerprint(&res.trades)), (row.0, row.5));
        assert!((dollars(res.total_pnl) - row.1).abs() < 1e-6, "{} {}", row.0, res.total_pnl);
    }
}

#[test]
fn generated_venue_windows() {
    for row in WINDOWS {
        let (bn, cb, asks) = wandering_window(row.0);
        let res = run_venue_swing_window(
            OPEN,
            END,
            &bn,
            &cb,
            &asks,
            winner(row.0),
            SHARES,
            Some(END),
            70,
        );
        assert_eq!((row.0, res.pairs, res.missed), (row.0, row.7, row.8));
        assert_eq!((row.0, res.trades.len()), (row.0, row.9));
        assert_eq!((row.0, fingerprint(&res.trades)), (row.0, row.10));
        assert!((dollars(res.total_pnl) - row.6).abs() < 1e-6, "{} {}", row.0, res.total_pnl);
    }
}

/// A number that stands for a list of orders, and their count.
fn orders_fingerprint(h: &mut u64, n: &mut u64, actions: &[BotAction]) {
    for a in actions {
        let (kind, side, signal_t, worst_ask, second) = match *a {
            BotAction::BuyEntry { side, signal_t, worst_ask, .. } => {
                (0, side, signal_t, worst_ask, 0)
            }
            BotAction::BuyPair { side, signal_t, worst_ask, .. } => {
                (0, side, signal_t, worst_ask, 11)
            }
            BotAction::SellFlatten { side, signal_t, worst_ask, .. } => {
                (1, side, signal_t, worst_ask, 0)
            }
        };
        let up = if side == PositionSide::Up { 5 } else { 0 };
        let x = (signal_t - OPEN) as i128 * 7 + (worst_ask / CENT) as i128 * 13 + kind * 3 + up + second;
        *h = (*h as i128 * 1_000_003 + x).rem_euclid(1i128 << 61) as u64;
        *n += 1;
    }
}

type EngineRow = (u64, u64, u64, f64, u64, usize, u64, u64, f64, u64, usize);

const ENGINES: [EngineRow; 12] = [
    (101, 8, 441102590200445933, 0.000000000, 4, 8, 8, 2094142715902703509, 0.000000000, 4, 8),
    (102, 2, 160179405578, 0.000000000, 0, 1, 3, 160433169527229629, 1.738060000, 2, 3),
    (103, 0, 0, 0.000000000, 0, 0, 5, 2304375986085122252, -1.391210000, 1, 4),
    (104, 5, 92760729188456191, 1.266710000, 4, 5, 10, 214117593430517277, 0.000000000, 4, 9),
    (105, 4, 1430630390913957698, 0.000000000, 1, 3, 9, 1236385951483686102, -1.601010000, 3, 8),
    (106, 6, 1582372069752128735, 0.000000000, 3, 6, 7, 1410270545576231979, 1.829500000, 5, 7),
    (107, 5, 998664883657430379, -2.313800000, 2, 4, 3, 97159765699719010, 4.252230000, 4, 3),
    (108, 3, 330054383339724761, 2.575090000, 4, 3, 10, 585967474333886056, 0.000000000, 4, 9),
    (109, 4, 1707348524306948505, 0.000000000, 1, 2, 8, 1484941950397608627, 0.000000000, 4, 8),
    (110, 7, 444428496647540097, 0.590950000, 4, 7, 5, 761129608591832823, 1.400270000, 4, 5),
    (111, 2, 6242357396, 0.000000000, 1, 2, 3, 116866626311007013, -7.169540000, 0, 2),
    (112, 6, 1355388414194664013, 0.000000000, 3, 6, 3, 116513846667776154, 0.881690000, 3, 3),
];

fn sparse_events(seed: u64) -> (Vec<(i64, i64, i64)>, Rng) {
    let mut r = Rng(seed);
    let (mut t, mut p, mut q) = (OPEN - 2_000, 10_000_000, 10_000_300);
    let mut out = vec![];
    while t < END {
        p += r.below(8_001) - 4_000;
        q += r.below(8_001) - 4_000;
        out.push((t, p, q));
        t += 1_500 + r.below(2_500);
    }
    (out, r)
}

fn sparse_asks(r: &mut Rng, p: i64) -> (i64, i64) {
    let up = (50 + (p - 10_000_000).div_euclid(350) + r.below(9) - 4).clamp(2, 98);
    let down = (101 - up + r.below(9) - 5).clamp(2, 98);
    (cents_of(up), cents_of(down))
}

#[test]
fn generated_live_gap_windows() {
    for row in ENGINES {
        let mut e = GapSwingEngine::new(OPEN, END, Some(100_000_000_000_000));
        let (events, mut r) = sparse_events(row.0);
        let (mut h, mut n) = (0, 0);
        for (t, p, _) in events {
            let (up, down) = sparse_asks(&mut r, p);
            e.on_asks(t, up, down);
            orders_fingerprint(&mut h, &mut n, &e.on_binance(t, cents_of(p)));
            orders_fingerprint(&mut h, &mut n, &e.tick(t + 300, up, down));
        }
        let res = e.finalize(Some(PositionSide::Up));
        assert_eq!((row.0, n, h), (row.0, row.1, row.2));
        assert_eq!((row.0, res.pairs, e.fill_count()), (row.0, row.4, row.5));
        assert!((dollars(res.total_pnl) - row.3).abs() < 1e-6, "{} {}", row.0, res.total_pnl);
    }
}

#[test]
fn generated_live_venue_windows() {
    for row in ENGINES {
        let mut e = VenueSwingEngine::new(OPEN, END, None);
        let (events, mut r) = sparse_events(row.0);
        let (mut h, mut n) = (0, 0);
        for (t, p, q) in events {
            let (up, down) = sparse_asks(&mut r, p);
            e.on_asks(t, up, down);
            orders_fingerprint(&mut h, &mut n, &e.on_binance(t, cents_of(p)));
            orders_fingerprint(&mut h, &mut n, &e.on_coinbase(t + 40, cents_of(q)));
            orders_fingerprint(&mut h, &mut n, &e.tick(t + 300, up, down));
        }
        let res = e.finalize(Some(PositionSide::Up));
        assert_eq!((row.0, n, h), (row.0, row.6, row.7));
        assert_eq!((row.0, res.pairs, e.fill_count()), (row.0, row.9, row.10));
        assert!((dollars(res.total_pnl) - row.8).abs() < 1e-6, "{} {}", row.0, res.total_pnl);
    }
}

const PAIRINGS: [(u64, u32, f64, f64); 30] = [
    (201, 1, 3.700000000, 0.163170000),
    (202, 1, -6.700000000, 0.154770000),
    (203, 1, -6.100000000, 0.166530000),
    (204, 1, 4.200000000, 0.170520000),
    (205, 1, -6.400000000, 0.161280000),
    (206, 1, -4.300000000, 0.171570000),
    (207, 0, 0.000000000, 0.000000000),
    (208, 1, 2.000000000, 0.112000000),
    (209, 1, 4.300000000, 0.171570000),
    (210, 1, 3.500000000, 0.159250000),
    (211, 1, 4.600000000, 0.173880000),
    (212, 1, -5.900000000, 0.169330000),
    (213, 1, 4.000000000, 0.168000000),
    (214, 1, 2.800000000, 0.141120000),
    (215, 1, 4.100000000, 0.169330000),
    (216, 1, -6.200000000, 0.164920000),
    (217, 0, 0.000000000, 0.000000000),
    (218, 1, 3.700000000, 0.163170000),
    (219, 1, 4.400000000, 0.172480000),
    (220, 1, -3.900000000, 0.166530000),
    (221, 1, 4.200000000, 0.170520000),
    (222, 1, -5.800000000, 0.170520000),
    (223, 1, 4.500000000, 0.173250000),
    (224, 1, 4.400000000, 0.172480000),
    (225, 1, 4.000000000, 0.168000000),
    (226, 1, -5.000000000, 0.175000000),
    (227, 1, 4.700000000, 0.174370000),
    (228, 1, 4.200000000, 0.170520000),
    (229, 1, 3.100000000, 0.149730000),
    (230, 1, 4.000000000, 0.168000000),
];

fn erf(x: f64) -> f64 {
    let (a1, a2, a3) = (0.254829592, -0.284496736, 1.421413741);
    let (a4, a5, p) = (-1.453152027, 1.061405429, 0.3275911);
    let s = if x < 0.0 { -1.0 } else { 1.0 };
    let t = 1.0 / (1.0 + p * x.abs());
    let y = 1.0 - ((((a5 * t + a4) * t + a3) * t + a2) * t + a1) * t * (-x * x).exp();
    s * y
}

fn normal(z: i64) -> i64 {
    let p = 0.5 * (1.0 + erf(z as f64 / 1e9 / std::f64::consts::SQRT_2));
    ((p * 1e9).round() as i64).clamp(0, 1_000_000_000)
}

/// Prices that move in bursts.
fn bursting_window(seed: u64) -> (Prints, Prints, Quotes) {
    let mut r = Rng(seed);
    let (mut t, mut p, mut burst) = (OPEN - 3_000, 10_000_000, 0i64);
    let (mut bn, mut cb, mut asks) = (vec![], vec![], vec![]);
    while t < END {
        if burst == 0 && r.below(60) == 0 {
            burst = (r.below(2) * 2 - 1) * (4 + r.below(4));
        }
        if burst != 0 {
            p += burst.signum() * (250 + r.below(300));
            burst -= burst.signum();
        } else {
            p += r.below(61) - 30;
        }
        bn.push((t, cents_of(p)));
        cb.push((t + 7, cents_of(p + 200 + r.below(41) - 20)));
        if r.below(3) == 0 {
            let up = (50 + (p - 10_000_000).div_euclid(300) + r.below(5) - 2).clamp(2, 98);
            let down = (101 - up + r.below(3) - 1).clamp(2, 98);
            asks.push((t + 20, cents_of(up), cents_of(down)));
        }
        t += 120 + r.below(60);
    }
    (bn, cb, asks)
}

#[test]
fn generated_pairing_windows() {
    for row in PAIRINGS {
        let (bn, cb, asks) = bursting_window(row.0);
        let res = run_pairing_window(
            OPEN,
            END,
            Some(100_000_000_000_000),
            &bn,
            &cb,
            &asks,
            SHARES,
            &normal,
        );
        assert_eq!((row.0, res.legs), (row.0, row.1));
        assert!((dollars(res.gross) - row.2).abs() < 1e-6, "{} {}", row.0, res.gross);
        assert!((dollars(res.fees) - row.3).abs() < 1e-6, "{} {}", row.0, res.fees);
        assert_eq!(res.total_pnl, res.gross - res.fees);
    }
}
