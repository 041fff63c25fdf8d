use polybot::replay::{winner_named, Notes, Replayed, Tally};
use polybot::strategy::sides::PositionSide;

const ATTO: i128 = 1_000_000_000_000_000_000;

fn window(cents: i128, pairs: u64, expected: Option<i128>) -> Replayed {
    Replayed { pnl: cents * ATTO / 100, pairs, expected: expected.map(|c| c * ATTO / 100) }
}

#[test]
fn winners_by_name() {
    assert_eq!(winner_named(Some("UP")), Some(PositionSide::Up));
    assert_eq!(winner_named(Some("DOWN")), Some(PositionSide::Down));
    assert_eq!(winner_named(Some("up")), None);
    assert_eq!(winner_named(None), None);
}

#[test]
fn a_tally_adds_up() {
    let mut t = Tally::new();
    let notes = t.add(&window(120, 2, Some(120)));
    assert_eq!(notes, Notes { notable: true, difference: false });
    t.add(&window(-2, 0, Some(-2)));
    t.add(&window(-1, 1, None));
    assert!(t.agrees());
    assert_eq!((t.n, t.pairs, t.neg, t.mismatches), (3, 3, 1, 0));
    assert_eq!((t.total, t.expected), (117 * ATTO / 100, 118 * ATTO / 100));
    let notes = t.add(&window(50, 1, Some(51)));
    assert!(notes.difference && !t.agrees());
}

#[test]
fn half_a_cent_is_the_tolerance() {
    let mut t = Tally::new();
    let half = ATTO / 200;
    t.add(&Replayed { pnl: half, pairs: 0, expected: Some(0) });
    assert!(t.agrees());
    t.add(&Replayed { pnl: half + 1, pairs: 0, expected: Some(0) });
    assert!(!t.agrees());
}

#[test]
fn notes_are_few() {
    let mut t = Tally::new();
    for i in 0..20 {
        let notes = t.add(&window(100, 0, Some(200)));
        assert_eq!(notes, Notes { notable: i < 5, difference: i < 10 });
    }
    assert!(t.add(&window(501, 0, None)).notable);
    assert!(!t.add(&window(500, 0, None)).notable);
    assert!(t.add(&window(-501, 0, None)).notable);
}
