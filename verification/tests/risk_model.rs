use percolator_risk::error::EngineError;
use percolator_risk::identity::Identity;
use percolator_risk::oracle::PriceFeed;
use percolator_risk::portfolio::{Exposure, Portfolio};
use percolator_risk::risk::{evaluate, resolve_prices, PortfolioDerived, PriceGuard, summarize};

const UNIT: i64 = 1_000_000_000;

fn id(tag: u8) -> Identity {
    Identity::from_bytes(&[tag; 32])
}

fn guard(now: i64) -> PriceGuard {
    PriceGuard { now, max_staleness: 60, min_confidence: 1_000_000 }
}

fn feed_with(instrument: Identity, price: i64, timestamp: i64) -> PriceFeed {
    let mut feed = PriceFeed::new();
    feed.initialize(instrument, id(9)).unwrap();
    feed.update_price(id(9), instrument, price, timestamp, 500).unwrap();
    feed
}

fn long_ten_at_ninety() -> Portfolio {
    let e = Exposure::new(id(1), 10 * UNIT, 90 * UNIT, 100_000_000, 50_000_000).unwrap();
    Portfolio::new(id(7), 50 * UNIT as u64, vec![e]).unwrap()
}

#[test]
fn long_position_above_entry_is_healthy() {
    let feed = feed_with(id(1), 100 * UNIT, 1_000);
    let d = evaluate(&long_ten_at_ninety(), &feed, &guard(1_010)).unwrap();
    assert_eq!(
        d,
        PortfolioDerived {
            equity: 150 * UNIT,
            im: 100 * UNIT,
            mm: 50 * UNIT,
            health: 100 * UNIT,
            free_collateral: 50 * UNIT,
        }
    );
    assert!(d.health >= 0);
}

#[test]
fn price_drop_makes_position_liquidatable() {
    let feed = feed_with(id(1), 80 * UNIT, 1_000);
    let d = evaluate(&long_ten_at_ninety(), &feed, &guard(1_010)).unwrap();
    assert_eq!(d.equity, -50 * UNIT);
    assert_eq!(d.mm, 40 * UNIT);
    assert_eq!(d.im, 80 * UNIT);
    assert_eq!(d.health, -90 * UNIT);
    assert_eq!(d.free_collateral, -130 * UNIT);
    assert!(d.health < 0);
}

#[test]
fn empty_portfolio_has_health_equal_to_collateral() {
    let p = Portfolio::new(id(7), 1_234, vec![]).unwrap();
    let d = evaluate(&p, &PriceFeed::new(), &guard(0)).unwrap();
    assert_eq!(
        d,
        PortfolioDerived { equity: 1_234, im: 0, mm: 0, health: 1_234, free_collateral: 1_234 }
    );
}

#[test]
fn health_and_free_collateral_are_differences() {
    let mut feed = PriceFeed::new();
    feed.initialize(id(1), id(9)).unwrap();
    feed.initialize(id(2), id(9)).unwrap();
    feed.update_price(id(9), id(1), 1_234_567_891, 5, 0).unwrap();
    feed.update_price(id(9), id(2), 987_654_321_123, 5, 0).unwrap();
    let a = Exposure::new(id(1), 3_333_333_333, 1_000_000_007, 333_333_333, 111_111_111).unwrap();
    let b = Exposure::new(id(2), -7_777_777, 999_999_999_999, 200_000_000, 200_000_000).unwrap();
    let p = Portfolio::new(id(7), 5 * UNIT as u64, vec![a, b]).unwrap();
    let d = evaluate(&p, &feed, &guard(5)).unwrap();
    assert_eq!(d.health, d.equity - d.mm);
    assert_eq!(d.free_collateral, d.equity - d.im);
    // 3.333333333 * 0.234567884 rounds to 0.781892946, and
    // -0.007777777 * (987.654321123 - 999.999999999) to 0.096021937.
    assert_eq!(d.equity, 5 * UNIT + 781_892_946 + 96_021_937);
    assert_eq!(d.im, 1_371_742_099 + 1_536_351_012);
    assert_eq!(d.mm, 457_247_366 + 1_536_351_012);
}

#[test]
fn short_position_loses_when_price_rises() {
    let e = Exposure::new(id(1), -2 * UNIT, 100 * UNIT, 100_000_000, 50_000_000).unwrap();
    let p = Portfolio::new(id(7), 0, vec![e]).unwrap();
    let low = summarize(&p, &vec![90 * UNIT]).unwrap();
    let high = summarize(&p, &vec![110 * UNIT]).unwrap();
    assert_eq!(low.equity, 20 * UNIT);
    assert_eq!(high.equity, -20 * UNIT);
    assert!(low.equity >= high.equity);
}

#[test]
fn long_position_gains_when_price_rises() {
    let e = Exposure::new(id(1), 2 * UNIT, 100 * UNIT, 100_000_000, 50_000_000).unwrap();
    let p = Portfolio::new(id(7), 0, vec![e]).unwrap();
    let low = summarize(&p, &vec![90 * UNIT]).unwrap();
    let high = summarize(&p, &vec![110 * UNIT]).unwrap();
    assert_eq!(low.equity, -20 * UNIT);
    assert_eq!(high.equity, 20 * UNIT);
}

#[test]
fn products_round_toward_zero() {
    // 0.000000003 * 0.5 = 0.0000000015, which rounds to 1 raw unit; the
    // short side gives -1, not -2.
    let long = Exposure::new(id(1), 3, 0, 0, 0).unwrap();
    let short = Exposure::new(id(1), -3, 0, 0, 0).unwrap();
    let lp = Portfolio::new(id(7), 0, vec![long]).unwrap();
    let sp = Portfolio::new(id(7), 0, vec![short]).unwrap();
    assert_eq!(summarize(&lp, &vec![500_000_000]).unwrap().equity, 1);
    assert_eq!(summarize(&sp, &vec![500_000_000]).unwrap().equity, -1);
}

#[test]
fn overflowing_equity_is_a_hard_failure() {
    let e = Exposure::new(id(1), i64::MAX, 0, 0, 0).unwrap();
    let p = Portfolio::new(id(7), 0, vec![e]).unwrap();
    assert_eq!(summarize(&p, &vec![i64::MAX]), Err(EngineError::ArithmeticOverflow));
    let q = Portfolio::new(id(7), u64::MAX, vec![]).unwrap();
    assert_eq!(summarize(&q, &vec![]), Err(EngineError::ArithmeticOverflow));
}

#[test]
fn first_unusable_price_aborts_the_evaluation() {
    let mut feed = PriceFeed::new();
    feed.initialize(id(1), id(9)).unwrap();
    feed.update_price(id(9), id(1), 100 * UNIT, 1_000, 0).unwrap();
    let a = Exposure::new(id(1), UNIT, 100 * UNIT, 0, 0).unwrap();
    let b = Exposure::new(id(2), UNIT, 100 * UNIT, 0, 0).unwrap();
    let c = Exposure::new(id(3), UNIT, 100 * UNIT, 0, 0).unwrap();
    let p = Portfolio::new(id(7), 0, vec![a, b, c]).unwrap();
    assert_eq!(evaluate(&p, &feed, &guard(1_000)), Err(EngineError::UnknownInstrument(id(2))));
    assert_eq!(resolve_prices(&p, &feed, &guard(2_000)), Err(EngineError::StalePrice(id(1))));
}

#[test]
fn liquidatable_means_negative_health() {
    let mut d = PortfolioDerived { equity: 0, im: 0, mm: 0, health: 0, free_collateral: 0 };
    assert!(!d.is_liquidatable());
    d.health = -1;
    assert!(d.is_liquidatable());
    d.health = i64::MAX;
    assert!(!d.is_liquidatable());
}

#[test]
fn portfolio_holds_a_bounded_number_of_exposures() {
    let e = Exposure::new(id(1), 1, 1, 0, 0).unwrap();
    assert!(Portfolio::new(id(7), 0, vec![e; 16]).is_ok());
    assert_eq!(Portfolio::new(id(7), 0, vec![e; 17]).unwrap_err(), EngineError::MalformedAccount);
    let mut bad = e;
    bad.risk_weight_maintenance = 1;
    assert!(!bad.is_wf());
    assert_eq!(Portfolio::new(id(7), 0, vec![e, bad]).unwrap_err(), EngineError::MalformedAccount);
}
