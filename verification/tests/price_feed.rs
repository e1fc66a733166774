use percolator_risk::error::EngineError;
use percolator_risk::identity::Identity;
use percolator_risk::oracle::{PriceFeed, PriceOracle};

fn id(tag: u8) -> Identity {
    Identity::from_bytes(&[tag; 32])
}

fn feed() -> PriceFeed {
    let mut feed = PriceFeed::new();
    feed.initialize(id(1), id(9)).unwrap();
    feed.update_price(id(9), id(1), 100_000_000_000, 1_000, 250).unwrap();
    feed
}

#[test]
fn fresh_confident_price_is_returned() {
    assert_eq!(feed().get_price(id(1), 1_030, 60, 250), Ok(100_000_000_000));
}

#[test]
fn unknown_instrument_is_reported() {
    assert_eq!(feed().get_price(id(2), 1_030, 60, 250), Err(EngineError::UnknownInstrument(id(2))));
    assert_eq!(
        PriceFeed::new().get_price(id(1), 0, 0, 0),
        Err(EngineError::UnknownInstrument(id(1)))
    );
}

#[test]
fn price_older_than_allowed_is_stale() {
    assert_eq!(feed().get_price(id(1), 1_060, 60, 250), Ok(100_000_000_000));
    assert_eq!(feed().get_price(id(1), 1_061, 60, 250), Err(EngineError::StalePrice(id(1))));
    assert_eq!(feed().get_price(id(1), i64::MAX, 60, 250), Err(EngineError::StalePrice(id(1))));
}

#[test]
fn price_from_the_future_is_not_stale() {
    assert_eq!(feed().get_price(id(1), 900, 0, 250), Ok(100_000_000_000));
    assert_eq!(feed().get_price(id(1), i64::MIN, 0, 250), Ok(100_000_000_000));
}

#[test]
fn wide_confidence_interval_is_rejected() {
    assert_eq!(feed().get_price(id(1), 1_030, 60, 249), Err(EngineError::LowConfidence(id(1))));
    assert_eq!(feed().get_price(id(1), 1_030, 60, u64::MAX), Ok(100_000_000_000));
}

#[test]
fn staleness_is_reported_before_confidence() {
    assert_eq!(feed().get_price(id(1), 2_000, 60, 0), Err(EngineError::StalePrice(id(1))));
}

#[test]
fn update_with_older_or_equal_timestamp_changes_nothing() {
    let mut f = feed();
    assert_eq!(
        f.update_price(id(9), id(1), 77, 1_000, 1),
        Err(EngineError::NonMonotonicTimestamp)
    );
    assert_eq!(f.update_price(id(9), id(1), 77, 999, 1), Err(EngineError::NonMonotonicTimestamp));
    assert_eq!(
        f.update_price(id(9), id(1), 77, i64::MIN, 1),
        Err(EngineError::NonMonotonicTimestamp)
    );
    // The stored price, timestamp and confidence are as before.
    assert_eq!(f.get_price(id(1), 1_060, 60, 250), Ok(100_000_000_000));
    assert_eq!(f.get_price(id(1), 1_061, 60, 250), Err(EngineError::StalePrice(id(1))));
    assert_eq!(f.get_price(id(1), 1_000, 60, 249), Err(EngineError::LowConfidence(id(1))));
}

#[test]
fn update_by_another_authority_changes_nothing() {
    let mut f = feed();
    assert_eq!(f.update_price(id(8), id(1), 77, 2_000, 1), Err(EngineError::Unauthorized));
    assert_eq!(f.get_price(id(1), 1_030, 60, 250), Ok(100_000_000_000));
}

#[test]
fn authority_is_checked_before_the_timestamp() {
    let mut f = feed();
    assert_eq!(f.update_price(id(8), id(1), 77, 5, 1), Err(EngineError::Unauthorized));
}

#[test]
fn update_of_unknown_instrument_is_refused() {
    let mut f = feed();
    assert_eq!(
        f.update_price(id(9), id(2), 77, 2_000, 1),
        Err(EngineError::UnknownInstrument(id(2)))
    );
    assert_eq!(f.get_price(id(2), 2_000, 60, 250), Err(EngineError::UnknownInstrument(id(2))));
}

#[test]
fn accepted_update_overwrites_the_price_point() {
    let mut f = feed();
    assert_eq!(f.update_price(id(9), id(1), -5, 1_001, 7), Ok(()));
    assert_eq!(f.get_price(id(1), 1_001, 0, 7), Ok(-5));
    assert_eq!(f.get_price(id(1), 1_001, 0, 6), Err(EngineError::LowConfidence(id(1))));
    // No history: the earlier point is gone, and the new timestamp rules.
    assert_eq!(f.update_price(id(9), id(1), 100, 1_001, 7), Err(EngineError::NonMonotonicTimestamp));
}

#[test]
fn instrument_is_initialized_once() {
    let mut f = feed();
    assert_eq!(f.initialize(id(1), id(9)), Err(EngineError::Unauthorized));
    assert_eq!(f.initialize(id(1), id(8)), Err(EngineError::Unauthorized));
    // The record and its authority are as before.
    assert_eq!(f.get_price(id(1), 1_030, 60, 250), Ok(100_000_000_000));
    assert_eq!(f.update_price(id(8), id(1), 1, 2_000, 0), Err(EngineError::Unauthorized));
}

#[test]
fn initialized_instrument_has_no_price_yet() {
    let mut f = PriceFeed::new();
    assert_eq!(f.initialize(id(3), id(9)), Ok(()));
    assert_eq!(f.get_price(id(3), 0, 0, 0), Ok(0));
    assert_eq!(f.get_price(id(3), 1_700_000_000, 60, 0), Err(EngineError::StalePrice(id(3))));
    assert_eq!(f.update_price(id(9), id(3), 5, 0, 0), Err(EngineError::NonMonotonicTimestamp));
    assert_eq!(f.update_price(id(9), id(3), 5, 1, 0), Ok(()));
}

#[test]
fn instruments_are_priced_independently() {
    let mut f = feed();
    f.initialize(id(2), id(8)).unwrap();
    f.update_price(id(8), id(2), 42, 10, 0).unwrap();
    assert_eq!(f.get_price(id(1), 1_000, 0, 250), Ok(100_000_000_000));
    assert_eq!(f.get_price(id(2), 10, 0, 0), Ok(42));
    assert_eq!(f.update_price(id(9), id(2), 1, 11, 0), Err(EngineError::Unauthorized));
}

#[test]
fn refused_update_leaves_the_record_as_it_was() {
    let mut f = feed();
    let before = f.record(id(1)).unwrap();
    assert_eq!(
        before,
        PriceOracle {
            authority: id(9),
            instrument: id(1),
            price: 100_000_000_000,
            timestamp: 1_000,
            confidence: 250,
        }
    );
    assert!(f.update_price(id(9), id(1), 1, 1_000, 1).is_err());
    assert!(f.update_price(id(9), id(1), 1, 999, 1).is_err());
    assert!(f.update_price(id(8), id(1), 1, 2_000, 1).is_err());
    assert!(f.initialize(id(1), id(8)).is_err());
    assert_eq!(f.record(id(1)), Some(before));
    assert_eq!(f.record(id(2)), None);
}

#[test]
fn timestamps_never_move_back() {
    let mut f = feed();
    let mut last = f.record(id(1)).unwrap().timestamp;
    for t in [1_001, 1_001, 5, 2_000, 1_999, i64::MAX, i64::MAX, 0] {
        let _ = f.update_price(id(9), id(1), t, t, 0);
        let now = f.record(id(1)).unwrap().timestamp;
        assert!(now >= last);
        last = now;
    }
    assert_eq!(last, i64::MAX);
}
