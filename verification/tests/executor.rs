use percolator_risk::error::{Disposition, EngineError, Failure, RejectReason, Stage};
use percolator_risk::executor::{
    conclude_liquidation, execute_liquidation, CloseoutInstruction, ExposureDelta, FetchOutcome,
    LiquidationConfig, LiquidationEvent, LiquidationRequest, LiquidationStep, PendingLiquidation,
    RouterOutcome,
};
use percolator_risk::identity::Identity;
use percolator_risk::oracle::PriceFeed;
use percolator_risk::portfolio::Exposure;
use percolator_risk::risk::PriceGuard;

const UNIT: i64 = 1_000_000_000;

fn id(tag: u8) -> Identity {
    Identity::from_bytes(&[tag; 32])
}

fn put(data: &mut [u8], off: usize, bytes: &[u8]) {
    data[off..off + bytes.len()].copy_from_slice(bytes);
}

fn record(collateral: i64, exposures: &[Exposure]) -> Vec<u8> {
    let mut data = vec![0u8; 1120];
    put(&mut data, 0, b"PERCPORT");
    data[8] = 1;
    data[9] = exposures.len() as u8;
    put(&mut data, 16, &id(7).to_bytes());
    put(&mut data, 48, &(collateral as u64).to_le_bytes());
    for (i, e) in exposures.iter().enumerate() {
        let off = 96 + 64 * i;
        put(&mut data, off, &e.instrument.to_bytes());
        put(&mut data, off + 32, &e.size.to_le_bytes());
        put(&mut data, off + 40, &e.entry_price.to_le_bytes());
        put(&mut data, off + 48, &e.risk_weight_initial.to_le_bytes());
        put(&mut data, off + 56, &e.risk_weight_maintenance.to_le_bytes());
    }
    data
}

fn long(size: i64, entry: i64) -> Exposure {
    Exposure::new(id(1), size, entry, 100_000_000, 50_000_000).unwrap()
}

fn feed_at(price: i64) -> PriceFeed {
    let mut feed = PriceFeed::new();
    feed.initialize(id(1), id(9)).unwrap();
    feed.update_price(id(9), id(1), price, 1_000, 0).unwrap();
    feed
}

fn config(safety_buffer: u64) -> LiquidationConfig {
    LiquidationConfig {
        guard: PriceGuard { now: 1_000, max_staleness: 60, min_confidence: 0 },
        safety_buffer,
    }
}

fn request(max_size: Option<u64>) -> LiquidationRequest {
    LiquidationRequest { portfolio_ref: id(20), max_size }
}

fn stop(stage: Stage, error: EngineError) -> LiquidationStep {
    LiquidationStep::Stop(Failure { portfolio: id(20), stage, error })
}

fn pending(close: u64, pre_health: i64, realized_loss: i128) -> PendingLiquidation {
    PendingLiquidation {
        instruction: CloseoutInstruction {
            portfolio_ref: id(20),
            deltas: vec![ExposureDelta { instrument: id(1), close_size: close }],
        },
        pre_health,
        realized_loss,
    }
}

#[test]
fn healthy_portfolio_is_not_liquidated() {
    let fetched = FetchOutcome::Found(record(50 * UNIT, &[long(10 * UNIT, 90 * UNIT)]));
    assert_eq!(
        execute_liquidation(&request(None), &fetched, &feed_at(100 * UNIT), &config(0)),
        stop(Stage::Evaluate, EngineError::NotLiquidatable)
    );
    // Neither a cap nor a buffer makes a healthy portfolio liquidatable.
    assert_eq!(
        execute_liquidation(&request(Some(5)), &fetched, &feed_at(100 * UNIT), &config(u64::MAX)),
        stop(Stage::Evaluate, EngineError::NotLiquidatable)
    );
    let empty = FetchOutcome::Found(record(0, &[]));
    assert_eq!(
        execute_liquidation(&request(None), &empty, &feed_at(100 * UNIT), &config(0)),
        stop(Stage::Evaluate, EngineError::NotLiquidatable)
    );
}

#[test]
fn closed_account_is_not_liquidatable() {
    assert_eq!(
        execute_liquidation(&request(None), &FetchOutcome::Missing, &feed_at(1), &config(0)),
        stop(Stage::Fetch, EngineError::NotLiquidatable)
    );
}

#[test]
fn failed_fetch_is_a_network_fault() {
    assert_eq!(
        execute_liquidation(&request(None), &FetchOutcome::Fault, &feed_at(1), &config(0)),
        stop(Stage::Fetch, EngineError::NetworkFault)
    );
}

#[test]
fn malformed_account_stops_the_attempt() {
    let mut data = record(50 * UNIT, &[long(10 * UNIT, 90 * UNIT)]);
    data[0] = 0;
    assert_eq!(
        execute_liquidation(
            &request(None),
            &FetchOutcome::Found(data),
            &feed_at(80 * UNIT),
            &config(0)
        ),
        stop(Stage::Decode, EngineError::MalformedAccount)
    );
}

#[test]
fn unusable_price_stops_the_attempt() {
    let fetched = FetchOutcome::Found(record(50 * UNIT, &[long(10 * UNIT, 90 * UNIT)]));
    let mut late = config(0);
    late.guard.now = 1_061;
    assert_eq!(
        execute_liquidation(&request(None), &fetched, &feed_at(80 * UNIT), &late),
        stop(Stage::Evaluate, EngineError::StalePrice(id(1)))
    );
    assert_eq!(
        execute_liquidation(&request(None), &fetched, &PriceFeed::new(), &config(0)),
        stop(Stage::Evaluate, EngineError::UnknownInstrument(id(1)))
    );
    let huge = FetchOutcome::Found(record(0, &[long(i64::MIN, 0)]));
    assert_eq!(
        execute_liquidation(&request(None), &huge, &feed_at(i64::MAX), &config(0)),
        stop(Stage::Evaluate, EngineError::ArithmeticOverflow)
    );
}

#[test]
fn closeout_restores_health_with_the_least_reduction() {
    // collateral 50, long 10 entered at 90, price 86: equity 10, mm 43.
    // Keeping k leaves margin 4.3 k, which is at most 10 up to k = 2.32558139.
    let fetched = FetchOutcome::Found(record(50 * UNIT, &[long(10 * UNIT, 90 * UNIT)]));
    let step = execute_liquidation(&request(None), &fetched, &feed_at(86 * UNIT), &config(0));
    assert_eq!(step, LiquidationStep::Submit(pending(7_674_418_610, -33 * UNIT, 30_697_674_440)));
}

#[test]
fn safety_buffer_enlarges_the_closeout() {
    let fetched = FetchOutcome::Found(record(50 * UNIT, &[long(10 * UNIT, 90 * UNIT)]));
    let step = execute_liquidation(
        &request(None),
        &fetched,
        &feed_at(86 * UNIT),
        &config(2 * UNIT as u64),
    );
    assert_eq!(step, LiquidationStep::Submit(pending(8_139_534_890, -33 * UNIT, 32_558_139_560)));
}

#[test]
fn cap_makes_the_closeout_partial() {
    let fetched = FetchOutcome::Found(record(50 * UNIT, &[long(10 * UNIT, 90 * UNIT)]));
    let step = execute_liquidation(
        &request(Some(3 * UNIT as u64)),
        &fetched,
        &feed_at(86 * UNIT),
        &config(0),
    );
    assert_eq!(step, LiquidationStep::Submit(pending(3_000_000_000, -33 * UNIT, 12_000_000_000)));
    let nothing =
        execute_liquidation(&request(Some(0)), &fetched, &feed_at(86 * UNIT), &config(0));
    assert_eq!(nothing, LiquidationStep::Submit(pending(0, -33 * UNIT, 0)));
}

#[test]
fn portfolio_beyond_rescue_is_closed_out_entirely() {
    // Price 80: equity -50, so no closeout brings health to zero.
    let fetched = FetchOutcome::Found(record(50 * UNIT, &[long(10 * UNIT, 90 * UNIT)]));
    let step = execute_liquidation(&request(None), &fetched, &feed_at(80 * UNIT), &config(0));
    assert_eq!(
        step,
        LiquidationStep::Submit(pending(10_000_000_000, -90 * UNIT, 100_000_000_000))
    );
    let capped = execute_liquidation(
        &request(Some(4 * UNIT as u64)),
        &fetched,
        &feed_at(80 * UNIT),
        &config(0),
    );
    assert_eq!(
        capped,
        LiquidationStep::Submit(pending(4_000_000_000, -90 * UNIT, 40_000_000_000))
    );
}

#[test]
fn second_liquidator_finds_the_portfolio_restored() {
    let feed = feed_at(86 * UNIT);
    let before = record(50 * UNIT, &[long(10 * UNIT, 90 * UNIT)]);
    // Both liquidators saw the portfolio underwater.  The first one acts.
    let first =
        execute_liquidation(&request(None), &FetchOutcome::Found(before), &feed, &config(0));
    let closed = match first {
        LiquidationStep::Submit(p) => p.instruction.deltas[0].close_size as i64,
        LiquidationStep::Stop(f) => panic!("first attempt stopped: {:?}", f),
    };
    // The router executes the closeout at the mark price: the closed part's
    // loss of 4 per unit leaves the collateral, the rest stays open.
    let realized = closed as i128 * (86 - 90);
    let after = record(
        (50 * UNIT as i128 + realized) as i64,
        &[long(10 * UNIT - closed, 90 * UNIT)],
    );
    // The second one fetches afresh and must not submit.
    let second =
        execute_liquidation(&request(None), &FetchOutcome::Found(after), &feed, &config(0));
    assert_eq!(second, stop(Stage::Evaluate, EngineError::NotLiquidatable));
    match second {
        LiquidationStep::Stop(f) => {
            assert_eq!(f.error.disposition(), Disposition::RaceLost);
            assert!(f.error.is_retryable());
        }
        LiquidationStep::Submit(_) => unreachable!(),
    }
}

#[test]
fn accepted_closeout_yields_the_event() {
    let event =
        conclude_liquidation(pending(7, -33, 28), RouterOutcome::Accepted, 1_234).unwrap();
    assert_eq!(
        event,
        LiquidationEvent {
            portfolio_ref: id(20),
            pre_health: -33,
            exposures_closed: vec![ExposureDelta { instrument: id(1), close_size: 7 }],
            realized_loss: 28,
            timestamp: 1_234,
        }
    );
}

#[test]
fn router_rejection_is_reported_with_its_reason() {
    let lost =
        conclude_liquidation(pending(7, -33, 28), RouterOutcome::Rejected(RejectReason::PreconditionFailed), 0)
            .unwrap_err();
    assert_eq!(
        lost,
        Failure {
            portfolio: id(20),
            stage: Stage::Submit,
            error: EngineError::RouterRejected(RejectReason::PreconditionFailed),
        }
    );
    assert_eq!(lost.error.disposition(), Disposition::RaceLost);
    let denied =
        conclude_liquidation(pending(7, -33, 28), RouterOutcome::Rejected(RejectReason::BadAuthority), 0)
            .unwrap_err();
    assert_eq!(denied.error, EngineError::RouterRejected(RejectReason::BadAuthority));
    assert_eq!(denied.error.disposition(), Disposition::Fatal);
    let fault = conclude_liquidation(pending(7, -33, 28), RouterOutcome::Fault, 0).unwrap_err();
    assert_eq!(
        fault,
        Failure { portfolio: id(20), stage: Stage::Submit, error: EngineError::NetworkFault }
    );
    assert_eq!(fault.error.disposition(), Disposition::Transient);
}

#[test]
fn router_error_numbers_are_read() {
    assert_eq!(RejectReason::from_code(0x1770), RejectReason::PreconditionFailed);
    assert_eq!(RejectReason::from_code(0x1771), RejectReason::BadAuthority);
    assert_eq!(RejectReason::from_code(0x1772), RejectReason::MalformedAccount);
    assert_eq!(RejectReason::from_code(0x1773), RejectReason::Other(0x1773));
    assert_eq!(RejectReason::from_code(0), RejectReason::Other(0));
    assert_eq!(RejectReason::from_code(u32::MAX), RejectReason::Other(u32::MAX));
}

#[test]
fn errors_are_classified_for_the_retry_loop() {
    let retryable = [
        EngineError::NotLiquidatable,
        EngineError::RouterRejected(RejectReason::PreconditionFailed),
        EngineError::NetworkFault,
    ];
    for e in retryable {
        assert!(e.is_retryable(), "{:?}", e);
    }
    let fatal = [
        EngineError::MalformedAccount,
        EngineError::ArithmeticOverflow,
        EngineError::Unauthorized,
        EngineError::RouterRejected(RejectReason::BadAuthority),
        EngineError::RouterRejected(RejectReason::MalformedAccount),
        EngineError::RouterRejected(RejectReason::Other(6_001)),
        EngineError::StalePrice(id(1)),
        EngineError::LowConfidence(id(1)),
        EngineError::UnknownInstrument(id(1)),
        EngineError::NonMonotonicTimestamp,
    ];
    for e in fatal {
        assert_eq!(e.disposition(), Disposition::Fatal, "{:?}", e);
        assert!(!e.is_retryable(), "{:?}", e);
    }
}

#[test]
fn closeout_instruction_is_encoded_for_the_router() {
    let instruction = CloseoutInstruction {
        portfolio_ref: id(20),
        deltas: vec![
            ExposureDelta { instrument: id(1), close_size: 0x0102_0304_0506_0708 },
            ExposureDelta { instrument: id(2), close_size: 0 },
        ],
    };
    let mut expected = vec![0x4Cu8];
    expected.extend_from_slice(&[20u8; 32]);
    expected.extend_from_slice(&[2, 0, 0, 0, 0, 0, 0, 0]);
    expected.extend_from_slice(&[1u8; 32]);
    expected.extend_from_slice(&[8, 7, 6, 5, 4, 3, 2, 1]);
    expected.extend_from_slice(&[2u8; 32]);
    expected.extend_from_slice(&[0u8; 8]);
    assert_eq!(instruction.encode(), expected);
    assert_eq!(instruction.encode().len(), 41 + 40 * 2);
    let empty = CloseoutInstruction { portfolio_ref: id(20), deltas: vec![] };
    assert_eq!(empty.encode().len(), 41);
}

#[test]
fn plan_names_every_exposure_in_order() {
    let a = Exposure::new(id(1), 10 * UNIT, 100 * UNIT, 100_000_000, 50_000_000).unwrap();
    let b = Exposure::new(id(2), -10 * UNIT, 100 * UNIT, 100_000_000, 50_000_000).unwrap();
    let mut feed = feed_at(96 * UNIT);
    feed.initialize(id(2), id(9)).unwrap();
    feed.update_price(id(9), id(2), 101 * UNIT, 1_000, 0).unwrap();
    let fetched = FetchOutcome::Found(record(80 * UNIT, &[a, b]));
    let step = execute_liquidation(&request(None), &fetched, &feed, &config(0));
    // Long closed at 96 after entry at 100 loses 4 per unit; the short
    // closed at 101 loses 1 per unit.
    assert_eq!(
        step,
        LiquidationStep::Submit(PendingLiquidation {
            instruction: CloseoutInstruction {
                portfolio_ref: id(20),
                deltas: vec![
                    ExposureDelta { instrument: id(1), close_size: 6_954_314_730 },
                    ExposureDelta { instrument: id(2), close_size: 6_954_314_730 },
                ],
            },
            pre_health: -68_500_000_000,
            realized_loss: 34_771_573_650,
        })
    );
}
