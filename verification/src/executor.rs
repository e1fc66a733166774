//! The liquidation executor: the decisions of one liquidation attempt.
//!
//! An attempt runs in this order.  The caller fetches the portfolio
//! account afresh and hands the outcome to `execute_liquidation`, which
//! evaluates the portfolio and either stops the attempt or sizes a
//! closeout.  The caller submits the closeout to the router, which checks
//! the health once more as it executes, and hands the router's answer to
//! `conclude_liquidation`.  Nothing is changed before the submission, so
//! an attempt may be abandoned at any point before it.

use vstd::prelude::*;
use crate::error::EngineError;
use crate::error::Failure;
use crate::error::RejectReason;
use crate::error::Stage;
use crate::fixed::fixed_mul;
use crate::fixed::magnitude;
use crate::identity::lemma_identity_bytes_len;
use crate::identity::Identity;
use crate::oracle::PriceFeed;
use crate::oracle::PriceOracle;
use crate::portfolio::Exposure;
use crate::portfolio::Portfolio;
use crate::portfolio::PortfolioView;
use crate::portfolio::MAX_EXPOSURES;
use crate::records::decode_portfolio;
use crate::records::is_portfolio_record;
use crate::records::record_portfolio;
use crate::risk::evaluate_spec;
use crate::risk::gain_of;
use crate::risk::pnl_bound;
use crate::risk::resolve_prices;
use crate::risk::resolve_spec;
use crate::risk::summarize;
use crate::risk::summary_of;
use crate::risk::PortfolioDerived;
use crate::risk::PriceGuard;
use crate::sizing::held;
use crate::sizing::size_liquidation;
use crate::sizing::sizing_spec;
use crate::wire::word_bytes;
use crate::wire::write_u64;

verus! {

/// The settings of a liquidator.
#[derive(Clone, Copy, Debug, PartialEq, Eq, Structural)]
pub struct LiquidationConfig {
    /// The instant of the attempt and the limits on the prices it uses.
    pub guard: PriceGuard,
    /// The health that a closeout aims for, above zero.
    pub safety_buffer: u64,
}

/// A request to liquidate one portfolio.
#[derive(Clone, Copy, Debug, PartialEq, Eq)]
pub struct LiquidationRequest {
    /// Address of the portfolio account.
    pub portfolio_ref: Identity,
    /// The most that may be closed in total, over all exposures.
    pub max_size: Option<u64>,
}

/// What the fresh fetch of the portfolio account brought.
#[derive(Clone, Debug, PartialEq, Eq)]
pub enum FetchOutcome {
    /// The bytes of the account.
    Found(Vec<u8>),
    /// The account does not exist any more.
    Missing,
    /// The store could not be reached.
    Fault,
}

/// What the router answered to a closeout.
#[derive(Clone, Copy, Debug, PartialEq, Eq, Structural)]
pub enum RouterOutcome {
    /// The closeout was executed.
    Accepted,
    /// The router turned the closeout down.
    Rejected(RejectReason),
    /// The router could not be reached.
    Fault,
}

/// The reduction of one exposure: how much of its magnitude is closed.
#[derive(Clone, Copy, Debug, PartialEq, Eq, Structural)]
pub struct ExposureDelta {
    pub instrument: Identity,
    pub close_size: u64,
}

/// The instruction that is submitted to the router.
#[derive(Clone, Debug, PartialEq, Eq)]
pub struct CloseoutInstruction {
    pub portfolio_ref: Identity,
    /// One delta for each exposure of the portfolio, in their order.
    pub deltas: Vec<ExposureDelta>,
}

/// A closeout that awaits the router's answer.
#[derive(Clone, Debug, PartialEq, Eq)]
pub struct PendingLiquidation {
    pub instruction: CloseoutInstruction,
    /// The health that made the portfolio liquidatable.
    pub pre_health: i64,
    /// The loss that the closeout realizes at the prices of the attempt;
    /// negative where it realizes a profit.
    pub realized_loss: i128,
}

/// The record of a liquidation that the router executed.
#[derive(Clone, Debug, PartialEq, Eq)]
pub struct LiquidationEvent {
    pub portfolio_ref: Identity,
    pub pre_health: i64,
    pub exposures_closed: Vec<ExposureDelta>,
    pub realized_loss: i128,
    pub timestamp: i64,
}

/// What `execute_liquidation` decides.
#[derive(Clone, Debug, PartialEq, Eq)]
pub enum LiquidationStep {
    /// Submit the closeout to the router.
    Submit(PendingLiquidation),
    /// Stop without a submission.
    Stop(Failure),
}

/// What a pending closeout holds.
pub struct Plan {
    pub portfolio_ref: Identity,
    pub pre_health: i64,
    pub deltas: Seq<ExposureDelta>,
    pub realized_loss: int,
}

/// What a decision holds.
pub enum Attempt {
    Submit(Plan),
    Stop(Failure),
}

impl View for PendingLiquidation {
    type V = Plan;

    open spec fn view(&self) -> Plan {
        Plan {
            portfolio_ref: self.instruction.portfolio_ref,
            pre_health: self.pre_health,
            deltas: self.instruction.deltas@,
            realized_loss: self.realized_loss as int,
        }
    }
}

impl View for LiquidationStep {
    type V = Attempt;

    open spec fn view(&self) -> Attempt {
        match self {
            LiquidationStep::Submit(pending) => Attempt::Submit(pending@),
            LiquidationStep::Stop(failure) => Attempt::Stop(*failure),
        }
    }
}

/// First byte of a closeout instruction on the wire.
pub const CLOSEOUT_TAG: u8 = 0x4C;

/// The forty bytes of one delta: the instrument, then the size to close.
pub open spec fn delta_bytes(delta: ExposureDelta) -> Seq<u8> {
    delta.instrument.bytes() + word_bytes(delta.close_size)
}

/// The bytes of the deltas, one after the other.
pub open spec fn deltas_bytes(deltas: Seq<ExposureDelta>) -> Seq<u8>
    decreases deltas.len(),
{
    if deltas.len() == 0 {
        Seq::empty()
    } else {
        deltas_bytes(deltas.drop_last()) + delta_bytes(deltas.last())
    }
}

/// A closeout instruction on the wire: the tag, the portfolio account, the
/// number of deltas as a little-endian word, and the deltas.
pub open spec fn closeout_bytes(portfolio_ref: Identity, deltas: Seq<ExposureDelta>) -> Seq<u8> {
    seq![CLOSEOUT_TAG] + portfolio_ref.bytes() + word_bytes(deltas.len() as u64) + deltas_bytes(
        deltas,
    )
}

/// The deltas take forty bytes each.
pub proof fn lemma_deltas_bytes_len(deltas: Seq<ExposureDelta>)
    ensures
        deltas_bytes(deltas).len() == 40 * deltas.len(),
    decreases deltas.len(),
{
    if deltas.len() > 0 {
        lemma_deltas_bytes_len(deltas.drop_last());
        lemma_identity_bytes_len(deltas.last().instrument);
        vstd::bytes::lemma_auto_spec_u64_to_from_le_bytes();
    }
}

impl CloseoutInstruction {
    /// The instruction as the router reads it.
    pub fn encode(&self) -> (out: Vec<u8>)
        ensures
            out@ == closeout_bytes(self.portfolio_ref, self.deltas@),
            out@.len() == 41 + 40 * self.deltas@.len(),
    {
        let mut out: Vec<u8> = Vec::new();
        out.push(CLOSEOUT_TAG);
        self.portfolio_ref.write(&mut out);
        write_u64(&mut out, self.deltas.len() as u64);
        let ghost head = out@;
        proof {
            lemma_identity_bytes_len(self.portfolio_ref);
            assert(head =~= seq![CLOSEOUT_TAG] + self.portfolio_ref.bytes() + word_bytes(
                self.deltas@.len() as u64,
            ));
        }
        let n = self.deltas.len();
        let mut i: usize = 0;
        while i < n
            invariant
                n == self.deltas@.len(),
                i <= n,
                head.len() == 41,
                out@ == head + deltas_bytes(self.deltas@.take(i as int)),
            decreases n - i,
        {
            let delta = self.deltas[i];
            proof {
                assert(self.deltas@.take(i + 1).drop_last() =~= self.deltas@.take(i as int));
            }
            let ghost before = out@;
            delta.instrument.write(&mut out);
            write_u64(&mut out, delta.close_size);
            proof {
                assert(out@ =~= before + delta_bytes(delta));
                assert(out@ =~= head + deltas_bytes(self.deltas@.take(i + 1)));
            }
            i += 1;
        }
        proof {
            assert(self.deltas@.take(n as int) =~= self.deltas@);
            lemma_deltas_bytes_len(self.deltas@);
        }
        out
    }
}

/// Profit that closing `close` of an exposure's magnitude realizes at a
/// price.
pub open spec fn realized_pnl(e: Exposure, price: int, close: int) -> int {
    fixed_mul(
        if e.size >= 0 {
            close
        } else {
            -close
        },
        price - e.entry_price,
    )
}

/// The loss that a closeout realizes: the negated sum of the profits of
/// the closed parts.
pub open spec fn realized_loss_spec(
    exposures: Seq<Exposure>,
    prices: Seq<i64>,
    closes: Seq<int>,
) -> int
    decreases exposures.len(),
{
    if exposures.len() == 0 {
        0
    } else {
        let i = exposures.len() - 1;
        realized_loss_spec(exposures.drop_last(), prices, closes) - realized_pnl(
            exposures[i],
            prices[i] as int,
            closes[i],
        )
    }
}

/// The closeout of a liquidatable portfolio.
pub open spec fn plan_spec(
    request: LiquidationRequest,
    portfolio: PortfolioView,
    prices: Seq<i64>,
    derived: PortfolioDerived,
    config: LiquidationConfig,
) -> Plan {
    let closes = sizing_spec(
        portfolio.exposures,
        prices,
        derived.equity - config.safety_buffer,
        request.max_size,
    );
    Plan {
        portfolio_ref: request.portfolio_ref,
        pre_health: derived.health,
        deltas: Seq::new(
            portfolio.exposures.len(),
            |i: int|
                ExposureDelta {
                    instrument: portfolio.exposures[i].instrument,
                    close_size: closes[i] as u64,
                },
        ),
        realized_loss: realized_loss_spec(portfolio.exposures, prices, closes),
    }
}

/// A stop of the attempt on `request`.
pub open spec fn stop(request: LiquidationRequest, stage: Stage, error: EngineError) -> Attempt {
    Attempt::Stop(Failure { portfolio: request.portfolio_ref, stage, error })
}

/// What `execute_liquidation` decides.
pub open spec fn attempt_spec(
    request: LiquidationRequest,
    fetched: FetchOutcome,
    feed: Map<Identity, PriceOracle>,
    config: LiquidationConfig,
) -> Attempt {
    match fetched {
        FetchOutcome::Fault => stop(request, Stage::Fetch, EngineError::NetworkFault),
        FetchOutcome::Missing => stop(request, Stage::Fetch, EngineError::NotLiquidatable),
        FetchOutcome::Found(data) => if !is_portfolio_record(data@) {
            stop(request, Stage::Decode, EngineError::MalformedAccount)
        } else {
            let portfolio = record_portfolio(data@);
            match resolve_spec(feed, portfolio.exposures, config.guard) {
                Err(e) => stop(request, Stage::Evaluate, e),
                Ok(prices) => match summary_of(portfolio.collateral, portfolio.exposures, prices) {
                    Err(e) => stop(request, Stage::Evaluate, e),
                    Ok(derived) => if derived.health >= 0 {
                        stop(request, Stage::Evaluate, EngineError::NotLiquidatable)
                    } else {
                        Attempt::Submit(plan_spec(request, portfolio, prices, derived, config))
                    },
                },
            }
        },
    }
}

/// Whatever the request and the settings, a portfolio whose health at the
/// fresh evaluation is not negative is not liquidated: the attempt stops
/// with `NotLiquidatable` and submits nothing.
pub proof fn lemma_healthy_portfolio_is_never_submitted(
    request: LiquidationRequest,
    data: Vec<u8>,
    feed: Map<Identity, PriceOracle>,
    config: LiquidationConfig,
)
    requires
        is_portfolio_record(data@),
        evaluate_spec(record_portfolio(data@), feed, config.guard) matches Ok(d) && d.health >= 0,
    ensures
        attempt_spec(request, FetchOutcome::Found(data), feed, config) == stop(
            request,
            Stage::Evaluate,
            EngineError::NotLiquidatable,
        ),
{
}

/// A closeout is submitted only for a portfolio record whose health at the
/// fresh evaluation is negative.
pub proof fn lemma_submission_needs_negative_health(
    request: LiquidationRequest,
    fetched: FetchOutcome,
    feed: Map<Identity, PriceOracle>,
    config: LiquidationConfig,
)
    requires
        attempt_spec(request, fetched, feed, config) is Submit,
    ensures
        fetched matches FetchOutcome::Found(data) && is_portfolio_record(data@) && (evaluate_spec(
            record_portfolio(data@),
            feed,
            config.guard,
        ) matches Ok(d) && d.health < 0),
{
}

fn realized_loss_exec(exposures: &Vec<Exposure>, prices: &Vec<i64>, closes: &Vec<u64>) -> (loss:
    i128)
    requires
        exposures@.len() == prices@.len(),
        exposures@.len() == closes@.len(),
        exposures@.len() <= MAX_EXPOSURES,
        forall|i: int| 0 <= i < closes@.len() ==> #[trigger] closes@[i] <= held(exposures@[i]),
    ensures
        loss == realized_loss_spec(exposures@, prices@, closes@.map_values(|c: u64| c as int)),
{
    let ghost wide = closes@.map_values(|c: u64| c as int);
    let n = exposures.len();
    let mut loss: i128 = 0;
    let mut i: usize = 0;
    while i < n
        invariant
            n == exposures@.len(),
            n == prices@.len(),
            n == closes@.len(),
            n <= MAX_EXPOSURES,
            wide == closes@.map_values(|c: u64| c as int),
            forall|j: int| 0 <= j < closes@.len() ==> #[trigger] closes@[j] <= held(exposures@[j]),
            i <= n,
            loss == realized_loss_spec(exposures@.take(i as int), prices@, wide),
            magnitude(loss as int) <= i * pnl_bound(),
        decreases n - i,
    {
        let e = exposures[i];
        let c = closes[i];
        let signed: i128 = if e.size >= 0 {
            c as i128
        } else {
            -(c as i128)
        };
        let gain = gain_of(signed, prices[i], e.entry_price);
        proof {
            assert(exposures@.take(i + 1).drop_last() =~= exposures@.take(i as int));
        }
        loss = loss - gain;
        i += 1;
    }
    proof {
        assert(exposures@.take(n as int) =~= exposures@);
    }
    loss
}

fn deltas_of(exposures: &Vec<Exposure>, closes: &Vec<u64>) -> (deltas: Vec<ExposureDelta>)
    requires
        exposures@.len() == closes@.len(),
    ensures
        deltas@.len() == exposures@.len(),
        forall|i: int|
            0 <= i < deltas@.len() ==> #[trigger] deltas@[i] == (ExposureDelta {
                instrument: exposures@[i].instrument,
                close_size: closes@[i],
            }),
{
    let n = exposures.len();
    let mut deltas: Vec<ExposureDelta> = Vec::new();
    let mut i: usize = 0;
    while i < n
        invariant
            n == exposures@.len(),
            n == closes@.len(),
            i <= n,
            deltas@.len() == i,
            forall|j: int|
                0 <= j < i ==> #[trigger] deltas@[j] == (ExposureDelta {
                    instrument: exposures@[j].instrument,
                    close_size: closes@[j],
                }),
        decreases n - i,
    {
        deltas.push(ExposureDelta { instrument: exposures[i].instrument, close_size: closes[i] });
        i += 1;
    }
    deltas
}

/// Decides one liquidation attempt from the fresh fetch of the portfolio
/// account.  The portfolio is evaluated again at the prices of the
/// attempt's instant; unless its health is negative the attempt stops with
/// `NotLiquidatable`, and nothing is submitted.  Otherwise the closeout is
/// sized and handed back for submission.
pub fn execute_liquidation(
    request: &LiquidationRequest,
    fetched: &FetchOutcome,
    feed: &PriceFeed,
    config: &LiquidationConfig,
) -> (step: LiquidationStep)
    requires
        feed.wf(),
    ensures
        step@ == attempt_spec(*request, *fetched, feed@, *config),
        step is Submit ==> (fetched matches FetchOutcome::Found(data) && is_portfolio_record(data@)
            && (evaluate_spec(record_portfolio(data@), feed@, config.guard) matches Ok(d)
            && d.health < 0)),
{
    let account = request.portfolio_ref;
    let data = match fetched {
        FetchOutcome::Fault => {
            return LiquidationStep::Stop(
                Failure { portfolio: account, stage: Stage::Fetch, error: EngineError::NetworkFault },
            );
        },
        FetchOutcome::Missing => {
            return LiquidationStep::Stop(
                Failure {
                    portfolio: account,
                    stage: Stage::Fetch,
                    error: EngineError::NotLiquidatable,
                },
            );
        },
        FetchOutcome::Found(data) => data,
    };
    let portfolio = match decode_portfolio(data.as_slice()) {
        Err(error) => {
            return LiquidationStep::Stop(
                Failure { portfolio: account, stage: Stage::Decode, error },
            );
        },
        Ok(portfolio) => portfolio,
    };
    let prices = match resolve_prices(&portfolio, feed, &config.guard) {
        Err(error) => {
            return LiquidationStep::Stop(
                Failure { portfolio: account, stage: Stage::Evaluate, error },
            );
        },
        Ok(prices) => prices,
    };
    let derived = match summarize(&portfolio, &prices) {
        Err(error) => {
            return LiquidationStep::Stop(
                Failure { portfolio: account, stage: Stage::Evaluate, error },
            );
        },
        Ok(derived) => derived,
    };
    if derived.health >= 0 {
        return LiquidationStep::Stop(
            Failure {
                portfolio: account,
                stage: Stage::Evaluate,
                error: EngineError::NotLiquidatable,
            },
        );
    }
    let closes = size_liquidation(
        &portfolio,
        &prices,
        derived.equity,
        config.safety_buffer,
        request.max_size,
    );
    let realized_loss = realized_loss_exec(portfolio.exposures(), &prices, &closes);
    let deltas = deltas_of(portfolio.exposures(), &closes);
    let pending = PendingLiquidation {
        instruction: CloseoutInstruction { portfolio_ref: account, deltas },
        pre_health: derived.health,
        realized_loss,
    };
    proof {
        let plan = plan_spec(*request, portfolio@, prices@, derived, *config);
        let sized = sizing_spec(
            portfolio@.exposures,
            prices@,
            derived.equity - config.safety_buffer,
            request.max_size,
        );
        assert(closes@.map_values(|c: u64| c as int) =~= sized);
        assert(pending@.deltas =~= plan.deltas);
    }
    LiquidationStep::Submit(pending)
}

/// Interprets the router's answer to a submitted closeout.  An accepted
/// closeout yields the liquidation's record; a refusal or a fault is
/// reported at the submit stage, and `EngineError::disposition` tells the
/// lost race from the genuine failure.
pub fn conclude_liquidation(pending: PendingLiquidation, outcome: RouterOutcome, timestamp: i64) -> (r:
    Result<LiquidationEvent, Failure>)
    ensures
        match outcome {
            RouterOutcome::Accepted => r matches Ok(event) && event.portfolio_ref
                == pending.instruction.portfolio_ref && event.pre_health == pending.pre_health
                && event.exposures_closed@ == pending.instruction.deltas@ && event.realized_loss
                == pending.realized_loss && event.timestamp == timestamp,
            RouterOutcome::Rejected(reason) => r matches Err(f) && f == (Failure {
                portfolio: pending.instruction.portfolio_ref,
                stage: Stage::Submit,
                error: EngineError::RouterRejected(reason),
            }),
            RouterOutcome::Fault => r matches Err(f) && f == (Failure {
                portfolio: pending.instruction.portfolio_ref,
                stage: Stage::Submit,
                error: EngineError::NetworkFault,
            }),
        },
{
    let account = pending.instruction.portfolio_ref;
    match outcome {
        RouterOutcome::Accepted => Ok(
            LiquidationEvent {
                portfolio_ref: account,
                pre_health: pending.pre_health,
                exposures_closed: pending.instruction.deltas,
                realized_loss: pending.realized_loss,
                timestamp,
            },
        ),
        RouterOutcome::Rejected(reason) => Err(
            Failure {
                portfolio: account,
                stage: Stage::Submit,
                error: EngineError::RouterRejected(reason),
            },
        ),
        RouterOutcome::Fault => Err(
            Failure { portfolio: account, stage: Stage::Submit, error: EngineError::NetworkFault },
        ),
    }
}

} // verus!
