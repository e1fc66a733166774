//! The risk model: equity, margin requirements and health of a portfolio
//! at given prices.

use vstd::prelude::*;
use crate::error::EngineError;
use crate::fixed::fixed_mul;
use crate::fixed::lemma_fixed_mul_antitone;
use crate::fixed::lemma_fixed_mul_bound;
use crate::fixed::lemma_fixed_mul_monotone;
use crate::fixed::magnitude;
use crate::fixed::mul_fixed;
use crate::fixed::SCALE;
use crate::identity::Identity;
use crate::oracle::price_of;
use crate::oracle::PriceFeed;
use crate::oracle::PriceOracle;
use crate::portfolio::all_wf;
use crate::portfolio::Exposure;
use crate::portfolio::Portfolio;
use crate::portfolio::PortfolioView;
use crate::portfolio::MAX_EXPOSURES;

verus! {

/// The instant of an evaluation and the limits that a price must meet to
/// be used in it.
#[derive(Clone, Copy, Debug, PartialEq, Eq, Structural)]
pub struct PriceGuard {
    /// The instant at which every price of the evaluation is read.
    pub now: i64,
    /// The greatest age of a usable price.
    pub max_staleness: u64,
    /// The widest confidence interval of a usable price.
    pub min_confidence: u64,
}

/// The derived summary of a portfolio.
#[derive(Clone, Copy, Debug, PartialEq, Eq, Structural)]
pub struct PortfolioDerived {
    /// Collateral plus unrealized profit and loss.
    pub equity: i64,
    /// Initial margin requirement.
    pub im: i64,
    /// Maintenance margin requirement.
    pub mm: i64,
    /// Equity minus maintenance margin; negative means liquidatable.
    pub health: i64,
    /// Equity minus initial margin.
    pub free_collateral: i64,
}

impl PortfolioDerived {
    /// A portfolio is liquidatable exactly when its health is negative.
    pub open spec fn liquidatable(self) -> bool {
        self.health < 0
    }

    /// Tests `liquidatable`.
    pub fn is_liquidatable(&self) -> (b: bool)
        ensures
            b == self.liquidatable(),
    {
        self.health < 0
    }
}

/// Unrealized profit or loss of an exposure at a price.
pub open spec fn unrealized_pnl(e: Exposure, price: int) -> int {
    fixed_mul(e.size as int, price - e.entry_price)
}

/// Value of an exposure's magnitude at a price.
pub open spec fn notional(e: Exposure, price: int) -> int {
    fixed_mul(magnitude(e.size as int), price)
}

/// Initial margin that an exposure requires at a price.
pub open spec fn initial_margin(e: Exposure, price: int) -> int {
    fixed_mul(notional(e, price), e.risk_weight_initial as int)
}

/// Maintenance margin that an exposure requires at a price.
pub open spec fn maintenance_margin(e: Exposure, price: int) -> int {
    fixed_mul(notional(e, price), e.risk_weight_maintenance as int)
}

/// Sums over the exposures of a portfolio.
pub struct Totals {
    pub pnl: int,
    pub im: int,
    pub mm: int,
}

/// The sums of unrealized profit and loss, initial margin and maintenance
/// margin over `exposures`, the exposure at position `i` priced at
/// `prices[i]`.
pub open spec fn totals(exposures: Seq<Exposure>, prices: Seq<i64>) -> Totals
    decreases exposures.len(),
{
    if exposures.len() == 0 {
        Totals { pnl: 0, im: 0, mm: 0 }
    } else {
        let rest = totals(exposures.drop_last(), prices);
        let e = exposures.last();
        let p = prices[exposures.len() - 1] as int;
        Totals {
            pnl: rest.pnl + unrealized_pnl(e, p),
            im: rest.im + initial_margin(e, p),
            mm: rest.mm + maintenance_margin(e, p),
        }
    }
}

/// Whether a quantity fits the signed fixed-point word.
pub open spec fn fits(x: int) -> bool {
    i64::MIN <= x <= i64::MAX
}

/// The summary of a portfolio at given prices, or `ArithmeticOverflow` if
/// one of its five quantities does not fit the fixed-point word.
pub open spec fn summary_of(collateral: u64, exposures: Seq<Exposure>, prices: Seq<i64>) -> Result<
    PortfolioDerived,
    EngineError,
> {
    let t = totals(exposures, prices);
    let equity = collateral + t.pnl;
    let health = equity - t.mm;
    let free = equity - t.im;
    if fits(equity) && fits(t.im) && fits(t.mm) && fits(health) && fits(free) {
        Ok(
            PortfolioDerived {
                equity: equity as i64,
                im: t.im as i64,
                mm: t.mm as i64,
                health: health as i64,
                free_collateral: free as i64,
            },
        )
    } else {
        Err(EngineError::ArithmeticOverflow)
    }
}

/// The usable price of an exposure's instrument at the guard's instant.
pub open spec fn price_at(
    feed: Map<Identity, PriceOracle>,
    e: Exposure,
    guard: PriceGuard,
) -> Result<i64, EngineError> {
    price_of(feed, e.instrument, guard.now, guard.max_staleness, guard.min_confidence)
}

/// The prices of the exposures' instruments, all read at the guard's
/// instant, or the error of the first exposure whose price cannot be used.
pub open spec fn resolve_spec(
    feed: Map<Identity, PriceOracle>,
    exposures: Seq<Exposure>,
    guard: PriceGuard,
) -> Result<Seq<i64>, EngineError>
    decreases exposures.len(),
{
    if exposures.len() == 0 {
        Ok(Seq::empty())
    } else {
        match resolve_spec(feed, exposures.drop_last(), guard) {
            Err(e) => Err(e),
            Ok(prices) => match price_at(feed, exposures.last(), guard) {
                Err(e) => Err(e),
                Ok(p) => Ok(prices.push(p)),
            },
        }
    }
}

/// What `evaluate` returns.
pub open spec fn evaluate_spec(
    portfolio: PortfolioView,
    feed: Map<Identity, PriceOracle>,
    guard: PriceGuard,
) -> Result<PortfolioDerived, EngineError> {
    match resolve_spec(feed, portfolio.exposures, guard) {
        Err(e) => Err(e),
        Ok(prices) => summary_of(portfolio.collateral, portfolio.exposures, prices),
    }
}

/// Bound on the magnitude of one exposure's unrealized profit or loss.
pub open spec fn pnl_bound() -> int {
    0x4_0000_0000_0000_0000_0000_0000
}

/// Bound on the magnitude of one exposure's notional and margins.
pub open spec fn notional_bound() -> int {
    0x2_0000_0000_0000_0000_0000_0000
}

pub(crate) fn maintenance_of(e: &Exposure, price: i64) -> (r: i128)
    requires
        e.wf(),
    ensures
        r == maintenance_margin(*e, price as int),
        magnitude(r as int) <= notional_bound(),
{
    weighted(exposure_notional(e, price), e.risk_weight_maintenance)
}

pub(crate) fn gain_of(size: i128, price: i64, entry_price: i64) -> (r: i128)
    requires
        magnitude(size as int) <= 0x8000_0000_0000_0000,
    ensures
        r == fixed_mul(size as int, price - entry_price),
        magnitude(r as int) <= pnl_bound(),
{
    let diff = price as i128 - entry_price as i128;
    proof {
        lemma_fixed_mul_bound(
            size as int,
            diff as int,
            0x8000_0000_0000_0000,
            0xffff_ffff_ffff_ffff,
        );
        assert(0x8000_0000_0000_0000int * 0xffff_ffff_ffff_ffffint
            == 0x7fff_ffff_ffff_ffff_8000_0000_0000_0000int);
    }
    mul_fixed(size, diff)
}

fn exposure_pnl(e: &Exposure, price: i64) -> (r: i128)
    ensures
        r == unrealized_pnl(*e, price as int),
        magnitude(r as int) <= pnl_bound(),
{
    gain_of(e.size as i128, price, e.entry_price)
}

pub(crate) fn value_of(held: i128, price: i64) -> (r: i128)
    requires
        magnitude(held as int) <= 0x8000_0000_0000_0000,
    ensures
        r == fixed_mul(held as int, price as int),
        magnitude(r as int) <= notional_bound(),
        held >= 0 && price >= 0 ==> r >= 0,
{
    proof {
        lemma_fixed_mul_bound(
            held as int,
            price as int,
            0x8000_0000_0000_0000,
            0x8000_0000_0000_0000,
        );
        assert(0x8000_0000_0000_0000int * 0x8000_0000_0000_0000int
            == 0x4000_0000_0000_0000_0000_0000_0000_0000int);
    }
    mul_fixed(held, price as i128)
}

pub(crate) fn held_of(e: &Exposure) -> (r: i128)
    ensures
        r == magnitude(e.size as int),
        0 <= r <= 0x8000_0000_0000_0000,
{
    if e.size < 0 {
        -(e.size as i128)
    } else {
        e.size as i128
    }
}

fn exposure_notional(e: &Exposure, price: i64) -> (r: i128)
    ensures
        r == notional(*e, price as int),
        magnitude(r as int) <= notional_bound(),
{
    value_of(held_of(e), price)
}

pub(crate) fn weighted(amount: i128, weight: u64) -> (r: i128)
    requires
        magnitude(amount as int) <= notional_bound(),
        weight <= SCALE,
    ensures
        r == fixed_mul(amount as int, weight as int),
        magnitude(r as int) <= notional_bound(),
        amount >= 0 ==> r >= 0,
{
    proof {
        lemma_fixed_mul_bound(amount as int, weight as int, notional_bound(), SCALE as int);
        assert(notional_bound() * (SCALE as int) == 0x2_0000_0000_0000_0000_0000_0000int
            * 1_000_000_000int);
    }
    mul_fixed(amount, weight as i128)
}

proof fn lemma_resolve_len(
    feed: Map<Identity, PriceOracle>,
    exposures: Seq<Exposure>,
    guard: PriceGuard,
)
    ensures
        resolve_spec(feed, exposures, guard) matches Ok(prices) ==> prices.len()
            == exposures.len(),
    decreases exposures.len(),
{
    if exposures.len() > 0 {
        lemma_resolve_len(feed, exposures.drop_last(), guard);
    }
}

proof fn lemma_resolve_error_persists(
    feed: Map<Identity, PriceOracle>,
    exposures: Seq<Exposure>,
    guard: PriceGuard,
    k: int,
)
    requires
        0 <= k <= exposures.len(),
        resolve_spec(feed, exposures.take(k), guard) is Err,
    ensures
        resolve_spec(feed, exposures, guard) == resolve_spec(feed, exposures.take(k), guard),
    decreases exposures.len() - k,
{
    if k < exposures.len() {
        assert(exposures.take(k + 1).drop_last() =~= exposures.take(k));
        lemma_resolve_error_persists(feed, exposures, guard, k + 1);
    } else {
        assert(exposures.take(k) =~= exposures);
    }
}

/// Reads the price of each exposure's instrument at the guard's instant.
/// The first exposure whose price is unknown, stale or not confident
/// enough aborts the read with its error.
pub fn resolve_prices(portfolio: &Portfolio, feed: &PriceFeed, guard: &PriceGuard) -> (r: Result<
    Vec<i64>,
    EngineError,
>)
    requires
        feed.wf(),
    ensures
        match r {
            Ok(prices) => resolve_spec(feed@, portfolio@.exposures, *guard) == Ok::<
                Seq<i64>,
                EngineError,
            >(prices@) && prices@.len() == portfolio@.exposures.len(),
            Err(e) => resolve_spec(feed@, portfolio@.exposures, *guard) == Err::<
                Seq<i64>,
                EngineError,
            >(e),
        },
{
    let exposures = portfolio.exposures();
    let n = exposures.len();
    let mut prices: Vec<i64> = Vec::new();
    let mut i: usize = 0;
    while i < n
        invariant
            feed.wf(),
            exposures@ == portfolio@.exposures,
            n == exposures@.len(),
            i <= n,
            prices@.len() == i,
            resolve_spec(feed@, exposures@.take(i as int), *guard) == Ok::<Seq<i64>, EngineError>(
                prices@,
            ),
        decreases n - i,
    {
        proof {
            assert(exposures@.take(i + 1).drop_last() =~= exposures@.take(i as int));
        }
        match feed.get_price(
            exposures[i].instrument,
            guard.now,
            guard.max_staleness,
            guard.min_confidence,
        ) {
            Err(e) => {
                proof {
                    lemma_resolve_error_persists(feed@, exposures@, *guard, i + 1);
                }
                return Err(e);
            },
            Ok(p) => {
                prices.push(p);
            },
        }
        i += 1;
    }
    proof {
        assert(exposures@.take(n as int) =~= exposures@);
    }
    Ok(prices)
}

fn narrow(x: i128) -> (r: Option<i64>)
    ensures
        r == if fits(x as int) {
            Some(x as i64)
        } else {
            None
        },
{
    if x >= i64::MIN as i128 && x <= i64::MAX as i128 {
        Some(x as i64)
    } else {
        None
    }
}

/// Derives the summary of a portfolio from the prices of its exposures.
/// Fails with `ArithmeticOverflow` exactly when one of the five quantities
/// does not fit the fixed-point word.
pub fn summarize(portfolio: &Portfolio, prices: &Vec<i64>) -> (r: Result<
    PortfolioDerived,
    EngineError,
>)
    requires
        portfolio.wf(),
        prices@.len() == portfolio@.exposures.len(),
    ensures
        r == summary_of(portfolio@.collateral, portfolio@.exposures, prices@),
{
    let exposures = portfolio.exposures();
    let n = exposures.len();
    let mut pnl: i128 = 0;
    let mut im: i128 = 0;
    let mut mm: i128 = 0;
    let mut i: usize = 0;
    while i < n
        invariant
            n == exposures@.len(),
            n == prices@.len(),
            n <= MAX_EXPOSURES,
            all_wf(exposures@),
            i <= n,
            totals(exposures@.take(i as int), prices@) == (Totals {
                pnl: pnl as int,
                im: im as int,
                mm: mm as int,
            }),
            magnitude(pnl as int) <= i * pnl_bound(),
            magnitude(im as int) <= i * notional_bound(),
            magnitude(mm as int) <= i * notional_bound(),
        decreases n - i,
    {
        let e = exposures[i];
        let p = prices[i];
        let gain = exposure_pnl(&e, p);
        let value = exposure_notional(&e, p);
        let initial = weighted(value, e.risk_weight_initial);
        let maintenance = weighted(value, e.risk_weight_maintenance);
        proof {
            assert(exposures@.take(i + 1).drop_last() =~= exposures@.take(i as int));
        }
        pnl = pnl + gain;
        im = im + initial;
        mm = mm + maintenance;
        i += 1;
    }
    proof {
        assert(exposures@.take(n as int) =~= exposures@);
    }
    let equity: i128 = portfolio.collateral() as i128 + pnl;
    let health: i128 = equity - mm;
    let free: i128 = equity - im;
    match (narrow(equity), narrow(im), narrow(mm), narrow(health), narrow(free)) {
        (Some(equity), Some(im), Some(mm), Some(health), Some(free_collateral)) => Ok(
            PortfolioDerived { equity, im, mm, health, free_collateral },
        ),
        _ => Err(EngineError::ArithmeticOverflow),
    }
}

/// Prices every exposure of the portfolio at the guard's instant and
/// derives equity, margins, health and free collateral.  A price that
/// cannot be used aborts the evaluation with the price feed's error; a
/// quantity that does not fit fails with `ArithmeticOverflow`.
pub fn evaluate(portfolio: &Portfolio, feed: &PriceFeed, guard: &PriceGuard) -> (r: Result<
    PortfolioDerived,
    EngineError,
>)
    requires
        portfolio.wf(),
        feed.wf(),
    ensures
        r == evaluate_spec(portfolio@, feed@, *guard),
        r matches Ok(d) ==> d.health == d.equity - d.mm && d.free_collateral == d.equity - d.im,
{
    match resolve_prices(portfolio, feed, guard) {
        Err(e) => Err(e),
        Ok(prices) => summarize(portfolio, &prices),
    }
}

/// Health is equity less maintenance margin and free collateral is equity
/// less initial margin, exactly, whenever the summary exists; and the
/// summary's equity and margins are the sums over the exposures.
pub proof fn lemma_health_identities(collateral: u64, exposures: Seq<Exposure>, prices: Seq<i64>)
    ensures
        summary_of(collateral, exposures, prices) matches Ok(d) ==> {
            &&& d.health == d.equity - d.mm
            &&& d.free_collateral == d.equity - d.im
            &&& d.equity == collateral + totals(exposures, prices).pnl
            &&& d.im == totals(exposures, prices).im
            &&& d.mm == totals(exposures, prices).mm
        },
{
}

/// Raising the price never lowers the profit of a long exposure and never
/// raises that of a short one.
pub proof fn lemma_pnl_monotone_in_price(e: Exposure, low: int, high: int)
    requires
        low <= high,
    ensures
        e.size > 0 ==> unrealized_pnl(e, low) <= unrealized_pnl(e, high),
        e.size < 0 ==> unrealized_pnl(e, low) >= unrealized_pnl(e, high),
{
    let s = e.size as int;
    let a = low - e.entry_price;
    let b = high - e.entry_price;
    assert(s * a == a * s && s * b == b * s) by (nonlinear_arith);
    if s > 0 {
        lemma_fixed_mul_monotone(a, b, s);
    }
    if s < 0 {
        lemma_fixed_mul_antitone(a, b, s);
    }
}

/// Without exposures no margin is required, and equity and health are the
/// collateral.
pub proof fn lemma_empty_portfolio(
    portfolio: PortfolioView,
    feed: Map<Identity, PriceOracle>,
    guard: PriceGuard,
)
    requires
        portfolio.exposures.len() == 0,
        portfolio.collateral <= i64::MAX,
    ensures
        evaluate_spec(portfolio, feed, guard) == Ok::<PortfolioDerived, EngineError>(
            (PortfolioDerived {
                equity: portfolio.collateral as i64,
                im: 0,
                mm: 0,
                health: portfolio.collateral as i64,
                free_collateral: portfolio.collateral as i64,
            }),
        ),
{
}

/// A portfolio is priced as a whole or not at all: the prices are those
/// of all its exposures, and an error is that of the first exposure whose
/// price cannot be used.
pub proof fn lemma_resolve_all_or_first_failure(
    feed: Map<Identity, PriceOracle>,
    exposures: Seq<Exposure>,
    guard: PriceGuard,
)
    ensures
        match resolve_spec(feed, exposures, guard) {
            Ok(prices) => prices.len() == exposures.len() && forall|i: int|
                0 <= i < exposures.len() ==> #[trigger] price_at(feed, exposures[i], guard) == Ok::<
                    i64,
                    EngineError,
                >(prices[i]),
            Err(e) => exists|k: int|
                0 <= k < exposures.len() && #[trigger] price_at(feed, exposures[k], guard) == Err::<
                    i64,
                    EngineError,
                >(e) && forall|j: int|
                    0 <= j < k ==> (#[trigger] price_at(feed, exposures[j], guard)) is Ok,
        },
    decreases exposures.len(),
{
    if exposures.len() > 0 {
        let rest = exposures.drop_last();
        lemma_resolve_all_or_first_failure(feed, rest, guard);
        match resolve_spec(feed, rest, guard) {
            Ok(before) => {
                let n = exposures.len() - 1;
                assert forall|j: int| 0 <= j < n implies (#[trigger] price_at(
                    feed,
                    exposures[j],
                    guard,
                )) is Ok by {
                    assert(price_at(feed, rest[j], guard) is Ok);
                }
                match price_at(feed, exposures.last(), guard) {
                    Ok(p) => {
                        let prices = before.push(p);
                        assert forall|i: int| 0 <= i < exposures.len() implies #[trigger] price_at(
                            feed,
                            exposures[i],
                            guard,
                        ) == Ok::<i64, EngineError>(prices[i]) by {
                            if i < n {
                                assert(price_at(feed, rest[i], guard) == Ok::<i64, EngineError>(
                                    before[i],
                                ));
                            }
                        }
                    },
                    Err(e) => {
                        assert(price_at(feed, exposures[n], guard) == Err::<i64, EngineError>(e));
                    },
                }
            },
            Err(e) => {
                let k = choose|k: int|
                    0 <= k < rest.len() && #[trigger] price_at(feed, rest[k], guard) == Err::<
                        i64,
                        EngineError,
                    >(e) && forall|j: int|
                        0 <= j < k ==> (#[trigger] price_at(feed, rest[j], guard)) is Ok;
                assert(price_at(feed, exposures[k], guard) == Err::<i64, EngineError>(e));
                assert forall|j: int| 0 <= j < k implies (#[trigger] price_at(
                    feed,
                    exposures[j],
                    guard,
                )) is Ok by {
                    assert(price_at(feed, rest[j], guard) is Ok);
                }
            },
        }
    }
}

/// Raising the price of one long exposure never lowers the sum of
/// unrealized profit and loss, and so never lowers equity; raising the
/// price of one short exposure never raises it.
pub proof fn lemma_equity_monotone_in_price(
    exposures: Seq<Exposure>,
    low: Seq<i64>,
    high: Seq<i64>,
    k: int,
)
    requires
        0 <= k < exposures.len(),
        low.len() == exposures.len(),
        high.len() == exposures.len(),
        low[k] <= high[k],
        forall|i: int| 0 <= i < exposures.len() && i != k ==> low[i] == high[i],
    ensures
        exposures[k].size > 0 ==> totals(exposures, low).pnl <= totals(exposures, high).pnl,
        exposures[k].size < 0 ==> totals(exposures, low).pnl >= totals(exposures, high).pnl,
        exposures[k].size == 0 ==> totals(exposures, low).pnl == totals(exposures, high).pnl,
    decreases exposures.len(),
{
    let n = exposures.len() - 1;
    let rest = exposures.drop_last();
    if k < n {
        lemma_equity_monotone_in_price(rest, low.drop_last(), high.drop_last(), k);
        lemma_totals_ignore_later_prices(rest, low, low.drop_last());
        lemma_totals_ignore_later_prices(rest, high, high.drop_last());
    } else {
        lemma_totals_ignore_later_prices(rest, low, high);
        lemma_pnl_monotone_in_price(exposures[k], low[k] as int, high[k] as int);
        if exposures[k].size == 0 {
            assert(exposures[k].size * (low[k] - exposures[k].entry_price) == 0
                && exposures[k].size * (high[k] - exposures[k].entry_price) == 0)
                by (nonlinear_arith)
                requires
                    exposures[k].size == 0,
            ;
        }
    }
}

proof fn lemma_totals_ignore_later_prices(exposures: Seq<Exposure>, a: Seq<i64>, b: Seq<i64>)
    requires
        forall|i: int| 0 <= i < exposures.len() ==> a[i] == b[i],
    ensures
        totals(exposures, a) == totals(exposures, b),
    decreases exposures.len(),
{
    if exposures.len() > 0 {
        lemma_totals_ignore_later_prices(exposures.drop_last(), a, b);
    }
}

} // verus!
