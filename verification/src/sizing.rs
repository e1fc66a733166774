//! Sizing of a liquidation: how much of each exposure to close.
//!
//! Closing part of an exposure at the current price leaves equity as it
//! is and lowers the maintenance margin, so health rises by the margin
//! that is released.  The plan closes the least fraction that brings the
//! projected health up to the safety buffer: of the dominant exposure
//! alone where that suffices, else of every exposure in proportion.
//! Exposures whose price is not positive release no margin and are left
//! alone.  Where even a full closeout does not reach the buffer, the plan
//! is the full closeout.

use vstd::prelude::*;
use crate::fixed::fixed_mul;
use crate::fixed::lemma_fixed_mul_bound;
use crate::fixed::lemma_fixed_mul_monotone;
use crate::fixed::lemma_trunc_div_monotone;
use crate::fixed::magnitude;
use crate::fixed::mul_fixed;
use crate::fixed::SCALE;
use crate::portfolio::all_wf;
use crate::portfolio::Exposure;
use crate::portfolio::Portfolio;
use crate::portfolio::MAX_EXPOSURES;
use crate::risk::held_of;
use crate::risk::maintenance_margin;
use crate::risk::maintenance_of;
use crate::risk::notional_bound;
use crate::risk::value_of;
use crate::risk::weighted;

verus! {

/// The magnitude of an exposure.
pub open spec fn held(e: Exposure) -> int {
    magnitude(e.size as int)
}

/// Whether a plan of the given scope reduces the exposure at position `i`:
/// its price is positive, and the scope is every exposure or this one.
pub open spec fn reduced(i: int, price: int, scope: Option<usize>) -> bool {
    price > 0 && match scope {
        None => true,
        Some(only) => only == i,
    }
}

/// The magnitude that is left of an exposure after a fraction of it has
/// been closed, if the plan reduces it at all.
pub open spec fn kept(e: Exposure, fraction: int, reduced: bool) -> int {
    if reduced {
        fixed_mul(held(e), SCALE - fraction)
    } else {
        held(e)
    }
}

/// The maintenance margin of an exposure if its magnitude were `held`.
pub open spec fn margin_at(e: Exposure, price: int, held: int) -> int {
    fixed_mul(fixed_mul(held, price), e.risk_weight_maintenance as int)
}

/// The maintenance margin of the portfolio after a fraction of the
/// exposures in scope has been closed.
pub open spec fn margin_after(
    exposures: Seq<Exposure>,
    prices: Seq<i64>,
    scope: Option<usize>,
    fraction: int,
) -> int
    decreases exposures.len(),
{
    if exposures.len() == 0 {
        0
    } else {
        let i = exposures.len() - 1;
        let p = prices[i] as int;
        margin_after(exposures.drop_last(), prices, scope, fraction) + margin_at(
            exposures[i],
            p,
            kept(exposures[i], fraction, reduced(i, p, scope)),
        )
    }
}

/// Whether closing the fraction brings the margin down to the target, the
/// equity less the safety buffer; that is, the projected health up to the
/// buffer.
pub open spec fn restores(
    exposures: Seq<Exposure>,
    prices: Seq<i64>,
    scope: Option<usize>,
    fraction: int,
    target: int,
) -> bool {
    margin_after(exposures, prices, scope, fraction) <= target
}

/// Whether `fraction` restores the portfolio and no smaller one does.
pub open spec fn is_least_restoring(
    exposures: Seq<Exposure>,
    prices: Seq<i64>,
    scope: Option<usize>,
    target: int,
    fraction: int,
) -> bool {
    &&& 0 <= fraction <= SCALE
    &&& restores(exposures, prices, scope, fraction, target)
    &&& forall|g: int|
        0 <= g < fraction ==> !#[trigger] restores(exposures, prices, scope, g, target)
}

/// The least fraction that restores the portfolio.
pub open spec fn least_fraction(
    exposures: Seq<Exposure>,
    prices: Seq<i64>,
    scope: Option<usize>,
    target: int,
) -> int {
    choose|f: int| is_least_restoring(exposures, prices, scope, target, f)
}

/// The position of the exposure with the greatest maintenance margin, the
/// first of them where several are equal.
pub open spec fn dominant(exposures: Seq<Exposure>, prices: Seq<i64>) -> int
    decreases exposures.len(),
{
    if exposures.len() <= 1 {
        0
    } else {
        let d = dominant(exposures.drop_last(), prices);
        let i = exposures.len() - 1;
        if maintenance_margin(exposures[i], prices[i] as int) > maintenance_margin(
            exposures[d],
            prices[d] as int,
        ) {
            i
        } else {
            d
        }
    }
}

/// The scope of the plan: the dominant exposure alone if closing it
/// entirely reaches the target, else every exposure.
pub open spec fn scope_spec(exposures: Seq<Exposure>, prices: Seq<i64>, target: int) -> Option<
    usize,
> {
    let d = dominant(exposures, prices) as usize;
    if exposures.len() > 0 && restores(exposures, prices, Some(d), SCALE as int, target) {
        Some(d)
    } else {
        None
    }
}

/// The fraction of the plan: the least that restores the portfolio, or all
/// of it where nothing does.
pub open spec fn fraction_spec(
    exposures: Seq<Exposure>,
    prices: Seq<i64>,
    scope: Option<usize>,
    target: int,
) -> int {
    if restores(exposures, prices, scope, SCALE as int, target) {
        least_fraction(exposures, prices, scope, target)
    } else {
        SCALE as int
    }
}

/// How much of each exposure's magnitude the uncapped plan closes.
pub open spec fn closes_spec(exposures: Seq<Exposure>, prices: Seq<i64>, target: int) -> Seq<int> {
    let scope = scope_spec(exposures, prices, target);
    let fraction = fraction_spec(exposures, prices, scope, target);
    Seq::new(
        exposures.len(),
        |i: int|
            held(exposures[i]) - kept(
                exposures[i],
                fraction,
                reduced(i, prices[i] as int, scope),
            ),
    )
}

/// Sum of a sequence.
pub open spec fn total(closes: Seq<int>) -> int
    decreases closes.len(),
{
    if closes.len() == 0 {
        0
    } else {
        total(closes.drop_last()) + closes.last()
    }
}

/// What a cap of `max` leaves for position `i` once the positions before
/// it have been served.
pub open spec fn allowance(closes: Seq<int>, i: int, max: int) -> int {
    let spent = total(closes.take(i));
    if spent >= max {
        0
    } else {
        max - spent
    }
}

/// The plan under a cap on the total that is closed: the exposures are
/// served in order until the cap is used up.
pub open spec fn capped(closes: Seq<int>, max_size: Option<u64>) -> Seq<int> {
    match max_size {
        None => closes,
        Some(max) => Seq::new(
            closes.len(),
            |i: int|
                if closes[i] <= allowance(closes, i, max as int) {
                    closes[i]
                } else {
                    allowance(closes, i, max as int)
                },
        ),
    }
}

/// How much of each exposure's magnitude the plan closes.
pub open spec fn sizing_spec(
    exposures: Seq<Exposure>,
    prices: Seq<i64>,
    target: int,
    max_size: Option<u64>,
) -> Seq<int> {
    capped(closes_spec(exposures, prices, target), max_size)
}

/// What is kept of an exposure lies between nothing and all of it, and
/// shrinks as the fraction grows.
pub proof fn lemma_kept(e: Exposure, low: int, high: int, reduced: bool)
    requires
        0 <= low <= high <= SCALE,
    ensures
        0 <= kept(e, high, reduced) <= kept(e, low, reduced) <= held(e),
        kept(e, 0, reduced) == held(e),
        reduced ==> kept(e, SCALE as int, reduced) == 0,
{
    let h = held(e);
    let s = SCALE as int;
    if reduced {
        assert(0 <= h * (s - high) <= h * (s - low) <= h * s && h * (s - 0) == h * s && h * (s - s)
            == 0) by (nonlinear_arith)
            requires
                0 <= h,
                0 <= low <= high <= s,
        ;
        lemma_trunc_div_monotone(0, h * (s - high), s);
        lemma_trunc_div_monotone(h * (s - high), h * (s - low), s);
        lemma_trunc_div_monotone(h * (s - low), h * s, s);
        assert((h * s) / s == h) by (nonlinear_arith)
            requires
                s > 0,
        ;
    }
}

/// The margin of an exposure at a price that is not negative grows with
/// its magnitude.
pub proof fn lemma_margin_at_monotone(e: Exposure, price: int, less: int, more: int)
    requires
        less <= more,
        price >= 0,
    ensures
        margin_at(e, price, less) <= margin_at(e, price, more),
{
    lemma_fixed_mul_monotone(less, more, price);
    lemma_fixed_mul_monotone(
        fixed_mul(less, price),
        fixed_mul(more, price),
        e.risk_weight_maintenance as int,
    );
}

/// Closing a greater fraction never leaves a greater margin.
pub proof fn lemma_margin_after_antitone(
    exposures: Seq<Exposure>,
    prices: Seq<i64>,
    scope: Option<usize>,
    low: int,
    high: int,
)
    requires
        0 <= low <= high <= SCALE,
    ensures
        margin_after(exposures, prices, scope, high) <= margin_after(exposures, prices, scope, low),
    decreases exposures.len(),
{
    if exposures.len() > 0 {
        lemma_margin_after_antitone(exposures.drop_last(), prices, scope, low, high);
        let i = exposures.len() - 1;
        let p = prices[i] as int;
        let e = exposures[i];
        let r = reduced(i, p, scope);
        lemma_kept(e, low, high, r);
        if r {
            lemma_margin_at_monotone(e, p, kept(e, high, r), kept(e, low, r));
        }
    }
}

/// Closing nothing leaves the maintenance margin of the portfolio.
pub proof fn lemma_margin_after_nothing(
    exposures: Seq<Exposure>,
    prices: Seq<i64>,
    scope: Option<usize>,
)
    ensures
        margin_after(exposures, prices, scope, 0) == crate::risk::totals(exposures, prices).mm,
    decreases exposures.len(),
{
    if exposures.len() > 0 {
        lemma_margin_after_nothing(exposures.drop_last(), prices, scope);
        let i = exposures.len() - 1;
        lemma_kept(exposures[i], 0, 0, reduced(i, prices[i] as int, scope));
    }
}

/// There is one least restoring fraction at most, so whichever is found is
/// the one that the plan names.
pub proof fn lemma_least_fraction_unique(
    exposures: Seq<Exposure>,
    prices: Seq<i64>,
    scope: Option<usize>,
    target: int,
    fraction: int,
)
    requires
        is_least_restoring(exposures, prices, scope, target, fraction),
    ensures
        least_fraction(exposures, prices, scope, target) == fraction,
{
    let chosen = least_fraction(exposures, prices, scope, target);
    assert(is_least_restoring(exposures, prices, scope, target, chosen));
    if chosen < fraction {
        assert(!restores(exposures, prices, scope, chosen, target));
    }
    if fraction < chosen {
        assert(!restores(exposures, prices, scope, fraction, target));
    }
}

/// Where some fraction restores the portfolio, a least one does.
pub proof fn lemma_least_fraction_exists(
    exposures: Seq<Exposure>,
    prices: Seq<i64>,
    scope: Option<usize>,
    target: int,
    bound: int,
)
    requires
        0 <= bound <= SCALE,
        restores(exposures, prices, scope, bound, target),
    ensures
        is_least_restoring(
            exposures,
            prices,
            scope,
            target,
            least_fraction(exposures, prices, scope, target),
        ),
        least_fraction(exposures, prices, scope, target) <= bound,
    decreases bound,
{
    if exists|g: int| 0 <= g < bound && #[trigger] restores(exposures, prices, scope, g, target) {
        let g = choose|g: int|
            0 <= g < bound && #[trigger] restores(exposures, prices, scope, g, target);
        lemma_least_fraction_exists(exposures, prices, scope, target, g);
    } else {
        assert(is_least_restoring(exposures, prices, scope, target, bound));
        lemma_least_fraction_unique(exposures, prices, scope, target, bound);
    }
}

/// Wherever a closeout can bring the projected health up to the safety
/// buffer, the uncapped plan does so, and with the least fraction that
/// does; it closes of no exposure more than is held.  A fraction of zero
/// restores exactly the portfolios whose maintenance margin is within the
/// target already.
pub proof fn lemma_plan_reaches_buffer(exposures: Seq<Exposure>, prices: Seq<i64>, target: int)
    ensures
        ({
            let scope = scope_spec(exposures, prices, target);
            let fraction = fraction_spec(exposures, prices, scope, target);
            &&& 0 <= fraction <= SCALE
            &&& restores(exposures, prices, scope, SCALE as int, target) ==> is_least_restoring(
                exposures,
                prices,
                scope,
                target,
                fraction,
            )
            &&& restores(exposures, prices, scope, 0, target) <==> crate::risk::totals(
                exposures,
                prices,
            ).mm <= target
            &&& closes_spec(exposures, prices, target).len() == exposures.len()
            &&& forall|i: int|
                0 <= i < exposures.len() ==> 0 <= #[trigger] closes_spec(
                    exposures,
                    prices,
                    target,
                )[i] <= held(exposures[i])
        }),
{
    let scope = scope_spec(exposures, prices, target);
    let fraction = fraction_spec(exposures, prices, scope, target);
    if restores(exposures, prices, scope, SCALE as int, target) {
        lemma_least_fraction_exists(exposures, prices, scope, target, SCALE as int);
    }
    lemma_margin_after_nothing(exposures, prices, scope);
    assert forall|i: int| 0 <= i < exposures.len() implies 0 <= #[trigger] closes_spec(
        exposures,
        prices,
        target,
    )[i] <= held(exposures[i]) by {
        lemma_kept(exposures[i], fraction, fraction, reduced(i, prices[i] as int, scope));
    }
}

/// The capped plan closes no more of an exposure than the uncapped plan,
/// and no more in total than the cap.
pub proof fn lemma_capped(closes: Seq<int>, max: u64)
    requires
        forall|i: int| 0 <= i < closes.len() ==> closes[i] >= 0,
    ensures
        capped(closes, Some(max)).len() == closes.len(),
        forall|i: int|
            0 <= i < closes.len() ==> 0 <= #[trigger] capped(closes, Some(max))[i] <= closes[i],
        total(capped(closes, Some(max))) == if total(closes) <= max {
            total(closes)
        } else {
            max as int
        },
    decreases closes.len(),
{
    let out = capped(closes, Some(max));
    assert forall|i: int| 0 <= i < closes.len() implies 0 <= #[trigger] out[i] <= closes[i] by {}
    if closes.len() > 0 {
        let n = closes.len() - 1;
        let rest = closes.drop_last();
        lemma_capped(rest, max);
        let rest_out = capped(rest, Some(max));
        assert(out.drop_last() =~= rest_out) by {
            assert forall|i: int| 0 <= i < n implies out[i] == rest_out[i] by {
                assert(rest.take(i) =~= closes.take(i));
            }
        }
        assert(closes.take(n) =~= rest);
    } else {
        assert(out =~= closes);
    }
}

fn keep_of(e: &Exposure, fraction: u64, reduce: bool) -> (k: i128)
    requires
        fraction <= SCALE,
    ensures
        k == kept(*e, fraction as int, reduce),
        0 <= k <= held(*e),
        held(*e) <= 0x8000_0000_0000_0000,
{
    let h = held_of(e);
    proof {
        lemma_kept(*e, fraction as int, fraction as int, reduce);
    }
    if reduce {
        let rest: i128 = (SCALE - fraction) as i128;
        proof {
            lemma_fixed_mul_bound(h as int, rest as int, 0x8000_0000_0000_0000, SCALE as int);
            assert(0x8000_0000_0000_0000int * (SCALE as int) == 0x8000_0000_0000_0000int
                * 1_000_000_000int);
        }
        mul_fixed(h, rest)
    } else {
        h
    }
}

fn in_scope(i: usize, price: i64, scope: Option<usize>) -> (r: bool)
    ensures
        r == reduced(i as int, price as int, scope),
{
    price > 0 && match scope {
        None => true,
        Some(only) => only == i,
    }
}

fn margin_after_exec(
    exposures: &Vec<Exposure>,
    prices: &Vec<i64>,
    scope: Option<usize>,
    fraction: u64,
) -> (m: i128)
    requires
        all_wf(exposures@),
        exposures@.len() == prices@.len(),
        exposures@.len() <= MAX_EXPOSURES,
        fraction <= SCALE,
    ensures
        m == margin_after(exposures@, prices@, scope, fraction as int),
{
    let n = exposures.len();
    let mut m: i128 = 0;
    let mut i: usize = 0;
    while i < n
        invariant
            all_wf(exposures@),
            n == exposures@.len(),
            n == prices@.len(),
            n <= MAX_EXPOSURES,
            fraction <= SCALE,
            i <= n,
            m == margin_after(exposures@.take(i as int), prices@, scope, fraction as int),
            magnitude(m as int) <= i * notional_bound(),
        decreases n - i,
    {
        let e = exposures[i];
        let p = prices[i];
        let k = keep_of(&e, fraction, in_scope(i, p, scope));
        let margin = weighted(value_of(k, p), e.risk_weight_maintenance);
        proof {
            assert(exposures@.take(i + 1).drop_last() =~= exposures@.take(i as int));
        }
        m = m + margin;
        i += 1;
    }
    proof {
        assert(exposures@.take(n as int) =~= exposures@);
    }
    m
}

fn dominant_exec(exposures: &Vec<Exposure>, prices: &Vec<i64>) -> (d: usize)
    requires
        all_wf(exposures@),
        exposures@.len() == prices@.len(),
    ensures
        d == dominant(exposures@, prices@),
        exposures@.len() > 0 ==> d < exposures@.len(),
{
    let n = exposures.len();
    if n == 0 {
        return 0;
    }
    let mut d: usize = 0;
    let mut best: i128 = maintenance_of(&exposures[0], prices[0]);
    let mut i: usize = 1;
    while i < n
        invariant
            all_wf(exposures@),
            n == exposures@.len(),
            n == prices@.len(),
            1 <= i <= n,
            d < i,
            d == dominant(exposures@.take(i as int), prices@),
            best == maintenance_margin(exposures@[d as int], prices@[d as int] as int),
        decreases n - i,
    {
        let margin = maintenance_of(&exposures[i], prices[i]);
        proof {
            assert(exposures@.take(i + 1).drop_last() =~= exposures@.take(i as int));
        }
        if margin > best {
            d = i;
            best = margin;
        }
        i += 1;
    }
    proof {
        assert(exposures@.take(n as int) =~= exposures@);
    }
    d
}

fn least_fraction_exec(
    exposures: &Vec<Exposure>,
    prices: &Vec<i64>,
    scope: Option<usize>,
    target: i128,
) -> (f: u64)
    requires
        all_wf(exposures@),
        exposures@.len() == prices@.len(),
        exposures@.len() <= MAX_EXPOSURES,
        restores(exposures@, prices@, scope, SCALE as int, target as int),
    ensures
        is_least_restoring(exposures@, prices@, scope, target as int, f as int),
{
    let mut lo: u64 = 0;
    let mut hi: u64 = SCALE;
    while lo < hi
        invariant
            all_wf(exposures@),
            exposures@.len() == prices@.len(),
            exposures@.len() <= MAX_EXPOSURES,
            lo <= hi <= SCALE,
            restores(exposures@, prices@, scope, hi as int, target as int),
            forall|g: int|
                0 <= g < lo ==> !#[trigger] restores(
                    exposures@,
                    prices@,
                    scope,
                    g,
                    target as int,
                ),
        decreases hi - lo,
    {
        let mid = lo + (hi - lo) / 2;
        let m = margin_after_exec(exposures, prices, scope, mid);
        if m <= target {
            hi = mid;
        } else {
            proof {
                assert forall|g: int| 0 <= g < mid + 1 implies !#[trigger] restores(
                    exposures@,
                    prices@,
                    scope,
                    g,
                    target as int,
                ) by {
                    lemma_margin_after_antitone(exposures@, prices@, scope, g, mid as int);
                }
            }
            lo = mid + 1;
        }
    }
    lo
}

fn cap(closes: &Vec<u64>, max_size: Option<u64>) -> (out: Vec<u64>)
    ensures
        out@.len() == closes@.len(),
        forall|i: int|
            0 <= i < out@.len() ==> #[trigger] out@[i] as int == capped(
                closes@.map_values(|c: u64| c as int),
                max_size,
            )[i],
{
    let ghost wide = closes@.map_values(|c: u64| c as int);
    let n = closes.len();
    let mut out: Vec<u64> = Vec::new();
    let mut i: usize = 0;
    match max_size {
        None => {
            while i < n
                invariant
                    n == closes@.len(),
                    i <= n,
                    out@.len() == i,
                    forall|j: int| 0 <= j < i ==> out@[j] == closes@[j],
                decreases n - i,
            {
                out.push(closes[i]);
                i += 1;
            }
        },
        Some(max) => {
            let mut remaining: u64 = max;
            while i < n
                invariant
                    n == closes@.len(),
                    wide == closes@.map_values(|c: u64| c as int),
                    i <= n,
                    out@.len() == i,
                    remaining == allowance(wide, i as int, max as int),
                    total(wide.take(i as int)) >= 0,
                    forall|j: int|
                        0 <= j < i ==> #[trigger] out@[j] as int == capped(wide, Some(max))[j],
                decreases n - i,
            {
                let c = if closes[i] <= remaining {
                    closes[i]
                } else {
                    remaining
                };
                proof {
                    assert(wide.take(i + 1).drop_last() =~= wide.take(i as int));
                }
                out.push(c);
                remaining = remaining - c;
                i += 1;
            }
        },
    }
    out
}

/// Sizes a liquidation: how much of each exposure's magnitude to close so
/// that the projected health reaches the safety buffer, or as much of that
/// as the cap allows.
pub fn size_liquidation(
    portfolio: &Portfolio,
    prices: &Vec<i64>,
    equity: i64,
    safety_buffer: u64,
    max_size: Option<u64>,
) -> (closes: Vec<u64>)
    requires
        portfolio.wf(),
        prices@.len() == portfolio@.exposures.len(),
    ensures
        closes@.len() == portfolio@.exposures.len(),
        forall|i: int|
            0 <= i < closes@.len() ==> #[trigger] closes@[i] as int == sizing_spec(
                portfolio@.exposures,
                prices@,
                equity - safety_buffer,
                max_size,
            )[i],
        forall|i: int|
            0 <= i < closes@.len() ==> #[trigger] closes@[i] <= held(portfolio@.exposures[i]),
{
    let exposures = portfolio.exposures();
    let n = exposures.len();
    let target: i128 = equity as i128 - safety_buffer as i128;
    let d = dominant_exec(exposures, prices);
    let everything: Option<usize> = None;
    let scope = if n > 0 && margin_after_exec(exposures, prices, Some(d), SCALE) <= target {
        Some(d)
    } else {
        everything
    };
    let fraction = if margin_after_exec(exposures, prices, scope, SCALE) <= target {
        let f = least_fraction_exec(exposures, prices, scope, target);
        proof {
            lemma_least_fraction_unique(exposures@, prices@, scope, target as int, f as int);
        }
        f
    } else {
        SCALE
    };
    let ghost plan = closes_spec(exposures@, prices@, target as int);
    let mut closes: Vec<u64> = Vec::new();
    let mut i: usize = 0;
    while i < n
        invariant
            n == exposures@.len(),
            n == prices@.len(),
            fraction <= SCALE,
            scope == scope_spec(exposures@, prices@, target as int),
            fraction == fraction_spec(exposures@, prices@, scope, target as int),
            plan == closes_spec(exposures@, prices@, target as int),
            i <= n,
            closes@.len() == i,
            forall|j: int|
                0 <= j < i ==> #[trigger] closes@[j] as int == plan[j] && closes@[j] <= held(
                    exposures@[j],
                ),
        decreases n - i,
    {
        let e = exposures[i];
        let k = keep_of(&e, fraction, in_scope(i, prices[i], scope));
        let h = held_of(&e);
        closes.push((h - k) as u64);
        i += 1;
    }
    let out = cap(&closes, max_size);
    proof {
        assert(closes@.map_values(|c: u64| c as int) =~= plan);
        if let Some(max) = max_size {
            lemma_capped(plan, max);
        }
    }
    out
}

} // verus!
