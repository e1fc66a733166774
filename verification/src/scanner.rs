//! The liquidation scanner: finds the portfolios whose health is negative
//! and ranks them, the most severely underwater first.

use vstd::prelude::*;
use vstd::seq_lib::to_multiset_build;
use vstd::seq_lib::to_multiset_insert;
use crate::error::EngineError;
use crate::error::Failure;
use crate::error::Stage;
use crate::identity::Identity;
use crate::oracle::PriceFeed;
use crate::oracle::PriceOracle;
use crate::portfolio::Portfolio;
use crate::portfolio::PortfolioView;
use crate::records::decode_portfolio;
use crate::records::AccountRecord;
use crate::records::is_portfolio_record;
use crate::records::record_portfolio;
use crate::risk::evaluate;
use crate::risk::evaluate_spec;
use crate::risk::PortfolioDerived;
use crate::risk::PriceGuard;

verus! {

/// A liquidatable portfolio with the summary that shows it.
#[derive(Clone, Debug)]
pub struct Candidate {
    /// Address of the portfolio account.
    pub account: Identity,
    /// The portfolio as it was read.
    pub portfolio: Portfolio,
    /// Its summary at the scan's prices; `health` is negative.
    pub derived: PortfolioDerived,
}

/// What a candidate holds.
pub struct CandidateView {
    pub account: Identity,
    pub portfolio: PortfolioView,
    pub derived: PortfolioDerived,
}

impl View for Candidate {
    type V = CandidateView;

    open spec fn view(&self) -> CandidateView {
        CandidateView { account: self.account, portfolio: self.portfolio@, derived: self.derived }
    }
}

/// The views of a sequence of candidates.
pub open spec fn views(candidates: Seq<Candidate>) -> Seq<CandidateView> {
    candidates.map_values(|c: Candidate| c@)
}

/// What the scanner makes of one account: nothing if it is no portfolio
/// record or its health is not negative, a candidate if its health is
/// negative, a failure if it cannot be evaluated.
pub open spec fn inspect_spec(
    record: AccountRecord,
    feed: Map<Identity, PriceOracle>,
    guard: PriceGuard,
) -> Result<Option<CandidateView>, Failure> {
    if !is_portfolio_record(record.data@) {
        Ok(None)
    } else {
        let portfolio = record_portfolio(record.data@);
        match evaluate_spec(portfolio, feed, guard) {
            Err(error) => Err(Failure { portfolio: record.key, stage: Stage::Evaluate, error }),
            Ok(derived) => if derived.health < 0 {
                Ok(Some(CandidateView { account: record.key, portfolio, derived }))
            } else {
                Ok(None)
            },
        }
    }
}

/// The candidates among `records`, in the order of the records, or the
/// failure of the first record that cannot be evaluated.
pub open spec fn liquidatable_spec(
    records: Seq<AccountRecord>,
    feed: Map<Identity, PriceOracle>,
    guard: PriceGuard,
) -> Result<Seq<CandidateView>, Failure>
    decreases records.len(),
{
    if records.len() == 0 {
        Ok(Seq::empty())
    } else {
        match liquidatable_spec(records.drop_last(), feed, guard) {
            Err(f) => Err(f),
            Ok(found) => match inspect_spec(records.last(), feed, guard) {
                Err(f) => Err(f),
                Ok(None) => Ok(found),
                Ok(Some(c)) => Ok(found.push(c)),
            },
        }
    }
}

/// Where a candidate of the given health goes into a ranked sequence:
/// behind the last candidate whose health is not greater.
pub open spec fn rank_position(ranked: Seq<CandidateView>, health: i64) -> int
    decreases ranked.len(),
{
    if ranked.len() == 0 {
        0
    } else if ranked.last().derived.health <= health {
        ranked.len() as int
    } else {
        rank_position(ranked.drop_last(), health)
    }
}

/// The candidates in ascending order of health; candidates of equal health
/// keep their order.
pub open spec fn rank(candidates: Seq<CandidateView>) -> Seq<CandidateView>
    decreases candidates.len(),
{
    if candidates.len() == 0 {
        Seq::empty()
    } else {
        let ranked = rank(candidates.drop_last());
        ranked.insert(rank_position(ranked, candidates.last().derived.health), candidates.last())
    }
}

/// What `list_liquidatable` returns.
pub open spec fn scan_spec(
    records: Seq<AccountRecord>,
    feed: Map<Identity, PriceOracle>,
    guard: PriceGuard,
) -> Result<Seq<CandidateView>, Failure> {
    match liquidatable_spec(records, feed, guard) {
        Err(f) => Err(f),
        Ok(found) => Ok(rank(found)),
    }
}

/// Ascending order of health.
pub open spec fn ascending(candidates: Seq<CandidateView>) -> bool {
    forall|i: int, j: int|
        0 <= i <= j < candidates.len() ==> (#[trigger] candidates[i]).derived.health <= (
        #[trigger] candidates[j]).derived.health
}

proof fn lemma_rank_position(ranked: Seq<CandidateView>, health: i64)
    ensures
        0 <= rank_position(ranked, health) <= ranked.len(),
        forall|k: int|
            rank_position(ranked, health) <= k < ranked.len() ==> (#[trigger] ranked[k]).derived.health
                > health,
        rank_position(ranked, health) > 0 ==> ranked[rank_position(ranked, health)
            - 1].derived.health <= health,
    decreases ranked.len(),
{
    if ranked.len() > 0 && ranked.last().derived.health > health {
        lemma_rank_position(ranked.drop_last(), health);
        let pos = rank_position(ranked.drop_last(), health);
        assert forall|k: int| pos <= k < ranked.len() implies (#[trigger] ranked[k]).derived.health
            > health by {
            if k < ranked.len() - 1 {
                assert(ranked.drop_last()[k] == ranked[k]);
            }
        }
        if pos > 0 {
            assert(ranked.drop_last()[pos - 1] == ranked[pos - 1]);
        }
    }
}

/// Ranking puts the candidates in ascending order of health and neither
/// loses nor adds one.
pub proof fn lemma_rank(candidates: Seq<CandidateView>)
    ensures
        ascending(rank(candidates)),
        rank(candidates).len() == candidates.len(),
        rank(candidates).to_multiset() == candidates.to_multiset(),
    decreases candidates.len(),
{
    if candidates.len() == 0 {
        assert(candidates =~= Seq::empty());
    } else {
        let rest = candidates.drop_last();
        let c = candidates.last();
        lemma_rank(rest);
        let ranked = rank(rest);
        let pos = rank_position(ranked, c.derived.health);
        lemma_rank_position(ranked, c.derived.health);
        let after = ranked.insert(pos, c);
        assert forall|i: int, j: int| 0 <= i <= j < after.len() implies (
        #[trigger] after[i]).derived.health <= (#[trigger] after[j]).derived.health by {
            if j < pos {
                assert(after[i] == ranked[i] && after[j] == ranked[j]);
            } else if j == pos {
                if i < pos {
                    assert(after[i] == ranked[i]);
                    assert(ranked[i].derived.health <= ranked[pos - 1].derived.health);
                }
            } else {
                assert(after[j] == ranked[j - 1]);
                if i < pos {
                    assert(after[i] == ranked[i]);
                } else if i > pos {
                    assert(after[i] == ranked[i - 1]);
                }
            }
        }
        to_multiset_insert(ranked, pos, c);
        to_multiset_build(rest, c);
        assert(rest.push(c) =~= candidates);
    }
}

proof fn lemma_liquidatable_error_persists(
    records: Seq<AccountRecord>,
    feed: Map<Identity, PriceOracle>,
    guard: PriceGuard,
    k: int,
)
    requires
        0 <= k <= records.len(),
        liquidatable_spec(records.take(k), feed, guard) is Err,
    ensures
        liquidatable_spec(records, feed, guard) == liquidatable_spec(records.take(k), feed, guard),
    decreases records.len() - k,
{
    if k < records.len() {
        assert(records.take(k + 1).drop_last() =~= records.take(k));
        lemma_liquidatable_error_persists(records, feed, guard, k + 1);
    } else {
        assert(records.take(k) =~= records);
    }
}

/// Every candidate that the scan lists has negative health, and comes
/// from a portfolio record among those scanned.
pub proof fn lemma_listed_are_liquidatable(
    records: Seq<AccountRecord>,
    feed: Map<Identity, PriceOracle>,
    guard: PriceGuard,
)
    ensures
        liquidatable_spec(records, feed, guard) matches Ok(found) ==> forall|i: int|
            0 <= i < found.len() ==> (#[trigger] found[i]).derived.health < 0 && exists|k: int|
                0 <= k < records.len() && inspect_spec(#[trigger] records[k], feed, guard) == Ok::<
                    Option<CandidateView>,
                    Failure,
                >(Some(found[i])),
    decreases records.len(),
{
    if records.len() > 0 {
        let rest = records.drop_last();
        lemma_listed_are_liquidatable(rest, feed, guard);
        if let Ok(found) = liquidatable_spec(records, feed, guard) {
            let before = liquidatable_spec(rest, feed, guard)->Ok_0;
            assert forall|i: int| 0 <= i < found.len() implies (#[trigger] found[i]).derived.health
                < 0 && exists|k: int|
                0 <= k < records.len() && inspect_spec(#[trigger] records[k], feed, guard) == Ok::<
                    Option<CandidateView>,
                    Failure,
                >(Some(found[i])) by {
                if i < before.len() {
                    assert(found[i] == before[i]);
                    let k = choose|k: int|
                        0 <= k < rest.len() && inspect_spec(#[trigger] rest[k], feed, guard) == Ok::<
                            Option<CandidateView>,
                            Failure,
                        >(Some(before[i]));
                    assert(records[k] == rest[k]);
                } else {
                    assert(inspect_spec(records[records.len() - 1], feed, guard) == Ok::<
                        Option<CandidateView>,
                        Failure,
                    >(Some(found[i])));
                }
            }
        }
    }
}

/// Every portfolio record with negative health is listed, unless the scan
/// fails.
pub proof fn lemma_liquidatable_are_listed(
    records: Seq<AccountRecord>,
    feed: Map<Identity, PriceOracle>,
    guard: PriceGuard,
    k: int,
)
    requires
        0 <= k < records.len(),
    ensures
        liquidatable_spec(records, feed, guard) matches Ok(found) ==> (inspect_spec(
            records[k],
            feed,
            guard,
        ) matches Ok(Some(c)) ==> found.contains(c)),
    decreases records.len(),
{
    let rest = records.drop_last();
    if let Ok(found) = liquidatable_spec(records, feed, guard) {
        let before = liquidatable_spec(rest, feed, guard)->Ok_0;
        if k < records.len() - 1 {
            lemma_liquidatable_are_listed(rest, feed, guard, k);
            assert(rest[k] == records[k]);
            if let Ok(Some(c)) = inspect_spec(records[k], feed, guard) {
                let i = choose|i: int| 0 <= i < before.len() && before[i] == c;
                assert(found[i] == c);
            }
        } else {
            if let Ok(Some(c)) = inspect_spec(records[k], feed, guard) {
                assert(found[found.len() - 1] == c);
            }
        }
    }
}

fn place(ranked: &Vec<Candidate>, health: i64) -> (pos: usize)
    ensures
        pos == rank_position(views(ranked@), health),
        pos <= ranked@.len(),
{
    let mut pos: usize = ranked.len();
    assert(views(ranked@).take(pos as int) =~= views(ranked@));
    while pos > 0 && ranked[pos - 1].derived.health > health
        invariant
            pos <= ranked@.len(),
            rank_position(views(ranked@), health) == rank_position(
                views(ranked@).take(pos as int),
                health,
            ),
        decreases pos,
    {
        proof {
            let head = views(ranked@).take(pos as int);
            assert(head.last() == ranked@[pos - 1]@);
            assert(head.drop_last() =~= views(ranked@).take(pos - 1));
        }
        pos -= 1;
    }
    proof {
        let head = views(ranked@).take(pos as int);
        if pos > 0 {
            assert(head.last() == ranked@[pos - 1]@);
        }
    }
    pos
}

/// Scans the accounts of the store and lists the liquidatable portfolios,
/// in ascending order of health.  Accounts that are no portfolio records
/// are passed over.  Each portfolio is evaluated afresh at the prices of
/// the guard's instant; the first that cannot be evaluated fails the scan.
pub fn list_liquidatable(records: &Vec<AccountRecord>, feed: &PriceFeed, guard: &PriceGuard) -> (r:
    Result<Vec<Candidate>, Failure>)
    requires
        feed.wf(),
    ensures
        match r {
            Ok(listed) => scan_spec(records@, feed@, *guard) == Ok::<Seq<CandidateView>, Failure>(
                views(listed@),
            ) && ascending(views(listed@)) && forall|i: int|
                0 <= i < listed@.len() ==> (#[trigger] listed@[i]).derived.health < 0,
            Err(f) => scan_spec(records@, feed@, *guard) == Err::<Seq<CandidateView>, Failure>(f),
        },
{
    let mut ranked: Vec<Candidate> = Vec::new();
    let ghost mut found: Seq<CandidateView> = Seq::empty();
    let mut i: usize = 0;
    while i < records.len()
        invariant
            feed.wf(),
            i <= records@.len(),
            liquidatable_spec(records@.take(i as int), feed@, *guard) == Ok::<
                Seq<CandidateView>,
                Failure,
            >(found),
            views(ranked@) == rank(found),
            forall|j: int| 0 <= j < ranked@.len() ==> (#[trigger] ranked@[j]).derived.health < 0,
        decreases records@.len() - i,
    {
        proof {
            assert(records@.take(i + 1).drop_last() =~= records@.take(i as int));
        }
        let record = &records[i];
        match decode_portfolio(record.data.as_slice()) {
            Err(_) => {},
            Ok(portfolio) => {
                match evaluate(&portfolio, feed, guard) {
                    Err(error) => {
                        proof {
                            lemma_liquidatable_error_persists(records@, feed@, *guard, i + 1);
                        }
                        return Err(Failure { portfolio: record.key, stage: Stage::Evaluate, error });
                    },
                    Ok(derived) => {
                        if derived.health < 0 {
                            let candidate = Candidate { account: record.key, portfolio, derived };
                            let pos = place(&ranked, derived.health);
                            proof {
                                assert(found.push(candidate@).drop_last() =~= found);
                                assert(views(ranked@.insert(pos as int, candidate)) =~= views(
                                    ranked@,
                                ).insert(pos as int, candidate@));
                                found = found.push(candidate@);
                            }
                            ranked.insert(pos, candidate);
                        }
                    },
                }
            },
        }
        i += 1;
    }
    proof {
        assert(records@.take(records@.len() as int) =~= records@);
        lemma_rank(found);
    }
    Ok(ranked)
}

} // verus!
