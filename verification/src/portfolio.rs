//! Portfolios: collateral and the open exposures that it backs.

use vstd::prelude::*;
use crate::error::EngineError;
use crate::fixed::SCALE;
use crate::identity::Identity;

verus! {

/// The most exposures that one portfolio holds.
pub const MAX_EXPOSURES: usize = 16;

/// One open position line of a portfolio.
#[derive(Clone, Copy, Debug, PartialEq, Eq, Structural)]
pub struct Exposure {
    /// The instrument of the position.
    pub instrument: Identity,
    /// Signed size: positive is long, negative is short.
    pub size: i64,
    /// The price at which the position was entered.
    pub entry_price: i64,
    /// Fraction of the notional required as initial margin.
    pub risk_weight_initial: u64,
    /// Fraction of the notional required as maintenance margin.
    pub risk_weight_maintenance: u64,
}

impl Exposure {
    /// The maintenance weight is at most the initial weight, and both are
    /// fractions of one.
    pub open spec fn wf(self) -> bool {
        self.risk_weight_maintenance <= self.risk_weight_initial <= SCALE
    }

    /// An exposure with the given terms, or `MalformedAccount` if its risk
    /// weights are not ordered fractions.
    pub fn new(
        instrument: Identity,
        size: i64,
        entry_price: i64,
        risk_weight_initial: u64,
        risk_weight_maintenance: u64,
    ) -> (r: Result<Exposure, EngineError>)
        ensures
            r == if risk_weight_maintenance <= risk_weight_initial <= SCALE {
                Ok::<Exposure, EngineError>(
                    (Exposure {
                        instrument,
                        size,
                        entry_price,
                        risk_weight_initial,
                        risk_weight_maintenance,
                    }),
                )
            } else {
                Err::<Exposure, EngineError>(EngineError::MalformedAccount)
            },
    {
        let e = Exposure {
            instrument,
            size,
            entry_price,
            risk_weight_initial,
            risk_weight_maintenance,
        };
        if e.is_wf() {
            Ok(e)
        } else {
            Err(EngineError::MalformedAccount)
        }
    }

    /// Tests `wf`.
    pub fn is_wf(&self) -> (b: bool)
        ensures
            b == self.wf(),
    {
        self.risk_weight_maintenance <= self.risk_weight_initial && self.risk_weight_initial
            <= SCALE
    }
}

/// Whether every exposure of a sequence is well formed.
pub open spec fn all_wf(exposures: Seq<Exposure>) -> bool {
    forall|i: int| 0 <= i < exposures.len() ==> (#[trigger] exposures[i]).wf()
}

/// What a portfolio holds.
pub struct PortfolioView {
    pub user: Identity,
    pub collateral: u64,
    pub exposures: Seq<Exposure>,
}

impl PortfolioView {
    /// A bounded number of well-formed exposures.
    pub open spec fn wf(self) -> bool {
        self.exposures.len() <= MAX_EXPOSURES && all_wf(self.exposures)
    }
}

/// A user's collateral and open exposures, in the order in which they were
/// opened.
#[derive(Clone, Debug)]
pub struct Portfolio {
    user: Identity,
    collateral: u64,
    exposures: Vec<Exposure>,
}

impl View for Portfolio {
    type V = PortfolioView;

    closed spec fn view(&self) -> PortfolioView {
        PortfolioView {
            user: self.user,
            collateral: self.collateral,
            exposures: self.exposures@,
        }
    }
}

impl Portfolio {
    /// The invariant of `PortfolioView`, on this portfolio.
    pub open spec fn wf(&self) -> bool {
        self@.wf()
    }

    /// A portfolio of `user`, or `MalformedAccount` if it holds too many
    /// exposures or one that is not well formed.
    pub fn new(user: Identity, collateral: u64, exposures: Vec<Exposure>) -> (r: Result<
        Portfolio,
        EngineError,
    >)
        ensures
            match r {
                Ok(p) => p.wf() && p@ == (PortfolioView {
                    user,
                    collateral,
                    exposures: exposures@,
                }),
                Err(e) => e == EngineError::MalformedAccount && !(PortfolioView {
                    user,
                    collateral,
                    exposures: exposures@,
                }).wf(),
            },
    {
        if exposures.len() > MAX_EXPOSURES {
            return Err(EngineError::MalformedAccount);
        }
        let mut i: usize = 0;
        while i < exposures.len()
            invariant
                i <= exposures@.len(),
                forall|j: int| 0 <= j < i ==> (#[trigger] exposures@[j]).wf(),
            decreases exposures@.len() - i,
        {
            if !exposures[i].is_wf() {
                return Err(EngineError::MalformedAccount);
            }
            i += 1;
        }
        Ok(Portfolio { user, collateral, exposures })
    }

    /// The owner.
    pub fn user(&self) -> (r: Identity)
        ensures
            r == self@.user,
    {
        self.user
    }

    /// The collateral, in raw fixed-point units.
    pub fn collateral(&self) -> (r: u64)
        ensures
            r == self@.collateral,
    {
        self.collateral
    }

    /// The number of exposures.
    pub fn exposure_count(&self) -> (r: usize)
        ensures
            r == self@.exposures.len(),
    {
        self.exposures.len()
    }

    /// The exposures, in order.
    pub fn exposures(&self) -> (r: &Vec<Exposure>)
        ensures
            r@ == self@.exposures,
    {
        &self.exposures
    }

    /// The exposure at position `i`, if there is one.
    pub fn exposure(&self, i: usize) -> (r: Option<Exposure>)
        ensures
            r == if i < self@.exposures.len() {
                Some(self@.exposures[i as int])
            } else {
                None
            },
    {
        if i < self.exposures.len() {
            Some(self.exposures[i])
        } else {
            None
        }
    }
}

} // verus!
