//! Failures of the engine and how a retry loop should treat them.

use vstd::prelude::*;
use crate::identity::Identity;

verus! {

/// Why the router turned a closeout down.
#[derive(Clone, Copy, Debug, PartialEq, Eq, Structural)]
pub enum RejectReason {
    /// The portfolio's health was no longer negative when the router looked.
    PreconditionFailed,
    /// The submitter may not liquidate this portfolio.
    BadAuthority,
    /// The router could not read the portfolio account.
    MalformedAccount,
    /// Any other reason, by the router's code.
    Other(u32),
}

/// The router's error number for a portfolio whose health is not negative.
pub const ROUTER_NOT_LIQUIDATABLE: u32 = 0x1770;

/// The router's error number for a submitter that may not liquidate.
pub const ROUTER_BAD_AUTHORITY: u32 = 0x1771;

/// The router's error number for a portfolio account that it cannot read.
pub const ROUTER_MALFORMED_ACCOUNT: u32 = 0x1772;

impl RejectReason {
    /// The reason that an error number of the router stands for.
    pub open spec fn of_code(code: u32) -> RejectReason {
        if code == ROUTER_NOT_LIQUIDATABLE {
            RejectReason::PreconditionFailed
        } else if code == ROUTER_BAD_AUTHORITY {
            RejectReason::BadAuthority
        } else if code == ROUTER_MALFORMED_ACCOUNT {
            RejectReason::MalformedAccount
        } else {
            RejectReason::Other(code)
        }
    }

    /// Reads an error number of the router.
    pub fn from_code(code: u32) -> (reason: RejectReason)
        ensures
            reason == RejectReason::of_code(code),
    {
        if code == ROUTER_NOT_LIQUIDATABLE {
            RejectReason::PreconditionFailed
        } else if code == ROUTER_BAD_AUTHORITY {
            RejectReason::BadAuthority
        } else if code == ROUTER_MALFORMED_ACCOUNT {
            RejectReason::MalformedAccount
        } else {
            RejectReason::Other(code)
        }
    }
}

/// What can go wrong in the engine.
#[derive(Clone, Copy, Debug, PartialEq, Eq, Structural)]
pub enum EngineError {
    /// The price of the instrument is older than allowed.
    StalePrice(Identity),
    /// The confidence interval of the instrument's price is wider than allowed.
    LowConfidence(Identity),
    /// No oracle record exists for the instrument.
    UnknownInstrument(Identity),
    /// A price update does not move the timestamp forward.
    NonMonotonicTimestamp,
    /// The caller is not the authority of the record.
    Unauthorized,
    /// A byte record has the wrong length, discriminator, version or shape.
    MalformedAccount,
    /// A derived quantity does not fit its fixed-point word.
    ArithmeticOverflow,
    /// The portfolio's health is not negative.
    NotLiquidatable,
    /// The router turned the closeout down.
    RouterRejected(RejectReason),
    /// A collaborator could not be reached.
    NetworkFault,
}

/// How the caller of a liquidation attempt should treat an error.
#[derive(Clone, Copy, Debug, PartialEq, Eq, Structural)]
pub enum Disposition {
    /// Another actor got there first; nothing is wrong.
    RaceLost,
    /// A transient fault of a collaborator.
    Transient,
    /// The attempt must not be repeated blindly.
    Fatal,
}

/// The step of a scan or of a liquidation attempt at which a failure arose.
#[derive(Clone, Copy, Debug, PartialEq, Eq, Structural)]
pub enum Stage {
    Fetch,
    Decode,
    Evaluate,
    Submit,
}

/// A failure with the portfolio account and the stage it belongs to.
#[derive(Clone, Copy, Debug, PartialEq, Eq, Structural)]
pub struct Failure {
    pub portfolio: Identity,
    pub stage: Stage,
    pub error: EngineError,
}

/// The disposition of each error.
pub open spec fn disposition_of(error: EngineError) -> Disposition {
    match error {
        EngineError::NotLiquidatable => Disposition::RaceLost,
        EngineError::RouterRejected(RejectReason::PreconditionFailed) => Disposition::RaceLost,
        EngineError::NetworkFault => Disposition::Transient,
        _ => Disposition::Fatal,
    }
}

impl EngineError {
    /// Classifies the error for a retry loop.
    pub fn disposition(&self) -> (d: Disposition)
        ensures
            d == disposition_of(*self),
    {
        match self {
            EngineError::NotLiquidatable => Disposition::RaceLost,
            EngineError::RouterRejected(RejectReason::PreconditionFailed) => Disposition::RaceLost,
            EngineError::NetworkFault => Disposition::Transient,
            _ => Disposition::Fatal,
        }
    }

    /// Whether the attempt may be entered again from its first step.
    pub fn is_retryable(&self) -> (r: bool)
        ensures
            r == (disposition_of(*self) != Disposition::Fatal),
    {
        match self.disposition() {
            Disposition::Fatal => false,
            _ => true,
        }
    }
}

} // verus!
