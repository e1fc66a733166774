//! Byte records of the account store.
//!
//! A record is interpreted only after its length, discriminator, version
//! and shape have been checked.
//!
//! Portfolio record, 1120 bytes, integers little-endian:
//!
//! ```text
//!    0  magic           u64
//!    8  version         u8
//!    9  exposure_count  u8
//!   10  reserved        6 bytes
//!   16  user            32 bytes
//!   48  collateral      u64
//!   56  cached summary  5 x i64, never read: summaries are derived afresh
//!   96  exposures       16 slots of 64 bytes, the first exposure_count used
//!         +0  instrument               32 bytes
//!        +32  size                     i64
//!        +40  entry_price              i64
//!        +48  risk_weight_initial      u64
//!        +56  risk_weight_maintenance  u64
//! ```
//!
//! Oracle record, 128 bytes:
//!
//! ```text
//!    0  magic       u64
//!    8  version     u8
//!    9  bump        u8, not read
//!   10  authority   32 bytes
//!   42  instrument  32 bytes
//!   74  reserved    6 bytes
//!   80  price       i64
//!   88  timestamp   i64
//!   96  confidence  i64, not negative
//!  104  reserved    24 bytes
//! ```

use vstd::prelude::*;
use crate::error::EngineError;
use crate::identity::identity_at;
use crate::identity::Identity;
use crate::oracle::PriceFeed;
use crate::oracle::PriceOracle;
use crate::portfolio::Exposure;
use crate::portfolio::Portfolio;
use crate::portfolio::PortfolioView;
use crate::portfolio::MAX_EXPOSURES;
use crate::wire::read_i64;
use crate::wire::read_u64;
use crate::wire::signed_at;
use crate::wire::word_at;

verus! {

/// One raw account of the store: its address and its bytes.
#[derive(Clone, Debug)]
pub struct AccountRecord {
    pub key: Identity,
    pub data: Vec<u8>,
}

/// Discriminator of a portfolio record.
pub const PORTFOLIO_MAGIC: u64 = 0x5452_4F50_4352_4550;

/// The layout version of portfolio records that this engine reads.
pub const PORTFOLIO_VERSION: u8 = 1;

/// Length of a portfolio record.
pub const PORTFOLIO_LEN: usize = 1120;

/// Length of one exposure slot.
pub const EXPOSURE_LEN: usize = 64;

/// Offset of the first exposure slot.
pub const EXPOSURES_OFFSET: usize = 96;

/// Discriminator of an oracle record.
pub const ORACLE_MAGIC: u64 = 0x4C43_524F_4352_4550;

/// The layout version of oracle records that this engine reads.
pub const ORACLE_VERSION: u8 = 0;

/// Length of an oracle record.
pub const ORACLE_LEN: usize = 128;

/// The exposure held in the slot that starts at byte `off`.
pub open spec fn exposure_at(data: Seq<u8>, off: int) -> Exposure {
    Exposure {
        instrument: identity_at(data, off),
        size: signed_at(data, off + 32),
        entry_price: signed_at(data, off + 40),
        risk_weight_initial: word_at(data, off + 48),
        risk_weight_maintenance: word_at(data, off + 56),
    }
}

/// Offset of exposure slot `i`.
pub open spec fn slot_offset(i: int) -> int {
    EXPOSURES_OFFSET + i * EXPOSURE_LEN
}

/// The exposures that a portfolio record declares.
pub open spec fn record_exposures(data: Seq<u8>) -> Seq<Exposure> {
    Seq::new(data[9] as nat, |i: int| exposure_at(data, slot_offset(i)))
}

/// The portfolio that a record holds.
pub open spec fn record_portfolio(data: Seq<u8>) -> PortfolioView {
    PortfolioView {
        user: identity_at(data, 16),
        collateral: word_at(data, 48),
        exposures: record_exposures(data),
    }
}

/// Whether bytes are a portfolio record: the right length, discriminator
/// and version, and a well-formed portfolio.
pub open spec fn is_portfolio_record(data: Seq<u8>) -> bool {
    &&& data.len() == PORTFOLIO_LEN
    &&& word_at(data, 0) == PORTFOLIO_MAGIC
    &&& data[8] == PORTFOLIO_VERSION
    &&& record_portfolio(data).wf()
}

fn read_exposure(data: &[u8], off: usize) -> (e: Exposure)
    requires
        off + EXPOSURE_LEN <= data@.len(),
    ensures
        e == exposure_at(data@, off as int),
{
    let len = data.len();
    assert(off + 64 <= len);
    Exposure {
        instrument: Identity::read(data, off),
        size: read_i64(data, off + 32),
        entry_price: read_i64(data, off + 40),
        risk_weight_initial: read_u64(data, off + 48),
        risk_weight_maintenance: read_u64(data, off + 56),
    }
}

/// Interprets bytes as a portfolio.  Anything that is not a portfolio
/// record is refused as `MalformedAccount`.
pub fn decode_portfolio(data: &[u8]) -> (r: Result<Portfolio, EngineError>)
    ensures
        match r {
            Ok(p) => is_portfolio_record(data@) && p.wf() && p@ == record_portfolio(data@),
            Err(e) => e == EngineError::MalformedAccount && !is_portfolio_record(data@),
        },
{
    if data.len() != PORTFOLIO_LEN {
        return Err(EngineError::MalformedAccount);
    }
    if read_u64(data, 0) != PORTFOLIO_MAGIC {
        return Err(EngineError::MalformedAccount);
    }
    if data[8] != PORTFOLIO_VERSION {
        return Err(EngineError::MalformedAccount);
    }
    let count = data[9] as usize;
    if count > MAX_EXPOSURES {
        return Err(EngineError::MalformedAccount);
    }
    let user = Identity::read(data, 16);
    let collateral = read_u64(data, 48);
    let mut exposures: Vec<Exposure> = Vec::new();
    let mut i: usize = 0;
    while i < count
        invariant
            data@.len() == PORTFOLIO_LEN,
            count <= MAX_EXPOSURES,
            i <= count,
            exposures@.len() == i,
            forall|j: int| 0 <= j < i ==> exposures@[j] == exposure_at(data@, slot_offset(j)),
        decreases count - i,
    {
        let e = read_exposure(data, EXPOSURES_OFFSET + i * EXPOSURE_LEN);
        exposures.push(e);
        i += 1;
    }
    assert(exposures@ =~= record_exposures(data@));
    Portfolio::new(user, collateral, exposures)
}

/// The price point that an oracle record holds.
pub open spec fn record_oracle(data: Seq<u8>) -> PriceOracle {
    PriceOracle {
        authority: identity_at(data, 10),
        instrument: identity_at(data, 42),
        price: signed_at(data, 80),
        timestamp: signed_at(data, 88),
        confidence: signed_at(data, 96) as u64,
    }
}

/// Whether bytes are an oracle record: the right length, discriminator and
/// version, and a confidence that is not negative.
pub open spec fn is_oracle_record(data: Seq<u8>) -> bool {
    &&& data.len() == ORACLE_LEN
    &&& word_at(data, 0) == ORACLE_MAGIC
    &&& data[8] == ORACLE_VERSION
    &&& signed_at(data, 96) >= 0
}

/// Interprets bytes as a price point.  Anything that is not an oracle
/// record is refused as `MalformedAccount`.
pub fn decode_oracle(data: &[u8]) -> (r: Result<PriceOracle, EngineError>)
    ensures
        r == if is_oracle_record(data@) {
            Ok::<PriceOracle, EngineError>(record_oracle(data@))
        } else {
            Err::<PriceOracle, EngineError>(EngineError::MalformedAccount)
        },
{
    if data.len() != ORACLE_LEN {
        return Err(EngineError::MalformedAccount);
    }
    if read_u64(data, 0) != ORACLE_MAGIC {
        return Err(EngineError::MalformedAccount);
    }
    if data[8] != ORACLE_VERSION {
        return Err(EngineError::MalformedAccount);
    }
    let confidence = read_i64(data, 96);
    if confidence < 0 {
        return Err(EngineError::MalformedAccount);
    }
    Ok(
        PriceOracle {
            authority: Identity::read(data, 10),
            instrument: Identity::read(data, 42),
            price: read_i64(data, 80),
            timestamp: read_i64(data, 88),
            confidence: confidence as u64,
        },
    )
}

/// The price feed that a set of accounts holds: the oracle records among
/// them, the first of each instrument.
pub open spec fn feed_of(accounts: Seq<AccountRecord>) -> Map<Identity, PriceOracle>
    decreases accounts.len(),
{
    if accounts.len() == 0 {
        Map::empty()
    } else {
        let before = feed_of(accounts.drop_last());
        let data = accounts.last().data@;
        if is_oracle_record(data) && !before.dom().contains(record_oracle(data).instrument) {
            before.insert(record_oracle(data).instrument, record_oracle(data))
        } else {
            before
        }
    }
}

/// Builds the price feed from the accounts of the store.  Accounts that
/// are no oracle records are passed over, and so is a second record of an
/// instrument.
pub fn load_price_feed(accounts: &Vec<AccountRecord>) -> (feed: PriceFeed)
    ensures
        feed.wf(),
        feed@ == feed_of(accounts@),
{
    let mut feed = PriceFeed::new();
    let mut i: usize = 0;
    while i < accounts.len()
        invariant
            i <= accounts@.len(),
            feed.wf(),
            feed@ == feed_of(accounts@.take(i as int)),
        decreases accounts@.len() - i,
    {
        proof {
            assert(accounts@.take(i + 1).drop_last() =~= accounts@.take(i as int));
        }
        match decode_oracle(accounts[i].data.as_slice()) {
            Ok(record) => {
                feed.adopt(record);
            },
            Err(_) => {},
        }
        i += 1;
    }
    proof {
        assert(accounts@.take(accounts@.len() as int) =~= accounts@);
    }
    feed
}

} // verus!
