//! The price feed: one authenticated price point per instrument.

use vstd::prelude::*;
use crate::error::EngineError;
use crate::identity::Identity;

verus! {

/// The current price point of one instrument.
#[derive(Clone, Copy, Debug, PartialEq, Eq, Structural)]
pub struct PriceOracle {
    /// Who may update the price.
    pub authority: Identity,
    /// The instrument that is priced.
    pub instrument: Identity,
    /// The price, in raw fixed-point units.
    pub price: i64,
    /// When the price was last updated.
    pub timestamp: i64,
    /// Width of the confidence interval, in raw fixed-point units.
    pub confidence: u64,
}

/// The record that `initialize` creates: no price yet, at time zero.
pub open spec fn fresh_record(instrument: Identity, authority: Identity) -> PriceOracle {
    PriceOracle { authority, instrument, price: 0, timestamp: 0, confidence: 0 }
}

/// What `get_price` answers on a feed with the given records.
pub open spec fn price_of(
    feed: Map<Identity, PriceOracle>,
    instrument: Identity,
    now: i64,
    max_staleness: u64,
    min_confidence: u64,
) -> Result<i64, EngineError> {
    if !feed.dom().contains(instrument) {
        Err(EngineError::UnknownInstrument(instrument))
    } else if now - feed[instrument].timestamp > max_staleness {
        Err(EngineError::StalePrice(instrument))
    } else if feed[instrument].confidence > min_confidence {
        Err(EngineError::LowConfidence(instrument))
    } else {
        Ok(feed[instrument].price)
    }
}

/// Whether `update_price` accepts an update, and with which error it
/// refuses one.
pub open spec fn update_check(
    feed: Map<Identity, PriceOracle>,
    authority: Identity,
    instrument: Identity,
    timestamp: i64,
) -> Result<(), EngineError> {
    if !feed.dom().contains(instrument) {
        Err(EngineError::UnknownInstrument(instrument))
    } else if feed[instrument].authority != authority {
        Err(EngineError::Unauthorized)
    } else if timestamp <= feed[instrument].timestamp {
        Err(EngineError::NonMonotonicTimestamp)
    } else {
        Ok(())
    }
}

/// What every operation on the feed keeps: no record is deleted or handed
/// to another authority, and no timestamp moves back.
pub open spec fn keeps_records(
    before: Map<Identity, PriceOracle>,
    after: Map<Identity, PriceOracle>,
) -> bool {
    forall|k: Identity| #[trigger]
        before.dom().contains(k) ==> after.dom().contains(k) && after[k].authority
            == before[k].authority && after[k].timestamp >= before[k].timestamp
}

spec fn holds(records: Seq<PriceOracle>, instrument: Identity) -> bool {
    exists|i: int| 0 <= i < records.len() && (#[trigger] records[i]).instrument == instrument
}

spec fn slot(records: Seq<PriceOracle>, instrument: Identity) -> int {
    choose|i: int| 0 <= i < records.len() && (#[trigger] records[i]).instrument == instrument
}

spec fn distinct(records: Seq<PriceOracle>) -> bool {
    forall|i: int, j: int|
        0 <= i < j < records.len() ==> (#[trigger] records[i]).instrument != (
        #[trigger] records[j]).instrument
}

spec fn as_map(records: Seq<PriceOracle>) -> Map<Identity, PriceOracle> {
    Map::new(|k: Identity| holds(records, k), |k: Identity| records[slot(records, k)])
}

proof fn lemma_slot_found(records: Seq<PriceOracle>, i: int)
    requires
        distinct(records),
        0 <= i < records.len(),
    ensures
        holds(records, records[i].instrument),
        slot(records, records[i].instrument) == i,
        as_map(records).dom().contains(records[i].instrument),
        as_map(records)[records[i].instrument] == records[i],
{
    let k = records[i].instrument;
    assert(holds(records, k));
    let j = slot(records, k);
    assert(0 <= j < records.len() && records[j].instrument == k);
    if j < i {
        assert(records[j].instrument != records[i].instrument);
    } else if i < j {
        assert(records[i].instrument != records[j].instrument);
    }
}

proof fn lemma_replace(records: Seq<PriceOracle>, i: int, record: PriceOracle)
    requires
        distinct(records),
        0 <= i < records.len(),
        record.instrument == records[i].instrument,
    ensures
        distinct(records.update(i, record)),
        as_map(records.update(i, record)) == as_map(records).insert(record.instrument, record),
{
    let after = records.update(i, record);
    assert forall|a: int, b: int| 0 <= a < b < after.len() implies (#[trigger] after[a]).instrument
        != (#[trigger] after[b]).instrument by {
        assert(records[a].instrument != records[b].instrument);
    }
    assert forall|k: Identity| holds(after, k) == holds(records, k) by {
        if holds(after, k) {
            let j = slot(after, k);
            assert(records[j].instrument == k);
        }
        if holds(records, k) {
            let j = slot(records, k);
            assert(after[j].instrument == k);
        }
    }
    assert forall|k: Identity| #[trigger] holds(after, k) implies after[slot(after, k)] == (
    if k == record.instrument {
        record
    } else {
        records[slot(records, k)]
    }) by {
        let j = slot(after, k);
        lemma_slot_found(after, j);
        lemma_slot_found(records, j);
    }
    assert(as_map(after) =~= as_map(records).insert(record.instrument, record));
}

proof fn lemma_append(records: Seq<PriceOracle>, record: PriceOracle)
    requires
        distinct(records),
        !holds(records, record.instrument),
    ensures
        distinct(records.push(record)),
        as_map(records.push(record)) == as_map(records).insert(record.instrument, record),
{
    let after = records.push(record);
    assert forall|a: int, b: int| 0 <= a < b < after.len() implies (#[trigger] after[a]).instrument
        != (#[trigger] after[b]).instrument by {
        if b < records.len() {
            assert(records[a].instrument != records[b].instrument);
        } else {
            assert(records[a].instrument == after[a].instrument);
            if records[a].instrument == record.instrument {
                assert(holds(records, record.instrument));
            }
        }
    }
    assert(after[records.len() as int].instrument == record.instrument);
    assert forall|k: Identity| holds(after, k) == (holds(records, k) || k == record.instrument) by {
        if holds(after, k) {
            let j = slot(after, k);
            if j < records.len() {
                assert(records[j].instrument == k);
            }
        }
        if holds(records, k) {
            let j = slot(records, k);
            assert(after[j].instrument == k);
        }
    }
    assert forall|k: Identity| #[trigger] holds(after, k) implies after[slot(after, k)] == (
    if k == record.instrument {
        record
    } else {
        records[slot(records, k)]
    }) by {
        let j = slot(after, k);
        lemma_slot_found(after, j);
        if j < records.len() {
            lemma_slot_found(records, j);
        }
    }
    assert(as_map(after) =~= as_map(records).insert(record.instrument, record));
}

/// The price feed.  Its view maps each initialized instrument to its
/// current price point.
pub struct PriceFeed {
    records: Vec<PriceOracle>,
}

impl View for PriceFeed {
    type V = Map<Identity, PriceOracle>;

    closed spec fn view(&self) -> Map<Identity, PriceOracle> {
        as_map(self.records@)
    }
}

impl PriceFeed {
    /// No instrument has two records.
    pub closed spec fn wf(&self) -> bool {
        distinct(self.records@)
    }

    /// A feed without instruments.
    pub fn new() -> (feed: PriceFeed)
        ensures
            feed.wf(),
            feed@ == Map::<Identity, PriceOracle>::empty(),
    {
        let feed = PriceFeed { records: Vec::new() };
        assert(feed@ =~= Map::<Identity, PriceOracle>::empty());
        feed
    }

    fn find(&self, instrument: &Identity) -> (found: Option<usize>)
        requires
            self.wf(),
        ensures
            match found {
                Some(i) => i < self.records@.len() && self.records@[i as int].instrument
                    == *instrument && self@.dom().contains(*instrument) && self@[*instrument]
                    == self.records@[i as int],
                None => !self@.dom().contains(*instrument),
            },
    {
        let mut i: usize = 0;
        while i < self.records.len()
            invariant
                self.wf(),
                i <= self.records@.len(),
                forall|j: int| 0 <= j < i ==> (#[trigger] self.records@[j]).instrument != *instrument,
            decreases self.records@.len() - i,
        {
            if self.records[i].instrument == *instrument {
                proof {
                    lemma_slot_found(self.records@, i as int);
                }
                return Some(i);
            }
            i += 1;
        }
        assert(!holds(self.records@, *instrument));
        None
    }

    /// Creates the record of an instrument, owned by `authority`.  An
    /// instrument is initialized once: a second attempt is refused as
    /// unauthorized and changes nothing.
    pub fn initialize(&mut self, instrument: Identity, authority: Identity) -> (r: Result<
        (),
        EngineError,
    >)
        requires
            old(self).wf(),
        ensures
            final(self).wf(),
            old(self)@.dom().contains(instrument) ==> r == Err::<(), EngineError>(
                EngineError::Unauthorized,
            ) && final(self)@ == old(self)@,
            !old(self)@.dom().contains(instrument) ==> r == Ok::<(), EngineError>(())
                && final(self)@ == old(self)@.insert(
                instrument,
                fresh_record(instrument, authority),
            ),
            keeps_records(old(self)@, final(self)@),
    {
        match self.find(&instrument) {
            Some(_) => Err(EngineError::Unauthorized),
            None => {
                let record = PriceOracle {
                    authority,
                    instrument,
                    price: 0,
                    timestamp: 0,
                    confidence: 0,
                };
                proof {
                    lemma_append(self.records@, record);
                }
                self.records.push(record);
                Ok(())
            },
        }
    }

    /// Files a record as the store holds it.  The record is adopted if its
    /// instrument has none yet; otherwise nothing changes.
    pub fn adopt(&mut self, record: PriceOracle) -> (adopted: bool)
        requires
            old(self).wf(),
        ensures
            final(self).wf(),
            adopted == !old(self)@.dom().contains(record.instrument),
            final(self)@ == if adopted {
                old(self)@.insert(record.instrument, record)
            } else {
                old(self)@
            },
            keeps_records(old(self)@, final(self)@),
    {
        match self.find(&record.instrument) {
            Some(_) => false,
            None => {
                proof {
                    lemma_append(self.records@, record);
                }
                self.records.push(record);
                true
            },
        }
    }

    /// Overwrites the price point of an instrument.  Only the record's
    /// authority may do so, and only with a later timestamp; a refused
    /// update changes nothing.
    pub fn update_price(
        &mut self,
        authority: Identity,
        instrument: Identity,
        price: i64,
        timestamp: i64,
        confidence: u64,
    ) -> (r: Result<(), EngineError>)
        requires
            old(self).wf(),
        ensures
            final(self).wf(),
            r == update_check(old(self)@, authority, instrument, timestamp),
            r is Ok ==> final(self)@ == old(self)@.insert(
                instrument,
                (PriceOracle { authority, instrument, price, timestamp, confidence }),
            ),
            r is Err ==> final(self)@ == old(self)@,
            keeps_records(old(self)@, final(self)@),
    {
        match self.find(&instrument) {
            None => Err(EngineError::UnknownInstrument(instrument)),
            Some(i) => {
                let stored = self.records[i];
                if !(stored.authority == authority) {
                    Err(EngineError::Unauthorized)
                } else if timestamp <= stored.timestamp {
                    Err(EngineError::NonMonotonicTimestamp)
                } else {
                    let record = PriceOracle { authority, instrument, price, timestamp, confidence };
                    proof {
                        lemma_replace(self.records@, i as int, record);
                    }
                    self.records[i] = record;
                    Ok(())
                }
            },
        }
    }

    /// The record of an instrument, if it has one.
    pub fn record(&self, instrument: Identity) -> (r: Option<PriceOracle>)
        requires
            self.wf(),
        ensures
            r == if self@.dom().contains(instrument) {
                Some(self@[instrument])
            } else {
                None
            },
            r matches Some(record) ==> record.instrument == instrument,
    {
        match self.find(&instrument) {
            None => None,
            Some(i) => Some(self.records[i]),
        }
    }

    /// Every record is filed under its own instrument.
    pub proof fn lemma_filed_under_own_instrument(&self, instrument: Identity)
        requires
            self.wf(),
            self@.dom().contains(instrument),
        ensures
            self@[instrument].instrument == instrument,
    {
        let i = slot(self.records@, instrument);
        lemma_slot_found(self.records@, i);
    }

    /// The current price of an instrument, if it is known, fresh at `now`
    /// and confident enough.
    pub fn get_price(
        &self,
        instrument: Identity,
        now: i64,
        max_staleness: u64,
        min_confidence: u64,
    ) -> (r: Result<i64, EngineError>)
        requires
            self.wf(),
        ensures
            r == price_of(self@, instrument, now, max_staleness, min_confidence),
    {
        match self.find(&instrument) {
            None => Err(EngineError::UnknownInstrument(instrument)),
            Some(i) => {
                let stored = self.records[i];
                let age: i128 = now as i128 - stored.timestamp as i128;
                if age > max_staleness as i128 {
                    Err(EngineError::StalePrice(instrument))
                } else if stored.confidence > min_confidence {
                    Err(EngineError::LowConfidence(instrument))
                } else {
                    Ok(stored.price)
                }
            },
        }
    }
}

} // verus!
