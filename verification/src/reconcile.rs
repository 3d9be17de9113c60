//! Reconciling a batch of records: of several records for one address the
//! one that comes last in the batch stands.
//!
//! The records are compared pair by pair, each with those after it. A
//! batch is small, and a list keeps the order of the batch, which the
//! contracts speak of.

use vstd::prelude::*;
use crate::models::{AddressRecord, AddressRecordView, AddressView, NewAddress};

verus! {

/// What each record of a list holds.
pub open spec fn record_views(records: Seq<AddressRecord>) -> Seq<AddressRecordView> {
    Seq::new(records.len(), |i: int| records[i]@)
}

/// What each of the records that a list refers to holds.
pub open spec fn referred_views(records: Seq<&AddressRecord>) -> Seq<AddressRecordView> {
    Seq::new(records.len(), |i: int| records[i]@)
}

/// What each row of a list holds.
pub open spec fn new_views(rows: Seq<NewAddress>) -> Seq<AddressView> {
    Seq::new(rows.len(), |i: int| rows[i]@)
}

/// Whether no record after position `at` is for the same address.
pub open spec fn is_latest(batch: Seq<AddressRecordView>, at: int) -> bool {
    forall|later: int| at < later < batch.len() ==> (#[trigger] batch[later]).key() != batch[at].key()
}

/// Of the first `upto` records of the batch, those after which the batch
/// holds no record for the same address, in the order of the batch.
pub open spec fn survivors_upto(batch: Seq<AddressRecordView>, upto: int) -> Seq<AddressRecordView>
    decreases upto,
{
    if upto <= 0 {
        Seq::empty()
    } else if is_latest(batch, upto - 1) {
        survivors_upto(batch, upto - 1).push(batch[upto - 1])
    } else {
        survivors_upto(batch, upto - 1)
    }
}

/// The records of a batch that stand: for each address the record that
/// comes last, in the order of the batch.
pub open spec fn survivors(batch: Seq<AddressRecordView>) -> Seq<AddressRecordView> {
    survivors_upto(batch, batch.len() as int)
}

/// Whether `record` stands among the first `upto` records of the batch
/// as the latest for its address.
pub open spec fn latest_among(batch: Seq<AddressRecordView>, upto: int, record: AddressRecordView) -> bool {
    exists|at: int| 0 <= at < upto && is_latest(batch, at) && #[trigger] batch[at] == record
}

/// Every record that stands is a record of the batch that is the latest
/// for its address.
pub proof fn lemma_survivors_from_batch(batch: Seq<AddressRecordView>, upto: int)
    requires
        0 <= upto <= batch.len(),
    ensures
        survivors_upto(batch, upto).len() <= upto,
        forall|k: int|
            0 <= k < survivors_upto(batch, upto).len() ==> latest_among(
                batch,
                upto,
                #[trigger] survivors_upto(batch, upto)[k],
            ),
    decreases upto,
{
    if upto > 0 {
        lemma_survivors_from_batch(batch, upto - 1);
        let before = survivors_upto(batch, upto - 1);
        let now = survivors_upto(batch, upto);
        assert forall|k: int| 0 <= k < now.len() implies latest_among(
            batch,
            upto,
            #[trigger] now[k],
        ) by {
            if k < before.len() {
                assert(latest_among(batch, upto - 1, before[k]));
                let at = choose|at: int|
                    0 <= at < upto - 1 && is_latest(batch, at) && #[trigger] batch[at] == before[k];
                assert(batch[at] == now[k]);
            } else {
                assert(batch[upto - 1] == now[k]);
            }
        }
    }
}

/// The latest record for an address stands.
pub proof fn lemma_latest_survives(batch: Seq<AddressRecordView>, at: int, upto: int)
    requires
        0 <= at < upto <= batch.len(),
        is_latest(batch, at),
    ensures
        exists|k: int|
            0 <= k < survivors_upto(batch, upto).len() && #[trigger] survivors_upto(batch, upto)[k]
                == batch[at],
    decreases upto,
{
    if at == upto - 1 {
        let now = survivors_upto(batch, upto);
        assert(now[now.len() - 1] == batch[at]);
    } else {
        lemma_latest_survives(batch, at, upto - 1);
        let before = survivors_upto(batch, upto - 1);
        let k = choose|k: int| 0 <= k < before.len() && #[trigger] before[k] == batch[at];
        assert(survivors_upto(batch, upto)[k] == batch[at]);
    }
}

/// No two records that stand are for the same address.
pub proof fn lemma_survivors_distinct(batch: Seq<AddressRecordView>, upto: int)
    requires
        0 <= upto <= batch.len(),
    ensures
        forall|a: int, b: int|
            0 <= a < b < survivors_upto(batch, upto).len() ==> (#[trigger] survivors_upto(
                batch,
                upto,
            )[a]).key() != (#[trigger] survivors_upto(batch, upto)[b]).key(),
    decreases upto,
{
    if upto > 0 {
        lemma_survivors_distinct(batch, upto - 1);
        lemma_survivors_from_batch(batch, upto - 1);
        let before = survivors_upto(batch, upto - 1);
        let now = survivors_upto(batch, upto);
        if is_latest(batch, upto - 1) {
            assert forall|a: int, b: int| 0 <= a < b < now.len() implies (#[trigger] now[a]).key()
                != (#[trigger] now[b]).key() by {
                if b == before.len() {
                    assert(latest_among(batch, upto - 1, before[a]));
                    let at = choose|at: int|
                        0 <= at < upto - 1 && is_latest(batch, at) && #[trigger] batch[at]
                            == before[a];
                    assert(batch[upto - 1].key() != batch[at].key());
                } else {
                    assert(before[a].key() != before[b].key());
                }
            }
        }
    }
}

/// Of two records for one address the later stands, and it alone.
pub proof fn lemma_later_record_wins(earlier: AddressRecordView, later: AddressRecordView)
    requires
        earlier.key() == later.key(),
    ensures
        survivors(seq![earlier, later]) == seq![later],
{
    let batch = seq![earlier, later];
    reveal_with_fuel(survivors_upto, 3);
    assert(!is_latest(batch, 0)) by {
        assert(batch[1].key() == batch[0].key());
    }
    assert(is_latest(batch, 1));
    assert(survivors(batch) =~= seq![later]);
}

/// In a batch of any length, the record that stands for an address is
/// the last that the batch holds for it.
pub proof fn lemma_survivor_is_latest(batch: Seq<AddressRecordView>, k: int, at: int)
    requires
        0 <= k < survivors(batch).len(),
        0 <= at < batch.len(),
        batch[at].key() == survivors(batch)[k].key(),
        is_latest(batch, at),
    ensures
        survivors(batch)[k] == batch[at],
{
    lemma_survivors_from_batch(batch, batch.len() as int);
    assert(latest_among(batch, batch.len() as int, survivors(batch)[k]));
    let found = choose|found: int|
        0 <= found < batch.len() && is_latest(batch, found) && #[trigger] batch[found] == survivors(
            batch,
        )[k];
    if found < at {
        assert(batch[at].key() != batch[found].key());
    } else if at < found {
        assert(batch[found].key() != batch[at].key());
    }
}

/// Drops from a batch every record that a later record for the same
/// address replaces. What is left keeps the order of the batch.
pub fn deduplicate<'a>(records: &'a Vec<AddressRecord>) -> (kept: Vec<&'a AddressRecord>)
    ensures
        referred_views(kept@) == survivors(record_views(records@)),
{
    let ghost batch = record_views(records@);
    let mut kept: Vec<&'a AddressRecord> = Vec::new();
    let mut at: usize = 0;
    while at < records.len()
        invariant
            at <= records.len(),
            batch == record_views(records@),
            referred_views(kept@) == survivors_upto(batch, at as int),
        decreases records.len() - at,
    {
        let mut replaced = false;
        let mut later: usize = at + 1;
        while later < records.len() && !replaced
            invariant
                at < later <= records.len(),
                batch == record_views(records@),
                !replaced ==> forall|j: int|
                    at < j < later ==> (#[trigger] batch[j]).key() != batch[at as int].key(),
                replaced ==> !is_latest(batch, at as int),
            decreases records.len() - later + (if replaced { 0int } else { 1int }),
        {
            if records[later].same_key(&records[at]) {
                assert(batch[later as int].key() == batch[at as int].key());
                replaced = true;
            } else {
                later += 1;
            }
        }
        if !replaced {
            assert(is_latest(batch, at as int));
            let ghost before = referred_views(kept@);
            kept.push(&records[at]);
            assert(referred_views(kept@) =~= before.push(batch[at as int]));
        }
        at += 1;
    }
    kept
}

} // verus!
