//! Fee resolution: what a cached transaction pays, once the transactions
//! it spends from are known.

use vstd::prelude::*;
use crate::mempool::MempoolEntry;
use crate::table::HashTable;
use crate::types::{Hash256, OutPoint, Transaction, TransactionView, Txid};

verus! {

/// The transaction `txid` as far as it is known: from the cache first, then
/// from the mempool.
pub open spec fn source_tx(
    txid: Txid,
    cache: Map<Hash256, Transaction>,
    pool: Map<Hash256, MempoolEntry>,
) -> Option<Transaction> {
    if cache.contains_key(txid) {
        Some(cache[txid])
    } else if pool.contains_key(txid) {
        Some(pool[txid].tx)
    } else {
        None
    }
}

/// The ids of the unknown transactions that `inputs` spend from, one for
/// each such input, in the order of the inputs.
pub open spec fn missing_sources(
    inputs: Seq<OutPoint>,
    cache: Map<Hash256, Transaction>,
    pool: Map<Hash256, MempoolEntry>,
) -> Seq<Txid>
    decreases inputs.len(),
{
    if inputs.len() == 0 {
        Seq::empty()
    } else {
        let rest = missing_sources(inputs.drop_last(), cache, pool);
        if source_tx(inputs.last().txid, cache, pool) is None {
            rest.push(inputs.last().txid)
        } else {
            rest
        }
    }
}

/// The value of the output that `input` spends, where its transaction is
/// known and has an output of that index.
pub open spec fn spent_value(
    input: OutPoint,
    cache: Map<Hash256, Transaction>,
    pool: Map<Hash256, MempoolEntry>,
) -> Option<u64> {
    match source_tx(input.txid, cache, pool) {
        Some(tx) => if input.vout < tx.outputs@.len() {
            Some(tx.outputs@[input.vout as int])
        } else {
            None
        },
        None => None,
    }
}

/// Every input spends an output that exists.
pub open spec fn all_valued(
    inputs: Seq<OutPoint>,
    cache: Map<Hash256, Transaction>,
    pool: Map<Hash256, MempoolEntry>,
) -> bool {
    forall|i: int| 0 <= i < inputs.len() ==> (#[trigger] spent_value(inputs[i], cache, pool)) is Some
}

/// The sum of the values that `inputs` spend; an input without a value
/// counts as nothing.
pub open spec fn value_in(
    inputs: Seq<OutPoint>,
    cache: Map<Hash256, Transaction>,
    pool: Map<Hash256, MempoolEntry>,
) -> int
    decreases inputs.len(),
{
    if inputs.len() == 0 {
        0
    } else {
        value_in(inputs.drop_last(), cache, pool) + match spent_value(inputs.last(), cache, pool) {
            Some(v) => v as int,
            None => 0,
        }
    }
}

/// The sum of the values of `outputs`.
pub open spec fn value_out(outputs: Seq<u64>) -> int
    decreases outputs.len(),
{
    if outputs.len() == 0 {
        0
    } else {
        value_out(outputs.drop_last()) + outputs.last()
    }
}

/// What is known of the fee of a transaction.
pub enum FeeOutlook {
    /// The transaction itself has not been fetched.
    NotCached,
    /// Transactions that it spends from are unknown: their ids.
    Missing(Seq<Txid>),
    /// Its inputs are known, but no fee can be told: an input spends an
    /// output that does not exist, the inputs' value exceeds the range of an
    /// amount, or the outputs are worth more than the inputs.
    Unpayable,
    /// Its fee.
    Ready(u64),
}

/// As [`FeeOutlook`], holding the missing ids in a vector.
#[derive(Debug)]
pub enum FeeResolution {
    NotCached,
    Missing(Vec<Txid>),
    Unpayable,
    Ready(u64),
}

impl View for FeeResolution {
    type V = FeeOutlook;

    open spec fn view(&self) -> FeeOutlook {
        match self {
            FeeResolution::NotCached => FeeOutlook::NotCached,
            FeeResolution::Missing(ids) => FeeOutlook::Missing(ids@),
            FeeResolution::Unpayable => FeeOutlook::Unpayable,
            FeeResolution::Ready(fee) => FeeOutlook::Ready(*fee),
        }
    }
}

/// The fee of a transaction whose inputs are all valued: the inputs' value
/// less the outputs' value, where that is an amount.
pub open spec fn fee_of(
    tx: TransactionView,
    cache: Map<Hash256, Transaction>,
    pool: Map<Hash256, MempoolEntry>,
) -> Option<u64> {
    let v_in = value_in(tx.inputs, cache, pool);
    let v_out = value_out(tx.outputs);
    if all_valued(tx.inputs, cache, pool) && v_out <= v_in <= u64::MAX {
        Some((v_in - v_out) as u64)
    } else {
        None
    }
}

/// What is known of the fee of `txid`, given the cache and the mempool.
pub open spec fn fee_outlook(
    txid: Txid,
    cache: Map<Hash256, Transaction>,
    pool: Map<Hash256, MempoolEntry>,
) -> FeeOutlook {
    if !cache.contains_key(txid) {
        FeeOutlook::NotCached
    } else {
        let tx = cache[txid]@;
        let missing = missing_sources(tx.inputs, cache, pool);
        if missing.len() > 0 {
            FeeOutlook::Missing(missing)
        } else {
            match fee_of(tx, cache, pool) {
                Some(fee) => FeeOutlook::Ready(fee),
                None => FeeOutlook::Unpayable,
            }
        }
    }
}

/// Adds up the values of `outputs`, in a range that the sum cannot leave.
fn sum_outputs(outputs: &Vec<u64>) -> (total: u128)
    ensures
        total == value_out(outputs@),
{
    let mut total: u128 = 0;
    let mut i: usize = 0;
    assert(outputs@.take(0) =~= Seq::<u64>::empty());
    while i < outputs.len()
        invariant
            i <= outputs@.len(),
            total == value_out(outputs@.take(i as int)),
            total <= i * 0xffff_ffff_ffff_ffff,
        decreases outputs@.len() - i,
    {
        proof {
            assert(outputs@.take(i + 1).drop_last() =~= outputs@.take(i as int));
            assert(outputs@.take(i + 1).last() == outputs@[i as int]);
        }
        total = total + (outputs[i] as u128);
        i = i + 1;
    }
    assert(outputs@.take(i as int) =~= outputs@);
    total
}

/// Looks the transaction `txid` up as [`source_tx`] says.
fn lookup_source<'a>(
    cache: &'a HashTable<Transaction>,
    pool: &'a HashTable<MempoolEntry>,
    txid: Txid,
) -> (r: Option<&'a Transaction>)
    requires
        cache.wf(),
        pool.wf(),
    ensures
        match r {
            Some(tx) => source_tx(txid, cache@, pool@) == Some(*tx),
            None => source_tx(txid, cache@, pool@) is None,
        },
{
    match cache.get(txid) {
        Some(tx) => Some(tx),
        None => match pool.get(txid) {
            Some(entry) => Some(&entry.tx),
            None => None,
        },
    }
}

/// Resolves the fee of the cached transaction `txid`: scans all its inputs,
/// collects every missing source, and computes the fee where none is
/// missing.
pub fn resolve_fee(cache: &HashTable<Transaction>, pool: &HashTable<MempoolEntry>, txid: Txid) -> (r: FeeResolution)
    requires
        cache.wf(),
        pool.wf(),
    ensures
        r@ == fee_outlook(txid, cache@, pool@),
{
    let tx = match cache.get(txid) {
        Some(tx) => tx,
        None => {
            return FeeResolution::NotCached;
        },
    };
    let mut missing: Vec<Txid> = Vec::new();
    let mut valued: bool = true;
    let mut total: u128 = 0;
    let mut i: usize = 0;
    assert(tx.inputs@.take(0) =~= Seq::<OutPoint>::empty());
    while i < tx.inputs.len()
        invariant
            cache.wf(),
            pool.wf(),
            i <= tx.inputs@.len(),
            missing@ == missing_sources(tx.inputs@.take(i as int), cache@, pool@),
            valued == all_valued(tx.inputs@.take(i as int), cache@, pool@),
            total == value_in(tx.inputs@.take(i as int), cache@, pool@),
            total <= i * 0xffff_ffff_ffff_ffff,
        decreases tx.inputs@.len() - i,
    {
        let input = tx.inputs[i];
        proof {
            let next = tx.inputs@.take(i + 1);
            let prev = tx.inputs@.take(i as int);
            assert(next.drop_last() =~= prev);
            assert(next.last() == input);
            assert(all_valued(next, cache@, pool@) == (all_valued(prev, cache@, pool@) && spent_value(
                input,
                cache@,
                pool@,
            ) is Some)) by {
                if all_valued(next, cache@, pool@) {
                    assert(next[i as int] == input);
                    assert forall|j: int| 0 <= j < prev.len() implies (#[trigger] spent_value(prev[j], cache@, pool@))
                        is Some by {
                        assert(prev[j] == next[j]);
                    }
                }
                if all_valued(prev, cache@, pool@) && spent_value(input, cache@, pool@) is Some {
                    assert forall|j: int| 0 <= j < next.len() implies (#[trigger] spent_value(next[j], cache@, pool@))
                        is Some by {
                        if j < i {
                            assert(prev[j] == next[j]);
                        }
                    }
                }
            }
        }
        match lookup_source(cache, pool, input.txid) {
            Some(source) => {
                let vout: usize = input.vout as usize;
                if vout < source.outputs.len() {
                    total = total + (source.outputs[vout] as u128);
                } else {
                    valued = false;
                }
            },
            None => {
                missing.push(input.txid);
                valued = false;
            },
        }
        i = i + 1;
    }
    assert(tx.inputs@.take(i as int) =~= tx.inputs@);
    if missing.len() > 0 {
        return FeeResolution::Missing(missing);
    }
    let spent = sum_outputs(&tx.outputs);
    if valued && spent <= total && total <= 0xffff_ffff_ffff_ffff {
        FeeResolution::Ready((total - spent) as u64)
    } else {
        FeeResolution::Unpayable
    }
}

} // verus!
