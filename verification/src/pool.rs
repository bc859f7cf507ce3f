//! The transaction pool model: the pending and proposed sets, the conflict
//! cache, a view of the chain store, the fee-estimator table, and the
//! reorganization rule. Transactions are modelled by what the pool logic
//! reads of them: a short id, a size, a fee, and the cycle count their
//! verification yields; a zero cycle count stands for a transaction the
//! verifier rejects.

use vstd::prelude::*;

use crate::keymap::KeyMap;

verus! {

/// A transaction, as the pool reads it.
#[derive(Copy, Clone, Debug, PartialEq, Eq, Structural)]
pub struct Transaction {
    /// The short proposal id derived from the transaction hash.
    pub short_id: u64,
    /// Serialized size in bytes.
    pub size: u64,
    /// The cycle count verification assigns; zero stands for rejection.
    pub cycles: u64,
    /// The transaction fee.
    pub fee: u64,
}

/// A pool entry: a transaction with its verification outcome.
#[derive(Copy, Clone, Debug, PartialEq, Eq, Structural)]
pub struct TxEntry {
    pub transaction: Transaction,
    pub cycles: u64,
    pub size: u64,
    pub fee: u64,
}

/// The entry a verified transaction is stored under: its own size, fee and
/// cycle count beside it.
pub open spec fn entry_of(tx: Transaction) -> TxEntry {
    TxEntry { transaction: tx, cycles: tx.cycles, size: tx.size, fee: tx.fee }
}

impl TxEntry {
    /// The entry a verified transaction is stored under.
    pub fn from_tx(tx: Transaction) -> (r: TxEntry)
        ensures
            r == entry_of(tx),
    {
        TxEntry { transaction: tx, cycles: tx.cycles, size: tx.size, fee: tx.fee }
    }
}

/// A verification outcome served from the cache or computed afresh.
#[derive(Copy, Clone, Debug, PartialEq, Eq, Structural)]
pub struct CacheEntry {
    pub cycles: u64,
    pub fee: u64,
}

/// Where a plugged entry goes.
#[derive(Copy, Clone, Debug, PartialEq, Eq, Structural)]
pub enum PlugTarget {
    Pending,
    Proposed,
}

/// An uncle candidate, by hash.
#[derive(Copy, Clone, Debug, PartialEq, Eq, Structural)]
pub struct UncleBlock {
    pub hash: u64,
}

/// The chain snapshot, as the pool reads it.
#[derive(Copy, Clone, Debug, PartialEq, Eq, Structural)]
pub struct Snapshot {
    pub tip_number: u64,
}

/// A fee rate, in the node's smallest unit per weight.
#[derive(Copy, Clone, Debug, PartialEq, Eq, Structural)]
pub struct FeeRate(pub u64);

/// Pool configuration.
#[derive(Copy, Clone, Debug, PartialEq, Eq, Structural)]
pub struct TxPoolConfig {
    /// The default byte budget of an assembled block.
    pub max_block_bytes: u64,
}

/// Counters reported to callers.
#[derive(Copy, Clone, Debug, PartialEq, Eq, Structural)]
pub struct TxPoolInfo {
    pub pending_size: u64,
    pub proposed_size: u64,
    pub last_txs_updated_at: u64,
}

/// Why the pool refused an operation.
#[derive(Copy, Clone, Debug, PartialEq, Eq, Structural)]
pub enum PoolError {
    /// The id is already present.
    Duplicate(u64),
}

/// Some transaction in the sequence has this short id.
pub open spec fn txs_contain(s: Seq<Transaction>, id: u64) -> bool {
    exists|j: int| 0 <= j < s.len() && (#[trigger] s[j]).short_id == id
}

/// Some transaction among the first `n` has this short id.
pub open spec fn txs_contain_upto(s: Seq<Transaction>, n: int, id: u64) -> bool {
    exists|j: int| 0 <= j < n && j < s.len() && (#[trigger] s[j]).short_id == id
}

/// Some id among the first `n` equals this id.
pub open spec fn ids_contain_upto(s: Seq<u64>, n: int, id: u64) -> bool {
    exists|j: int| 0 <= j < n && j < s.len() && s[j] == id
}

/// Extending the scanned prefix by one element.
pub proof fn lemma_txs_upto_step(s: Seq<Transaction>, i: int)
    requires
        0 <= i < s.len(),
    ensures
        forall|id: u64|
            #[trigger] txs_contain_upto(s, i + 1, id) == (txs_contain_upto(s, i, id) || s[i].short_id == id),
{
    assert forall|id: u64|
        #[trigger] txs_contain_upto(s, i + 1, id) == (txs_contain_upto(s, i, id) || s[i].short_id == id) by {
        if txs_contain_upto(s, i + 1, id) {
            let j = choose|j: int|
                0 <= j < i + 1 && j < s.len() && (#[trigger] s[j]).short_id == id;
            if j < i {
                assert(txs_contain_upto(s, i, id));
            }
        }
        if txs_contain_upto(s, i, id) {
            let j = choose|j: int| 0 <= j < i && j < s.len() && (#[trigger] s[j]).short_id == id;
            assert(txs_contain_upto(s, i + 1, id));
        }
        if s[i].short_id == id {
            assert(0 <= i < i + 1 && i < s.len() && s[i].short_id == id);
            assert(txs_contain_upto(s, i + 1, id));
        }
    }
}

/// Extending the scanned id prefix by one element.
pub proof fn lemma_ids_upto_step(s: Seq<u64>, i: int)
    requires
        0 <= i < s.len(),
    ensures
        forall|id: u64|
            #[trigger] ids_contain_upto(s, i + 1, id) == (ids_contain_upto(s, i, id) || s[i]
                == id),
{
    assert forall|id: u64|
        #[trigger] ids_contain_upto(s, i + 1, id) == (ids_contain_upto(s, i, id) || s[i]
            == id) by {
        if ids_contain_upto(s, i + 1, id) {
            let j = choose|j: int| 0 <= j < i + 1 && j < s.len() && s[j] == id;
            if j < i {
                assert(ids_contain_upto(s, i, id));
            }
        }
        if ids_contain_upto(s, i, id) {
            let j = choose|j: int| 0 <= j < i && j < s.len() && s[j] == id;
            assert(ids_contain_upto(s, i + 1, id));
        }
        if s[i] == id {
            assert(0 <= i < i + 1 && i < s.len() && s[i] == id);
            assert(ids_contain_upto(s, i + 1, id));
        }
    }
}

/// The transaction pool.
///
/// Lookup order of `get_tx_from_pool_or_store`.
pub open spec fn lookup_tx(p: TxPool, id: u64) -> Option<Transaction> {
    if p.pending@.contains_key(id) {
        Some(p.pending@[id].transaction)
    } else if p.proposed@.contains_key(id) {
        Some(p.proposed@[id].transaction)
    } else if p.conflict@.contains_key(id) {
        Some(p.conflict@[id])
    } else if p.store@.contains_key(id) {
        Some(p.store@[id])
    } else {
        None
    }
}

/// Lookup order of `get_tx_with_cycles`: live pool entries carry their
/// cycles, conflict entries do not.
pub open spec fn lookup_tx_with_cycles(p: TxPool, id: u64) -> Option<(Transaction, Option<u64>)> {
    if p.pending@.contains_key(id) {
        Some((p.pending@[id].transaction, Some(p.pending@[id].cycles)))
    } else if p.proposed@.contains_key(id) {
        Some((p.proposed@[id].transaction, Some(p.proposed@[id].cycles)))
    } else if p.conflict@.contains_key(id) {
        Some((p.conflict@[id], None))
    } else {
        None
    }
}

pub struct TxPool {
    /// Pool configuration.
    pub config: TxPoolConfig,
    /// Transactions submitted but not yet proposed in a block.
    pub pending: KeyMap<TxEntry>,
    /// Transactions proposed by recent blocks.
    pub proposed: KeyMap<TxEntry>,
    /// Transactions set aside after a conflict.
    pub conflict: KeyMap<Transaction>,
    /// Committed transactions, as the chain store serves them.
    pub store: KeyMap<Transaction>,
    /// The chain snapshot the pool was last updated against.
    pub snapshot: Snapshot,
    /// The fee-estimator table: estimated rate per confirmation target.
    pub fee_rates: Vec<u64>,
    /// When the pool's transactions last changed.
    pub last_txs_updated_at: u64,
}

impl TxPool {
    pub fn new(config: TxPoolConfig, snapshot: Snapshot, fee_rates: Vec<u64>) -> (r: TxPool)
        ensures
            r.config == config,
            r.snapshot == snapshot,
            r.fee_rates == fee_rates,
            r.pending@ == Map::<u64, TxEntry>::empty(),
            r.proposed@ == Map::<u64, TxEntry>::empty(),
            r.conflict@ == Map::<u64, Transaction>::empty(),
            r.store@ == Map::<u64, Transaction>::empty(),
            r.last_txs_updated_at == 0,
    {
        TxPool {
            config,
            pending: KeyMap::new(),
            proposed: KeyMap::new(),
            conflict: KeyMap::new(),
            store: KeyMap::new(),
            snapshot,
            fee_rates,
            last_txs_updated_at: 0,
        }
    }

    /// The pool's counters.
    pub fn info(&self) -> (r: TxPoolInfo)
        ensures
            r.pending_size == self.pending@.dom().len(),
            r.proposed_size == self.proposed@.dom().len(),
            r.last_txs_updated_at == self.last_txs_updated_at,
    {
        TxPoolInfo {
            pending_size: self.pending.len() as u64,
            proposed_size: self.proposed.len() as u64,
            last_txs_updated_at: self.last_txs_updated_at,
        }
    }

    /// Whether the id is already known to the pool's proposal set.
    pub fn contains_proposal_id(&self, id: u64) -> (r: bool)
        ensures
            r == (self.pending@.contains_key(id) || self.proposed@.contains_key(id)),
    {
        self.pending.contains_key(id) || self.proposed.contains_key(id)
    }

    /// A proposed entry.
    pub fn get_proposed(&self, id: u64) -> (r: Option<&TxEntry>)
        ensures
            match r {
                Some(e) => self.proposed@.contains_key(id) && *e == self.proposed@[id],
                None => !self.proposed@.contains_key(id),
            },
    {
        self.proposed.get(id)
    }

    /// A transaction from the live pool, ignoring the conflict cache.
    pub fn get_tx_without_conflict(&self, id: u64) -> (r: Option<Transaction>)
        ensures
            r == if self.pending@.contains_key(id) {
                Some(self.pending@[id].transaction)
            } else if self.proposed@.contains_key(id) {
                Some(self.proposed@[id].transaction)
            } else {
                None::<Transaction>
            },
    {
        match self.pending.get(id) {
            Some(e) => Some(e.transaction),
            None => match self.proposed.get(id) {
                Some(e) => Some(e.transaction),
                None => None,
            },
        }
    }

    /// A transaction from the pool, the conflict cache, or the chain store.
    pub fn get_tx_from_pool_or_store(&self, id: u64) -> (r: Option<Transaction>)
        ensures
            r == lookup_tx(*self, id),
    {
        match self.pending.get(id) {
            Some(e) => Some(e.transaction),
            None => match self.proposed.get(id) {
                Some(e) => Some(e.transaction),
                None => match self.conflict.get(id) {
                    Some(t) => Some(*t),
                    None => match self.store.get(id) {
                        Some(t) => Some(*t),
                        None => None,
                    },
                },
            },
        }
    }

    /// A transaction with its cycle count: known cycles from the live pool,
    /// unknown cycles from the conflict cache.
    pub fn get_tx_with_cycles(&self, id: u64) -> (r: Option<(Transaction, Option<u64>)>)
        ensures
            r == lookup_tx_with_cycles(*self, id),
    {
        match self.pending.get(id) {
            Some(e) => Some((e.transaction, Some(e.cycles))),
            None => match self.proposed.get(id) {
                Some(e) => Some((e.transaction, Some(e.cycles))),
                None => match self.conflict.get(id) {
                    Some(t) => Some((*t, None)),
                    None => None,
                },
            },
        }
    }

    /// Add an entry to the pending set; an id already known to the pool is
    /// refused.
    pub fn add_pending(&mut self, entry: TxEntry) -> (r: Result<(), PoolError>)
        ensures
            old(self).pending@.contains_key(entry.transaction.short_id) || old(
                self,
            ).proposed@.contains_key(entry.transaction.short_id) ==> {
                &&& r == Err::<(), PoolError>(PoolError::Duplicate(entry.transaction.short_id))
                &&& *final(self) == *old(self)
            },
            !(old(self).pending@.contains_key(entry.transaction.short_id) || old(
                self,
            ).proposed@.contains_key(entry.transaction.short_id)) ==> {
                &&& r == Ok::<(), PoolError>(())
                &&& final(self).pending@ == old(self).pending@.insert(
                    entry.transaction.short_id,
                    entry,
                )
                &&& final(self).proposed == old(self).proposed
                &&& unchanged_but_txs(*old(self), *final(self))
            },
    {
        let id = entry.transaction.short_id;
        if self.pending.contains_key(id) || self.proposed.contains_key(id) {
            Err(PoolError::Duplicate(id))
        } else {
            self.pending.insert(id, entry);
            Ok(())
        }
    }

    /// Add an entry to the proposed set; an id already known to the pool is
    /// refused.
    pub fn add_proposed(&mut self, entry: TxEntry) -> (r: Result<(), PoolError>)
        ensures
            old(self).pending@.contains_key(entry.transaction.short_id) || old(
                self,
            ).proposed@.contains_key(entry.transaction.short_id) ==> {
                &&& r == Err::<(), PoolError>(PoolError::Duplicate(entry.transaction.short_id))
                &&& *final(self) == *old(self)
            },
            !(old(self).pending@.contains_key(entry.transaction.short_id) || old(
                self,
            ).proposed@.contains_key(entry.transaction.short_id)) ==> {
                &&& r == Ok::<(), PoolError>(())
                &&& final(self).proposed@ == old(self).proposed@.insert(
                    entry.transaction.short_id,
                    entry,
                )
                &&& final(self).pending == old(self).pending
                &&& unchanged_but_txs(*old(self), *final(self))
            },
    {
        let id = entry.transaction.short_id;
        if self.pending.contains_key(id) || self.proposed.contains_key(id) {
            Err(PoolError::Duplicate(id))
        } else {
            self.proposed.insert(id, entry);
            Ok(())
        }
    }

    /// The estimated fee rate for a confirmation target; an unknown target
    /// estimates to zero.
    pub fn estimate_fee_rate(&self, expect_confirm_blocks: usize) -> (r: FeeRate)
        ensures
            r == if expect_confirm_blocks < self.fee_rates@.len() {
                FeeRate(self.fee_rates@[expect_confirm_blocks as int])
            } else {
                FeeRate(0)
            },
    {
        if expect_confirm_blocks < self.fee_rates.len() {
            FeeRate(self.fee_rates[expect_confirm_blocks])
        } else {
            FeeRate(0)
        }
    }
}

/// The parts of the pool no transaction-set operation touches.
pub open spec fn unchanged_but_txs(p0: TxPool, p1: TxPool) -> bool {
    &&& p1.config == p0.config
    &&& p1.conflict == p0.conflict
    &&& p1.store == p0.store
    &&& p1.snapshot == p0.snapshot
    &&& p1.fee_rates == p0.fee_rates
    &&& p1.last_txs_updated_at == p0.last_txs_updated_at
}

/// The pending entry under `id` is the full entry of one of the submitted
/// transactions with that short id.
pub open spec fn pending_holds_one_of(p: TxPool, txs: Seq<Transaction>, id: u64) -> bool {
    exists|j: int|
        0 <= j < txs.len() && (#[trigger] txs[j]).short_id == id && p.pending@[id] == entry_of(
            txs[j],
        )
}

/// Every transaction passes verification (a zero cycle count stands for
/// rejection).
pub open spec fn submit_ok(txs: Seq<Transaction>) -> bool {
    forall|i: int| 0 <= i < txs.len() ==> (#[trigger] txs[i]).cycles != 0
}

/// What a submission does to the pool: on success, exactly the submitted
/// transactions join the pending set and the update stamp advances; on a
/// verification failure the pool is untouched.
pub open spec fn submit_effect(p0: TxPool, p1: TxPool, txs: Seq<Transaction>, now: u64) -> bool {
    if submit_ok(txs) {
        &&& forall|i: int|
            0 <= i < txs.len() ==> p1.pending@.contains_key((#[trigger] txs[i]).short_id)
                && pending_holds_one_of(p1, txs, txs[i].short_id)
        &&& forall|id: u64|
            p0.pending@.contains_key(id) && !txs_contain(txs, id) ==> p1.pending@.contains_key(
                id,
            ) && p1.pending@[id] == p0.pending@[id]
        &&& forall|id: u64|
            p1.pending@.contains_key(id) ==> p0.pending@.contains_key(id) || txs_contain(
                txs,
                id,
            )
        &&& p1.proposed == p0.proposed
        &&& p1.config == p0.config
        &&& p1.conflict == p0.conflict
        &&& p1.store == p0.store
        &&& p1.snapshot == p0.snapshot
        &&& p1.fee_rates == p0.fee_rates
        &&& p1.last_txs_updated_at == (if now > p0.last_txs_updated_at {
            now
        } else {
            p0.last_txs_updated_at
        })
    } else {
        p1 == p0
    }
}

/// What a chain reorganization does to the pool:
/// - every transaction of an attached block leaves the pool for the store;
/// - transactions of detached blocks not re-attached return to pending;
/// - detached proposal ids move their entries from proposed back to pending;
/// - the snapshot and the update stamp advance.
pub open spec fn reorg_effect(
    p0: TxPool,
    p1: TxPool,
    detached: Seq<Transaction>,
    attached: Seq<Transaction>,
    detached_ids: Seq<u64>,
    snapshot: Snapshot,
    now: u64,
) -> bool {
    &&& p1.config == p0.config
    &&& p1.fee_rates == p0.fee_rates
    &&& p1.snapshot == snapshot
    &&& p1.last_txs_updated_at == (if now > p0.last_txs_updated_at {
        now
    } else {
        p0.last_txs_updated_at
    })
    &&& forall|id: u64|
        p0.store@.contains_key(id) ==> p1.store@.contains_key(id)
    &&& forall|id: u64|
        txs_contain(attached, id) ==> !p1.pending@.contains_key(id)
            && !p1.proposed@.contains_key(id) && p1.store@.contains_key(id)
    &&& forall|id: u64|
        p0.pending@.contains_key(id) && !txs_contain(attached, id) ==> p1.pending@.contains_key(
            id,
        ) && p1.pending@[id] == p0.pending@[id]
    &&& forall|id: u64|
        txs_contain(detached, id) && !txs_contain(attached, id) ==> p1.pending@.contains_key(id)
            || p0.proposed@.contains_key(id) || p0.store@.contains_key(id)
            || p0.conflict@.contains_key(id)
    &&& forall|id: u64|
        ids_contain_upto(detached_ids, detached_ids.len() as int, id) && p0.proposed@.contains_key(
            id,
        ) && !txs_contain(attached, id) ==> p1.pending@.contains_key(id)
            && !p1.proposed@.contains_key(id)
}

/// What plugging entries does: each entry lands in the chosen set unless
/// its id was already known; the other set gains nothing.
pub open spec fn plug_effect(
    p0: TxPool,
    p1: TxPool,
    entries: Seq<TxEntry>,
    target: PlugTarget,
) -> bool {
    &&& unchanged_but_txs(p0, p1)
    &&& if target is Pending {
        &&& forall|id: u64|
            p1.proposed@.contains_key(id) == p0.proposed@.contains_key(id)
        &&& forall|id: u64|
            #[trigger] p0.pending@.contains_key(id) ==> p1.pending@.contains_key(id)
                && p1.pending@[id] == p0.pending@[id]
        &&& forall|id: u64|
            p1.pending@.contains_key(id) ==> p0.pending@.contains_key(id) || exists|j: int|
                0 <= j < entries.len() && (#[trigger] entries[j]).transaction.short_id == id
        &&& forall|j: int|
            0 <= j < entries.len() ==> p1.pending@.contains_key(
                (#[trigger] entries[j]).transaction.short_id,
            ) || p0.proposed@.contains_key(entries[j].transaction.short_id)
    } else {
        &&& forall|id: u64| p1.pending@.contains_key(id) == p0.pending@.contains_key(id)
        &&& forall|id: u64|
            #[trigger] p0.proposed@.contains_key(id) ==> p1.proposed@.contains_key(id)
                && p1.proposed@[id] == p0.proposed@[id]
        &&& forall|id: u64|
            p1.proposed@.contains_key(id) ==> p0.proposed@.contains_key(id) || exists|j: int|
                0 <= j < entries.len() && (#[trigger] entries[j]).transaction.short_id == id
        &&& forall|j: int|
            0 <= j < entries.len() ==> p1.proposed@.contains_key(
                (#[trigger] entries[j]).transaction.short_id,
            ) || p0.pending@.contains_key(entries[j].transaction.short_id)
    }
}

/// One pool transition of the dispatch loop: the pool is read unchanged,
/// or changed by exactly one submission, reorganization, or plugging.
pub open spec fn pool_step(p0: TxPool, p1: TxPool) -> bool {
    ||| p1 == p0
    ||| exists|txs: Seq<Transaction>, now: u64| submit_effect(p0, p1, txs, now)
    ||| exists|
        detached: Seq<Transaction>,
        attached: Seq<Transaction>,
        ids: Seq<u64>,
        snapshot: Snapshot,
        now: u64,
    |
        reorg_effect(p0, p1, detached, attached, ids, snapshot, now)
    ||| exists|entries: Seq<TxEntry>, target: PlugTarget| plug_effect(p0, p1, entries, target)
}

/// One dispatch never loses an admitted transaction: a transaction in the
/// pending set stays in pending or — when a reorganization attached it to
/// the chain — moves to the store, and the store only grows.
pub proof fn lemma_step_keeps_admitted(p0: TxPool, p1: TxPool, id: u64)
    requires
        pool_step(p0, p1),
        p0.pending@.contains_key(id) || p0.store@.contains_key(id),
    ensures
        p1.pending@.contains_key(id) || p1.store@.contains_key(id),
        lookup_tx(p1, id) is Some,
{
    if p1 == p0 {
    } else if exists|txs: Seq<Transaction>, now: u64| submit_effect(p0, p1, txs, now) {
        let (txs, now) = choose|txs: Seq<Transaction>, now: u64| submit_effect(p0, p1, txs, now);
        if !submit_ok(txs) {
            assert(p1 == p0);
        } else if p0.pending@.contains_key(id) {
            if txs_contain(txs, id) {
                let j = choose|j: int| 0 <= j < txs.len() && (#[trigger] txs[j]).short_id == id;
                assert(p1.pending@.contains_key(txs[j].short_id));
            } else {
                assert(p1.pending@.contains_key(id));
            }
        } else {
            assert(p0.store@.contains_key(id));
            assert(p1.store == p0.store);
        }
    } else if exists|
        detached: Seq<Transaction>,
        attached: Seq<Transaction>,
        ids: Seq<u64>,
        snapshot: Snapshot,
        now: u64,
    |
        reorg_effect(p0, p1, detached, attached, ids, snapshot, now) {
        let (detached, attached, ids, snapshot, now) = choose|
            detached: Seq<Transaction>,
            attached: Seq<Transaction>,
            ids: Seq<u64>,
            snapshot: Snapshot,
            now: u64,
        |
            reorg_effect(p0, p1, detached, attached, ids, snapshot, now);
        if p0.pending@.contains_key(id) {
            if txs_contain(attached, id) {
                assert(p1.store@.contains_key(id));
            } else {
                assert(p1.pending@.contains_key(id));
            }
        } else {
            assert(p0.store@.contains_key(id));
            assert(p1.store@.contains_key(id));
        }
    } else {
        let (entries, target) = choose|entries: Seq<TxEntry>, target: PlugTarget|
            plug_effect(p0, p1, entries, target);
        assert(plug_effect(p0, p1, entries, target));
        if p0.pending@.contains_key(id) {
            if target is Pending {
                assert(p1.pending@.contains_key(id));
            } else {
                assert(p1.pending@.contains_key(id));
            }
        } else {
            assert(p0.store@.contains_key(id));
            assert(p1.store == p0.store);
        }
    }
}

/// Along any dispatch trace, an admitted transaction is never lost: once a
/// pool of the trace holds `id` in its pending set or its store, every
/// later pool still serves `id` — only an attaching reorganization moves a
/// submission out of the pool, and then the store serves it. With
/// `lemma_submitted_tx_survives_reorg` this is the dispatch-order guarantee
/// for fetches after any interleaving of submissions, reorganizations and
/// plugs.
pub proof fn lemma_trace_keeps_admitted(trace: Seq<TxPool>, id: u64)
    requires
        trace.len() > 0,
        forall|t: int| 0 <= t < trace.len() - 1 ==> pool_step(#[trigger] trace[t], trace[t + 1]),
        trace[0].pending@.contains_key(id) || trace[0].store@.contains_key(id),
    ensures
        trace.last().pending@.contains_key(id) || trace.last().store@.contains_key(id),
        lookup_tx(trace.last(), id) is Some,
    decreases trace.len(),
{
    if trace.len() == 1 {
        assert(trace.last() == trace[0]);
    } else {
        assert(pool_step(trace[0], trace[1]));
        lemma_step_keeps_admitted(trace[0], trace[1], id);
        let rest = trace.drop_first();
        assert(rest[0] == trace[1]);
        assert forall|t: int|
            0 <= t < rest.len() - 1 implies pool_step(#[trigger] rest[t], rest[t + 1]) by {
            assert(rest[t] == trace[t + 1]);
            assert(rest[t + 1] == trace[t + 2]);
            assert(pool_step(trace[t + 1], trace[t + 2]));
        }
        lemma_trace_keeps_admitted(rest, id);
        assert(rest.last() == trace.last());
    }
}

/// Dispatch order is authoritative: a transaction accepted by a submission
/// is still served by a later lookup unless a reorg in between attached it
/// to the chain — and then the store serves it instead.
pub proof fn lemma_submitted_tx_survives_reorg(
    p0: TxPool,
    p1: TxPool,
    p2: TxPool,
    txs: Seq<Transaction>,
    id: u64,
    now: u64,
    detached: Seq<Transaction>,
    attached: Seq<Transaction>,
    detached_ids: Seq<u64>,
    snapshot: Snapshot,
    now2: u64,
)
    requires
        submit_ok(txs),
        txs_contain(txs, id),
        submit_effect(p0, p1, txs, now),
        reorg_effect(p1, p2, detached, attached, detached_ids, snapshot, now2),
    ensures
        lookup_tx(p2, id) is Some,
        !txs_contain(attached, id) ==> p2.pending@.contains_key(id),
        txs_contain(attached, id) ==> p2.store@.contains_key(id),
{
    let j = choose|j: int| 0 <= j < txs.len() && (#[trigger] txs[j]).short_id == id;
    assert(p1.pending@.contains_key(txs[j].short_id));
    if txs_contain(attached, id) {
        assert(p2.store@.contains_key(id));
    } else {
        assert(p2.pending@.contains_key(id));
    }
}

impl TxPool {
    /// Plug entries into the chosen set; duplicates are skipped one by one,
    /// as each insert's refusal is independent.
    #[verifier::loop_isolation(false)]
    pub fn plug(&mut self, entries: Vec<TxEntry>, target: PlugTarget)
        ensures
            plug_effect(*old(self), *final(self), entries@, target),
    {
        let n = entries.len();
        let mut i: usize = 0;
        match target {
            PlugTarget::Pending => {
                while i < n
                    invariant
                        i <= n,
                        unchanged_but_txs(*old(self), *self),
                        forall|id: u64|
                            self.proposed@.contains_key(id) == old(self).proposed@.contains_key(
                                id,
                            ),
                        forall|id: u64|
                            #[trigger] old(self).pending@.contains_key(id)
                                ==> self.pending@.contains_key(id) && self.pending@[id] == old(
                                self,
                            ).pending@[id],
                        forall|id: u64|
                            self.pending@.contains_key(id) ==> old(self).pending@.contains_key(id)
                                || exists|j: int|
                                0 <= j < i && (#[trigger] entries@[j]).transaction.short_id == id,
                        forall|j: int|
                            0 <= j < i ==> self.pending@.contains_key(
                                (#[trigger] entries@[j]).transaction.short_id,
                            ) || old(self).proposed@.contains_key(
                                entries@[j].transaction.short_id,
                            ),
                    decreases n - i,
                {
                    let _ = self.add_pending(entries[i]);
                    i = i + 1;
                }
            },
            PlugTarget::Proposed => {
                while i < n
                    invariant
                        i <= n,
                        unchanged_but_txs(*old(self), *self),
                        forall|id: u64|
                            self.pending@.contains_key(id) == old(self).pending@.contains_key(id),
                        forall|id: u64|
                            #[trigger] old(self).proposed@.contains_key(id)
                                ==> self.proposed@.contains_key(id) && self.proposed@[id] == old(
                                self,
                            ).proposed@[id],
                        forall|id: u64|
                            self.proposed@.contains_key(id) ==> old(
                                self,
                            ).proposed@.contains_key(id) || exists|j: int|
                                0 <= j < i && (#[trigger] entries@[j]).transaction.short_id == id,
                        forall|j: int|
                            0 <= j < i ==> self.proposed@.contains_key(
                                (#[trigger] entries@[j]).transaction.short_id,
                            ) || old(self).pending@.contains_key(
                                entries@[j].transaction.short_id,
                            ),
                    decreases n - i,
                {
                    let _ = self.add_proposed(entries[i]);
                    i = i + 1;
                }
            },
        }
    }

    /// Apply a chain reorganization, as `reorg_effect` states.
    #[verifier::loop_isolation(false)]
    pub fn update_for_reorg(
        &mut self,
        detached: Vec<Transaction>,
        attached: Vec<Transaction>,
        detached_ids: Vec<u64>,
        snapshot: Snapshot,
        now: u64,
    )
        ensures
            reorg_effect(
                *old(self),
                *final(self),
                detached@,
                attached@,
                detached_ids@,
                snapshot,
                now,
            ),
    {
        let na = attached.len();
        let mut i: usize = 0;
        // 1. committed transactions leave every pool set for the store
        while i < na
            invariant
                i <= na,
                self.config == old(self).config,
                self.fee_rates == old(self).fee_rates,
                self.snapshot == old(self).snapshot,
                self.last_txs_updated_at == old(self).last_txs_updated_at,
                self.conflict@.dom().subset_of(old(self).conflict@.dom()),
                forall|id: u64|
                    txs_contain_upto(attached@, i as int, id) ==> !self.pending@.contains_key(id)
                        && !self.proposed@.contains_key(id) && self.store@.contains_key(id),
                forall|id: u64|
                    old(self).pending@.contains_key(id) && !txs_contain_upto(attached@, i as int, id)
                        ==> self.pending@.contains_key(id) && self.pending@[id] == old(
                        self,
                    ).pending@[id],
                forall|id: u64|
                    self.pending@.contains_key(id) ==> old(self).pending@.contains_key(id),
                forall|id: u64|
                    old(self).proposed@.contains_key(id) && !txs_contain_upto(
                        attached@,
                        i as int,
                        id,
                    ) ==> self.proposed@.contains_key(id) && self.proposed@[id] == old(
                        self,
                    ).proposed@[id],
                forall|id: u64|
                    self.proposed@.contains_key(id) ==> old(self).proposed@.contains_key(id),
                forall|id: u64|
                    self.store@.contains_key(id) ==> old(self).store@.contains_key(id)
                        || txs_contain_upto(attached@, i as int, id),
                forall|id: u64|
                    old(self).store@.contains_key(id) ==> self.store@.contains_key(id),
            decreases na - i,
        {
            let tx = attached[i];
            let id = tx.short_id;
            let _ = self.pending.remove(id);
            let _ = self.proposed.remove(id);
            let _ = self.conflict.remove(id);
            self.store.insert(id, tx);
            proof {
                lemma_txs_upto_step(attached@, i as int);
            }
            i = i + 1;
        }
        let ghost mid1 = *self;
        proof {
            assert(forall|id: u64|
                txs_contain_upto(attached@, na as int, id) == txs_contain(attached@, id));
        }

        // 2. detached transactions not re-attached return to pending
        let nd = detached.len();
        let mut d: usize = 0;
        while d < nd
            invariant
                d <= nd,
                self.config == mid1.config,
                self.fee_rates == mid1.fee_rates,
                self.snapshot == mid1.snapshot,
                self.last_txs_updated_at == mid1.last_txs_updated_at,
                self.proposed == mid1.proposed,
                self.conflict == mid1.conflict,
                self.store == mid1.store,
                forall|id: u64|
                    #[trigger] mid1.pending@.contains_key(id) ==> self.pending@.contains_key(id)
                        && self.pending@[id] == mid1.pending@[id],
                forall|id: u64|
                    self.pending@.contains_key(id) ==> mid1.pending@.contains_key(id)
                        || txs_contain_upto(detached@, d as int, id),
                forall|id: u64|
                    txs_contain_upto(detached@, d as int, id) ==> self.pending@.contains_key(id)
                        || self.proposed@.contains_key(id) || self.store@.contains_key(id)
                        || self.conflict@.contains_key(id),
                forall|id: u64|
                    txs_contain(attached@, id) ==> !self.pending@.contains_key(id)
                        && !self.proposed@.contains_key(id) && self.store@.contains_key(id),
            decreases nd - d,
        {
            let tx = detached[d];
            let id = tx.short_id;
            if !self.store.contains_key(id) && !self.pending.contains_key(id)
                && !self.proposed.contains_key(id) && !self.conflict.contains_key(id) {
                proof {
                    assert(!mid1.pending@.contains_key(id));
                }
                self.pending.insert(id, TxEntry::from_tx(tx));
            }
            proof {
                lemma_txs_upto_step(detached@, d as int);
            }
            d = d + 1;
        }
        let ghost mid2 = *self;

        // 3. detached proposal ids move from proposed back to pending
        let ni = detached_ids.len();
        let mut t: usize = 0;
        while t < ni
            invariant
                t <= ni,
                self.config == mid2.config,
                self.fee_rates == mid2.fee_rates,
                self.snapshot == mid2.snapshot,
                self.last_txs_updated_at == mid2.last_txs_updated_at,
                self.conflict == mid2.conflict,
                self.store == mid2.store,
                forall|id: u64|
                    #[trigger] mid2.pending@.contains_key(id) ==> self.pending@.contains_key(id)
                        && self.pending@[id] == mid2.pending@[id],
                forall|id: u64|
                    self.pending@.contains_key(id) ==> mid2.pending@.contains_key(id)
                        || mid2.proposed@.contains_key(id),
                forall|id: u64|
                    txs_contain(attached@, id) ==> !self.pending@.contains_key(id)
                        && !self.proposed@.contains_key(id) && self.store@.contains_key(id),
                forall|id: u64|
                    self.proposed@.contains_key(id) ==> mid2.proposed@.contains_key(id),
                forall|id: u64|
                    ids_contain_upto(detached_ids@, t as int, id) && mid2.proposed@.contains_key(
                        id,
                    ) ==> self.pending@.contains_key(id) && !self.proposed@.contains_key(id),
                forall|id: u64|
                    !ids_contain_upto(detached_ids@, t as int, id) && mid2.proposed@.contains_key(
                        id,
                    ) ==> self.proposed@.contains_key(id),
            decreases ni - t,
        {
            let id = detached_ids[t];
            match self.proposed.remove(id) {
                Some(entry) => {
                    if !self.pending.contains_key(id) {
                        proof {
                            assert(!mid2.pending@.contains_key(id));
                        }
                        self.pending.insert(id, entry);
                    }
                },
                None => {},
            }
            proof {
                lemma_ids_upto_step(detached_ids@, t as int);
            }
            t = t + 1;
        }

        self.snapshot = snapshot;
        if now > self.last_txs_updated_at {
            self.last_txs_updated_at = now;
        }
        proof {
            assert forall|id: u64|
                txs_contain(detached@, id) && !txs_contain(attached@, id)
                    implies self.pending@.contains_key(id) || old(self).proposed@.contains_key(
                id,
            ) || old(self).store@.contains_key(id) || old(self).conflict@.contains_key(id) by {
                assert(txs_contain_upto(detached@, nd as int, id) == txs_contain(detached@, id));
                if mid2.conflict@.contains_key(id) {
                    assert(mid1.conflict@.dom().contains(id));
                    assert(old(self).conflict@.dom().contains(id));
                }
                if mid2.store@.contains_key(id) {
                    assert(old(self).store@.contains_key(id)
                        || txs_contain_upto(attached@, na as int, id));
                }
            }
        }
    }
}

} // verus!
