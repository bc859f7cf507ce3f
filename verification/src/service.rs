//! The transaction pool service: the typed message envelope, the per-message
//! dispatch, the client controller, and the builder.
//!
//! The service is a single-owner actor: one consumer takes messages off a
//! bounded channel and dispatches each against the pool it owns, so the
//! single-writer discipline holds by construction and every handler is a
//! verified function of the pool state.

use vstd::prelude::*;

use crate::chan::{channel_bounded, clone_sender, recv, try_recv, try_send, ChannelError};
use crate::keymap::KeyMap;
use crate::pool::{
    lookup_tx, lookup_tx_with_cycles, plug_effect, reorg_effect, submit_effect, submit_ok,
    txs_contain, CacheEntry, FeeRate, PlugTarget, Snapshot, Transaction, TxEntry, TxPool,
    TxPoolConfig, TxPoolInfo, UncleBlock,
};
use crate::pool::{
    ids_contain_upto, lemma_ids_upto_step, lemma_txs_upto_step, pending_holds_one_of,
    txs_contain_upto,
};
use crate::seqs::{filtered, lemma_filtered_step};

verus! {

/// The service's inbox holds at most this many messages; a full inbox
/// pushes back on the caller.
pub const DEFAULT_CHANNEL_SIZE: usize = 512;

/// A request: arguments paired with a single-slot reply channel.
#[verifier::reject_recursive_types(R)]
pub struct Request<A, R> {
    pub responder: crossbeam_channel::Sender<R>,
    pub arguments: A,
}

impl<A, R> Request<A, R> {
    pub fn call(arguments: A, responder: crossbeam_channel::Sender<R>) -> (r: Request<A, R>)
        ensures
            r.arguments == arguments,
            r.responder == responder,
    {
        Request { responder, arguments }
    }
}

/// A notification: arguments with no reply.
pub struct Notify<A> {
    pub arguments: A,
}

impl<A> Notify<A> {
    pub fn notify(arguments: A) -> (r: Notify<A>)
        ensures
            r.arguments == arguments,
    {
        Notify { arguments }
    }
}

/// Why the service refused a request.
#[derive(Copy, Clone, Debug, PartialEq, Eq, Structural)]
pub enum ServiceError {
    /// No block assembler is configured.
    BlockAssemblerDisabled,
    /// This transaction failed verification.
    Verification(u64),
}

/// A candidate next block.
#[derive(Clone, Debug, PartialEq, Eq)]
pub struct BlockTemplate {
    pub version: u64,
    pub uncles: Vec<u64>,
    pub proposals: Vec<u64>,
    pub transactions: Vec<Transaction>,
}

/// Block assembler configuration.
#[derive(Copy, Clone, Debug, PartialEq, Eq, Structural)]
pub struct BlockAssemblerConfig {
    /// The block version assembled templates carry.
    pub version: u64,
}

/// The block assembler state the service keeps.
#[derive(Clone, Debug, PartialEq, Eq)]
pub struct BlockAssembler {
    pub version: u64,
    pub candidate_uncles: Vec<u64>,
    pub last_uncles_updated_at: u64,
}

impl BlockAssembler {
    pub fn new(config: BlockAssemblerConfig) -> (r: BlockAssembler)
        ensures
            r.version == config.version,
            r.candidate_uncles@.len() == 0,
            r.last_uncles_updated_at == 0,
    {
        BlockAssembler { version: config.version, candidate_uncles: Vec::new(), last_uncles_updated_at: 0 }
    }
}

pub type BlockTemplateArgs = (Option<u64>, Option<u64>, Option<u64>);

pub type BlockTemplateResult = Result<BlockTemplate, ServiceError>;

pub type SubmitTxsResult = Result<Vec<CacheEntry>, ServiceError>;

pub type ChainReorgArgs = (Vec<Transaction>, Vec<Transaction>, Vec<u64>, Snapshot);

pub type FetchTxsWithCyclesResult = Vec<(u64, (Transaction, u64))>;

/// Every message the service understands. `NotifyTxs` is the
/// fire-and-forget submission: it carries no completion hook, so callers
/// that need the per-transaction outcomes use `SubmitTxs` instead.
pub enum Message {
    BlockTemplate(Request<BlockTemplateArgs, BlockTemplateResult>),
    SubmitTxs(Request<Vec<Transaction>, SubmitTxsResult>),
    NotifyTxs(Notify<Vec<Transaction>>),
    ChainReorg(Notify<ChainReorgArgs>),
    FreshProposalsFilter(Request<Vec<u64>, Vec<u64>>),
    FetchTxs(Request<Vec<u64>, KeyMap<Transaction>>),
    FetchTxsWithCycles(Request<Vec<u64>, FetchTxsWithCyclesResult>),
    GetTxPoolInfo(Request<(), TxPoolInfo>),
    FetchTxRPC(Request<u64, Option<(bool, Transaction)>>),
    NewUncle(Notify<UncleBlock>),
    PlugEntry(Request<(Vec<TxEntry>, PlugTarget), ()>),
    EstimateFeeRate(Request<usize, FeeRate>),
}

/// The pool together with everything dispatch reads beside it.
pub struct TxPoolService {
    /// The pool this service owns.
    pub tx_pool: TxPool,
    /// A copy of the pool's configuration.
    pub tx_pool_config: TxPoolConfig,
    /// The block assembler, when one is configured.
    pub block_assembler: Option<BlockAssembler>,
    /// Verification outcomes by short id.
    pub txs_verify_cache: KeyMap<u64>,
}

impl TxPoolService {
    pub fn new(
        tx_pool: TxPool,
        block_assembler: Option<BlockAssembler>,
        txs_verify_cache: KeyMap<u64>,
    ) -> (r: TxPoolService)
        ensures
            r.tx_pool == tx_pool,
            r.tx_pool_config == tx_pool.config,
            r.block_assembler == block_assembler,
            r.txs_verify_cache == txs_verify_cache,
    {
        let tx_pool_config = tx_pool.config;
        TxPoolService { tx_pool, tx_pool_config, block_assembler, txs_verify_cache }
    }

    /// The snapshot the pool was last updated against.
    pub fn snapshot(&self) -> (r: Snapshot)
        ensures
            r == self.tx_pool.snapshot,
    {
        self.tx_pool.snapshot
    }

    /// Run the verification pipeline over the transactions and admit them
    /// to the pending set: all are admitted and their outcomes cached and
    /// returned, or the first rejected transaction is named and the pool is
    /// left untouched.
    #[verifier::loop_isolation(false)]
    #[verifier::rlimit(40)]
    pub fn process_txs(&mut self, txs: Vec<Transaction>, now: u64) -> (r: SubmitTxsResult)
        ensures
            submit_effect(old(self).tx_pool, final(self).tx_pool, txs@, now),
            final(self).block_assembler == old(self).block_assembler,
            final(self).tx_pool_config == old(self).tx_pool_config,
            (r is Err) <==> !submit_ok(txs@),
            r matches Err(e) ==> e matches ServiceError::Verification(id) && (exists|i: int|
                0 <= i < txs@.len() && (#[trigger] txs@[i]).short_id == id && txs@[i].cycles
                    == 0),
            r matches Ok(v) ==> v@.len() == txs@.len() && (forall|i: int|
                0 <= i < txs@.len() ==> v@[i] == (CacheEntry {
                    cycles: (#[trigger] txs@[i]).cycles,
                    fee: txs@[i].fee,
                })),
            r is Ok ==> forall|i: int|
                0 <= i < txs@.len() ==> final(self).txs_verify_cache@.contains_key(
                    (#[trigger] txs@[i]).short_id,
                ),
    {
        let n = txs.len();
        let mut i: usize = 0;
        // verification: a zero cycle count stands for a rejected transaction
        while i < n
            invariant
                i <= n,
                forall|j: int| 0 <= j < i ==> (#[trigger] txs@[j]).cycles != 0,
            decreases n - i,
        {
            if txs[i].cycles == 0 {
                return Err(ServiceError::Verification(txs[i].short_id));
            }
            i = i + 1;
        }

        let mut outcomes: Vec<CacheEntry> = Vec::new();
        let mut k: usize = 0;
        while k < n
            invariant
                k <= n,
                outcomes@.len() == k,
                forall|j: int|
                    0 <= j < k ==> outcomes@[j] == (CacheEntry {
                        cycles: (#[trigger] txs@[j]).cycles,
                        fee: txs@[j].fee,
                    }),
                forall|j: int|
                    0 <= j < k ==> self.tx_pool.pending@.contains_key(
                        (#[trigger] txs@[j]).short_id,
                    ) && pending_holds_one_of(self.tx_pool, txs@, txs@[j].short_id),
                forall|id: u64|
                    old(self).tx_pool.pending@.contains_key(id) && !txs_contain_upto(
                        txs@,
                        k as int,
                        id,
                    ) ==> self.tx_pool.pending@.contains_key(id) && self.tx_pool.pending@[id]
                        == old(self).tx_pool.pending@[id],
                forall|id: u64|
                    self.tx_pool.pending@.contains_key(id) ==> old(self).tx_pool.pending@.contains_key(id) || txs_contain_upto(txs@, k as int, id),
                self.tx_pool.proposed == old(self).tx_pool.proposed,
                self.tx_pool.config == old(self).tx_pool.config,
                self.tx_pool.conflict == old(self).tx_pool.conflict,
                self.tx_pool.store == old(self).tx_pool.store,
                self.tx_pool.snapshot == old(self).tx_pool.snapshot,
                self.tx_pool.fee_rates == old(self).tx_pool.fee_rates,
                self.tx_pool.last_txs_updated_at == old(self).tx_pool.last_txs_updated_at,
                self.block_assembler == old(self).block_assembler,
                self.tx_pool_config == old(self).tx_pool_config,
                forall|j: int|
                    0 <= j < k ==> self.txs_verify_cache@.contains_key(
                        (#[trigger] txs@[j]).short_id,
                    ),
            decreases n - k,
        {
            let tx = txs[k];
            let ghost pool0 = self.tx_pool;
            self.txs_verify_cache.insert(tx.short_id, tx.cycles);
            self.tx_pool.pending.insert(tx.short_id, TxEntry::from_tx(tx));
            outcomes.push(CacheEntry { cycles: tx.cycles, fee: tx.fee });
            proof {
                lemma_txs_upto_step(txs@, k as int);
                assert(self.tx_pool.pending@[tx.short_id] == crate::pool::entry_of(
                    txs@[k as int],
                ));
                assert(pending_holds_one_of(self.tx_pool, txs@, tx.short_id));
                assert forall|j: int|
                    0 <= j < k && txs@[j].short_id != tx.short_id implies pending_holds_one_of(
                    self.tx_pool,
                    txs@,
                    (#[trigger] txs@[j]).short_id,
                ) by {
                    let j2 = choose|j2: int|
                        0 <= j2 < txs@.len() && (#[trigger] txs@[j2]).short_id == txs@[j].short_id
                            && pool0.pending@[txs@[j].short_id] == crate::pool::entry_of(
                            txs@[j2],
                        );
                    assert(self.tx_pool.pending@[txs@[j].short_id]
                        == pool0.pending@[txs@[j].short_id]);
                }
            }
            k = k + 1;
        }
        let ghost stamped = self.tx_pool;
        if now > self.tx_pool.last_txs_updated_at {
            self.tx_pool.last_txs_updated_at = now;
        }
        proof {
            assert(forall|id: u64|
                txs_contain_upto(txs@, n as int, id) == txs_contain(txs@, id));
            assert(submit_ok(txs@));
            assert forall|i2: int|
                0 <= i2 < txs@.len() implies pending_holds_one_of(
                self.tx_pool,
                txs@,
                (#[trigger] txs@[i2]).short_id,
            ) by {
                assert(pending_holds_one_of(stamped, txs@, txs@[i2].short_id));
                let j2 = choose|j2: int|
                    0 <= j2 < txs@.len() && (#[trigger] txs@[j2]).short_id == txs@[i2].short_id
                        && stamped.pending@[txs@[i2].short_id] == crate::pool::entry_of(
                        txs@[j2],
                    );
                assert(self.tx_pool.pending@ == stamped.pending@);
            }
        }
        Ok(outcomes)
    }

    /// Apply a chain reorganization to the owned pool.
    pub fn update_tx_pool_for_reorg(
        &mut self,
        detached: Vec<Transaction>,
        attached: Vec<Transaction>,
        detached_proposal_ids: Vec<u64>,
        snapshot: Snapshot,
        now: u64,
    )
        ensures
            reorg_effect(
                old(self).tx_pool,
                final(self).tx_pool,
                detached@,
                attached@,
                detached_proposal_ids@,
                snapshot,
                now,
            ),
            final(self).block_assembler == old(self).block_assembler,
            final(self).txs_verify_cache == old(self).txs_verify_cache,
            final(self).tx_pool_config == old(self).tx_pool_config,
    {
        self.tx_pool.update_for_reorg(detached, attached, detached_proposal_ids, snapshot, now);
    }

    /// Keep only the proposal ids the pool does not already know.
    #[verifier::loop_isolation(false)]
    pub fn fresh_proposals_filter(&self, proposals: Vec<u64>) -> (r: Vec<u64>)
        ensures
            r@ == filtered(
                proposals@,
                |id: u64|
                    !(self.tx_pool.pending@.contains_key(id)
                        || self.tx_pool.proposed@.contains_key(id)),
            ),
    {
        let ghost p = |id: u64|
            !(self.tx_pool.pending@.contains_key(id) || self.tx_pool.proposed@.contains_key(id));
        let n = proposals.len();
        let mut r: Vec<u64> = Vec::new();
        let mut i: usize = 0;
        while i < n
            invariant
                i <= n,
                r@ == filtered(proposals@.take(i as int), p),
            decreases n - i,
        {
            proof {
                lemma_filtered_step(proposals@, p, i as int);
            }
            let id = proposals[i];
            if !self.tx_pool.contains_proposal_id(id) {
                r.push(id);
            }
            i = i + 1;
        }
        proof {
            assert(proposals@.take(n as int) =~= proposals@);
        }
        r
    }

    /// Look a transaction up for an RPC caller: proposed entries are
    /// flagged `true`, pending ones `false`. The lookup deliberately stops
    /// at the live pool: the conflict cache and the chain store are not
    /// consulted here.
    pub fn fetch_tx_for_rpc(&self, id: u64) -> (r: Option<(bool, Transaction)>)
        ensures
            r == if self.tx_pool.proposed@.contains_key(id) {
                Some((true, self.tx_pool.proposed@[id].transaction))
            } else if self.tx_pool.pending@.contains_key(id) {
                Some((false, self.tx_pool.pending@[id].transaction))
            } else {
                None::<(bool, Transaction)>
            },
    {
        match self.tx_pool.get_proposed(id) {
            Some(entry) => Some((true, entry.transaction)),
            None => match self.tx_pool.get_tx_without_conflict(id) {
                Some(tx) => Some((false, tx)),
                None => None,
            },
        }
    }

    /// Fetch the requested transactions that the pool or store can serve;
    /// missing ids are dropped.
    #[verifier::loop_isolation(false)]
    pub fn fetch_txs(&self, short_ids: Vec<u64>) -> (r: KeyMap<Transaction>)
        ensures
            forall|id: u64|
                #[trigger] r@.contains_key(id) ==> ids_contain_upto(
                    short_ids@,
                    short_ids@.len() as int,
                    id,
                ) && lookup_tx(self.tx_pool, id) == Some(r@[id]),
            forall|j: int|
                0 <= j < short_ids@.len() && lookup_tx(self.tx_pool, #[trigger] short_ids@[j])
                    is Some ==> r@.contains_key(short_ids@[j]),
    {
        let n = short_ids.len();
        let mut r: KeyMap<Transaction> = KeyMap::new();
        let mut i: usize = 0;
        while i < n
            invariant
                i <= n,
                forall|id: u64|
                    #[trigger] r@.contains_key(id) ==> ids_contain_upto(short_ids@, i as int, id)
                        && lookup_tx(self.tx_pool, id) == Some(r@[id]),
                forall|j: int|
                    0 <= j < i && lookup_tx(self.tx_pool, #[trigger] short_ids@[j]) is Some
                        ==> r@.contains_key(short_ids@[j]),
            decreases n - i,
        {
            let id = short_ids[i];
            match self.tx_pool.get_tx_from_pool_or_store(id) {
                Some(tx) => {
                    r.insert(id, tx);
                },
                None => {},
            }
            proof {
                lemma_ids_upto_step(short_ids@, i as int);
            }
            i = i + 1;
        }
        r
    }

    /// Fetch the requested transactions whose cycle counts the pool knows.
    #[verifier::loop_isolation(false)]
    pub fn fetch_txs_with_cycles(&self, short_ids: Vec<u64>) -> (r: FetchTxsWithCyclesResult)
        ensures
            forall|t: int|
                0 <= t < r@.len() ==> lookup_tx_with_cycles(
                    self.tx_pool,
                    (#[trigger] r@[t]).0,
                ) == Some((r@[t].1.0, Some(r@[t].1.1))) && ids_contain_upto(
                    short_ids@,
                    short_ids@.len() as int,
                    r@[t].0,
                ),
            forall|j: int|
                0 <= j < short_ids@.len() && (match lookup_tx_with_cycles(
                    self.tx_pool,
                    #[trigger] short_ids@[j],
                ) {
                    Some((_, c)) => c is Some,
                    None => false,
                }) ==> exists|t: int| 0 <= t < r@.len() && (#[trigger] r@[t]).0 == short_ids@[j],
    {
        let n = short_ids.len();
        let mut r: FetchTxsWithCyclesResult = Vec::new();
        let mut i: usize = 0;
        while i < n
            invariant
                i <= n,
                forall|t: int|
                    0 <= t < r@.len() ==> lookup_tx_with_cycles(
                        self.tx_pool,
                        (#[trigger] r@[t]).0,
                    ) == Some((r@[t].1.0, Some(r@[t].1.1))) && ids_contain_upto(
                        short_ids@,
                        i as int,
                        r@[t].0,
                    ),
                forall|j: int|
                    0 <= j < i && (match lookup_tx_with_cycles(
                        self.tx_pool,
                        #[trigger] short_ids@[j],
                    ) {
                        Some((_, c)) => c is Some,
                        None => false,
                    }) ==> exists|t: int|
                        0 <= t < r@.len() && (#[trigger] r@[t]).0 == short_ids@[j],
            decreases n - i,
        {
            let id = short_ids[i];
            match self.tx_pool.get_tx_with_cycles(id) {
                Some((tx, Some(cycles))) => {
                    let ghost r0 = r@;
                    r.push((id, (tx, cycles)));
                    proof {
                        assert(r@[r@.len() - 1].0 == id);
                        assert forall|t: int|
                            0 <= t < r0.len() implies r@[t] == r0[t] by {}
                    }
                },
                _ => {},
            }
            proof {
                lemma_ids_upto_step(short_ids@, i as int);
            }
            i = i + 1;
        }
        r
    }

    /// Assemble a candidate block: refused without an assembler; otherwise
    /// the template's version honours the cap, its uncles are the
    /// candidates, its proposals are pending ids within the limit, and its
    /// transactions are proposed entries within the byte budget.
    #[verifier::loop_isolation(false)]
    pub fn get_block_template(
        &self,
        bytes_limit: Option<u64>,
        proposals_limit: Option<u64>,
        max_version: Option<u64>,
    ) -> (r: BlockTemplateResult)
        ensures
            (r is Err) <==> (self.block_assembler is None),
            r matches Err(e) ==> e is BlockAssemblerDisabled,
            r matches Ok(t) ==> {
                let a = self.block_assembler->0;
                &&& t.version == (match max_version {
                    Some(v) => if v < a.version {
                        v
                    } else {
                        a.version
                    },
                    None => a.version,
                })
                &&& t.uncles@ == a.candidate_uncles@
                &&& forall|q: int|
                    0 <= q < t.proposals@.len() ==> self.tx_pool.pending@.contains_key(
                        #[trigger] t.proposals@[q],
                    )
                &&& (proposals_limit matches Some(l) ==> t.proposals@.len() <= l)
                &&& forall|q: int|
                    0 <= q < t.transactions@.len() ==> proposed_has_tx(
                        self.tx_pool,
                        #[trigger] t.transactions@[q],
                    )
            },
    {
        let assembler = match &self.block_assembler {
            Some(a) => a,
            None => {
                return Err(ServiceError::BlockAssemblerDisabled);
            },
        };
        let version = match max_version {
            Some(v) => if v < assembler.version {
                v
            } else {
                assembler.version
            },
            None => assembler.version,
        };
        let uncles = copy_ids(&assembler.candidate_uncles);

        let cap: u64 = match proposals_limit {
            Some(l) => l,
            None => u64::MAX,
        };
        let np = self.tx_pool.pending.len();
        let mut proposals: Vec<u64> = Vec::new();
        let mut i: usize = 0;
        while i < np && (proposals.len() as u64) < cap
            invariant
                i <= np,
                np == self.tx_pool.pending.key_seq().len(),
                proposals@.len() <= cap,
                proposals@.len() <= i,
                forall|q: int|
                    0 <= q < proposals@.len() ==> self.tx_pool.pending@.contains_key(
                        #[trigger] proposals@[q],
                    ),
            decreases np - i,
        {
            let id = self.tx_pool.pending.key_at(i);
            proposals.push(id);
            i = i + 1;
        }

        let mut budget: u64 = match bytes_limit {
            Some(b) => b,
            None => self.tx_pool_config.max_block_bytes,
        };
        let nt = self.tx_pool.proposed.len();
        let mut transactions: Vec<Transaction> = Vec::new();
        let mut t: usize = 0;
        while t < nt
            invariant
                t <= nt,
                nt == self.tx_pool.proposed.key_seq().len(),
                forall|q: int|
                    0 <= q < transactions@.len() ==> proposed_has_tx(
                        self.tx_pool,
                        #[trigger] transactions@[q],
                    ),
            decreases nt - t,
        {
            let id = self.tx_pool.proposed.key_at(t);
            match self.tx_pool.proposed.get(id) {
                Some(entry) => {
                    if entry.size <= budget {
                        budget = budget - entry.size;
                        let e = *entry;
                        transactions.push(e.transaction);
                        proof {
                            assert(proposed_has_tx(self.tx_pool, e.transaction));
                        }
                    }
                },
                None => {
                    // the key came from the map's own key order
                    proof {
                        assert(false);
                    }
                },
            }
            t = t + 1;
        }

        Ok(BlockTemplate { version, uncles, proposals, transactions })
    }
}

/// Some proposed entry holds this transaction.
pub open spec fn proposed_has_tx(p: TxPool, tx: Transaction) -> bool {
    exists|k: u64| p.proposed@.contains_key(k) && (#[trigger] p.proposed@[k]).transaction == tx
}

/// Whether a vector of ids holds `x`.
#[verifier::loop_isolation(false)]
fn ids_contain_exec(v: &Vec<u64>, x: u64) -> (r: bool)
    ensures
        r == v@.contains(x),
{
    let n = v.len();
    let mut i: usize = 0;
    while i < n
        invariant
            i <= n,
            forall|j: int| 0 <= j < i ==> v@[j] != x,
        decreases n - i,
    {
        if v[i] == x {
            return true;
        }
        i = i + 1;
    }
    false
}

/// Copy a vector of ids.
#[verifier::loop_isolation(false)]
fn copy_ids(v: &Vec<u64>) -> (r: Vec<u64>)
    ensures
        r@ == v@,
{
    let n = v.len();
    let mut r: Vec<u64> = Vec::new();
    let mut i: usize = 0;
    while i < n
        invariant
            i <= n,
            r@ == v@.take(i as int),
        decreases n - i,
    {
        r.push(v[i]);
        proof {
            assert(r@ =~= v@.take(i + 1));
        }
        i = i + 1;
    }
    proof {
        assert(v@.take(n as int) =~= v@);
    }
    r
}

/// Dispatch one message against the service's state and answer its
/// responder. Read-only requests leave the service untouched; each mutating
/// message changes the pool exactly as its effect predicate states.
pub fn process(service: &mut TxPoolService, message: Message, now: u64)
    ensures
        match message {
            Message::SubmitTxs(req) => submit_effect(
                old(service).tx_pool,
                final(service).tx_pool,
                req.arguments@,
                now,
            ) && final(service).block_assembler == old(service).block_assembler,
            Message::NotifyTxs(n) => submit_effect(
                old(service).tx_pool,
                final(service).tx_pool,
                n.arguments@,
                now,
            ) && final(service).block_assembler == old(service).block_assembler,
            Message::ChainReorg(n) => reorg_effect(
                old(service).tx_pool,
                final(service).tx_pool,
                n.arguments.0@,
                n.arguments.1@,
                n.arguments.2@,
                n.arguments.3,
                now,
            ) && final(service).block_assembler == old(service).block_assembler && final(service).txs_verify_cache == old(service).txs_verify_cache,
            Message::NewUncle(n) => final(service).tx_pool == old(service).tx_pool && final(service).txs_verify_cache == old(service).txs_verify_cache && (match old(service).block_assembler {
                Some(a) => final(service).block_assembler matches Some(b) && b.version
                    == a.version && b.candidate_uncles@ == (if a.candidate_uncles@.contains(
                    n.arguments.hash,
                ) {
                    a.candidate_uncles@
                } else {
                    a.candidate_uncles@.push(n.arguments.hash)
                }) && b.last_uncles_updated_at == (if now > a.last_uncles_updated_at {
                    now
                } else {
                    a.last_uncles_updated_at
                }),
                None => final(service).block_assembler is None,
            }),
            Message::PlugEntry(req) => plug_effect(
                old(service).tx_pool,
                final(service).tx_pool,
                req.arguments.0@,
                req.arguments.1,
            ) && final(service).block_assembler == old(service).block_assembler && final(service).txs_verify_cache == old(service).txs_verify_cache,
            Message::BlockTemplate(_) => *final(service) == *old(service),
            Message::FreshProposalsFilter(_) => *final(service) == *old(service),
            Message::FetchTxs(_) => *final(service) == *old(service),
            Message::FetchTxsWithCycles(_) => *final(service) == *old(service),
            Message::GetTxPoolInfo(_) => *final(service) == *old(service),
            Message::FetchTxRPC(_) => *final(service) == *old(service),
            Message::EstimateFeeRate(_) => *final(service) == *old(service),
        },
{
    match message {
        Message::GetTxPoolInfo(req) => {
            let info = service.tx_pool.info();
            let _ = try_send(&req.responder, info);
        },
        Message::BlockTemplate(req) => {
            let (bytes_limit, proposals_limit, max_version) = req.arguments;
            let result = service.get_block_template(bytes_limit, proposals_limit, max_version);
            let _ = try_send(&req.responder, result);
        },
        Message::SubmitTxs(req) => {
            let result = service.process_txs(req.arguments, now);
            let _ = try_send(&req.responder, result);
        },
        Message::NotifyTxs(n) => {
            let _ = service.process_txs(n.arguments, now);
        },
        Message::FreshProposalsFilter(req) => {
            let result = service.fresh_proposals_filter(req.arguments);
            let _ = try_send(&req.responder, result);
        },
        Message::FetchTxRPC(req) => {
            let result = service.fetch_tx_for_rpc(req.arguments);
            let _ = try_send(&req.responder, result);
        },
        Message::FetchTxs(req) => {
            let result = service.fetch_txs(req.arguments);
            let _ = try_send(&req.responder, result);
        },
        Message::FetchTxsWithCycles(req) => {
            let result = service.fetch_txs_with_cycles(req.arguments);
            let _ = try_send(&req.responder, result);
        },
        Message::ChainReorg(n) => {
            let (detached, attached, detached_proposal_ids, snapshot) = n.arguments;
            service.update_tx_pool_for_reorg(
                detached,
                attached,
                detached_proposal_ids,
                snapshot,
                now,
            );
        },
        Message::NewUncle(n) => {
            let mut ba: Option<BlockAssembler> = None;
            std::mem::swap(&mut ba, &mut service.block_assembler);
            match ba {
                Some(mut a) => {
                    if !ids_contain_exec(&a.candidate_uncles, n.arguments.hash) {
                        a.candidate_uncles.push(n.arguments.hash);
                    }
                    if now > a.last_uncles_updated_at {
                        a.last_uncles_updated_at = now;
                    }
                    service.block_assembler = Some(a);
                },
                None => {
                    service.block_assembler = None;
                },
            }
        },
        Message::PlugEntry(req) => {
            let (entries, target) = req.arguments;
            service.tx_pool.plug(entries, target);
            let _ = try_send(&req.responder, ());
        },
        Message::EstimateFeeRate(req) => {
            let rate = service.tx_pool.estimate_fee_rate(req.arguments);
            let _ = try_send(&req.responder, rate);
        },
    }
}

/// The client handle: non-blocking submission into the service's bounded
/// inbox, then a blocking wait on the per-request reply slot. A full inbox
/// surfaces as `ChannelError::Full` without blocking.
pub struct TxPoolController {
    sender: crossbeam_channel::Sender<Message>,
    stop: crossbeam_channel::Sender<()>,
}

impl Clone for TxPoolController {
    fn clone(&self) -> (r: TxPoolController) {
        TxPoolController { sender: clone_sender(&self.sender), stop: clone_sender(&self.stop) }
    }
}

impl TxPoolController {
    /// Fire the stop signal; the service loop exits at its next iteration.
    pub fn stop(&self) {
        let _ = try_send(&self.stop, ());
    }

    pub fn get_tx_pool_info(&self) -> (r: Result<TxPoolInfo, ChannelError>)
        ensures
            r matches Err(e) ==> e is Full || e is Closed,
    {
        let (responder, response) = channel_bounded::<TxPoolInfo>(1);
        let request = Request::call((), responder);
        match try_send(&self.sender, Message::GetTxPoolInfo(request)) {
            Ok(()) => recv(&response),
            Err(e) => Err(e),
        }
    }

    pub fn get_block_template(
        &self,
        bytes_limit: Option<u64>,
        proposals_limit: Option<u64>,
        max_version: Option<u64>,
    ) -> (r: Result<BlockTemplateResult, ChannelError>)
        ensures
            r matches Err(e) ==> e is Full || e is Closed,
    {
        let (responder, response) = channel_bounded::<BlockTemplateResult>(1);
        let request = Request::call((bytes_limit, proposals_limit, max_version), responder);
        match try_send(&self.sender, Message::BlockTemplate(request)) {
            Ok(()) => recv(&response),
            Err(e) => Err(e),
        }
    }

    pub fn submit_txs(&self, txs: Vec<Transaction>) -> (r: Result<SubmitTxsResult, ChannelError>)
        ensures
            r matches Err(e) ==> e is Full || e is Closed,
    {
        let (responder, response) = channel_bounded::<SubmitTxsResult>(1);
        let request = Request::call(txs, responder);
        match try_send(&self.sender, Message::SubmitTxs(request)) {
            Ok(()) => recv(&response),
            Err(e) => Err(e),
        }
    }

    pub fn notify_txs(&self, txs: Vec<Transaction>) -> (r: Result<(), ChannelError>)
        ensures
            r matches Err(e) ==> e is Full || e is Closed,
    {
        match try_send(&self.sender, Message::NotifyTxs(Notify::notify(txs))) {
            Ok(()) => Ok(()),
            Err(e) => Err(e),
        }
    }

    pub fn notify_new_uncle(&self, uncle: UncleBlock) -> (r: Result<(), ChannelError>)
        ensures
            r matches Err(e) ==> e is Full || e is Closed,
    {
        match try_send(&self.sender, Message::NewUncle(Notify::notify(uncle))) {
            Ok(()) => Ok(()),
            Err(e) => Err(e),
        }
    }

    pub fn update_tx_pool_for_reorg(
        &self,
        detached: Vec<Transaction>,
        attached: Vec<Transaction>,
        detached_proposal_ids: Vec<u64>,
        snapshot: Snapshot,
    ) -> (r: Result<(), ChannelError>)
        ensures
            r matches Err(e) ==> e is Full || e is Closed,
    {
        let notify = Notify::notify((detached, attached, detached_proposal_ids, snapshot));
        match try_send(&self.sender, Message::ChainReorg(notify)) {
            Ok(()) => Ok(()),
            Err(e) => Err(e),
        }
    }

    pub fn fresh_proposals_filter(&self, proposals: Vec<u64>) -> (r: Result<Vec<u64>, ChannelError>)
        ensures
            r matches Err(e) ==> e is Full || e is Closed,
    {
        let (responder, response) = channel_bounded::<Vec<u64>>(1);
        let request = Request::call(proposals, responder);
        match try_send(&self.sender, Message::FreshProposalsFilter(request)) {
            Ok(()) => recv(&response),
            Err(e) => Err(e),
        }
    }

    pub fn fetch_tx_for_rpc(&self, id: u64) -> (r: Result<Option<(bool, Transaction)>, ChannelError>)
        ensures
            r matches Err(e) ==> e is Full || e is Closed,
    {
        let (responder, response) = channel_bounded::<Option<(bool, Transaction)>>(1);
        let request = Request::call(id, responder);
        match try_send(&self.sender, Message::FetchTxRPC(request)) {
            Ok(()) => recv(&response),
            Err(e) => Err(e),
        }
    }

    pub fn fetch_txs(&self, short_ids: Vec<u64>) -> (r: Result<KeyMap<Transaction>, ChannelError>)
        ensures
            r matches Err(e) ==> e is Full || e is Closed,
    {
        let (responder, response) = channel_bounded::<KeyMap<Transaction>>(1);
        let request = Request::call(short_ids, responder);
        match try_send(&self.sender, Message::FetchTxs(request)) {
            Ok(()) => recv(&response),
            Err(e) => Err(e),
        }
    }

    pub fn fetch_txs_with_cycles(&self, short_ids: Vec<u64>) -> (r: Result<
        FetchTxsWithCyclesResult,
        ChannelError,
    >)
        ensures
            r matches Err(e) ==> e is Full || e is Closed,
    {
        let (responder, response) = channel_bounded::<FetchTxsWithCyclesResult>(1);
        let request = Request::call(short_ids, responder);
        match try_send(&self.sender, Message::FetchTxsWithCycles(request)) {
            Ok(()) => recv(&response),
            Err(e) => Err(e),
        }
    }

    pub fn plug_entry(
        &self,
        entries: Vec<TxEntry>,
        target: PlugTarget,
    ) -> (r: Result<(), ChannelError>)
        ensures
            r matches Err(e) ==> e is Full || e is Closed,
    {
        let (responder, response) = channel_bounded::<()>(1);
        let request = Request::call((entries, target), responder);
        match try_send(&self.sender, Message::PlugEntry(request)) {
            Ok(()) => recv(&response),
            Err(e) => Err(e),
        }
    }

    pub fn estimate_fee_rate(&self, expect_confirm_blocks: usize) -> (r: Result<
        FeeRate,
        ChannelError,
    >)
        ensures
            r matches Err(e) ==> e is Full || e is Closed,
    {
        let (responder, response) = channel_bounded::<FeeRate>(1);
        let request = Request::call(expect_confirm_blocks, responder);
        match try_send(&self.sender, Message::EstimateFeeRate(request)) {
            Ok(()) => recv(&response),
            Err(e) => Err(e),
        }
    }
}

/// What the consumer side of `start` owns: the service state and the two
/// receiving ends. The surrounding program loops: drain the stop signal,
/// then receive and dispatch one message at a time.
pub struct TxPoolRunner {
    /// The service state the loop owns.
    pub service: TxPoolService,
    /// The message inbox.
    pub receiver: crossbeam_channel::Receiver<Message>,
    /// The stop signal.
    pub stop: crossbeam_channel::Receiver<()>,
}

impl TxPoolRunner {
    /// One loop iteration: stop if the signal fired or every controller is
    /// gone, else wait for one message and dispatch it. Hands back `false`
    /// when the loop should end.
    pub fn run_once(&mut self, now: u64) -> (r: bool)
        ensures
            !r ==> final(self).service == old(self).service,
    {
        match try_recv(&self.stop) {
            Ok(()) => {
                return false;
            },
            Err(ChannelError::Closed) => {
                return false;
            },
            Err(_) => {},
        }
        match recv(&self.receiver) {
            Ok(message) => {
                process(&mut self.service, message, now);
                true
            },
            Err(_) => false,
        }
    }
}

/// Builds the service and wires it to a controller.
pub struct TxPoolServiceBuilder {
    service: Option<TxPoolService>,
}

impl TxPoolServiceBuilder {
    /// The service this builder will start.
    pub closed spec fn spec_service(self) -> Option<TxPoolService> {
        self.service
    }

    pub fn new(
        tx_pool_config: TxPoolConfig,
        snapshot: Snapshot,
        block_assembler_config: Option<BlockAssemblerConfig>,
        txs_verify_cache: KeyMap<u64>,
        fee_rates: Vec<u64>,
    ) -> (r: TxPoolServiceBuilder)
        ensures
            r.spec_service() matches Some(s) && {
                &&& s.tx_pool.config == tx_pool_config
                &&& s.tx_pool.snapshot == snapshot
                &&& s.tx_pool.pending@ == Map::<u64, TxEntry>::empty()
                &&& s.tx_pool.proposed@ == Map::<u64, TxEntry>::empty()
                &&& s.txs_verify_cache == txs_verify_cache
                &&& (block_assembler_config is Some <==> s.block_assembler is Some)
            },
    {
        let tx_pool = TxPool::new(tx_pool_config, snapshot, fee_rates);
        let block_assembler = match block_assembler_config {
            Some(config) => Some(BlockAssembler::new(config)),
            None => None,
        };
        let service = TxPoolService::new(tx_pool, block_assembler, txs_verify_cache);
        TxPoolServiceBuilder { service: Some(service) }
    }

    /// Wire the service to a bounded inbox and hand out the two halves:
    /// the controller for callers, the runner for the consumer loop.
    pub fn start(self) -> (r: Option<(TxPoolController, TxPoolRunner)>)
        ensures
            self.spec_service() is Some <==> r is Some,
            r matches Some((c, run)) ==> run.service == self.spec_service()->0,
    {
        let service = match self.service {
            Some(s) => s,
            None => {
                return None;
            },
        };
        let (sender, receiver) = channel_bounded::<Message>(DEFAULT_CHANNEL_SIZE);
        let (stop_sender, stop_receiver) = channel_bounded::<()>(1);
        let controller = TxPoolController { sender, stop: stop_sender };
        let runner = TxPoolRunner { service, receiver, stop: stop_receiver };
        Some((controller, runner))
    }
}

} // verus!
