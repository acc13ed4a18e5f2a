//! The ledger: a chain of blocks that only grows, a pool of transactions
//! waiting for the next block, and the check that the chain is intact.

use crate::block::{
    copy_transactions, lemma_digest_is_deterministic, lemma_mined_block_meets_difficulty,
    lemma_search_ignores_hash_and_nonce, Block, BlockView, Transaction, TransactionView,
};
use crate::canonical::{transaction_views, HASH_LENGTH};
use crate::encoding::has_leading_zeros;
use crate::outside::unix_time_now;
use vstd::prelude::*;

verus! {

/// The number of leading zeros asked of a block's hash when the caller does
/// not choose one.
pub const DEFAULT_DIFFICULTY: usize = 2;

/// A chain of blocks and the transactions that wait to be sealed into the
/// next block.
///
/// The chain is never empty: its first block is the genesis block, which
/// holds no transactions and names `"0"` as its predecessor.
#[derive(Debug, Clone, PartialEq)]
pub struct Blockchain {
    pub chain: Vec<Block>,
    pub pending_transactions: Vec<Transaction>,
}

/// The mathematical value of a [`Blockchain`].
pub ghost struct BlockchainView {
    pub chain: Seq<BlockView>,
    pub pending_transactions: Seq<TransactionView>,
}

/// A copy of one block of the chain, with the block's position in the chain.
#[derive(Debug, Clone, PartialEq)]
pub struct BlockSnapshot {
    /// Position in the chain; the genesis block is at zero.
    pub index: usize,
    pub timestamp: i64,
    pub transactions: Vec<Transaction>,
    pub previous_hash: String,
    pub hash: String,
    pub nonce: u64,
}

impl BlockSnapshot {
    /// Whether the snapshot holds the fields of `block` and names `index` as
    /// its position.
    pub open spec fn shows(self, block: Block, index: int) -> bool {
        &&& self.index == index
        &&& self.timestamp == block.timestamp
        &&& self.transactions@ == block.transactions@
        &&& self.previous_hash@ == block.previous_hash@
        &&& self.hash@ == block.hash@
        &&& self.nonce == block.nonce
    }
}

/// The views of a sequence of blocks, in order.
pub open spec fn block_views(blocks: Seq<Block>) -> Seq<BlockView> {
    blocks.map_values(|b: Block| b@)
}

impl View for Blockchain {
    type V = BlockchainView;

    open spec fn view(&self) -> BlockchainView {
        BlockchainView {
            chain: block_views(self.chain@),
            pending_transactions: transaction_views(self.pending_transactions@),
        }
    }
}

/// What the genesis block names as its predecessor.
pub open spec fn genesis_previous_hash() -> Seq<char> {
    seq!['0']
}

/// Whether the block at position `i` names the hash of the block before it.
pub open spec fn linked_at(chain: Seq<BlockView>, i: int) -> bool {
    chain[i].previous_hash == chain[i - 1].hash
}

/// Whether a chain is intact: every block's stored hash is the hash of its
/// contents, and every block but the first names the stored hash of the block
/// before it.
pub open spec fn chain_valid(chain: Seq<BlockView>) -> bool {
    &&& forall|i: int| 0 <= i < chain.len() ==> (#[trigger] chain[i]).self_verifies()
    &&& forall|i: int| 1 <= i < chain.len() ==> #[trigger] linked_at(chain, i)
}

impl BlockchainView {
    /// Whether the chain holds at least one block, so that a new block has a
    /// block to link to.
    pub open spec fn has_tip(self) -> bool {
        self.chain.len() > 0
    }

    /// Whether the ledger is well formed: the chain is not empty, and its
    /// first block is a genesis block, which holds no transactions and names
    /// the sentinel as its predecessor.
    pub open spec fn wf(self) -> bool {
        &&& self.chain.len() > 0
        &&& self.chain[0].transactions == Seq::<TransactionView>::empty()
        &&& self.chain[0].previous_hash == genesis_previous_hash()
    }

    /// The contents of the block that sealing at `timestamp` mines. Hash and
    /// nonce are those before the search.
    pub open spec fn candidate(self, timestamp: int) -> BlockView {
        BlockView {
            timestamp,
            transactions: self.pending_transactions,
            previous_hash: self.chain.last().hash,
            hash: Seq::empty(),
            nonce: 0,
        }
    }

    /// Whether `after` is what sealing `self` at `timestamp` leaves, and
    /// `sealed` what it reports.
    ///
    /// Sealing succeeds exactly when some nonce gives the candidate block a
    /// hash with `difficulty` leading zeros. The chain then grows by that
    /// block, mined to the first such nonce, and the pool is empty. Otherwise
    /// nothing changes.
    pub open spec fn sealed_with(
        self,
        after: BlockchainView,
        timestamp: int,
        difficulty: nat,
        sealed: bool,
    ) -> bool {
        let candidate = self.candidate(timestamp);
        &&& sealed == candidate.has_solution_from(0, difficulty)
        &&& if sealed {
            let block = after.chain.last();
            &&& after.chain == self.chain.push(block)
            &&& after.pending_transactions == Seq::<TransactionView>::empty()
            &&& block.timestamp == candidate.timestamp
            &&& block.transactions == candidate.transactions
            &&& block.previous_hash == candidate.previous_hash
            &&& block.mined_from_zero(difficulty)
        } else {
            after == self
        }
    }

    /// Whether `self` is the ledger that starts at `timestamp`: a lone
    /// genesis block mined at the default difficulty, and an empty pool.
    pub open spec fn fresh_at(self, timestamp: int) -> bool {
        &&& self.chain.len() == 1
        &&& self.pending_transactions == Seq::<TransactionView>::empty()
        &&& self.chain[0].timestamp == timestamp
        &&& self.chain[0].transactions == Seq::<TransactionView>::empty()
        &&& self.chain[0].previous_hash == genesis_previous_hash()
        &&& self.chain[0].mined_from_zero(DEFAULT_DIFFICULTY as nat)
    }
}

/// Wherever some nonce gives the candidate block a qualifying hash, sealing
/// succeeds, adds exactly one block after the blocks that were there, and
/// empties the pool, whatever the pool held.
pub proof fn lemma_sealing_appends_one_block(
    before: BlockchainView,
    after: BlockchainView,
    timestamp: int,
    difficulty: nat,
    sealed: bool,
)
    requires
        before.sealed_with(after, timestamp, difficulty, sealed),
        before.candidate(timestamp).has_solution_from(0, difficulty),
    ensures
        sealed,
        after.chain.len() == before.chain.len() + 1,
        after.pending_transactions.len() == 0,
        forall|i: int| 0 <= i < before.chain.len() ==> after.chain[i] == before.chain[i],
{
}

/// Sealing an intact chain leaves an intact chain.
pub proof fn lemma_sealing_keeps_chain_valid(
    before: BlockchainView,
    after: BlockchainView,
    timestamp: int,
    difficulty: nat,
    sealed: bool,
)
    requires
        before.has_tip(),
        chain_valid(before.chain),
        before.sealed_with(after, timestamp, difficulty, sealed),
    ensures
        chain_valid(after.chain),
{
    if sealed {
        let last = before.chain.len() as int;
        assert forall|i: int| 1 <= i < after.chain.len() implies #[trigger] linked_at(
            after.chain,
            i,
        ) by {
            if i < last {
                assert(linked_at(before.chain, i));
            }
        }
    }
}

/// A fresh ledger is well formed and intact.
pub proof fn lemma_fresh_chain_is_valid(ledger: BlockchainView, timestamp: int)
    requires
        ledger.fresh_at(timestamp),
    ensures
        ledger.wf(),
        chain_valid(ledger.chain),
{
}

/// Sealing a well-formed ledger leaves a well-formed ledger: the genesis
/// block stays where and what it was.
pub proof fn lemma_sealing_keeps_ledger_well_formed(
    before: BlockchainView,
    after: BlockchainView,
    timestamp: int,
    difficulty: nat,
    sealed: bool,
)
    requires
        before.wf(),
        before.sealed_with(after, timestamp, difficulty, sealed),
    ensures
        after.wf(),
        after.chain[0] == before.chain[0],
{
}

/// With difficulty zero every hash qualifies: sealing cannot fail, and the
/// new block keeps nonce zero.
pub proof fn lemma_zero_difficulty_always_seals(
    before: BlockchainView,
    after: BlockchainView,
    timestamp: int,
    sealed: bool,
)
    requires
        before.sealed_with(after, timestamp, 0, sealed),
    ensures
        sealed,
        after.chain.last().nonce == 0,
{
    assert(before.candidate(timestamp).solves(0, 0));
    assert(after.chain.last().solves(0, 0));
}

/// Replacing the stored hash of any block of an intact chain by a different
/// one breaks the chain, however long the chain is.
pub proof fn lemma_tampered_hash_is_detected(chain: Seq<BlockView>, i: int, forged: Seq<char>)
    requires
        chain_valid(chain),
        0 <= i < chain.len(),
        forged != chain[i].hash,
    ensures
        !chain_valid(chain.update(i, chain[i].with_hash(forged))),
{
    let tampered = chain.update(i, chain[i].with_hash(forged));
    assert(chain[i].self_verifies());
    lemma_digest_is_deterministic(chain[i], tampered[i]);
    assert(!tampered[i].self_verifies());
}

/// Replacing the previous hash of a block by anything but the stored hash of
/// the block before it breaks the chain, whether it was intact or not.
pub proof fn lemma_broken_link_is_detected(chain: Seq<BlockView>, i: int, forged: Seq<char>)
    requires
        1 <= i < chain.len(),
        forged != chain[i - 1].hash,
    ensures
        !chain_valid(chain.update(i, chain[i].with_previous_hash(forged))),
{
    let tampered = chain.update(i, chain[i].with_previous_hash(forged));
    assert(!linked_at(tampered, i));
}

impl Blockchain {
    /// Makes a ledger whose chain holds the genesis block alone, stamped with
    /// the current time and mined at the default difficulty.
    pub fn new() -> (ledger: Self)
        ensures
            exists|timestamp: int| ledger@.fresh_at(timestamp),
            ledger@.chain.len() == 1,
            ledger@.chain[0].transactions.len() == 0,
            ledger@.chain[0].previous_hash == genesis_previous_hash(),
            ledger@.pending_transactions.len() == 0,
            ledger@.wf(),
            chain_valid(ledger@.chain),
    {
        let timestamp: i64 = unix_time_now();
        let ledger = Blockchain::with_genesis_at(timestamp);
        proof {
            assert(ledger@.fresh_at(timestamp as int));
        }
        ledger
    }

    /// Makes a ledger whose chain holds the genesis block alone, stamped with
    /// `timestamp` and mined at the default difficulty.
    pub fn with_genesis_at(timestamp: i64) -> (ledger: Self)
        ensures
            ledger@.fresh_at(timestamp as int),
            ledger@.wf(),
            chain_valid(ledger@.chain),
    {
        proof {
            reveal_strlit("0");
        }
        let sentinel = "0".to_owned();
        assert(sentinel@ == genesis_previous_hash());
        let genesis = Block::with_timestamp(timestamp, Vec::new(), sentinel, DEFAULT_DIFFICULTY);
        let mut chain: Vec<Block> = Vec::new();
        chain.push(genesis);
        let ledger = Blockchain { chain, pending_transactions: Vec::new() };
        proof {
            assert(ledger@.chain[0] == genesis@);
            assert(genesis@.transactions == Seq::<TransactionView>::empty());
            assert(ledger@.pending_transactions == Seq::<TransactionView>::empty());
            lemma_fresh_chain_is_valid(ledger@, timestamp as int);
        }
        ledger
    }

    /// Adds a transaction to the end of the pool. Nothing about it is
    /// checked.
    pub fn add_transaction(&mut self, transaction: Transaction)
        ensures
            final(self).pending_transactions@ == old(self).pending_transactions@.push(transaction),
            final(self)@.pending_transactions == old(self)@.pending_transactions.push(
                transaction@,
            ),
            final(self).chain == old(self).chain,
            old(self)@.wf() ==> final(self)@.wf(),
    {
        self.pending_transactions.push(transaction);
        proof {
            assert(final(self)@.pending_transactions == old(self)@.pending_transactions.push(
                transaction@,
            ));
        }
    }

    /// Seals the pool into a new block at the default difficulty.
    pub fn add_block(&mut self) -> (sealed: bool)
        requires
            old(self)@.has_tip(),
        ensures
            exists|timestamp: int|
                old(self)@.sealed_with(
                    final(self)@,
                    timestamp,
                    DEFAULT_DIFFICULTY as nat,
                    sealed,
                ),
            sealed ==> final(self)@.chain.len() == old(self)@.chain.len() + 1,
            sealed ==> final(self)@.pending_transactions.len() == 0,
            sealed ==> has_leading_zeros(
                final(self)@.chain.last().hash,
                DEFAULT_DIFFICULTY as nat,
            ),
            !sealed ==> *final(self) == *old(self),
            final(self)@.has_tip(),
            old(self)@.wf() ==> final(self)@.wf(),
            chain_valid(old(self)@.chain) ==> chain_valid(final(self)@.chain),
    {
        self.seal(DEFAULT_DIFFICULTY)
    }

    /// Seals the pool into a new block: takes the waiting transactions in
    /// order, links a block to the last block's hash, stamps it with the
    /// current time, mines it at `difficulty` and appends it.
    ///
    /// Returns whether a block was appended. If the search finds no nonce,
    /// chain and pool are left as they were.
    pub fn seal(&mut self, difficulty: usize) -> (sealed: bool)
        requires
            old(self)@.has_tip(),
        ensures
            exists|timestamp: int|
                old(self)@.sealed_with(final(self)@, timestamp, difficulty as nat, sealed),
            sealed ==> final(self)@.chain.len() == old(self)@.chain.len() + 1,
            sealed ==> final(self)@.pending_transactions.len() == 0,
            sealed ==> has_leading_zeros(final(self)@.chain.last().hash, difficulty as nat),
            sealed ==> difficulty <= HASH_LENGTH,
            !sealed ==> *final(self) == *old(self),
            difficulty == 0 ==> sealed && final(self)@.chain.last().nonce == 0,
            final(self)@.has_tip(),
            old(self)@.wf() ==> final(self)@.wf(),
            chain_valid(old(self)@.chain) ==> chain_valid(final(self)@.chain),
    {
        let timestamp: i64 = unix_time_now();
        let sealed = self.seal_at(timestamp, difficulty);
        proof {
            if sealed {
                lemma_sealing_appends_one_block(
                    old(self)@,
                    final(self)@,
                    timestamp as int,
                    difficulty as nat,
                    sealed,
                );
            }
        }
        sealed
    }

    /// Seals the pool into a new block stamped with `timestamp`.
    pub fn seal_at(&mut self, timestamp: i64, difficulty: usize) -> (sealed: bool)
        requires
            old(self)@.has_tip(),
        ensures
            old(self)@.sealed_with(final(self)@, timestamp as int, difficulty as nat, sealed),
            sealed ==> has_leading_zeros(final(self)@.chain.last().hash, difficulty as nat),
            sealed ==> difficulty <= HASH_LENGTH,
            !sealed ==> *final(self) == *old(self),
            difficulty == 0 ==> sealed && final(self)@.chain.last().nonce == 0,
            final(self)@.has_tip(),
            old(self)@.wf() ==> final(self)@.wf(),
            chain_valid(old(self)@.chain) ==> chain_valid(final(self)@.chain),
    {
        let mut pool: Vec<Transaction> = Vec::new();
        core::mem::swap(&mut self.pending_transactions, &mut pool);
        let previous_hash = self.chain[self.chain.len() - 1].hash.clone();
        let block = Block::with_timestamp(timestamp, pool, previous_hash, difficulty);
        let ghost candidate = old(self)@.candidate(timestamp as int);
        proof {
            lemma_search_ignores_hash_and_nonce(candidate, block@, 0, difficulty as nat);
            lemma_mined_block_meets_difficulty(block@, difficulty as nat);
        }
        if block.meets_difficulty(difficulty) {
            self.chain.push(block);
            proof {
                assert(final(self)@.chain == old(self)@.chain.push(block@));
                assert(final(self)@.pending_transactions == Seq::<TransactionView>::empty());
                if chain_valid(old(self)@.chain) {
                    lemma_sealing_keeps_chain_valid(
                        old(self)@,
                        final(self)@,
                        timestamp as int,
                        difficulty as nat,
                        true,
                    );
                }
                if old(self)@.wf() {
                    lemma_sealing_keeps_ledger_well_formed(
                        old(self)@,
                        final(self)@,
                        timestamp as int,
                        difficulty as nat,
                        true,
                    );
                }
            }
            true
        } else {
            self.pending_transactions = block.transactions;
            proof {
                if difficulty == 0 {
                    lemma_zero_difficulty_always_seals(
                        old(self)@,
                        final(self)@,
                        timestamp as int,
                        false,
                    );
                }
            }
            false
        }
    }

    /// Tests whether the chain is intact: every block's stored hash matches
    /// its contents, and every block but the first names the stored hash of
    /// the block before it. Nothing is changed.
    pub fn is_chain_valid(&self) -> (valid: bool)
        ensures
            valid == chain_valid(self@.chain),
    {
        let ghost chain = self@.chain;
        let mut i: usize = 0;
        while i < self.chain.len()
            invariant
                i <= self.chain.len(),
                chain == self@.chain,
                forall|k: int| 0 <= k < i ==> (#[trigger] chain[k]).self_verifies(),
                forall|k: int| 1 <= k < i ==> #[trigger] linked_at(chain, k),
            decreases self.chain.len() - i,
        {
            let current = &self.chain[i];
            assert(chain[i as int] == current@);
            let recomputed = current.calculate_hash();
            if !(current.hash == recomputed) {
                assert(!chain[i as int].self_verifies());
                return false;
            }
            if i > 0 {
                let previous = &self.chain[i - 1];
                assert(chain[i - 1] == previous@);
                if !(current.previous_hash == previous.hash) {
                    assert(!linked_at(chain, i as int));
                    return false;
                }
            }
            i += 1;
        }
        true
    }

    /// Copies the chain for reading: one snapshot for each block, in order,
    /// each with the block's position. The copies share nothing with the
    /// ledger, so later changes to either are not seen by the other.
    pub fn inspect(&self) -> (snapshots: Vec<BlockSnapshot>)
        ensures
            snapshots.len() == self.chain.len(),
            forall|i: int|
                0 <= i < self.chain.len() ==> (#[trigger] snapshots[i]).shows(self.chain[i], i),
    {
        let mut snapshots: Vec<BlockSnapshot> = Vec::new();
        let mut i: usize = 0;
        while i < self.chain.len()
            invariant
                i <= self.chain.len(),
                snapshots.len() == i,
                forall|k: int| 0 <= k < i ==> (#[trigger] snapshots[k]).shows(self.chain[k], k),
            decreases self.chain.len() - i,
        {
            let block = &self.chain[i];
            snapshots.push(
                BlockSnapshot {
                    index: i,
                    timestamp: block.timestamp,
                    transactions: copy_transactions(&block.transactions),
                    previous_hash: block.previous_hash.clone(),
                    hash: block.hash.clone(),
                    nonce: block.nonce,
                },
            );
            i += 1;
        }
        snapshots
    }
}

} // verus!
