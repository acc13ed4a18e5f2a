//! Transactions and blocks: hashing and proof-of-work mining.

use crate::canonical::{
    block_digest, digest_text, preimage_text, transaction_views, HASH_LENGTH,
};
use crate::encoding::{has_leading_zeros, starts_with_zeros};
use crate::outside::unix_time_now;
use vstd::prelude::*;

verus! {

/// A transfer of an amount from a sender to a receiver.
///
/// No rule is imposed on the three fields: any names and any amount,
/// negative ones included, make a transaction.
#[derive(Debug, Clone, PartialEq)]
pub struct Transaction {
    pub sender: String,
    pub receiver: String,
    pub amount: i64,
}

/// The mathematical value of a [`Transaction`].
pub ghost struct TransactionView {
    pub sender: Seq<char>,
    pub receiver: Seq<char>,
    pub amount: int,
}

impl View for Transaction {
    type V = TransactionView;

    open spec fn view(&self) -> TransactionView {
        TransactionView { sender: self.sender@, receiver: self.receiver@, amount: self.amount as int }
    }
}

/// Copies a list of transactions.
pub fn copy_transactions(transactions: &Vec<Transaction>) -> (copy: Vec<Transaction>)
    ensures
        copy@ == transactions@,
{
    let mut copy: Vec<Transaction> = Vec::new();
    let mut i: usize = 0;
    while i < transactions.len()
        invariant
            i <= transactions.len(),
            copy@ == transactions@.take(i as int),
        decreases transactions.len() - i,
    {
        let t = &transactions[i];
        copy.push(
            Transaction { sender: t.sender.clone(), receiver: t.receiver.clone(), amount: t.amount },
        );
        i += 1;
    }
    copy
}

/// A batch of transactions, linked to the block before it by that block's
/// hash.
#[derive(Debug, Clone, PartialEq)]
pub struct Block {
    /// Seconds since the Unix epoch at which the block was made.
    pub timestamp: i64,
    pub transactions: Vec<Transaction>,
    pub previous_hash: String,
    pub hash: String,
    pub nonce: u64,
}

/// The mathematical value of a [`Block`].
pub ghost struct BlockView {
    pub timestamp: int,
    pub transactions: Seq<TransactionView>,
    pub previous_hash: Seq<char>,
    pub hash: Seq<char>,
    pub nonce: nat,
}

impl View for Block {
    type V = BlockView;

    open spec fn view(&self) -> BlockView {
        BlockView {
            timestamp: self.timestamp as int,
            transactions: transaction_views(self.transactions@),
            previous_hash: self.previous_hash@,
            hash: self.hash@,
            nonce: self.nonce as nat,
        }
    }
}

impl BlockView {
    /// The hash that the block's contents give with `nonce` in place of the
    /// block's own.
    pub open spec fn digest_at(self, nonce: nat) -> Seq<char> {
        block_digest(self.timestamp, self.transactions, self.previous_hash, nonce)
    }

    /// The hash that the block's contents give. The stored hash plays no part.
    pub open spec fn digest(self) -> Seq<char> {
        self.digest_at(self.nonce)
    }

    /// Whether the stored hash is the hash of the contents.
    pub open spec fn self_verifies(self) -> bool {
        self.hash == self.digest()
    }

    /// The block with `hash` in place of its stored hash.
    pub open spec fn with_hash(self, hash: Seq<char>) -> BlockView {
        BlockView { hash, ..self }
    }

    /// The block with `previous_hash` in place of the one it names.
    pub open spec fn with_previous_hash(self, previous_hash: Seq<char>) -> BlockView {
        BlockView { previous_hash, ..self }
    }

    /// Whether the block would meet `difficulty` with the given nonce.
    pub open spec fn solves(self, nonce: nat, difficulty: nat) -> bool {
        has_leading_zeros(self.digest_at(nonce), difficulty)
    }

    /// Whether `nonce` is the first nonce at or after `start` with which the
    /// block meets `difficulty`.
    pub open spec fn first_solution_from(self, start: nat, nonce: nat, difficulty: nat) -> bool {
        &&& start <= nonce <= u64::MAX
        &&& self.solves(nonce, difficulty)
        &&& forall|m: nat| start <= m < nonce ==> !self.solves(m, difficulty)
    }

    /// Whether some nonce at or after `start` that a block can hold meets
    /// `difficulty`.
    pub open spec fn has_solution_from(self, start: nat, difficulty: nat) -> bool {
        exists|n: nat| start <= n <= u64::MAX && self.solves(n, difficulty)
    }

    /// Whether the block is what mining from nonce zero leaves: its hash is
    /// that of its contents, and either its nonce is the first one, zero
    /// included, that meets `difficulty`, or no nonce does and the block
    /// holds the last one tried.
    pub open spec fn mined_from_zero(self, difficulty: nat) -> bool {
        &&& self.self_verifies()
        &&& if self.has_solution_from(0, difficulty) {
            self.first_solution_from(0, self.nonce, difficulty)
        } else {
            self.nonce == u64::MAX
        }
    }
}

/// The hash of a block is a function of its timestamp, transactions,
/// previous hash and nonce: two blocks that agree on the four have the same
/// hash, whatever their stored hashes are.
pub proof fn lemma_digest_is_deterministic(a: BlockView, b: BlockView)
    requires
        a.timestamp == b.timestamp,
        a.transactions == b.transactions,
        a.previous_hash == b.previous_hash,
        a.nonce == b.nonce,
    ensures
        a.digest() == b.digest(),
{
}

/// The search for a nonce reads neither the stored hash nor the stored nonce:
/// two blocks that agree on timestamp, transactions and previous hash have
/// the same solutions.
pub proof fn lemma_search_ignores_hash_and_nonce(
    a: BlockView,
    b: BlockView,
    start: nat,
    difficulty: nat,
)
    requires
        a.timestamp == b.timestamp,
        a.transactions == b.transactions,
        a.previous_hash == b.previous_hash,
    ensures
        forall|n: nat| a.digest_at(n) == b.digest_at(n),
        forall|n: nat| a.solves(n, difficulty) == b.solves(n, difficulty),
        forall|n: nat|
            a.first_solution_from(start, n, difficulty) == b.first_solution_from(
                start,
                n,
                difficulty,
            ),
        a.has_solution_from(start, difficulty) == b.has_solution_from(start, difficulty),
{
    assert forall|n: nat| a.solves(n, difficulty) == b.solves(n, difficulty) by {
        assert(a.digest_at(n) == b.digest_at(n));
    }
}

/// A block mined from nonce zero meets the difficulty exactly when some
/// nonce does.
pub proof fn lemma_mined_block_meets_difficulty(block: BlockView, difficulty: nat)
    requires
        block.mined_from_zero(difficulty),
    ensures
        has_leading_zeros(block.hash, difficulty) == block.has_solution_from(0, difficulty),
{
    if has_leading_zeros(block.hash, difficulty) {
        assert(block.solves(block.nonce, difficulty));
    }
}

/// With difficulty zero every hash qualifies: a block mined from nonce zero
/// keeps nonce zero, and its hash is the plain digest of its contents.
pub proof fn lemma_zero_difficulty_keeps_nonce_zero(block: BlockView)
    requires
        block.mined_from_zero(0),
    ensures
        block.nonce == 0,
        block.hash == block.digest_at(0),
{
    assert(block.solves(0, 0));
}

impl Block {
    /// Makes a block stamped with the current time and mines it from nonce
    /// zero. With difficulty zero no work is asked: the block keeps nonce
    /// zero and takes the plain digest of its contents as its hash.
    ///
    /// The search can end without a hit only after every nonce has been
    /// tried; `meets_difficulty` tells whether it found one.
    pub fn new(
        transactions: Vec<Transaction>,
        previous_hash: String,
        difficulty: usize,
    ) -> (block: Self)
        ensures
            block.transactions == transactions,
            block.previous_hash == previous_hash,
            block@.mined_from_zero(difficulty as nat),
            block.hash@.len() == HASH_LENGTH,
            difficulty == 0 ==> block.nonce == 0,
    {
        let timestamp: i64 = unix_time_now();
        Block::with_timestamp(timestamp, transactions, previous_hash, difficulty)
    }

    /// Makes a block with the given timestamp and mines it from nonce zero.
    pub fn with_timestamp(
        timestamp: i64,
        transactions: Vec<Transaction>,
        previous_hash: String,
        difficulty: usize,
    ) -> (block: Self)
        ensures
            block.timestamp == timestamp,
            block.transactions == transactions,
            block.previous_hash == previous_hash,
            block@.mined_from_zero(difficulty as nat),
            block.hash@.len() == HASH_LENGTH,
            difficulty == 0 ==> block.nonce == 0,
    {
        let mut block = Block { timestamp, transactions, previous_hash, hash: String::new(), nonce: 0 };
        let ghost start = block@;
        block.mine_block(difficulty);
        proof {
            lemma_search_ignores_hash_and_nonce(start, block@, 0, difficulty as nat);
            if difficulty == 0 {
                lemma_zero_difficulty_keeps_nonce_zero(block@);
            }
        }
        block
    }

    /// Computes the hash of the block's contents: timestamp, transactions,
    /// previous hash and nonce. The stored hash is neither read nor changed.
    pub fn calculate_hash(&self) -> (hash: String)
        ensures
            hash@ == self@.digest(),
            hash@.len() == HASH_LENGTH,
    {
        let text = preimage_text(
            self.timestamp,
            &self.transactions,
            self.previous_hash.as_str(),
            self.nonce,
        );
        digest_text(text.as_str())
    }

    /// Tests whether the stored hash begins with `difficulty` zeros.
    pub fn meets_difficulty(&self, difficulty: usize) -> (met: bool)
        ensures
            met == has_leading_zeros(self.hash@, difficulty as nat),
    {
        starts_with_zeros(self.hash.as_str(), difficulty)
    }

    /// Searches for a nonce with which the block's hash begins with
    /// `difficulty` zeros. The search begins at the block's own nonce: it
    /// hashes the block as it stands, and while the hash does not qualify it
    /// increments the nonce and hashes again. No nonce is skipped, and a
    /// block that already qualifies keeps its nonce.
    ///
    /// Returns whether a nonce was found. The search gives up only when the
    /// largest nonce a block can hold has been tried. Whatever the outcome,
    /// the stored hash is the hash of the contents on return.
    ///
    /// Each unit of difficulty makes the search sixteen times as long on
    /// average, and a difficulty above the length of a hash is never met: the
    /// search then runs through every nonce. Choosing a difficulty that can be
    /// afforded is left to the caller.
    pub fn mine_block(&mut self, difficulty: usize) -> (mined: bool)
        ensures
            final(self).timestamp == old(self).timestamp,
            final(self).transactions == old(self).transactions,
            final(self).previous_hash == old(self).previous_hash,
            mined == old(self)@.has_solution_from(old(self).nonce as nat, difficulty as nat),
            mined ==> old(self)@.first_solution_from(
                old(self).nonce as nat,
                final(self).nonce as nat,
                difficulty as nat,
            ),
            mined ==> has_leading_zeros(final(self).hash@, difficulty as nat),
            mined ==> difficulty <= HASH_LENGTH,
            !mined ==> final(self).nonce == u64::MAX,
            old(self)@.solves(old(self).nonce as nat, difficulty as nat) ==> mined,
            old(self)@.solves(old(self).nonce as nat, difficulty as nat) ==> final(self).nonce
                == old(self).nonce,
            final(self)@.self_verifies(),
            final(self).hash@.len() == HASH_LENGTH,
    {
        let ghost start = self@;
        loop
            invariant
                self.timestamp == old(self).timestamp,
                self.transactions == old(self).transactions,
                self.previous_hash == old(self).previous_hash,
                start == old(self)@,
                start.nonce <= self.nonce,
                forall|m: nat| start.nonce <= m < self.nonce ==> !start.solves(m, difficulty as nat),
            decreases u64::MAX - self.nonce,
        {
            self.hash = self.calculate_hash();
            if self.meets_difficulty(difficulty) {
                assert(start.solves(self.nonce as nat, difficulty as nat));
                return true;
            }
            assert(!start.solves(self.nonce as nat, difficulty as nat));
            if self.nonce == u64::MAX {
                return false;
            }
            self.nonce += 1;
        }
    }
}

} // verus!
