//! The chain of blocks, the transactions waiting for the next block, the
//! known neighbour nodes, and proof-of-work mining.
use crate::block::{Block, BlockView, block_json};
use crate::order::Order;
use crate::hasher::{base64_standard, digest_text, hash_bytes, hash_string, is_hash_text, sha256};
use crate::sorted_set::{Ordered, SortedSet, insertion_point, lemma_insert_idempotent, lemma_sorted_insert_at, lemma_sorted_insert_contains, sorted_by, sorted_insert};
use crate::text::{concat, decimal_text, push_decimal_text};
use crate::transaction::{Transaction, TxnView};
use vstd::prelude::*;
use vstd::string::{StrSliceExecFns, StringExecFns};
use vstd::utf8::encode_utf8;

verus! {

/// A chain: blocks in ascending order, each at most once.
pub type Chain = SortedSet<Block>;

/// Trusted: `chrono::Utc::now().timestamp()` reads the clock (seconds since
/// the Unix epoch). Nothing is stated of the value: it depends on the time.
#[verifier::external_body]
fn now_timestamp() -> i64 {
    chrono::Utc::now().timestamp()
}

/// A node's blockchain.
pub struct Blockchain {
    chain: Chain,
    current_transactions: SortedSet<Transaction>,
    nodes: SortedSet<String>,
    difficulty: u64,
}

/// What a blockchain holds, as plain values.
pub struct BlockchainView {
    pub chain: Seq<BlockView>,
    pub current_transactions: Seq<TxnView>,
    pub nodes: Seq<Seq<char>>,
    pub difficulty: u64,
}

impl View for Blockchain {
    type V = BlockchainView;

    closed spec fn view(&self) -> BlockchainView {
        BlockchainView {
            chain: self.chain@,
            current_transactions: self.current_transactions@,
            nodes: self.nodes@,
            difficulty: self.difficulty,
        }
    }
}

/// The hash of a block: the digest text of its JSON.
pub open spec fn block_hash(b: BlockView) -> Seq<char> {
    digest_text(block_json(b))
}

/// What a proof is checked over: the last proof and the candidate in
/// decimal, then the hash of the last block.
pub open spec fn proof_guess(last_proof: u64, proof: u64, previous_hash: Seq<char>) -> Seq<char> {
    decimal_text(last_proof as nat) + decimal_text(proof as nat) + previous_hash
}

/// `s` starts with `n` zeros.
pub open spec fn has_zero_prefix(s: Seq<char>, n: nat) -> bool {
    n <= s.len() && forall|i: int| 0 <= i < n ==> s[i] == '0'
}

/// A proof is valid when the hash of its guess starts with `difficulty` zeros.
pub open spec fn is_valid_proof(
    last_proof: u64,
    proof: u64,
    difficulty: u64,
    previous_hash: Seq<char>,
) -> bool {
    has_zero_prefix(
        digest_text(encode_utf8(proof_guess(last_proof, proof, previous_hash))),
        difficulty as nat,
    )
}

/// `proof` is the least valid proof.
pub open spec fn is_least_proof(
    proof: u64,
    last_proof: u64,
    difficulty: u64,
    previous_hash: Seq<char>,
) -> bool {
    &&& is_valid_proof(last_proof, proof, difficulty, previous_hash)
    &&& forall|q: u64| q < proof ==> !is_valid_proof(last_proof, q, difficulty, previous_hash)
}

/// No `u64` is a valid proof.
pub open spec fn no_valid_proof(last_proof: u64, difficulty: u64, previous_hash: Seq<char>) -> bool {
    forall|q: u64| !is_valid_proof(last_proof, q, difficulty, previous_hash)
}

/// `cur` follows `prev`: it records `prev`'s hash, and its proof is valid
/// against `prev`'s proof and hash.
pub open spec fn links(prev: BlockView, cur: BlockView, difficulty: u64) -> bool {
    &&& cur.previous_hash == block_hash(prev)
    &&& is_valid_proof(prev.proof, cur.proof, difficulty, block_hash(prev))
}

/// Every block follows the one before it.
pub open spec fn is_valid_chain(chain: Seq<BlockView>, difficulty: u64) -> bool {
    forall|i: int| 1 <= i < chain.len() ==> #[trigger] links(chain[i - 1], chain[i], difficulty)
}

/// A block as forged from its parts.
pub open spec fn forged(
    index: nat,
    timestamp: i64,
    proof: u64,
    previous_hash: Seq<char>,
    transactions: Seq<TxnView>,
) -> BlockView {
    BlockView { index: index as usize, timestamp, proof, previous_hash, transactions }
}

/// The previous hash recorded in the first block.
pub open spec fn genesis_hash() -> Seq<char> {
    "Genesis block."@
}

/// The proof recorded in the first block.
pub open spec fn genesis_proof() -> u64 {
    100
}

/// The coin a miner gives itself: sender "0", amount 1.
pub open spec fn reward() -> TxnView {
    TxnView { sender: "0"@, recipient: "my node address"@, amount: 1 }
}

/// The error given when no proof of work exists.
pub open spec fn no_proof_message() -> Seq<char> {
    "no proof of work exists within u64"@
}

/// Mining fails: no `u64` is a valid proof against the last block.
pub open spec fn mining_fails(old: BlockchainView) -> bool {
    no_valid_proof(old.chain.last().proof, old.difficulty, block_hash(old.chain.last()))
}

/// `new` is `old` after a block was mined: the least valid proof `p` was
/// found, the miner's reward joined the waiting transactions, and a block of
/// them, on the last block's hash, went into the chain at some time `t`; no
/// transaction waits any more.
pub open spec fn mined_from(old: BlockchainView, new: BlockchainView) -> bool {
    &&& exists|p: u64, t: i64|
        {
            &&& is_least_proof(
                p,
                old.chain.last().proof,
                old.difficulty,
                block_hash(old.chain.last()),
            )
            &&& new.chain == sorted_insert(
                old.chain,
                #[trigger] forged(
                    old.chain.len() + 1,
                    t,
                    p,
                    block_hash(old.chain.last()),
                    sorted_insert(old.current_transactions, reward(), Transaction::order()),
                ),
                Block::order(),
            )
        }
    &&& new.current_transactions == Seq::<TxnView>::empty()
    &&& new.nodes == old.nodes
    &&& new.difficulty == old.difficulty
}

/// Blocks carry their positions: the block at position `i` (from 0) has
/// index `i + 1`.
pub open spec fn well_indexed(chain: Seq<BlockView>) -> bool {
    forall|i: int| 0 <= i < chain.len() ==> #[trigger] chain[i].index == i + 1
}

/// On a chain whose blocks carry their positions, the next block forged
/// (index one past the length) goes at the end, and the chain still carries
/// its positions.
pub proof fn lemma_forged_block_appends(chain: Seq<BlockView>, b: BlockView)
    requires
        well_indexed(chain),
        b.index == chain.len() + 1,
    ensures
        sorted_insert(chain, b, Block::order()) == chain.push(b),
        well_indexed(chain.push(b)),
{
    Block::lemma_order_total();
    assert forall|k: int| 0 <= k < chain.len() implies #[trigger] (Block::order())(chain[k], b)
        == Order::Less by {
        assert(chain[k].index == k + 1);
    }
    assert(insertion_point(chain, b, chain.len() as int, Block::order()));
    lemma_sorted_insert_at(chain, b, chain.len() as int, Block::order());
    assert(chain.insert(chain.len() as int, b) =~= chain.push(b));
    let c = chain.push(b);
    assert forall|i: int| 0 <= i < c.len() implies #[trigger] c[i].index == i + 1 by {
        if i < chain.len() {
            assert(c[i] == chain[i]);
        }
    }
}

/// Mining keeps a valid chain valid: on a chain whose blocks carry their
/// positions, the mined block goes at the end, records the hash of the block
/// before it and carries a valid proof against it, and holds the miner's
/// reward.
pub proof fn lemma_mining_extends_valid_chain(old: BlockchainView, new: BlockchainView)
    requires
        mined_from(old, new),
        old.chain.len() > 0,
        old.chain.len() < usize::MAX,
        well_indexed(old.chain),
        is_valid_chain(old.chain, old.difficulty),
    ensures
        new.chain.len() == old.chain.len() + 1,
        new.chain.drop_last() == old.chain,
        well_indexed(new.chain),
        is_valid_chain(new.chain, new.difficulty),
        new.chain.last().transactions.contains(reward()),
{
    let h = block_hash(old.chain.last());
    let txns = sorted_insert(old.current_transactions, reward(), Transaction::order());
    let (p, t) = choose|p: u64, t: i64|
        {
            &&& is_least_proof(p, old.chain.last().proof, old.difficulty, h)
            &&& new.chain == sorted_insert(
                old.chain,
                #[trigger] forged(old.chain.len() + 1, t, p, h, txns),
                Block::order(),
            )
        };
    let nb = forged(old.chain.len() + 1, t, p, h, txns);
    lemma_forged_block_appends(old.chain, nb);
    assert(new.chain.drop_last() =~= old.chain);
    assert forall|i: int| 1 <= i < new.chain.len() implies #[trigger] links(
        new.chain[i - 1],
        new.chain[i],
        new.difficulty,
    ) by {
        if i < old.chain.len() {
            assert(links(old.chain[i - 1], old.chain[i], old.difficulty));
        } else {
            assert(new.chain[i - 1] == old.chain.last());
            assert(new.chain[i] == nb);
        }
    }
    Transaction::lemma_order_total();
    lemma_sorted_insert_contains(old.current_transactions, reward(), Transaction::order());
}

/// A proof is valid exactly when the base64 SHA-256 of the UTF-8 text of the
/// last proof in decimal, then the candidate in decimal, then the previous
/// hash, starts with `difficulty` zeros.
pub proof fn lemma_valid_proof_hashes_guess(
    last_proof: u64,
    proof: u64,
    difficulty: u64,
    previous_hash: Seq<char>,
)
    ensures
        is_valid_proof(last_proof, proof, difficulty, previous_hash) <==> {
            let s = base64_standard(
                sha256(
                    encode_utf8(
                        decimal_text(last_proof as nat) + decimal_text(proof as nat) + previous_hash,
                    ),
                ),
            );
            &&& difficulty <= s.len()
            &&& forall|k: int| 0 <= k < difficulty ==> s[k] == '0'
        },
{
}

/// A chain is valid exactly when each block after the first records the
/// base64 SHA-256 of the JSON of the block before it, and carries a proof
/// valid against that block's proof and hash. A chain where some block
/// records another previous hash is rejected.
pub proof fn lemma_valid_chain_links(chain: Seq<BlockView>, difficulty: u64)
    ensures
        is_valid_chain(chain, difficulty) <==> forall|i: int|
            1 <= i < chain.len() ==> {
                let h = base64_standard(sha256(block_json(#[trigger] chain[i - 1])));
                &&& chain[i].previous_hash == h
                &&& is_valid_proof(chain[i - 1].proof, chain[i].proof, difficulty, h)
            },
{
    if is_valid_chain(chain, difficulty) {
        assert forall|i: int| 1 <= i < chain.len() implies {
            let h = base64_standard(sha256(block_json(#[trigger] chain[i - 1])));
            &&& chain[i].previous_hash == h
            &&& is_valid_proof(chain[i - 1].proof, chain[i].proof, difficulty, h)
        } by {
            assert(links(chain[i - 1], chain[i], difficulty));
        }
    }
    if forall|i: int|
        1 <= i < chain.len() ==> {
            let h = base64_standard(sha256(block_json(#[trigger] chain[i - 1])));
            &&& chain[i].previous_hash == h
            &&& is_valid_proof(chain[i - 1].proof, chain[i].proof, difficulty, h)
        } {
        assert forall|i: int| 1 <= i < chain.len() implies #[trigger] links(
            chain[i - 1],
            chain[i],
            difficulty,
        ) by {
            let _ = chain[i - 1];
        }
    }
}

/// Adding a transaction twice leaves the same waiting transactions as adding
/// it once: an equal transaction is stored once.
pub proof fn lemma_transaction_added_once(pending: Seq<TxnView>, t: TxnView)
    requires
        sorted_by(pending, Transaction::order()),
    ensures
        sorted_insert(sorted_insert(pending, t, Transaction::order()), t, Transaction::order())
            == sorted_insert(pending, t, Transaction::order()),
        sorted_insert(pending, t, Transaction::order()).contains(t),
{
    Transaction::lemma_order_total();
    lemma_insert_idempotent(pending, t, Transaction::order());
    lemma_sorted_insert_contains(pending, t, Transaction::order());
}

impl Blockchain {
    /// A blockchain of difficulty 3, holding its genesis block.
    pub fn new() -> (b: Blockchain)
        ensures
            b@.difficulty == 3,
            well_indexed(b@.chain),
            exists|t: i64|
                b@.chain == seq![#[trigger] forged(1, t, genesis_proof(), genesis_hash(), Seq::empty())],
            b@.current_transactions == Seq::<TxnView>::empty(),
            b@.nodes == Seq::<Seq<char>>::empty(),
    {
        Self::new_with(3)
    }

    /// A blockchain whose proofs need `difficulty` leading zeros, holding its
    /// genesis block.
    pub fn new_with(difficulty: u64) -> (b: Blockchain)
        ensures
            b@.difficulty == difficulty,
            well_indexed(b@.chain),
            exists|t: i64|
                b@.chain == seq![#[trigger] forged(1, t, genesis_proof(), genesis_hash(), Seq::empty())],
            b@.current_transactions == Seq::<TxnView>::empty(),
            b@.nodes == Seq::<Seq<char>>::empty(),
    {
        let mut blockchain = Blockchain {
            chain: SortedSet::new(),
            current_transactions: SortedSet::new(),
            nodes: SortedSet::new(),
            difficulty: difficulty,
        };
        let genesis = "Genesis block.".to_owned();
        let ghost g = genesis@;
        blockchain.new_block(100, genesis);
        proof {
            let t = choose|t: i64|
                blockchain@.chain == sorted_insert(
                    Seq::empty(),
                    #[trigger] forged(0 + 1, t, 100, g, Seq::empty()),
                    Block::order(),
                );
            assert(blockchain@.chain == seq![forged(1, t, genesis_proof(), genesis_hash(), Seq::empty())]);
        }
        blockchain
    }

    /// Adds a transaction to those waiting for the next block (once: an equal
    /// one already waiting is kept as it is). Returns the index of the block
    /// it will go into.
    pub fn new_transaction(&mut self, transaction: Transaction) -> (index: usize)
        requires
            old(self)@.chain.len() > 0,
            old(self)@.chain.last().index < usize::MAX,
        ensures
            final(self)@.current_transactions == sorted_insert(
                old(self)@.current_transactions,
                transaction@,
                Transaction::order(),
            ),
            final(self)@.chain == old(self)@.chain,
            final(self)@.nodes == old(self)@.nodes,
            final(self)@.difficulty == old(self)@.difficulty,
            old(self)@.current_transactions.contains(transaction@) ==> final(self)@
                == old(self)@,
            final(self)@.current_transactions.contains(transaction@),
            index == old(self)@.chain.last().index + 1,
    {
        self.current_transactions.insert(transaction);
        self.last_block().index + 1
    }

    /// Mines a block: finds the least valid proof against the last block,
    /// pays the miner, and forges a block of the waiting transactions on the
    /// last block's hash. Fails, changing nothing, when no `u64` is a valid
    /// proof.
    pub fn mine(&mut self) -> (r: Result<&Block, String>)
        requires
            old(self)@.chain.len() > 0,
            old(self)@.chain.len() < usize::MAX,
            old(self)@.chain.last().index < usize::MAX,
        ensures
            r is Err <==> mining_fails(old(self)@),
            r matches Err(e) ==> e@ == no_proof_message(),
            r is Err ==> final(self)@ == old(self)@,
            r is Ok ==> mined_from(old(self)@, final(self)@),
            r matches Ok(b) ==> final(self)@.chain.len() > 0 && b@ == final(self)@.chain.last(),
            r is Ok && well_indexed(old(self)@.chain) && is_valid_chain(
                old(self)@.chain,
                old(self)@.difficulty,
            ) ==> {
                &&& final(self)@.chain.len() == old(self)@.chain.len() + 1
                &&& final(self)@.chain.drop_last() == old(self)@.chain
                &&& well_indexed(final(self)@.chain)
                &&& is_valid_chain(final(self)@.chain, final(self)@.difficulty)
                &&& final(self)@.chain.last().transactions.contains(reward())
            },
    {
        let new_block_proof = match self.proof_of_work() {
            Ok(p) => p,
            Err(e) => {
                return Err(e);
            },
        };
        self.new_transaction(Transaction::new("0".to_owned(), "my node address".to_owned(), 1));
        let previous_hash = match self.hash_last_block() {
            Ok(h) => h,
            Err(e) => {
                return Err(e);
            },
        };
        let ghost mid = self@;
        let ghost h = previous_hash@;
        self.new_block(new_block_proof, previous_hash);
        proof {
            let t = choose|t: i64|
                self@.chain == sorted_insert(
                    mid.chain,
                    #[trigger] forged(mid.chain.len() + 1, t, new_block_proof, h, mid.current_transactions),
                    Block::order(),
                );
            assert(mid.current_transactions == sorted_insert(old(self)@.current_transactions, reward(), Transaction::order()));
            assert(is_least_proof(
                        new_block_proof,
                        old(self)@.chain.last().proof,
                        old(self)@.difficulty,
                        block_hash(old(self)@.chain.last()),
                    ));
            assert(mined_from(old(self)@, self@));
            if well_indexed(old(self)@.chain) && is_valid_chain(old(self)@.chain, old(self)@.difficulty) {
                lemma_mining_extends_valid_chain(old(self)@, self@);
            }
        }
        Ok(self.last_block())
    }

    /// The chain.
    pub fn chain(&self) -> (r: &Chain)
        ensures
            r@ == self@.chain,
    {
        &self.chain
    }

    /// The chain, taking the blockchain apart.
    pub fn into_chain(self) -> (r: Chain)
        ensures
            r@ == self@.chain,
    {
        self.chain
    }

    /// The transactions waiting for the next block.
    pub fn current_transactions(&self) -> (r: &SortedSet<Transaction>)
        ensures
            r@ == self@.current_transactions,
    {
        &self.current_transactions
    }

    /// Adds a neighbour node, given by its URL text; returns whether it was
    /// new.
    pub fn register_node(&mut self, address: String) -> (added: bool)
        ensures
            final(self)@.nodes == sorted_insert(old(self)@.nodes, address@, String::order()),
            added == !old(self)@.nodes.contains(address@),
            final(self)@.chain == old(self)@.chain,
            final(self)@.current_transactions == old(self)@.current_transactions,
            final(self)@.difficulty == old(self)@.difficulty,
    {
        self.nodes.insert(address)
    }

    /// The neighbour nodes.
    pub fn nodes(&self) -> (r: &SortedSet<String>)
        ensures
            r@ == self@.nodes,
    {
        &self.nodes
    }

    /// Replaces the chain.
    pub fn replace(&mut self, new_chain: Chain)
        ensures
            final(self)@.chain == new_chain@,
            final(self)@.current_transactions == old(self)@.current_transactions,
            final(self)@.nodes == old(self)@.nodes,
            final(self)@.difficulty == old(self)@.difficulty,
    {
        self.chain = new_chain;
    }

    /// The number of blocks.
    pub fn len(&self) -> (n: usize)
        ensures
            n == self@.chain.len(),
    {
        self.chain.len()
    }

    /// Forges the next block at the given time: the next index, the waiting
    /// transactions, which are cleared.
    fn create_block_at(&mut self, proof: u64, previous_hash: String, timestamp: i64) -> (b: Block)
        requires
            old(self)@.chain.len() < usize::MAX,
        ensures
            b@ == #[trigger] forged(
                old(self)@.chain.len() + 1,
                timestamp,
                proof,
                previous_hash@,
                old(self)@.current_transactions,
            ),
            final(self)@.current_transactions == Seq::<TxnView>::empty(),
            final(self)@.chain == old(self)@.chain,
            final(self)@.nodes == old(self)@.nodes,
            final(self)@.difficulty == old(self)@.difficulty,
    {
        let txns = self.current_transactions.take_all();
        Block {
            index: self.chain.len() + 1,
            timestamp: timestamp,
            proof: proof,
            previous_hash: previous_hash,
            transactions: txns,
        }
    }

    /// Forges the next block now.
    fn create_block(&mut self, proof: u64, previous_hash: String) -> (b: Block)
        requires
            old(self)@.chain.len() < usize::MAX,
        ensures
            exists|t: i64|
                b@ == #[trigger] forged(
                    old(self)@.chain.len() + 1,
                    t,
                    proof,
                    previous_hash@,
                    old(self)@.current_transactions,
                ),
            final(self)@.current_transactions == Seq::<TxnView>::empty(),
            final(self)@.chain == old(self)@.chain,
            final(self)@.nodes == old(self)@.nodes,
            final(self)@.difficulty == old(self)@.difficulty,
    {
        let timestamp = now_timestamp();
        self.create_block_at(proof, previous_hash, timestamp)
    }

    /// Forges a block of the waiting transactions and adds it to the chain;
    /// returns the last block of the chain.
    pub fn new_block(&mut self, proof: u64, previous_hash: String) -> (r: &Block)
        requires
            old(self)@.chain.len() < usize::MAX,
        ensures
            exists|t: i64|
                final(self)@.chain == sorted_insert(
                    old(self)@.chain,
                    #[trigger] forged(
                        old(self)@.chain.len() + 1,
                        t,
                        proof,
                        previous_hash@,
                        old(self)@.current_transactions,
                    ),
                    Block::order(),
                ),
            final(self)@.current_transactions == Seq::<TxnView>::empty(),
            final(self)@.nodes == old(self)@.nodes,
            final(self)@.difficulty == old(self)@.difficulty,
            final(self)@.chain.len() > 0,
            r@ == final(self)@.chain.last(),
    {
        let block = self.create_block(proof, previous_hash);
        self.chain.insert(block);
        self.last_block()
    }

    /// The last block of the chain, the greatest in the chain's order.
    pub fn last_block(&self) -> (r: &Block)
        requires
            self@.chain.len() > 0,
        ensures
            r@ == self@.chain.last(),
    {
        let n = self.chain.len();
        self.chain.get(n - 1)
    }

    /// The hash of a block: SHA-256 of its JSON, in base64. Serialising a
    /// block cannot fail, so this is always `Ok`.
    pub fn hash(block: &Block) -> (r: Result<String, String>)
        ensures
            r matches Ok(h) && h@ == block_hash(block@),
    {
        let json = block.to_json();
        Ok(hash_bytes(json.as_slice()))
    }

    /// Finds the least proof whose guess, with the last block's proof and
    /// hash, hashes to `difficulty` leading zeros; fails when no `u64` does.
    pub fn proof_of_work(&self) -> (r: Result<u64, String>)
        requires
            self@.chain.len() > 0,
        ensures
            match r {
                Ok(p) => is_least_proof(
                    p,
                    self@.chain.last().proof,
                    self@.difficulty,
                    block_hash(self@.chain.last()),
                ),
                Err(e) => e@ == no_proof_message() && no_valid_proof(
                    self@.chain.last().proof,
                    self@.difficulty,
                    block_hash(self@.chain.last()),
                ),
            },
    {
        let last_block = self.last_block();
        let last_proof = last_block.proof;
        let previous_hash = match self.hash_last_block() {
            Ok(h) => h,
            Err(e) => {
                return Err(e);
            },
        };
        let ghost h = previous_hash@;
        let d = self.difficulty;
        let mut candidate: u64 = 0;
        while !Self::valid_proof(last_proof, candidate, d, &previous_hash)
            invariant
                h == previous_hash@,
                self@.chain.len() > 0,
                h == block_hash(self@.chain.last()),
                last_proof == self@.chain.last().proof,
                d == self@.difficulty,
                forall|q: u64| q < candidate ==> !is_valid_proof(last_proof, q, d, h),
            decreases u64::MAX - candidate,
        {
            if candidate == u64::MAX {
                assert forall|q: u64| !is_valid_proof(last_proof, q, d, h) by {
                    assert(q < candidate || q == candidate);
                }
                return Err("no proof of work exists within u64".to_owned());
            }
            candidate = candidate + 1;
        }
        Ok(candidate)
    }

    /// Whether `proof` is valid: the hash of the last proof, the proof (both
    /// in decimal) and the previous hash starts with `difficulty` zeros.
    pub fn valid_proof(last_proof: u64, proof: u64, difficulty: u64, previous_hash: &String) -> (r:
        bool)
        ensures
            r == is_valid_proof(last_proof, proof, difficulty, previous_hash@),
    {
        let mut guess = String::new();
        push_decimal_text(&mut guess, last_proof);
        push_decimal_text(&mut guess, proof);
        guess.append(previous_hash.as_str());
        let guess_hash = hash_string(guess.as_str());
        let text = guess_hash.as_str();
        let n = text.unicode_len();
        if difficulty > n as u64 {
            return false;
        }
        let d = difficulty as usize;
        let mut i: usize = 0;
        while i < d
            invariant
                d == difficulty,
                d <= n,
                n == text@.len(),
                text@ == digest_text(encode_utf8(proof_guess(last_proof, proof, previous_hash@))),
                i <= d,
                forall|k: int| 0 <= k < i ==> text@[k] == '0',
            decreases d - i,
        {
            if text.get_char(i) != '0' {
                return false;
            }
            i = i + 1;
        }
        true
    }

    /// The hash of the last block.
    pub fn hash_last_block(&self) -> (r: Result<String, String>)
        requires
            self@.chain.len() > 0,
        ensures
            r matches Ok(h) && h@ == block_hash(self@.chain.last()),
    {
        let last_block = self.last_block();
        Self::hash(last_block)
    }

    /// Whether each block of `chain` records the hash of the block before it
    /// and has a valid proof against it, at this blockchain's difficulty.
    pub fn valid_chain(&self, chain: &Chain) -> (r: bool)
        ensures
            r == is_valid_chain(chain@, self@.difficulty),
    {
        let n = chain.len();
        let mut i: usize = 1;
        while i < n
            invariant
                n == chain@.len(),
                1 <= i,
                forall|k: int| 1 <= k < i && k < n ==> #[trigger] links(
                    chain@[k - 1],
                    chain@[k],
                    self@.difficulty,
                ),
            decreases n - i,
        {
            let previous_block = chain.get(i - 1);
            let block = chain.get(i);
            if !Self::check_hash(previous_block, block) || !Self::check_proof(
                previous_block,
                block,
                self.difficulty,
            ) {
                assert(!links(chain@[i - 1], chain@[i as int], self@.difficulty));
                return false;
            }
            i = i + 1;
        }
        true
    }

    /// Whether `current_block` records the hash of `previous_block`.
    fn check_hash(previous_block: &Block, current_block: &Block) -> (r: bool)
        ensures
            r == (current_block@.previous_hash == block_hash(previous_block@)),
    {
        let previous_block_hash = match Self::hash(previous_block) {
            Ok(h) => h,
            Err(e) => concat("hash failure: ", e.as_str()),
        };
        current_block.previous_hash == previous_block_hash
    }

    /// Whether `current_block`'s proof is valid against `previous_block`.
    fn check_proof(previous_block: &Block, current_block: &Block, difficulty: u64) -> (r: bool)
        ensures
            r == is_valid_proof(
                previous_block@.proof,
                current_block@.proof,
                difficulty,
                block_hash(previous_block@),
            ),
    {
        let previous_hash = match Self::hash(previous_block) {
            Ok(h) => h,
            Err(e) => concat("hash failure: ", e.as_str()),
        };
        Self::valid_proof(previous_block.proof, current_block.proof, difficulty, &previous_hash)
    }
}

} // verus!
