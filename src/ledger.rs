//! The ledger: the chain of blocks, the pending pool and the balance table.
use vstd::prelude::*;
use crate::block::{Block, BlockView, block_hash, mining_outcome, new_block, with_nonce};
use crate::text::{decimal, push_decimal, push_text};
use crate::transaction::{Transaction, TxView, duplicate_all, tx_views};

verus! {

/// The difficulty a new ledger starts with.
pub const INITIAL_DIFFICULTY: u32 = 2;

/// The difficulty never rises above this.
pub const MAX_DIFFICULTY: u32 = 6;

/// The amount each mined block pays to its miner.
pub const MINING_REWARD: u64 = 100;

/// The reserved sender of reward transactions, never debited.
pub open spec fn system_address() -> Seq<char> {
    "system"@
}

/// `x` held to the range of `i64`.
pub open spec fn saturate(x: int) -> int {
    if x < i64::MIN {
        i64::MIN as int
    } else if x > i64::MAX {
        i64::MAX as int
    } else {
        x
    }
}

/// The balance of `a`: zero for an address never seen.
pub open spec fn balance_in(m: Map<Seq<char>, int>, a: Seq<char>) -> int {
    if m.contains_key(a) {
        m[a]
    } else {
        0
    }
}

/// Balances after one transaction: the sender debited unless it is the
/// system address, then the recipient credited.
pub open spec fn apply_tx(m: Map<Seq<char>, int>, t: TxView) -> Map<Seq<char>, int> {
    let m1 = if t.from == system_address() {
        m
    } else {
        m.insert(t.from, saturate(balance_in(m, t.from) - t.amount))
    };
    m1.insert(t.to, saturate(balance_in(m1, t.to) + t.amount))
}

/// Balances after a list of transactions, applied in order.
pub open spec fn apply_txs(m: Map<Seq<char>, int>, ts: Seq<TxView>) -> Map<Seq<char>, int>
    decreases ts.len(),
{
    if ts.len() == 0 {
        m
    } else {
        apply_tx(apply_txs(m, ts.drop_last()), ts.last())
    }
}

/// The transactions of every block of `c`, block by block, in order.
pub open spec fn chain_txs(c: Seq<BlockView>) -> Seq<TxView>
    decreases c.len(),
{
    if c.len() == 0 {
        Seq::empty()
    } else {
        chain_txs(c.drop_last()) + c.last().transactions
    }
}

/// Applying two lists one after the other is applying their concatenation.
pub proof fn lemma_apply_txs_concat(m: Map<Seq<char>, int>, a: Seq<TxView>, b: Seq<TxView>)
    ensures
        apply_txs(m, a + b) == apply_txs(apply_txs(m, a), b),
    decreases b.len(),
{
    if b.len() == 0 {
        assert(a + b =~= a);
    } else {
        lemma_apply_txs_concat(m, a, b.drop_last());
        assert((a + b).drop_last() =~= a + b.drop_last());
        assert((a + b).last() == b.last());
    }
}

/// Every block after the first carries its own recomputed hash and the
/// stored hash of the block before it.
pub open spec fn chain_valid(c: Seq<BlockView>) -> bool {
    forall|i: int|
        1 <= i < c.len() ==> {
            &&& (#[trigger] c[i]).hash == block_hash(c[i])
            &&& c[i].previous_hash == c[i - 1].hash
        }
}

/// The difficulty after an adjustment at chain length `len`: one more at
/// every non-zero multiple of ten, up to the maximum.
pub open spec fn next_difficulty(len: nat, d: nat) -> nat {
    if len % 10 == 0 && len > 0 {
        if d < MAX_DIFFICULTY {
            d + 1
        } else {
            MAX_DIFFICULTY as nat
        }
    } else {
        d
    }
}

/// The reward transaction a mining round adds for `address`.
pub open spec fn reward_tx(address: Seq<char>, amount: nat, timestamp: nat) -> TxView {
    TxView { from: system_address(), to: address, amount, timestamp, signature: Seq::empty() }
}

/// Whether the pool accepts `t` given the confirmed balances `m`.
pub open spec fn accepts(m: Map<Seq<char>, int>, t: TxView) -> bool {
    t.from == system_address() || balance_in(m, t.from) >= t.amount
}

/// The genesis block created at `timestamp`.
pub open spec fn genesis(timestamp: nat) -> BlockView {
    new_block(0, Seq::empty(), "0"@, timestamp)
}

pub open spec fn bool_text(b: bool) -> Seq<char> {
    if b {
        "true"@
    } else {
        "false"@
    }
}

/// The statistics summary as a JSON object, keys in sorted order.
pub open spec fn stats_json(blocks: nat, difficulty: nat, pending: nat, addresses: nat, valid: bool) -> Seq<char> {
    "{\"blocks\":"@ + decimal(blocks) + ",\"difficulty\":"@ + decimal(difficulty) + ",\"is_valid\":"@
        + bool_text(valid) + ",\"pending_transactions\":"@ + decimal(pending)
        + ",\"total_addresses\":"@ + decimal(addresses) + "}"@
}

pub struct LedgerView {
    pub chain: Seq<BlockView>,
    pub difficulty: nat,
    pub pending: Seq<TxView>,
    pub mining_reward: nat,
    pub balances: Map<Seq<char>, int>,
}

struct Account {
    address: String,
    balance: i64,
}

pub struct NativeBlockchain {
    chain: Vec<Block>,
    difficulty: u32,
    pending_transactions: Vec<Transaction>,
    mining_reward: u64,
    accounts: Vec<Account>,
    balances: Ghost<Map<Seq<char>, int>>,
}

impl View for NativeBlockchain {
    type V = LedgerView;

    closed spec fn view(&self) -> LedgerView {
        LedgerView {
            chain: self.chain@.map_values(|b: Block| b@),
            difficulty: self.difficulty as nat,
            pending: tx_views(self.pending_transactions@),
            mining_reward: self.mining_reward as nat,
            balances: self.balances@,
        }
    }
}

/// `x` held to the range of `i64`.
fn saturated(x: i128) -> (r: i64)
    ensures
        r == saturate(x as int),
{
    if x < (i64::MIN as i128) {
        i64::MIN
    } else if x > (i64::MAX as i128) {
        i64::MAX
    } else {
        x as i64
    }
}

impl NativeBlockchain {
    closed spec fn accounts_match(&self) -> bool {
        let accs = self.accounts@;
        let m = self.balances@;
        &&& forall|i: int, j: int|
            0 <= i < accs.len() && 0 <= j < accs.len() && i != j ==> (#[trigger] accs[i]).address@
                != (#[trigger] accs[j]).address@
        &&& forall|i: int|
            0 <= i < accs.len() ==> m.contains_key((#[trigger] accs[i]).address@) && m[accs[i].address@]
                == accs[i].balance as int
        &&& forall|k: Seq<char>|
            m.contains_key(k) ==> exists|i: int| 0 <= i < accs.len() && (#[trigger] accs[i]).address@ == k
        &&& m.dom().finite()
        &&& m.dom().len() == accs.len()
    }

    /// A non-empty chain whose block indices are their positions and which
    /// is valid, and a balance table that the stored accounts describe one
    /// for one.
    closed spec fn tables_ok(&self) -> bool {
        &&& self.chain@.len() >= 1
        &&& forall|i: int| 0 <= i < self.chain@.len() ==> (#[trigger] self.chain@[i])@.index == i
        &&& chain_valid(self@.chain)
        &&& self.accounts_match()
    }

    /// The ledger's invariant: the above, and balances that are exactly the
    /// transactions of the mined blocks applied in order to an empty table.
    pub closed spec fn inv(&self) -> bool {
        &&& self.tables_ok()
        &&& self@.balances == apply_txs(Map::empty(), chain_txs(self@.chain))
    }

    /// Every ledger that the public operations produce is valid: the
    /// invariant that construction establishes and every mutation keeps
    /// includes it, and each block's index is its position.
    pub proof fn lemma_ledger_valid(&self)
        requires
            self.inv(),
        ensures
            chain_valid(self@.chain),
            self@.chain.len() >= 1,
            forall|i: int| 0 <= i < self@.chain.len() ==> (#[trigger] self@.chain[i]).index == i,
            self@.balances == apply_txs(Map::empty(), chain_txs(self@.chain)),
    {
        assert forall|i: int| 0 <= i < self@.chain.len() implies (#[trigger] self@.chain[i]).index == i by {
            assert(self@.chain[i] == self.chain@[i]@);
        }
    }

    /// A ledger holding only a genesis block created at `now`, at the initial
    /// difficulty, with no pending transactions and no balances.
    pub fn new(now: u64) -> (r: NativeBlockchain)
        ensures
            r.inv(),
            r@ == (LedgerView {
                chain: seq![genesis(now as nat)],
                difficulty: INITIAL_DIFFICULTY as nat,
                pending: Seq::empty(),
                mining_reward: MINING_REWARD as nat,
                balances: Map::empty(),
            }),
    {
        let mut blockchain = NativeBlockchain {
            chain: Vec::new(),
            difficulty: INITIAL_DIFFICULTY,
            pending_transactions: Vec::new(),
            mining_reward: MINING_REWARD,
            accounts: Vec::new(),
            balances: Ghost(Map::empty()),
        };
        blockchain.create_genesis_block(now);
        assert(blockchain@.chain =~= seq![genesis(now as nat)]);
        assert(blockchain@.pending =~= Seq::<TxView>::empty());
        assert(blockchain.balances@.dom() =~= Set::<Seq<char>>::empty());
        assert(blockchain@.chain.drop_last() =~= Seq::<BlockView>::empty());
        assert(blockchain@.chain.last() == genesis(now as nat));
        assert(genesis(now as nat).transactions == Seq::<TxView>::empty());
        assert(chain_txs(Seq::<BlockView>::empty()) == Seq::<TxView>::empty());
        assert(chain_txs(blockchain@.chain) =~= Seq::<TxView>::empty());
        assert(blockchain@.balances == apply_txs(Map::empty(), chain_txs(blockchain@.chain)));
        blockchain
    }

    fn create_genesis_block(&mut self, now: u64)
        requires
            old(self).chain@.len() == 0,
        ensures
            final(self).chain@.len() == 1,
            final(self).chain@[0]@ == genesis(now as nat),
            final(self).difficulty == old(self).difficulty,
            final(self).pending_transactions == old(self).pending_transactions,
            final(self).mining_reward == old(self).mining_reward,
            final(self).accounts == old(self).accounts,
            final(self).balances == old(self).balances,
    {
        let genesis_block = Block::new(0, Vec::new(), String::from_str("0"), now);
        assert(tx_views(Seq::<Transaction>::empty()) =~= Seq::<TxView>::empty());
        self.chain.push(genesis_block);
    }

    /// The last block of the chain.
    pub fn get_latest_block(&self) -> (r: Option<Block>)
        requires
            self.inv(),
        ensures
            r is Some,
            r->Some_0@ == self@.chain.last(),
    {
        let n = self.chain.len();
        Some(self.chain[n - 1].duplicate())
    }

    fn find_account(&self, address: &str) -> (r: Option<usize>)
        ensures
            match r {
                Some(i) => i < self.accounts@.len() && self.accounts@[i as int].address@ == address@,
                None => forall|i: int|
                    0 <= i < self.accounts@.len() ==> (#[trigger] self.accounts@[i]).address@ != address@,
            },
    {
        let a = String::from_str(address);
        let mut i: usize = 0;
        while i < self.accounts.len()
            invariant
                a@ == address@,
                i <= self.accounts@.len(),
                forall|j: int| 0 <= j < i ==> (#[trigger] self.accounts@[j]).address@ != address@,
            decreases self.accounts@.len() - i,
        {
            if self.accounts[i].address == a {
                return Some(i);
            }
            i = i + 1;
        }
        None
    }

    /// The confirmed balance of `address`, zero if it never took part in a
    /// mined transaction.
    pub fn get_balance(&self, address: &str) -> (r: i64)
        requires
            self.inv(),
        ensures
            r == balance_in(self@.balances, address@),
    {
        self.balance_of(address)
    }

    fn balance_of(&self, address: &str) -> (r: i64)
        requires
            self.tables_ok(),
        ensures
            r == balance_in(self@.balances, address@),
    {
        match self.find_account(address) {
            Some(i) => self.accounts[i].balance,
            None => 0,
        }
    }

    fn set_balance(&mut self, address: &String, value: i64)
        requires
            old(self).tables_ok(),
        ensures
            final(self).tables_ok(),
            final(self)@ == (LedgerView {
                balances: old(self)@.balances.insert(address@, value as int),
                ..old(self)@
            }),
    {
        let ghost m = self.balances@;
        match self.find_account(address.as_str()) {
            Some(i) => {
                self.accounts.set(i, Account { address: address.clone(), balance: value });
                self.balances = Ghost(m.insert(address@, value as int));
                assert(m.dom().insert(address@) =~= m.dom());
                assert(self.accounts_match()) by {
                    let accs = self.accounts@;
                    assert forall|k: Seq<char>| self.balances@.contains_key(k) implies exists|j: int|
                        0 <= j < accs.len() && (#[trigger] accs[j]).address@ == k by {
                        if k != address@ {
                            let j = choose|j: int| 0 <= j < old(self).accounts@.len() && (#[trigger] old(self).accounts@[j]).address@ == k;
                            assert(accs[j].address@ == k);
                        } else {
                            assert(accs[i as int].address@ == k);
                        }
                    }
                }
            },
            None => {
                self.accounts.push(Account { address: address.clone(), balance: value });
                self.balances = Ghost(m.insert(address@, value as int));
                assert(!m.dom().contains(address@));
                assert(self.accounts_match()) by {
                    let accs = self.accounts@;
                    let n = accs.len() - 1;
                    assert(accs[n].address@ == address@);
                    assert forall|k: Seq<char>| self.balances@.contains_key(k) implies exists|j: int|
                        0 <= j < accs.len() && (#[trigger] accs[j]).address@ == k by {
                        if k != address@ {
                            let j = choose|j: int| 0 <= j < old(self).accounts@.len() && (#[trigger] old(self).accounts@[j]).address@ == k;
                            assert(accs[j].address@ == k);
                        }
                    }
                }
            },
        }
        assert(self@.chain =~= old(self)@.chain);
    }
    /// Queues `transaction` unless its sender is an ordinary address whose
    /// confirmed balance is below the amount; a refused transaction is dropped.
    pub fn add_transaction(&mut self, transaction: Transaction)
        requires
            old(self).inv(),
        ensures
            final(self).inv(),
            final(self)@ == (LedgerView {
                pending: if accepts(old(self)@.balances, transaction@) {
                    old(self)@.pending.push(transaction@)
                } else {
                    old(self)@.pending
                },
                ..old(self)@
            }),
    {
        if !transaction.is_from("system") {
            let balance = self.get_balance(transaction.from().as_str());
            if (balance as i128) < (transaction.amount() as i128) {
                return;
            }
        }
        self.pending_transactions.push(transaction);
        assert(self@.pending =~= old(self)@.pending.push(transaction@));
        assert(self@.chain =~= old(self)@.chain);
        assert(self.accounts@ == old(self).accounts@);
        assert(self.balances@ == old(self).balances@);

    }

    /// The current mining difficulty.
    pub fn difficulty(&self) -> (r: u32)
        ensures
            r == self@.difficulty,
    {
        self.difficulty
    }

    /// The number of transactions waiting for the next block.
    pub fn pending_count(&self) -> (r: usize)
        ensures
            r == self@.pending.len(),
    {
        self.pending_transactions.len()
    }

    /// The number of blocks, genesis included.
    pub fn get_chain_length(&self) -> (r: usize)
        ensures
            r == self@.chain.len(),
    {
        self.chain.len()
    }

    /// Whether every block after the first carries its own recomputed hash
    /// and the stored hash of the block before it.
    pub fn is_chain_valid(&self) -> (r: bool)
        ensures
            r == chain_valid(self@.chain),
    {
        let ghost c = self@.chain;
        let mut i: usize = 1;
        while i < self.chain.len()
            invariant
                c == self@.chain,
                c.len() == self.chain@.len(),
                1 <= i,
                forall|j: int|
                    1 <= j < i && j < c.len() ==> {
                        &&& (#[trigger] c[j]).hash == block_hash(c[j])
                        &&& c[j].previous_hash == c[j - 1].hash
                    },
            decreases self.chain@.len() - i,
        {
            let current_block = &self.chain[i];
            let previous_block = &self.chain[i - 1];
            assert(c[i as int] == current_block@ && c[i - 1] == previous_block@);
            if current_block.hash() != current_block.calculate_hash() {
                return false;
            }
            if current_block.previous_hash() != previous_block.hash() {
                return false;
            }
            i = i + 1;
        }
        true
    }

    /// Raises the difficulty by one, up to the maximum, when the chain length
    /// is a non-zero multiple of ten.
    pub fn adjust_difficulty(&mut self)
        requires
            old(self).inv(),
        ensures
            final(self).inv(),
            final(self)@ == (LedgerView {
                difficulty: next_difficulty(old(self)@.chain.len(), old(self)@.difficulty),
                ..old(self)@
            }),
    {
        let n = self.chain.len();
        if n % 10 == 0 && n > 0 {
            self.difficulty = if self.difficulty < MAX_DIFFICULTY {
                self.difficulty + 1
            } else {
                MAX_DIFFICULTY
            };
        }
        assert(self@.chain =~= old(self)@.chain);
        assert(self.accounts@ == old(self).accounts@);
    }

    /// A JSON summary: block count, difficulty, validity, pending count and
    /// the number of addresses with a balance.
    pub fn get_blockchain_stats(&self) -> (r: String)
        requires
            self.inv(),
        ensures
            r@ == stats_json(
                self@.chain.len(),
                self@.difficulty,
                self@.pending.len(),
                self@.balances.dom().len(),
                chain_valid(self@.chain),
            ),
    {
        let mut s = String::new();
        push_text(&mut s, "{\"blocks\":");
        push_decimal(&mut s, self.chain.len() as u64);
        push_text(&mut s, ",\"difficulty\":");
        push_decimal(&mut s, self.difficulty as u64);
        push_text(&mut s, ",\"is_valid\":");
        if self.is_chain_valid() {
            push_text(&mut s, "true");
        } else {
            push_text(&mut s, "false");
        }
        push_text(&mut s, ",\"pending_transactions\":");
        push_decimal(&mut s, self.pending_transactions.len() as u64);
        push_text(&mut s, ",\"total_addresses\":");
        push_decimal(&mut s, self.accounts.len() as u64);
        push_text(&mut s, "}");
        assert(s@ =~= stats_json(
            self@.chain.len(),
            self@.difficulty,
            self@.pending.len(),
            self@.balances.dom().len(),
            chain_valid(self@.chain),
        ));
        s
    }
    /// Credits and debits the balance table for each of `txs`, in order.
    fn apply_transactions(&mut self, txs: &Vec<Transaction>)
        requires
            old(self).tables_ok(),
        ensures
            final(self).tables_ok(),
            final(self)@ == (LedgerView {
                balances: apply_txs(old(self)@.balances, tx_views(txs@)),
                ..old(self)@
            }),
    {
        let ghost start = self@;
        let ghost ts = tx_views(txs@);
        let mut i: usize = 0;
        while i < txs.len()
            invariant
                self.tables_ok(),
                ts == tx_views(txs@),
                i <= txs@.len(),
                self@ == (LedgerView { balances: apply_txs(start.balances, ts.subrange(0, i as int)), ..start }),
            decreases txs@.len() - i,
        {
            let t = &txs[i];
            assert(ts.subrange(0, i as int + 1).drop_last() =~= ts.subrange(0, i as int));
            assert(ts[i as int] == t@);
            if !t.is_from("system") {
                let from = t.from();
                let b = self.balance_of(from.as_str());
                self.set_balance(&from, saturated((b as i128) - (t.amount() as i128)));
            }
            let to = t.to();
            let b = self.balance_of(to.as_str());
            self.set_balance(&to, saturated((b as i128) + (t.amount() as i128)));
            i = i + 1;
        }
        assert(ts.subrange(0, i as int) =~= ts);
    }

    /// Packs the pending pool plus a reward for `mining_reward_address` into a
    /// block created at `now`, linked to the latest block, and mines it at the
    /// current difficulty. On success the balances take in the block's
    /// transactions, the block is appended and the pool is emptied; on failure
    /// only the reward transaction stays behind in the pool.
    pub fn mine_pending_transactions(&mut self, mining_reward_address: String, now: u64) -> (r: bool)
        requires
            old(self).inv(),
            old(self)@.chain.len() <= u32::MAX,
        ensures
            final(self).inv(),
            ({
                let txs = old(self)@.pending.push(
                    reward_tx(mining_reward_address@, old(self)@.mining_reward, now as nat),
                );
                let b0 = new_block(old(self)@.chain.len(), txs, old(self)@.chain.last().hash, now as nat);
                let d = old(self)@.difficulty;
                &&& r ==> final(self)@ == (LedgerView {
                    chain: old(self)@.chain.push(final(self)@.chain.last()),
                    pending: Seq::empty(),
                    balances: apply_txs(old(self)@.balances, txs),
                    ..old(self)@
                })
                &&& r ==> mining_outcome(b0, d, final(self)@.chain.last(), true)
                &&& r ==> final(self)@.chain.last().index == old(self)@.chain.last().index + 1
                &&& !r ==> final(self)@ == (LedgerView { pending: txs, ..old(self)@ })
                &&& !r ==> exists|b: BlockView| mining_outcome(b0, d, b, false)
            }),
    {
        let reward_transaction = Transaction::new(
            String::from_str("system"),
            mining_reward_address.clone(),
            self.mining_reward,
            now,
        );
        self.pending_transactions.push(reward_transaction);
        let ghost txs = self@.pending;
        assert(txs =~= old(self)@.pending.push(
            reward_tx(mining_reward_address@, old(self)@.mining_reward, now as nat),
        ));
        assert(self@.chain =~= old(self)@.chain);
        assert(self.accounts@ == old(self).accounts@);

        let latest_block = self.get_latest_block().unwrap();
        let n = self.chain.len();
        assert(self.chain@[n - 1]@.index == n - 1);
        let mut block = Block::new(
            latest_block.index() + 1,
            duplicate_all(&self.pending_transactions),
            latest_block.hash(),
            now,
        );
        let ghost b0 = block@;
        let success = block.mine_block(self.difficulty);
        if success {
            proof {
                if block@.nonce == b0.nonce {
                    assert(block@ == b0);
                }
                assert(block@.hash == block_hash(block@));
            }
            self.apply_transactions(block.transactions());
            let ghost before_push = self@;
            let ghost old_chain = self.chain@;
            let ghost accs = self.accounts@;
            assert(before_push.chain == old(self)@.chain);
            assert(block@.previous_hash == before_push.chain.last().hash);
            assert(block@.index == old_chain.len());
            self.chain.push(block);
            self.pending_transactions = Vec::new();
            assert(self.accounts@ == accs);
            assert(forall|i: int| 0 <= i < old_chain.len() ==> self.chain@[i] == old_chain[i]);
            assert(self@.chain =~= before_push.chain.push(block@));
            assert(self@.pending =~= Seq::<TxView>::empty());
            proof {
                assert(chain_txs(self@.chain) =~= chain_txs(old(self)@.chain) + block@.transactions) by {
                    assert(self@.chain.drop_last() =~= old(self)@.chain);
                }
                lemma_apply_txs_concat(Map::empty(), chain_txs(old(self)@.chain), block@.transactions);
            }
            assert(self.tables_ok()) by {
                let c = self@.chain;
                assert(self.accounts_match());
                assert forall|i: int| 0 <= i < self.chain@.len() implies (#[trigger] self.chain@[i])@.index == i by {
                    if i < old_chain.len() {
                        assert(self.chain@[i] == old_chain[i]);
                    }
                }
                assert forall|i: int| 1 <= i < c.len() implies {
                    &&& (#[trigger] c[i]).hash == block_hash(c[i])
                    &&& c[i].previous_hash == c[i - 1].hash
                } by {
                    if i < c.len() - 1 {
                        assert(c[i] == before_push.chain[i] && c[i - 1] == before_push.chain[i - 1]);
                    }
                }
            }
            true
        } else {
            assert(mining_outcome(b0, old(self)@.difficulty, block@, false));
            false
        }
    }
}

} // verus!
