//! Blocks: an ordered list of transactions, its Merkle root, and a hash found
//! by proof of work.
use vstd::prelude::*;
use crate::digest::{hex_digest, hex_sha256};
use crate::text::{decimal, push_decimal, push_text};
use crate::transaction::{Transaction, TxView, duplicate_all, tx_hash, tx_json, tx_views};

verus! {

/// How many nonces mining tries before it gives up.
pub const MAX_ATTEMPTS: u64 = 1000000;

pub struct BlockView {
    pub index: nat,
    pub timestamp: nat,
    pub transactions: Seq<TxView>,
    pub previous_hash: Seq<char>,
    pub nonce: nat,
    pub hash: Seq<char>,
    pub merkle_root: Seq<char>,
}

pub struct Block {
    index: u32,
    timestamp: u64,
    transactions: Vec<Transaction>,
    previous_hash: String,
    nonce: u64,
    hash: String,
    merkle_root: String,
}

impl View for Block {
    type V = BlockView;

    closed spec fn view(&self) -> BlockView {
        BlockView {
            index: self.index as nat,
            timestamp: self.timestamp as nat,
            transactions: tx_views(self.transactions@),
            previous_hash: self.previous_hash@,
            nonce: self.nonce as nat,
            hash: self.hash@,
            merkle_root: self.merkle_root@,
        }
    }
}

/// The comma-separated JSON objects of a transaction list.
pub open spec fn txs_json_items(ts: Seq<TxView>) -> Seq<char>
    decreases ts.len(),
{
    if ts.len() == 0 {
        Seq::empty()
    } else if ts.len() == 1 {
        tx_json(ts[0])
    } else {
        txs_json_items(ts.drop_last()) + seq![','] + tx_json(ts.last())
    }
}

/// A transaction list as a JSON array, order kept.
pub open spec fn txs_json(ts: Seq<TxView>) -> Seq<char> {
    seq!['['] + txs_json_items(ts) + seq![']']
}

/// The digest of two digests written one after the other.
pub open spec fn pair_hash(a: Seq<char>, b: Seq<char>) -> Seq<char> {
    hex_digest(a + b)
}

/// One level up the Merkle tree: adjacent digests hashed in pairs, left to
/// right, an odd last digest paired with itself.
pub open spec fn merkle_level(hs: Seq<Seq<char>>) -> Seq<Seq<char>> {
    Seq::new(
        ((hs.len() + 1) / 2) as nat,
        |i: int|
            if 2 * i + 1 < hs.len() {
                pair_hash(hs[2 * i], hs[2 * i + 1])
            } else {
                pair_hash(hs[2 * i], hs[2 * i])
            },
    )
}

/// The Merkle root over a list of leaf digests; empty for no leaves.
pub open spec fn merkle_of(hs: Seq<Seq<char>>) -> Seq<char>
    decreases hs.len(),
{
    if hs.len() == 0 {
        Seq::empty()
    } else if hs.len() == 1 {
        hs[0]
    } else {
        merkle_of(merkle_level(hs))
    }
}

/// The leaf digests of a transaction list: one content hash each, in order.
pub open spec fn leaves(ts: Seq<TxView>) -> Seq<Seq<char>> {
    ts.map_values(|t: TxView| tx_hash(t))
}

/// The Merkle root of a transaction list.
pub open spec fn merkle_root(ts: Seq<TxView>) -> Seq<char> {
    merkle_of(leaves(ts))
}

/// The text whose digest is a block's hash.
pub open spec fn block_hash_input(b: BlockView) -> Seq<char> {
    decimal(b.index) + decimal(b.timestamp) + b.previous_hash + b.merkle_root + decimal(b.nonce)
        + txs_json(b.transactions)
}

/// A block's hash, recomputed from its fields.
pub open spec fn block_hash(b: BlockView) -> Seq<char> {
    hex_digest(block_hash_input(b))
}

/// `h` starts with `d` zero characters.
pub open spec fn zero_prefix(h: Seq<char>, d: nat) -> bool {
    d <= h.len() && forall|i: int| 0 <= i < d ==> h[i] == '0'
}

/// `b` with the nonce `n` and the hash that goes with it.
pub open spec fn with_nonce(b: BlockView, n: nat) -> BlockView {
    BlockView { nonce: n, hash: block_hash(BlockView { nonce: n, ..b }), ..b }
}

/// What mining `before` at difficulty `d` leaves (`after`) and returns (`r`):
/// nonces are tried one after another from the next one on, until a hash with
/// `d` leading zeros or `MAX_ATTEMPTS` tries; the result is whether the hash
/// left has `d` leading zeros.
pub open spec fn mining_outcome(before: BlockView, d: nat, after: BlockView, r: bool) -> bool {
    let k = after.nonce - before.nonce;
    &&& before.nonce <= after.nonce <= before.nonce + MAX_ATTEMPTS
    &&& after.index == before.index
    &&& after.timestamp == before.timestamp
    &&& after.transactions == before.transactions
    &&& after.previous_hash == before.previous_hash
    &&& after.merkle_root == before.merkle_root
    &&& (k == 0 <==> zero_prefix(before.hash, d))
    &&& (k == 0 ==> after.hash == before.hash)
    &&& (k > 0 ==> after == with_nonce(before, after.nonce))
    &&& forall|j: nat|
        0 < j < k ==> !zero_prefix(#[trigger] block_hash(with_nonce(before, before.nonce + j)), d)
    &&& (k < MAX_ATTEMPTS ==> zero_prefix(after.hash, d))
    &&& r == zero_prefix(after.hash, d)
}

/// The block that `Block::new` builds.
pub open spec fn new_block(index: nat, ts: Seq<TxView>, previous_hash: Seq<char>, timestamp: nat) -> BlockView {
    let b = BlockView {
        index,
        timestamp,
        transactions: ts,
        previous_hash,
        nonce: 0,
        hash: Seq::empty(),
        merkle_root: merkle_root(ts),
    };
    BlockView { hash: block_hash(b), ..b }
}

fn concat_hashes(a: &String, b: &String) -> (r: String)
    ensures
        r@ == a@ + b@,
{
    let mut s = String::new();
    push_text(&mut s, a.as_str());
    push_text(&mut s, b.as_str());
    assert(s@ =~= a@ + b@);
    s
}

/// Digests of every transaction, in order.
fn leaf_hashes(txs: &Vec<Transaction>) -> (r: Vec<String>)
    ensures
        r@.map_values(|h: String| h@) == leaves(tx_views(txs@)),
{
    let mut r: Vec<String> = Vec::new();
    let mut i: usize = 0;
    while i < txs.len()
        invariant
            i <= txs@.len(),
            r@.len() == i,
            forall|j: int| 0 <= j < i ==> #[trigger] r@[j]@ == tx_hash(txs@[j]@),
        decreases txs@.len() - i,
    {
        let h = txs[i].calculate_hash();
        r.push(h);
        i = i + 1;
    }
    assert(r@.map_values(|h: String| h@) =~= leaves(tx_views(txs@)));
    r
}

/// One level up the tree, over exec digests.
fn next_level(hs: &Vec<String>) -> (r: Vec<String>)
    ensures
        r@.map_values(|h: String| h@) == merkle_level(hs@.map_values(|h: String| h@)),
{
    let ghost v = hs@.map_values(|h: String| h@);
    let mut r: Vec<String> = Vec::new();
    let mut i: usize = 0;
    while i < hs.len()
        invariant
            v == hs@.map_values(|h: String| h@),
            i <= hs@.len(),
            i % 2 == 0 || i == hs@.len(),
            r@.len() == (i + 1) / 2,
            forall|j: int| 0 <= j < r@.len() ==> #[trigger] r@[j]@ == merkle_level(v)[j],
        decreases hs@.len() - i,
    {
        if i + 1 < hs.len() {
            let h = concat_hashes(&hs[i], &hs[i + 1]);
            r.push(hex_sha256(h.as_str()));
            i = i + 2;
        } else {
            let h = concat_hashes(&hs[i], &hs[i]);
            r.push(hex_sha256(h.as_str()));
            i = i + 1;
        }
    }
    assert(r@.map_values(|h: String| h@) =~= merkle_level(v));
    r
}

impl Block {
    /// A block at `index` over `transactions`, linked to `previous_hash` and
    /// created at `timestamp`: nonce 0, Merkle root computed first, then the hash.
    pub fn new(index: u32, transactions: Vec<Transaction>, previous_hash: String, timestamp: u64) -> (r: Block)
        ensures
            r@ == new_block(index as nat, tx_views(transactions@), previous_hash@, timestamp as nat),
    {
        let mut block = Block {
            index,
            timestamp,
            transactions,
            previous_hash,
            nonce: 0,
            hash: String::new(),
            merkle_root: String::new(),
        };
        block.merkle_root = block.calculate_merkle_root();
        block.hash = block.calculate_hash();
        block
    }

    pub fn index(&self) -> (r: u32)
        ensures
            r == self@.index,
    {
        self.index
    }

    pub fn hash(&self) -> (r: String)
        ensures
            r@ == self@.hash,
    {
        self.hash.clone()
    }

    pub fn previous_hash(&self) -> (r: String)
        ensures
            r@ == self@.previous_hash,
    {
        self.previous_hash.clone()
    }

    pub fn nonce(&self) -> (r: u64)
        ensures
            r == self@.nonce,
    {
        self.nonce
    }

    pub fn merkle_root(&self) -> (r: String)
        ensures
            r@ == self@.merkle_root,
    {
        self.merkle_root.clone()
    }

    pub fn transactions(&self) -> (r: &Vec<Transaction>)
        ensures
            tx_views(r@) == self@.transactions,
    {
        &self.transactions
    }

    /// A block equal to this one.
    pub fn duplicate(&self) -> (r: Block)
        ensures
            r@ == self@,
    {
        let txs = duplicate_all(&self.transactions);
        Block {
            index: self.index,
            timestamp: self.timestamp,
            transactions: txs,
            previous_hash: self.previous_hash.clone(),
            nonce: self.nonce,
            hash: self.hash.clone(),
            merkle_root: self.merkle_root.clone(),
        }
    }

    /// The block hash: the hex SHA-256 digest of index, timestamp, previous
    /// hash, Merkle root, nonce and the transactions as JSON.
    pub fn calculate_hash(&self) -> (r: String)
        ensures
            r@ == block_hash(self@),
            r@.len() == 64,
    {
        let mut data = String::new();
        push_decimal(&mut data, self.index as u64);
        push_decimal(&mut data, self.timestamp);
        push_text(&mut data, self.previous_hash.as_str());
        push_text(&mut data, self.merkle_root.as_str());
        push_decimal(&mut data, self.nonce);
        let ghost before = data@;
        data.push('[');
        let mut i: usize = 0;
        while i < self.transactions.len()
            invariant
                i <= self.transactions@.len(),
                data@ == before + seq!['['] + txs_json_items(
                    tx_views(self.transactions@).subrange(0, i as int),
                ),
            decreases self.transactions@.len() - i,
        {
            let ghost ts = tx_views(self.transactions@);
            assert(ts.subrange(0, i as int + 1).drop_last() =~= ts.subrange(0, i as int));
            if i > 0 {
                data.push(',');
            }
            self.transactions[i].push_json(&mut data);
            i = i + 1;
            assert(data@ =~= before + seq!['['] + txs_json_items(ts.subrange(0, i as int)));
        }
        assert(tx_views(self.transactions@).subrange(0, i as int) =~= tx_views(self.transactions@));
        data.push(']');
        assert(data@ =~= block_hash_input(self@));
        hex_sha256(data.as_str())
    }

    /// The Merkle root of the block's transactions: leaf digests paired up
    /// level by level, an odd last digest paired with itself, until one is
    /// left; empty when there are no transactions.
    pub fn calculate_merkle_root(&self) -> (r: String)
        ensures
            r@ == merkle_root(self@.transactions),
    {
        if self.transactions.len() == 0 {
            return String::new();
        }
        let mut hashes = leaf_hashes(&self.transactions);
        let ghost target = merkle_root(tx_views(self.transactions@));
        while hashes.len() > 1
            invariant
                hashes@.len() >= 1,
                merkle_of(hashes@.map_values(|h: String| h@)) == target,
            decreases hashes@.len(),
        {
            assert(hashes@.map_values(|h: String| h@).len() == hashes@.len());
            hashes = next_level(&hashes);
            assert(hashes@.map_values(|h: String| h@).len() == hashes@.len());
        }
        let r = hashes[0].clone();
        r
    }

    /// Proof of work: tries the following nonces one by one until the hash
    /// starts with `difficulty` zeros or `MAX_ATTEMPTS` tries are spent.
    /// Returns whether the target was met within those tries.
    pub fn mine_block(&mut self, difficulty: u32) -> (r: bool)
        requires
            zero_prefix(old(self)@.hash, difficulty as nat) || old(self)@.nonce + MAX_ATTEMPTS <= u64::MAX,
        ensures
            mining_outcome(old(self)@, difficulty as nat, final(self)@, r),
            r && old(self)@.hash == block_hash(old(self)@) ==> final(self)@.hash == block_hash(final(self)@),
    {
        let ghost start = self@;
        let mut attempts: u64 = 0;
        while !has_zero_prefix(&self.hash, difficulty) && attempts < MAX_ATTEMPTS
            invariant
                attempts <= MAX_ATTEMPTS,
                zero_prefix(start.hash, difficulty as nat) || start.nonce + MAX_ATTEMPTS <= u64::MAX,
                self@.nonce == start.nonce + attempts,
                attempts == 0 ==> self@ == start,
                attempts > 0 ==> self@ == with_nonce(start, self@.nonce),
                attempts > 0 ==> !zero_prefix(start.hash, difficulty as nat),
                forall|j: nat|
                    0 < j < attempts ==> !zero_prefix(
                        #[trigger] block_hash(with_nonce(start, start.nonce + j)),
                        difficulty as nat,
                    ),
            decreases MAX_ATTEMPTS - attempts,
        {
            proof {
                if attempts > 0 {
                    assert(block_hash(with_nonce(start, start.nonce + attempts as nat)) == self@.hash);
                }
            }
            self.nonce = self.nonce + 1;
            self.hash = self.calculate_hash();
            attempts = attempts + 1;
            assert(self@ =~= with_nonce(start, self@.nonce));
        }
        has_zero_prefix(&self.hash, difficulty)
    }
}

/// Whether `h` starts with `d` zero characters.
pub fn has_zero_prefix(h: &String, d: u32) -> (r: bool)
    ensures
        r == zero_prefix(h@, d as nat),
{
    let n = h.as_str().unicode_len();
    if (d as usize) > n {
        return false;
    }
    let mut i: usize = 0;
    while i < d as usize
        invariant
            n == h@.len(),
            d <= n,
            i <= d,
            forall|j: int| 0 <= j < i ==> h@[j] == '0',
        decreases d - i,
    {
        if h.as_str().get_char(i) != '0' {
            return false;
        }
        i = i + 1;
    }
    true
}

} // verus!
