//! Facts about the ledger that hold across operations.
use vstd::prelude::*;
use crate::block::{BlockView, block_hash, block_hash_input, merkle_level, pair_hash, txs_json_items, merkle_of, merkle_root, leaves, mining_outcome, with_nonce, zero_prefix};
use crate::ledger::{apply_tx, balance_in, saturate, chain_valid, next_difficulty, system_address, MAX_DIFFICULTY};
use crate::digest::{hex_digest, sha256_of};
use crate::text::{decimal, decimal_digit, hex, hex_digit, lemma_hex_len, quoted};
use crate::transaction::{TxView, tx_hash, tx_hash_input, tx_json};

verus! {

/// Equal transaction lists have equal Merkle roots.
pub proof fn lemma_merkle_deterministic(a: Seq<TxView>, b: Seq<TxView>)
    requires
        a == b,
    ensures
        merkle_root(a) == merkle_root(b),
{
}

/// With three leaves the Merkle root is the root over four leaves, the
/// third repeated.
pub proof fn lemma_odd_count_duplication(hs: Seq<Seq<char>>)
    requires
        hs.len() == 3,
    ensures
        merkle_of(hs) == merkle_of(hs.push(hs[2])),
{
    let p = hs.push(hs[2]);
    assert(merkle_level(hs) =~= merkle_level(p));
}

/// The same for a three-transaction block: its Merkle root equals the root
/// over the leaf digests padded to four with the third digest.
pub proof fn lemma_three_transactions_root(ts: Seq<TxView>)
    requires
        ts.len() == 3,
    ensures
        merkle_root(ts) == merkle_of(leaves(ts).push(tx_hash(ts[2]))),
{
    lemma_odd_count_duplication(leaves(ts));
}

/// A successful mining run on a block whose hash was fresh leaves a hash
/// with `d` leading zeros that equals the hash recomputed from the block.
pub proof fn lemma_mining_correct(before: BlockView, d: nat, after: BlockView)
    requires
        mining_outcome(before, d, after, true),
        before.hash == block_hash(before),
    ensures
        zero_prefix(after.hash, d),
        after.hash == block_hash(after),
{
    if after.nonce == before.nonce {
        assert(after == before);
    } else {
        assert(after == with_nonce(before, after.nonce));
    }
}

/// Editing block 1 of a valid three-block chain so that its recomputed hash
/// differs from the stored one is detected, whether the stored hash is kept
/// or replaced by the recomputed one (the link from block 2 then breaks).
pub proof fn lemma_tamper_detected(c: Seq<BlockView>, edited: BlockView)
    requires
        c.len() == 3,
        chain_valid(c),
        edited.previous_hash == c[1].previous_hash,
        block_hash(edited) != c[1].hash,
    ensures
        !chain_valid(c.update(1, BlockView { hash: c[1].hash, ..edited })),
        !chain_valid(c.update(1, BlockView { hash: block_hash(edited), ..edited })),
{
    let kept = BlockView { hash: c[1].hash, ..edited };
    let fresh = BlockView { hash: block_hash(edited), ..edited };
    assert(block_hash(kept) == block_hash(edited));
    assert(c.update(1, kept)[1] == kept);
    assert(c.update(1, fresh)[2] == c[2]);
    assert(c.update(1, fresh)[1] == fresh);
}

/// A transaction from the system address to another address credits the
/// recipient and leaves the system address's balance as it was.
pub proof fn lemma_system_not_debited(m: Map<Seq<char>, int>, t: TxView)
    requires
        t.from == system_address(),
        t.to != system_address(),
    ensures
        balance_in(apply_tx(m, t), system_address()) == balance_in(m, system_address()),
        balance_in(apply_tx(m, t), t.to) == saturate(balance_in(m, t.to) + t.amount),
{
}

/// The difficulty after `m` blocks are mined on a chain of length `len`
/// with difficulty `d`, adjusting after each block.
pub open spec fn difficulty_after(d: nat, len: nat, m: nat) -> nat
    decreases m,
{
    if m == 0 {
        d
    } else {
        next_difficulty(len + m, difficulty_after(d, len, (m - 1) as nat))
    }
}

/// From a fresh ledger (one block, difficulty 2), adjusting after each of
/// `m` minings gives difficulty 2 plus one for each multiple of ten that the
/// chain length passes, capped at the maximum.
pub proof fn lemma_difficulty_ramp(m: nat)
    ensures
        difficulty_after(2, 1, m) == if 2 + (m + 1) / 10 < MAX_DIFFICULTY {
            2 + (m + 1) / 10
        } else {
            MAX_DIFFICULTY as nat
        },
    decreases m,
{
    if m > 0 {
        lemma_difficulty_ramp((m - 1) as nat);
        let k = (m + 1) as int;
        assert(k / 10 == (k - 1) / 10 + (if k % 10 == 0 { 1int } else { 0int })) by (nonlinear_arith)
            requires k >= 1;
    }
}

/// SHA-256 gives `a` and `b` different digests unless they are equal.
pub open spec fn no_collision(a: Seq<char>, b: Seq<char>) -> bool {
    sha256_of(a) == sha256_of(b) ==> a == b
}

/// The text hashed for the `j`-th digest of the next Merkle level.
pub open spec fn pair_input(hs: Seq<Seq<char>>, j: int) -> Seq<char> {
    if 2 * j + 1 < hs.len() {
        hs[2 * j] + hs[2 * j + 1]
    } else {
        hs[2 * j] + hs[2 * j]
    }
}

/// Along the two Merkle trees built over `hs1` and `hs2`, the two texts
/// hashed at each place get 32-byte digests that tell them apart.
pub open spec fn trees_collision_free(hs1: Seq<Seq<char>>, hs2: Seq<Seq<char>>) -> bool
    decreases hs1.len(),
{
    if hs1.len() <= 1 || hs1.len() != hs2.len() {
        true
    } else {
        &&& forall|j: int|
            0 <= j < (hs1.len() + 1) / 2 ==> {
                &&& no_collision(#[trigger] pair_input(hs1, j), pair_input(hs2, j))
                &&& sha256_of(pair_input(hs1, j)).len() == 32
                &&& sha256_of(pair_input(hs2, j)).len() == 32
            }
        &&& trees_collision_free(merkle_level(hs1), merkle_level(hs2))
    }
}

/// Each transaction's content hash comes from a 32-byte digest.
pub open spec fn leaf_digests_full(ts: Seq<TxView>) -> bool {
    forall|k: int| 0 <= k < ts.len() ==> (#[trigger] sha256_of(tx_hash_input(ts[k]))).len() == 32
}

proof fn lemma_middle_cancel(x: Seq<char>, m1: Seq<char>, m2: Seq<char>, y: Seq<char>)
    requires
        x + m1 + y == x + m2 + y,
    ensures
        m1 == m2,
{
    let s1 = x + m1 + y;
    let s2 = x + m2 + y;
    assert(s1.len() == x.len() + m1.len() + y.len());
    assert(s2.len() == x.len() + m2.len() + y.len());
    assert(m1.len() == m2.len());
    assert(m1 =~= s1.subrange(x.len() as int, (x.len() + m1.len()) as int));
    assert(m2 =~= s2.subrange(x.len() as int, (x.len() + m2.len()) as int));
}

proof fn lemma_decimal_nonempty(n: nat)
    ensures
        decimal(n).len() >= 1,
        n >= 10 ==> decimal(n).len() >= 2,
    decreases n,
{
    if n >= 10 {
        lemma_decimal_nonempty(n / 10);
    }
}

proof fn lemma_digit_injective(x: nat, y: nat)
    requires
        x < 10,
        y < 10,
        decimal_digit(x) == decimal_digit(y),
    ensures
        x == y,
{
}

proof fn lemma_decimal_injective(a: nat, b: nat)
    requires
        decimal(a) == decimal(b),
    ensures
        a == b,
    decreases a,
{
    lemma_decimal_nonempty(a);
    lemma_decimal_nonempty(b);
    if a >= 10 && b >= 10 {
        assert(decimal(a).drop_last() =~= decimal(a / 10));
        assert(decimal(b).drop_last() =~= decimal(b / 10));
        lemma_decimal_injective(a / 10, b / 10);
        assert(decimal(a).last() == decimal_digit(a % 10));
        assert(decimal(b).last() == decimal_digit(b % 10));
        lemma_digit_injective(a % 10, b % 10);
        assert(a == 10 * (a / 10) + a % 10);
        assert(b == 10 * (b / 10) + b % 10);
    } else if a < 10 && b < 10 {
        assert(decimal_digit(a) == decimal(a)[0]);
    } else {
        assert(false);
    }
}

proof fn lemma_hex_injective(a: Seq<u8>, b: Seq<u8>)
    requires
        hex(a) == hex(b),
    ensures
        a == b,
    decreases a.len(),
{
    lemma_hex_len(a);
    lemma_hex_len(b);
    if a.len() > 0 {
        let ha = hex(a);
        let x = a.last();
        let y = b.last();
        assert(ha[ha.len() - 2] == hex_digit((x / 16) as nat) && ha[ha.len() - 1] == hex_digit((x % 16) as nat));
        assert(ha[ha.len() - 2] == hex_digit((y / 16) as nat) && ha[ha.len() - 1] == hex_digit((y % 16) as nat));
        assert(x / 16 == y / 16 && x % 16 == y % 16);
        assert(x == y) by (nonlinear_arith)
            requires x / 16 == y / 16 && x % 16 == y % 16;
        assert(hex(a.drop_last()) =~= ha.subrange(0, ha.len() - 2));
        assert(hex(b.drop_last()) =~= ha.subrange(0, ha.len() - 2));
        lemma_hex_injective(a.drop_last(), b.drop_last());
        assert(a =~= a.drop_last().push(x));
        assert(b =~= b.drop_last().push(y));
    } else {
        assert(a =~= b);
    }
}

/// Texts whose digests do not collide have different hex digests.
pub proof fn lemma_digest_injective(a: Seq<char>, b: Seq<char>)
    requires
        no_collision(a, b),
    ensures
        hex_digest(a) == hex_digest(b) ==> a == b,
{
    if hex_digest(a) == hex_digest(b) {
        lemma_hex_injective(sha256_of(a), sha256_of(b));
    }
}

proof fn lemma_digest_len(a: Seq<char>)
    requires
        sha256_of(a).len() == 32,
    ensures
        hex_digest(a).len() == 64,
{
    lemma_hex_len(sha256_of(a));
}

/// Two different lists of 64-character digests of the same length have
/// different Merkle roots, when no two texts hashed at the same place of the
/// two trees collide.
pub proof fn lemma_merkle_injective(hs1: Seq<Seq<char>>, hs2: Seq<Seq<char>>)
    requires
        trees_collision_free(hs1, hs2),
        hs1.len() == hs2.len(),
        hs1.len() >= 1,
        hs1 != hs2,
        forall|k: int| 0 <= k < hs1.len() ==> (#[trigger] hs1[k]).len() == 64,
        forall|k: int| 0 <= k < hs2.len() ==> (#[trigger] hs2[k]).len() == 64,
    ensures
        merkle_of(hs1) != merkle_of(hs2),
    decreases hs1.len(),
{
    assert(!(hs1 =~= hs2));
    let i = choose|i: int| 0 <= i < hs1.len() && hs1[i] != hs2[i];
    if hs1.len() == 1 {
        assert(i == 0);
    } else {
        let l1 = merkle_level(hs1);
        let l2 = merkle_level(hs2);
        let j = i / 2;
        let n = hs1.len();
        let x1 = hs1[2 * j];
        let x2 = hs2[2 * j];
        let y1 = if 2 * j + 1 < n { hs1[2 * j + 1] } else { hs1[2 * j] };
        let y2 = if 2 * j + 1 < n { hs2[2 * j + 1] } else { hs2[2 * j] };
        assert(pair_input(hs1, j) == x1 + y1);
        assert(pair_input(hs2, j) == x2 + y2);
        assert(l1[j] == pair_hash(x1, y1));
        assert(l2[j] == pair_hash(x2, y2));
        lemma_digest_injective(x1 + y1, x2 + y2);
        if l1[j] == l2[j] {
            assert(x1 =~= (x1 + y1).subrange(0, 64));
            assert(x2 =~= (x2 + y2).subrange(0, 64));
            assert(y1 =~= (x1 + y1).subrange(64, (64 + y1.len()) as int));
            assert(y2 =~= (x2 + y2).subrange(64, (64 + y2.len()) as int));
            assert(false);
        }
        assert forall|k: int| 0 <= k < l1.len() implies (#[trigger] l1[k]).len() == 64 by {
            assert(l1[k] == hex_digest(pair_input(hs1, k)));
            lemma_digest_len(pair_input(hs1, k));
        }
        assert forall|k: int| 0 <= k < l2.len() implies (#[trigger] l2[k]).len() == 64 by {
            assert(l2[k] == hex_digest(pair_input(hs2, k)));
            assert(no_collision(pair_input(hs1, k), pair_input(hs2, k)));
            lemma_digest_len(pair_input(hs2, k));
        }
        lemma_merkle_injective(l1, l2);
    }
}

/// `t2` is `t1` with its amount, or its sender, or its recipient changed and
/// every other field kept.
pub open spec fn one_field_edited(t1: TxView, t2: TxView) -> bool {
    &&& t1.timestamp == t2.timestamp
    &&& t1.signature == t2.signature
    &&& {
        ||| t1.from == t2.from && t1.to == t2.to && t1.amount != t2.amount
        ||| t1.from != t2.from && t1.to == t2.to && t1.amount == t2.amount
        ||| t1.from == t2.from && t1.to != t2.to && t1.amount == t2.amount
    }
}

/// Editing a transaction's amount, sender or recipient changes its content
/// hash, when the digests of the two hashed texts do not collide.
pub proof fn lemma_edit_changes_tx_hash(t1: TxView, t2: TxView)
    requires
        no_collision(tx_hash_input(t1), tx_hash_input(t2)),
        one_field_edited(t1, t2),
    ensures
        tx_hash(t1) != tx_hash(t2),
{
    lemma_digest_injective(tx_hash_input(t1), tx_hash_input(t2));
    if tx_hash_input(t1) == tx_hash_input(t2) {
        let e = Seq::<char>::empty();
        if t1.amount != t2.amount {
            lemma_middle_cancel(t1.from + t1.to, decimal(t1.amount), decimal(t2.amount), decimal(t1.timestamp));
            lemma_decimal_injective(t1.amount, t2.amount);
        } else if t1.from != t2.from {
            let r = t1.to + decimal(t1.amount) + decimal(t1.timestamp);
            assert(tx_hash_input(t1) =~= e + t1.from + r);
            assert(tx_hash_input(t2) =~= e + t2.from + r);
            lemma_middle_cancel(e, t1.from, t2.from, r);
        } else {
            let r = decimal(t1.amount) + decimal(t1.timestamp);
            assert(tx_hash_input(t1) =~= t1.from + t1.to + r);
            assert(tx_hash_input(t2) =~= t1.from + t2.to + r);
            lemma_middle_cancel(t1.from, t1.to, t2.to, r);
        }
    }
}

proof fn lemma_leaves_len(ts: Seq<TxView>)
    requires
        leaf_digests_full(ts),
    ensures
        forall|k: int| 0 <= k < ts.len() ==> (#[trigger] leaves(ts)[k]).len() == 64,
{
    assert forall|k: int| 0 <= k < ts.len() implies (#[trigger] leaves(ts)[k]).len() == 64 by {
        lemma_digest_len(tx_hash_input(ts[k]));
    }
}

/// Two transaction lists of the same length whose content hashes differ
/// somewhere (for instance after two transactions with different hashes swap
/// places) have different Merkle roots, when no digests along the two trees
/// collide.
pub proof fn lemma_merkle_detects_leaf_change(a: Seq<TxView>, b: Seq<TxView>)
    requires
        a.len() == b.len(),
        leaves(a) != leaves(b),
        leaf_digests_full(a),
        leaf_digests_full(b),
        trees_collision_free(leaves(a), leaves(b)),
    ensures
        merkle_root(a) != merkle_root(b),
{
    lemma_leaves_len(a);
    lemma_leaves_len(b);
    if a.len() == 0 {
        assert(leaves(a) =~= leaves(b));
    }
    lemma_merkle_injective(leaves(a), leaves(b));
}

/// Editing the amount, sender or recipient of one transaction changes the
/// Merkle root, when neither the edited transaction's digests nor those along
/// the two trees collide.
pub proof fn lemma_merkle_detects_edit(a: Seq<TxView>, i: int, t: TxView)
    requires
        0 <= i < a.len(),
        one_field_edited(a[i], t),
        no_collision(tx_hash_input(a[i]), tx_hash_input(t)),
        leaf_digests_full(a),
        leaf_digests_full(a.update(i, t)),
        trees_collision_free(leaves(a), leaves(a.update(i, t))),
    ensures
        merkle_root(a) != merkle_root(a.update(i, t)),
{
    lemma_edit_changes_tx_hash(a[i], t);
    assert(leaves(a)[i] != leaves(a.update(i, t))[i]);
    lemma_merkle_detects_leaf_change(a, a.update(i, t));
}

proof fn lemma_items_split(ts1: Seq<TxView>, ts2: Seq<TxView>, j: int) -> (r: (Seq<char>, Seq<char>))
    requires
        ts1.len() == ts2.len(),
        0 <= j < ts1.len(),
        forall|k: int| 0 <= k < ts1.len() && k != j ==> ts1[k] == ts2[k],
    ensures
        txs_json_items(ts1) == r.0 + tx_json(ts1[j]) + r.1,
        txs_json_items(ts2) == r.0 + tx_json(ts2[j]) + r.1,
    decreases ts1.len(),
{
    let n = ts1.len();
    if j == n - 1 {
        assert(ts1.drop_last() =~= ts2.drop_last());
        if n == 1 {
            assert(txs_json_items(ts1) =~= Seq::<char>::empty() + tx_json(ts1[j]) + Seq::<char>::empty());
            assert(txs_json_items(ts2) =~= Seq::<char>::empty() + tx_json(ts2[j]) + Seq::<char>::empty());
            (Seq::empty(), Seq::empty())
        } else {
            let p = txs_json_items(ts1.drop_last()) + seq![','];
            assert(txs_json_items(ts1) =~= p + tx_json(ts1[j]) + Seq::<char>::empty());
            assert(txs_json_items(ts2) =~= p + tx_json(ts2[j]) + Seq::<char>::empty());
            (p, Seq::empty())
        }
    } else {
        let (p, q) = lemma_items_split(ts1.drop_last(), ts2.drop_last(), j);
        assert(ts1.last() == ts2.last());
        let q2 = q + seq![','] + tx_json(ts1.last());
        assert(txs_json_items(ts1) =~= p + tx_json(ts1[j]) + q2);
        assert(txs_json_items(ts2) =~= p + tx_json(ts2[j]) + q2);
        (p, q2)
    }
}

/// A transaction as JSON, split around its amount.
proof fn lemma_tx_json_split(t: TxView) -> (r: (Seq<char>, Seq<char>))
    ensures
        tx_json(t) == r.0 + decimal(t.amount) + r.1,
        r.0 == "{\"from\":"@ + quoted(t.from) + ",\"to\":"@ + quoted(t.to) + ",\"amount\":"@,
        r.1 == ",\"timestamp\":"@ + decimal(t.timestamp) + ",\"signature\":"@ + quoted(t.signature) + "}"@,
{
    let x = "{\"from\":"@ + quoted(t.from) + ",\"to\":"@ + quoted(t.to) + ",\"amount\":"@;
    let y = ",\"timestamp\":"@ + decimal(t.timestamp) + ",\"signature\":"@ + quoted(t.signature) + "}"@;
    assert(tx_json(t) =~= x + decimal(t.amount) + y);
    (x, y)
}

proof fn lemma_regroup(
    h: Seq<char>,
    o: Seq<char>,
    p: Seq<char>,
    x: Seq<char>,
    d: Seq<char>,
    y: Seq<char>,
    q: Seq<char>,
    c: Seq<char>,
)
    ensures
        h + (o + (p + (x + d + y) + q) + c) == (h + o + p + x) + d + (y + q + c),
{
    assert(h + (o + (p + (x + d + y) + q) + c) =~= (h + o + p + x) + d + (y + q + c));
}

proof fn lemma_block_input_split(b: BlockView, e: BlockView, j: int) -> (r: (Seq<char>, Seq<char>))
    requires
        e == with_amount(b, j, e.transactions[j].amount),
        0 <= j < b.transactions.len(),
    ensures
        block_hash_input(b) == r.0 + decimal(b.transactions[j].amount) + r.1,
        block_hash_input(e) == r.0 + decimal(e.transactions[j].amount) + r.1,
{
    let t1 = b.transactions[j];
    let t2 = e.transactions[j];
    assert(forall|k: int| 0 <= k < b.transactions.len() && k != j ==> b.transactions[k] == e.transactions[k]);
    let (p, q) = lemma_items_split(b.transactions, e.transactions, j);
    let (x1, y1) = lemma_tx_json_split(t1);
    let (x2, y2) = lemma_tx_json_split(t2);
    assert(x1 == x2 && y1 == y2);
    let head = decimal(b.index) + decimal(b.timestamp) + b.previous_hash + b.merkle_root + decimal(b.nonce);
    assert(block_hash_input(b) == head + (seq!['['] + txs_json_items(b.transactions) + seq![']']));
    assert(block_hash_input(e) == head + (seq!['['] + txs_json_items(e.transactions) + seq![']']));
    lemma_regroup(head, seq!['['], p, x1, decimal(t1.amount), y1, q, seq![']']);
    lemma_regroup(head, seq!['['], p, x1, decimal(t2.amount), y1, q, seq![']']);
    let x = head + seq!['['] + p + x1;
    let y = y1 + q + seq![']'];
    (x, y)
}

/// `b` with the amount of its transaction `j` set to `amount`, the stored
/// hash and Merkle root kept.
pub open spec fn with_amount(b: BlockView, j: int, amount: nat) -> BlockView {
    BlockView { transactions: b.transactions.update(j, TxView { amount, ..b.transactions[j] }), ..b }
}

/// Changing one transaction amount in block 1 of a valid three-block chain,
/// when the digests of the block's hashed text before and after the edit do
/// not collide, is detected: with block 1's stored hash kept, and
/// also with it recomputed (block 2's link then breaks).
pub proof fn lemma_amount_tamper_detected(c: Seq<BlockView>, j: int, amount: nat)
    requires
        no_collision(block_hash_input(c[1]), block_hash_input(with_amount(c[1], j, amount))),
        c.len() == 3,
        chain_valid(c),
        0 <= j < c[1].transactions.len(),
        amount != c[1].transactions[j].amount,
    ensures
        !chain_valid(c.update(1, with_amount(c[1], j, amount))),
        !chain_valid(c.update(1, BlockView { hash: block_hash(with_amount(c[1], j, amount)), ..with_amount(c[1], j, amount) })),
{
    let b = c[1];
    let e = with_amount(b, j, amount);
    let t1 = b.transactions[j];
    let t2 = e.transactions[j];
    let (x, y) = lemma_block_input_split(b, e, j);
    lemma_digest_injective(block_hash_input(b), block_hash_input(e));
    if block_hash(e) == b.hash {
        lemma_middle_cancel(x, decimal(t1.amount), decimal(t2.amount), y);
        lemma_decimal_injective(t1.amount, t2.amount);
    }
    lemma_tamper_detected(c, e);
    assert(BlockView { hash: c[1].hash, ..e } == e);
}

} // verus!
