use btn_blockchain::block::Block;
use btn_blockchain::digest::hex_sha256;
use btn_blockchain::ledger::NativeBlockchain;
use btn_blockchain::text::{push_decimal, push_quoted};
use btn_blockchain::transaction::Transaction;
use sha2::{Digest, Sha256};

fn sha_hex(s: &str) -> String {
    Sha256::digest(s.as_bytes())
        .iter()
        .map(|b| format!("{:02x}", b))
        .collect()
}

fn tx(from: &str, to: &str, amount: u64, ts: u64) -> Transaction {
    Transaction::new(from.to_string(), to.to_string(), amount, ts)
}

fn stats_field(l: &NativeBlockchain, key: &str) -> String {
    let s = l.get_blockchain_stats();
    let pat = format!("\"{}\":", key);
    let start = s.find(&pat).unwrap() + pat.len();
    let rest = &s[start..];
    let end = rest.find(|c| c == ',' || c == '}').unwrap();
    rest[..end].to_string()
}

#[test]
fn genesis_invariant() {
    let l = NativeBlockchain::new(1_700_000_000_000);
    assert_eq!(l.get_chain_length(), 1);
    assert_eq!(stats_field(&l, "difficulty"), "2");
    assert_eq!(stats_field(&l, "pending_transactions"), "0");
    assert!(l.is_chain_valid());
    let g = l.get_latest_block().unwrap();
    assert_eq!(g.index(), 0);
    assert_eq!(g.previous_hash(), "0");
    assert_eq!(g.nonce(), 0);
    assert_eq!(g.merkle_root(), "");
    assert_eq!(g.hash(), g.calculate_hash());
}

#[test]
fn fresh_stats_text() {
    let l = NativeBlockchain::new(5);
    assert_eq!(
        l.get_blockchain_stats(),
        "{\"blocks\":1,\"difficulty\":2,\"is_valid\":true,\"pending_transactions\":0,\"total_addresses\":0}"
    );
}

#[test]
fn transaction_fields_and_hash() {
    let t = tx("alice", "bob", 25, 1000);
    assert_eq!(t.from(), "alice");
    assert_eq!(t.to(), "bob");
    assert_eq!(t.amount(), 25);
    assert_eq!(t.timestamp(), 1000);
    assert_eq!(t.calculate_hash(), sha_hex("alicebob251000"));
    assert_eq!(t.calculate_hash().len(), 64);
}

#[test]
fn digest_of_known_text() {
    assert_eq!(
        hex_sha256("abc"),
        "ba7816bf8f01cfea414140de5dae2223b00361a396177a9cb410ff61f20015ad"
    );
    assert_eq!(
        hex_sha256(""),
        "e3b0c44298fc1c149afbf4c8996fb92427ae41e4649b934ca495991b7852b855"
    );
}

#[test]
fn decimal_and_quoting() {
    let mut s = String::from("n=");
    push_decimal(&mut s, 0);
    push_decimal(&mut s, 12345);
    assert_eq!(s, "n=012345");
    let mut q = String::new();
    push_quoted(&mut q, "a\"b\\c");
    assert_eq!(q, "\"a\\\"b\\\\c\"");
}

#[test]
fn merkle_root_of_empty_and_single() {
    let b = Block::new(1, Vec::new(), "p".to_string(), 7);
    assert_eq!(b.calculate_merkle_root(), "");
    let t = tx("a", "b", 1, 2);
    let h = t.calculate_hash();
    let b1 = Block::new(1, vec![t], "p".to_string(), 7);
    assert_eq!(b1.merkle_root(), h);
}

#[test]
fn merkle_root_of_two() {
    let t1 = tx("a", "b", 1, 2);
    let t2 = tx("c", "d", 3, 4);
    let expected = sha_hex(&format!("{}{}", t1.calculate_hash(), t2.calculate_hash()));
    let b = Block::new(1, vec![t1, t2], "p".to_string(), 7);
    assert_eq!(b.merkle_root(), expected);
}

#[test]
fn merkle_determinism_and_sensitivity() {
    let make = |amount: u64, from: &str, to: &str, swap: bool| {
        let mut txs = vec![tx(from, to, amount, 10), tx("x", "y", 5, 11)];
        if swap {
            txs.swap(0, 1);
        }
        Block::new(3, txs, "prev".to_string(), 99).calculate_merkle_root()
    };
    let base = make(10, "a", "b", false);
    assert_eq!(base, make(10, "a", "b", false));
    assert_ne!(base, make(11, "a", "b", false));
    assert_ne!(base, make(10, "z", "b", false));
    assert_ne!(base, make(10, "a", "z", false));
    assert_ne!(base, make(10, "a", "b", true));
}

#[test]
fn odd_count_duplication() {
    let txs = vec![tx("a", "b", 1, 1), tx("c", "d", 2, 2), tx("e", "f", 3, 3)];
    let h: Vec<String> = txs.iter().map(|t| t.calculate_hash()).collect();
    let l1 = sha_hex(&format!("{}{}", h[0], h[1]));
    let l2 = sha_hex(&format!("{}{}", h[2], h[2]));
    let root = sha_hex(&format!("{}{}", l1, l2));
    let b = Block::new(2, txs, "prev".to_string(), 5);
    assert_eq!(b.merkle_root(), root);
}

#[test]
fn block_hash_exact() {
    let t = tx("a", "b", 1, 2);
    let b = Block::new(4, vec![t], "ph".to_string(), 77);
    let json = "[{\"from\":\"a\",\"to\":\"b\",\"amount\":1,\"timestamp\":2,\"signature\":\"\"}]";
    let data = format!("{}{}{}{}{}{}", 4, 77, "ph", b.merkle_root(), 0, json);
    assert_eq!(b.hash(), sha_hex(&data));
    assert_eq!(b.calculate_hash(), b.hash());
}

#[test]
fn mining_correctness() {
    let mut b = Block::new(1, vec![tx("system", "m", 100, 3)], "prev".to_string(), 3);
    assert!(b.mine_block(2));
    assert!(b.hash().starts_with("00"));
    assert_eq!(b.hash(), b.calculate_hash());
}

#[test]
fn mining_at_zero_difficulty_keeps_block() {
    let mut b = Block::new(1, Vec::new(), "prev".to_string(), 3);
    let h = b.hash();
    assert!(b.mine_block(0));
    assert_eq!(b.nonce(), 0);
    assert_eq!(b.hash(), h);
}

#[test]
fn tampered_amount_changes_block_hash() {
    let untouched = Block::new(1, vec![tx("a", "b", 10, 1)], "p".to_string(), 2);
    let edited = Block::new(1, vec![tx("a", "b", 11, 1)], "p".to_string(), 2);
    assert_ne!(untouched.calculate_hash(), edited.calculate_hash());
}

#[test]
fn balance_accounting() {
    let mut l = NativeBlockchain::new(1);
    l.add_transaction(tx("system", "A", 100, 2));
    assert!(l.mine_pending_transactions("miner".to_string(), 3));
    assert_eq!(l.get_balance("A"), 100);
    assert_eq!(l.get_balance("system"), 0);
    assert_eq!(l.get_balance("miner"), 100);
    assert_eq!(l.get_balance("nobody"), 0);
    assert_eq!(stats_field(&l, "total_addresses"), "2");
}

#[test]
fn transfer_debits_sender() {
    let mut l = NativeBlockchain::new(1);
    l.add_transaction(tx("system", "A", 100, 2));
    assert!(l.mine_pending_transactions("A".to_string(), 3));
    l.add_transaction(tx("A", "B", 30, 4));
    assert_eq!(stats_field(&l, "pending_transactions"), "1");
    assert!(l.mine_pending_transactions("C".to_string(), 5));
    assert_eq!(l.get_balance("A"), 170);
    assert_eq!(l.get_balance("B"), 30);
    assert_eq!(l.get_balance("C"), 100);
    assert!(l.is_chain_valid());
}

#[test]
fn pending_overdraft_is_not_checked_against_pool() {
    let mut l = NativeBlockchain::new(1);
    assert!(l.mine_pending_transactions("A".to_string(), 2));
    l.add_transaction(tx("A", "B", 80, 3));
    l.add_transaction(tx("A", "B", 80, 4));
    assert_eq!(stats_field(&l, "pending_transactions"), "2");
    assert!(l.mine_pending_transactions("M".to_string(), 5));
    assert_eq!(l.get_balance("A"), -60);
    assert_eq!(l.get_balance("B"), 160);
}

#[test]
fn insufficient_funds_rejection() {
    let mut l = NativeBlockchain::new(1);
    l.add_transaction(tx("poor", "B", 50, 2));
    assert_eq!(l.pending_count(), 0);
    assert_eq!(stats_field(&l, "pending_transactions"), "0");
    l.add_transaction(tx("poor", "B", 0, 2));
    assert_eq!(stats_field(&l, "pending_transactions"), "1");
}

#[test]
fn difficulty_ramp() {
    let mut l = NativeBlockchain::new(1);
    for i in 0..10u64 {
        assert!(l.mine_pending_transactions("m".to_string(), 10 + i));
        l.adjust_difficulty();
        if i < 8 {
            assert_eq!(stats_field(&l, "difficulty"), "2");
        }
    }
    assert_eq!(l.get_chain_length(), 11);
    assert_eq!(stats_field(&l, "difficulty"), "3");
    assert_eq!(l.difficulty(), 3);
    assert!(l.is_chain_valid());
}

#[test]
fn adjust_outside_multiple_of_ten_keeps_difficulty() {
    let mut l = NativeBlockchain::new(1);
    l.adjust_difficulty();
    assert_eq!(stats_field(&l, "difficulty"), "2");
}

#[test]
fn end_to_end_scenario() {
    let mut l = NativeBlockchain::new(1_000);
    l.add_transaction(tx("system", "Alice", 100, 1_001));
    assert!(l.mine_pending_transactions("Alice".to_string(), 1_002));
    assert_eq!(l.get_chain_length(), 2);
    assert_eq!(l.get_balance("Alice"), 200);
    assert_eq!(stats_field(&l, "pending_transactions"), "0");
    assert!(l.is_chain_valid());
    let latest = l.get_latest_block().unwrap();
    assert_eq!(latest.index(), 1);
    assert!(latest.hash().starts_with("00"));
    assert_eq!(latest.transactions().len(), 2);
}

#[test]
fn quoting_matches_json_strings() {
    for text in ["plain", "a\"b\\c", "line\nbreak\ttab\r", "\u{0}\u{1}\u{8}\u{b}\u{c}\u{1f} end", "\u{7f}é"] {
        let mut q = String::new();
        push_quoted(&mut q, text);
        assert_eq!(q, serde_json::to_string(text).unwrap());
    }
}

#[test]
fn block_hash_with_control_characters() {
    let t = tx("a\nb", "c\u{1}", 1, 2);
    let b = Block::new(4, vec![t], "ph".to_string(), 77);
    let json = format!(
        "[{{\"from\":{},\"to\":{},\"amount\":1,\"timestamp\":2,\"signature\":\"\"}}]",
        serde_json::to_string("a\nb").unwrap(),
        serde_json::to_string("c\u{1}").unwrap()
    );
    let data = format!("{}{}{}{}{}{}", 4, 77, "ph", b.merkle_root(), 0, json);
    assert_eq!(b.hash(), sha_hex(&data));
}
