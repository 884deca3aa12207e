//! Value-transfer records.
use vstd::prelude::*;
use crate::digest::{hex_digest, hex_sha256};
use crate::text::{decimal, push_decimal, push_quoted, push_text, quoted};

verus! {

/// What a transaction holds: sender, recipient, amount in whole units,
/// creation time in milliseconds since the epoch, and an unverified signature.
pub struct TxView {
    pub from: Seq<char>,
    pub to: Seq<char>,
    pub amount: nat,
    pub timestamp: nat,
    pub signature: Seq<char>,
}

pub struct Transaction {
    from: String,
    to: String,
    amount: u64,
    timestamp: u64,
    signature: String,
}

impl View for Transaction {
    type V = TxView;

    closed spec fn view(&self) -> TxView {
        TxView {
            from: self.from@,
            to: self.to@,
            amount: self.amount as nat,
            timestamp: self.timestamp as nat,
            signature: self.signature@,
        }
    }
}

pub open spec fn tx_views(txs: Seq<Transaction>) -> Seq<TxView> {
    txs.map_values(|t: Transaction| t@)
}

/// Copies of every transaction, in order.
pub fn duplicate_all(txs: &Vec<Transaction>) -> (r: Vec<Transaction>)
    ensures
        tx_views(r@) == tx_views(txs@),
{
    let mut r: Vec<Transaction> = Vec::new();
    let mut i: usize = 0;
    while i < txs.len()
        invariant
            i <= txs@.len(),
            r@.len() == i,
            forall|j: int| 0 <= j < i ==> #[trigger] r@[j]@ == txs@[j]@,
        decreases txs@.len() - i,
    {
        r.push(txs[i].duplicate());
        i = i + 1;
    }
    assert(tx_views(r@) =~= tx_views(txs@));
    r
}

/// The text whose digest is a transaction's content hash.
pub open spec fn tx_hash_input(t: TxView) -> Seq<char> {
    t.from + t.to + decimal(t.amount) + decimal(t.timestamp)
}

/// A transaction's content hash.
pub open spec fn tx_hash(t: TxView) -> Seq<char> {
    hex_digest(tx_hash_input(t))
}

/// A transaction as a JSON object, fields in declaration order.
pub open spec fn tx_json(t: TxView) -> Seq<char> {
    "{\"from\":"@ + quoted(t.from) + ",\"to\":"@ + quoted(t.to) + ",\"amount\":"@ + decimal(
        t.amount,
    ) + ",\"timestamp\":"@ + decimal(t.timestamp) + ",\"signature\":"@ + quoted(t.signature)
        + "}"@
}

impl Transaction {
    /// A transfer of `amount` from `from` to `to`, created at `timestamp`,
    /// with an empty signature.
    pub fn new(from: String, to: String, amount: u64, timestamp: u64) -> (r: Transaction)
        ensures
            r@ == (TxView {
                from: from@,
                to: to@,
                amount: amount as nat,
                timestamp: timestamp as nat,
                signature: Seq::empty(),
            }),
    {
        Transaction { from, to, amount, timestamp, signature: String::new() }
    }

    pub fn from(&self) -> (r: String)
        ensures
            r@ == self@.from,
    {
        self.from.clone()
    }

    pub fn to(&self) -> (r: String)
        ensures
            r@ == self@.to,
    {
        self.to.clone()
    }

    pub fn amount(&self) -> (r: u64)
        ensures
            r == self@.amount,
    {
        self.amount
    }

    pub fn timestamp(&self) -> (r: u64)
        ensures
            r == self@.timestamp,
    {
        self.timestamp
    }

    /// Whether the sender is `address`.
    pub fn is_from(&self, address: &str) -> (r: bool)
        ensures
            r == (self@.from == address@),
    {
        let a = String::from_str(address);
        self.from == a
    }

    /// A transaction equal to this one.
    pub fn duplicate(&self) -> (r: Transaction)
        ensures
            r@ == self@,
    {
        Transaction {
            from: self.from.clone(),
            to: self.to.clone(),
            amount: self.amount,
            timestamp: self.timestamp,
            signature: self.signature.clone(),
        }
    }

    /// The content hash: the hex SHA-256 digest of sender, recipient, amount
    /// and timestamp written one after another.
    pub fn calculate_hash(&self) -> (r: String)
        ensures
            r@ == tx_hash(self@),
            r@.len() == 64,
    {
        let mut data = String::new();
        push_text(&mut data, self.from.as_str());
        push_text(&mut data, self.to.as_str());
        push_decimal(&mut data, self.amount);
        push_decimal(&mut data, self.timestamp);
        assert(data@ =~= tx_hash_input(self@));
        hex_sha256(data.as_str())
    }

    /// Appends this transaction as a JSON object.
    pub fn push_json(&self, s: &mut String)
        ensures
            final(s)@ == old(s)@ + tx_json(self@),
    {
        push_text(s, "{\"from\":");
        push_quoted(s, self.from.as_str());
        push_text(s, ",\"to\":");
        push_quoted(s, self.to.as_str());
        push_text(s, ",\"amount\":");
        push_decimal(s, self.amount);
        push_text(s, ",\"timestamp\":");
        push_decimal(s, self.timestamp);
        push_text(s, ",\"signature\":");
        push_quoted(s, self.signature.as_str());
        push_text(s, "}");
        assert(final(s)@ =~= old(s)@ + tx_json(self@));
    }
}

} // verus!
