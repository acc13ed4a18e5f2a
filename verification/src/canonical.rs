//! The canonical serialization that a block's hash is computed over.
//!
//! The preimage is the concatenation of four components: the timestamp in
//! decimal, the transactions as a compact JSON array of objects with the keys
//! `sender`, `receiver` and `amount` in that order, the previous block's hash
//! as it stands, and the nonce in decimal.

use crate::block::{Transaction, TransactionView};
use crate::encoding::{decimal_int, decimal_nat, hex_of, push_decimal_i64, push_decimal_u64, to_hex};
use crate::outside::{json_quote, json_string, sha256, sha256_digest};
use vstd::prelude::*;
use vstd::string::StringExecFns;
use vstd::utf8::encode_utf8;

verus! {

/// The views of a sequence of transactions, in order.
pub open spec fn transaction_views(transactions: Seq<Transaction>) -> Seq<TransactionView> {
    transactions.map_values(|t: Transaction| t@)
}

/// One transaction as a JSON object.
pub open spec fn transaction_json(t: TransactionView) -> Seq<char> {
    "{\"sender\":"@ + json_string(t.sender) + ",\"receiver\":"@ + json_string(t.receiver)
        + ",\"amount\":"@ + decimal_int(t.amount) + "}"@
}

/// The JSON objects of the transactions in order, separated by commas.
pub open spec fn transactions_joined(transactions: Seq<TransactionView>) -> Seq<char>
    decreases transactions.len(),
{
    if transactions.len() == 0 {
        Seq::empty()
    } else if transactions.len() == 1 {
        transaction_json(transactions[0])
    } else {
        transactions_joined(transactions.drop_last()) + ","@ + transaction_json(
            transactions.last(),
        )
    }
}

/// The transactions as a JSON array.
pub open spec fn transactions_json(transactions: Seq<TransactionView>) -> Seq<char> {
    "["@ + transactions_joined(transactions) + "]"@
}

/// The text that is hashed for a block with the given contents.
pub open spec fn preimage(
    timestamp: int,
    transactions: Seq<TransactionView>,
    previous_hash: Seq<char>,
    nonce: nat,
) -> Seq<char> {
    decimal_int(timestamp) + transactions_json(transactions) + previous_hash + decimal_nat(nonce)
}

/// The hash of a piece of text: the SHA-256 digest of its UTF-8 encoding in
/// lowercase hexadecimal.
pub open spec fn text_digest(text: Seq<char>) -> Seq<char> {
    hex_of(sha256_digest(encode_utf8(text)))
}

/// The hash of a block with the given contents. The stored hash of the block
/// is not part of what is hashed.
pub open spec fn block_digest(
    timestamp: int,
    transactions: Seq<TransactionView>,
    previous_hash: Seq<char>,
    nonce: nat,
) -> Seq<char> {
    text_digest(preimage(timestamp, transactions, previous_hash, nonce))
}

/// Appends one transaction as a JSON object to `out`.
pub fn push_transaction_json(out: &mut String, t: &Transaction)
    ensures
        final(out)@ == old(out)@ + transaction_json(t@),
{
    out.append("{\"sender\":");
    let sender = json_quote(t.sender.as_str());
    out.append(sender.as_str());
    out.append(",\"receiver\":");
    let receiver = json_quote(t.receiver.as_str());
    out.append(receiver.as_str());
    out.append(",\"amount\":");
    push_decimal_i64(out, t.amount);
    out.append("}");
}

/// Renders the transactions as a JSON array.
pub fn transactions_to_json(transactions: &Vec<Transaction>) -> (text: String)
    ensures
        text@ == transactions_json(transaction_views(transactions@)),
{
    let ghost views = transaction_views(transactions@);
    let mut text = String::new();
    text.append("[");
    let mut i: usize = 0;
    while i < transactions.len()
        invariant
            i <= transactions.len(),
            views == transaction_views(transactions@),
            text@ == "["@ + transactions_joined(views.take(i as int)),
        decreases transactions.len() - i,
    {
        if i > 0 {
            text.append(",");
        }
        push_transaction_json(&mut text, &transactions[i]);
        proof {
            let next = views.take(i + 1);
            assert(next.drop_last() == views.take(i as int));
            assert(next.last() == transactions@[i as int]@);
        }
        i += 1;
    }
    proof {
        assert(views.take(i as int) == views);
    }
    text.append("]");
    text
}

/// Builds the text that is hashed for a block with the given contents.
pub fn preimage_text(
    timestamp: i64,
    transactions: &Vec<Transaction>,
    previous_hash: &str,
    nonce: u64,
) -> (text: String)
    ensures
        text@ == preimage(
            timestamp as int,
            transaction_views(transactions@),
            previous_hash@,
            nonce as nat,
        ),
{
    let mut text = String::new();
    push_decimal_i64(&mut text, timestamp);
    let listed = transactions_to_json(transactions);
    text.append(listed.as_str());
    text.append(previous_hash);
    push_decimal_u64(&mut text, nonce);
    text
}

/// The number of characters of a hash: two for each of the 32 bytes of a
/// SHA-256 digest.
pub const HASH_LENGTH: usize = 64;

/// Hashes a piece of text.
pub fn digest_text(text: &str) -> (hash: String)
    ensures
        hash@ == text_digest(text@),
        hash@.len() == HASH_LENGTH,
{
    let digest = sha256(text.as_bytes());
    to_hex(digest.as_slice())
}

} // verus!
