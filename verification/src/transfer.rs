//! A simple account-style transfer record: the earliest transaction form
//! of the project, kept alongside the UTXO model.

use vstd::prelude::*;
use vstd::string::StringSliceAdditionalSpecFns;
use vstd::utf8::encode_utf8;

use crate::clock::now_millis;
use crate::crypto::{ecdsa_sig_ok, ecdsa_verifies};
use crate::keys::keypair::ecdsa_sign_some;
use crate::wallet::Wallet;

verus! {

/// The decimal digits of a number, most significant first.
pub open spec fn spec_decimal_u128(n: int) -> Seq<u8>
    recommends
        n >= 0,
    decreases n,
{
    if n < 10 {
        seq![(48 + if n >= 0 { n } else { 0 }) as u8]
    } else {
        spec_decimal_u128(n / 10).push((48 + n % 10) as u8)
    }
}

/// Appends the decimal rendering of a u64.
fn push_decimal_u64(out: &mut Vec<u8>, n: u64)
    ensures
        final(out)@ == old(out)@ + spec_decimal_u128(n as int),
    decreases n,
{
    if n < 10 {
        out.push(48 + (n as u8));
        assert(out@ =~= old(out)@ + spec_decimal_u128(n as int));
    } else {
        push_decimal_u64(out, n / 10);
        out.push(48 + ((n % 10) as u8));
        assert(out@ =~= old(out)@ + spec_decimal_u128(n as int));
    }
}

/// Appends the decimal rendering of a u128.
fn push_decimal_u128(out: &mut Vec<u8>, n: u128)
    ensures
        final(out)@ == old(out)@ + spec_decimal_u128(n as int),
    decreases n,
{
    if n < 10 {
        out.push(48 + (n as u8));
        assert(out@ =~= old(out)@ + spec_decimal_u128(n as int));
    } else {
        push_decimal_u128(out, n / 10);
        out.push(48 + ((n % 10) as u8));
        assert(out@ =~= old(out)@ + spec_decimal_u128(n as int));
    }
}

/// The byte string a transfer signs: sender, recipient, then the decimal
/// renderings of amount and timestamp.
pub open spec fn spec_signable_message(
    sender: Seq<char>,
    recipient: Seq<char>,
    amount: u64,
    timestamp: u128,
) -> Seq<u8> {
    encode_utf8(sender) + encode_utf8(recipient) + spec_decimal_u128(amount as int)
        + spec_decimal_u128(timestamp as int)
}

/// A signed (or unsigned) transfer of an amount between two named
/// parties.
pub struct Transaction {
    pub sender: String,
    pub recipient: String,
    pub amount: u64,
    pub timestamp: u128,
    pub signature: Option<Vec<u8>>,
}

impl Transaction {
    /// The bytes a transfer with these fields signs.
    pub fn signable_message(sender: &str, recipient: &str, amount: u64, timestamp: u128) -> (r:
        Vec<u8>)
        ensures
            r@ == spec_signable_message(sender@, recipient@, amount, timestamp),
    {
        let mut message: Vec<u8> = Vec::new();
        let mut sender_bytes = vstd::slice::slice_to_vec(sender.as_bytes());
        message.append(&mut sender_bytes);
        let mut recipient_bytes = vstd::slice::slice_to_vec(recipient.as_bytes());
        message.append(&mut recipient_bytes);
        push_decimal_u64(&mut message, amount);
        push_decimal_u128(&mut message, timestamp);
        assert(message@ =~= spec_signable_message(sender@, recipient@, amount, timestamp));
        message
    }

    /// Stamps the current time and, when a wallet is given, signs the
    /// transfer with it.
    pub fn new(sender: &str, recipient: &str, amount: u64, wallet: Option<&Wallet>) -> (r:
        Transaction)
        ensures
            r.sender@ == sender@,
            r.recipient@ == recipient@,
            r.amount == amount,
            wallet is None ==> r.signature is None,
            wallet matches Some(w) ==> (r.signature is Some <==> ecdsa_sign_some(
                w@,
                spec_signable_message(sender@, recipient@, amount, r.timestamp),
            )),
            wallet matches Some(w) ==> (r.signature matches Some(sig) ==> {
                &&& ecdsa_sig_ok(sig@)
                &&& ecdsa_verifies(
                    w@,
                    spec_signable_message(sender@, recipient@, amount, r.timestamp),
                    sig@,
                )
            }),
    {
        let timestamp = now_millis();
        let message = Self::signable_message(sender, recipient, amount, timestamp);
        let signature: Option<Vec<u8>> = match wallet {
            Some(w) => {
                match w.sign(message.as_slice()) {
                    Ok(sig) => Some(sig),
                    Err(_) => None,
                }
            },
            None => None,
        };
        Transaction {
            sender: sender.to_string(),
            recipient: recipient.to_string(),
            amount,
            timestamp,
            signature,
        }
    }

    /// Checks the transfer's signature under a wallet's key. An unsigned
    /// transfer never verifies.
    pub fn verify(&self, wallet: &Wallet) -> (r: bool)
        ensures
            r == (self.signature matches Some(sig) && ecdsa_sig_ok(sig@) && ecdsa_verifies(
                wallet@,
                spec_signable_message(
                    self.sender@,
                    self.recipient@,
                    self.amount,
                    self.timestamp,
                ),
                sig@,
            )),
    {
        match &self.signature {
            Some(signature) => {
                let message = Self::signable_message(
                    self.sender.as_str(),
                    self.recipient.as_str(),
                    self.amount,
                    self.timestamp,
                );
                wallet.verify(message.as_slice(), signature.as_slice())
            },
            None => false,
        }
    }
}

} // verus!
