use vstd::prelude::*;

use crate::address::Address;
use crate::txmodel::Transaction;
use crate::types::{Account, RuneId, RunicUtxo, Utxo};

verus! {

/// A fully assembled, not yet signed transaction of one of the four shapes,
/// together with the outputs it spends and everything signing needs.
pub enum TransactionType {
    /// A plain bitcoin send signed by one account.
    Bitcoin {
        addr: String,
        utxos: Vec<Utxo>,
        signer_account: Account,
        signer_address: Address,
        txn: Transaction,
    },
    /// A bitcoin send funded by two senders, each signing their own inputs.
    LegoBitcoin {
        addr0: String,
        addr1: String,
        account0: Account,
        account1: Account,
        address0: Address,
        address1: Address,
        utxos0: Vec<Utxo>,
        utxos1: Vec<Utxo>,
        amount0: u64,
        amount1: u64,
        fee: u64,
        paid_by_sender: bool,
        receiver: Address,
        txn: Transaction,
    },
    /// A rune transfer: runic inputs from the sender, fee inputs from the
    /// fee payer.
    Runestone {
        sender_addr: String,
        receiver_addr: String,
        sender_account: Account,
        receiver_account: Account,
        runeid: RuneId,
        amount: u128,
        fee: u64,
        runic_utxos: Vec<RunicUtxo>,
        fee_utxos: Vec<Utxo>,
        paid_by_sender: bool,
        sender_address: Address,
        receiver_address: Address,
        postage: u64,
        txn: Transaction,
    },
    /// A rune transfer and a bitcoin payment to the same receiver in one
    /// transaction.
    Combined {
        sender_addr: String,
        receiver_addr: String,
        sender_address: Address,
        receiver_address: Address,
        sender_account: Account,
        receiver_account: Account,
        runic_utxos: Vec<RunicUtxo>,
        btc_utxos: Vec<Utxo>,
        fee_utxos: Vec<Utxo>,
        runeid: RuneId,
        rune_amount: u128,
        btc_amount: u64,
        fee: u64,
        postage: u64,
        paid_by_sender: bool,
        txn: Transaction,
    },
}

/// The identifier of a transaction accepted for broadcast.
pub enum SubmittedTransactionIdType {
    Bitcoin { txid: String },
}


/// Which account signs each input of a built transaction: `true` where the
/// sender's (or, for a two-sender send, the first sender's) key signs,
/// `false` where the receiver's (or second sender's) key signs. Runic and
/// sender-funded inputs come first in every shape, so the flag is a prefix
/// test; when the sender pays the fee there is no other signer at all.
pub fn signer_flags(t: &TransactionType) -> (r: Vec<bool>)
    ensures
        (t matches TransactionType::Bitcoin { txn, .. } ==> r@ == Seq::new(
            txn.input@.len(),
            |i: int| true,
        )),
        (t matches TransactionType::LegoBitcoin { txn, utxos0, .. } ==> r@ == Seq::new(
            txn.input@.len(),
            |i: int| i < utxos0@.len(),
        )),
        (t matches TransactionType::Runestone { txn, runic_utxos, paid_by_sender, .. } ==> r@
            == Seq::new(
            txn.input@.len(),
            |i: int| i < runic_utxos@.len() || *paid_by_sender,
        )),
        (t matches TransactionType::Combined {
            txn,
            runic_utxos,
            btc_utxos,
            paid_by_sender,
            ..
        } ==> r@ == Seq::new(
            txn.input@.len(),
            |i: int| i < runic_utxos@.len() + btc_utxos@.len() || *paid_by_sender,
        )),
{
    let mut r: Vec<bool> = Vec::new();
    match t {
        TransactionType::Bitcoin { txn, .. } => {
            let n = txn.input.len();
            let mut i: usize = 0;
            while i < n
                invariant
                    i <= n,
                    r@ =~= Seq::new(i as nat, |k: int| true),
                decreases n - i,
            {
                r.push(true);
                proof {
                    assert(r@ =~= Seq::new((i + 1) as nat, |k: int| true));
                }
                i = i + 1;
            }
        },
        TransactionType::LegoBitcoin { txn, utxos0, .. } => {
            let n = txn.input.len();
            let split = utxos0.len();
            let mut i: usize = 0;
            while i < n
                invariant
                    i <= n,
                    split == utxos0@.len(),
                    r@ =~= Seq::new(i as nat, |k: int| k < split),
                decreases n - i,
            {
                r.push(i < split);
                proof {
                    assert(r@ =~= Seq::new((i + 1) as nat, |k: int| k < split));
                }
                i = i + 1;
            }
        },
        TransactionType::Runestone { txn, runic_utxos, paid_by_sender, .. } => {
            let n = txn.input.len();
            let split = runic_utxos.len();
            let paid = *paid_by_sender;
            let mut i: usize = 0;
            while i < n
                invariant
                    i <= n,
                    split == runic_utxos@.len(),
                    paid == paid_by_sender,
                    r@ =~= Seq::new(i as nat, |k: int| k < split || paid),
                decreases n - i,
            {
                r.push(i < split || paid);
                proof {
                    assert(r@ =~= Seq::new((i + 1) as nat, |k: int| k < split || paid));
                }
                i = i + 1;
            }
        },
        TransactionType::Combined { txn, runic_utxos, btc_utxos, paid_by_sender, .. } => {
            let n = txn.input.len();
            let split_r = runic_utxos.len();
            let split_b = btc_utxos.len();
            let paid = *paid_by_sender;
            let mut i: usize = 0;
            while i < n
                invariant
                    i <= n,
                    split_r == runic_utxos@.len(),
                    split_b == btc_utxos@.len(),
                    paid == paid_by_sender,
                    r@ =~= Seq::new(i as nat, |k: int| k < split_r + split_b || paid),
                decreases n - i,
            {
                let sender_signed = i < split_r || (i >= split_r && i - split_r < split_b) || paid;
                proof {
                    assert(sender_signed == ((i as int) < split_r + split_b || paid));
                }
                r.push(sender_signed);
                proof {
                    assert(r@ =~= Seq::new(
                        (i + 1) as nat,
                        |k: int| k < split_r + split_b || paid,
                    ));
                }
                i = i + 1;
            }
        },
    }
    r
}

} // verus!

