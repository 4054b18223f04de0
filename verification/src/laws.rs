use vstd::prelude::*;

use crate::address::AddressV;
use crate::builder::pools_unchanged;
use crate::manager::{sum_balances, sum_runic_values, sum_values, UtxoManagerV};
use crate::runestone::{rune_build_ok, spec_actual_required_btc, spec_need_change};
use crate::transaction::{plain_build_ok, spec_send_value, spec_total_amount};
use crate::txmodel::{sum_outputs, TransactionV, TxOutV};
use crate::types::{Network, RuneId, RunicUtxoV, UtxoV};
use crate::DUST_THRESHOLD;

verus! {

/// Bitcoin is conserved by a plain send: the drawn inputs' value equals the
/// outputs' value plus the fee, plus a dust remainder absorbed into the fee
/// when no change output was worth emitting.
pub proof fn lemma_plain_conservation(
    orig_pool: Seq<UtxoV>,
    m2: UtxoManagerV,
    addr: Seq<char>,
    from: AddressV,
    to: AddressV,
    amount: u64,
    fee: u64,
    paid_by_sender: bool,
    txn: TransactionV,
    dv: Seq<UtxoV>,
)
    requires
        plain_build_ok(orig_pool, m2, addr, from, to, amount, fee, paid_by_sender, txn, dv),
    ensures
        ({
            let remaining = sum_values(dv) - spec_total_amount(amount, fee, paid_by_sender);
            let absorbed: int = if remaining > DUST_THRESHOLD {
                0
            } else {
                remaining
            };
            sum_values(dv) == sum_outputs(txn.output) + fee + absorbed
        }),
{
    let remaining = sum_values(dv) - spec_total_amount(amount, fee, paid_by_sender);
    let pay = TxOutV {
        value: spec_send_value(amount, fee, paid_by_sender) as u64,
        script_pubkey: crate::txmodel::p2pkh_script(to.hash),
    };
    let change = TxOutV {
        value: remaining as u64,
        script_pubkey: crate::txmodel::p2pkh_script(from.hash),
    };
    let outs = crate::transaction::spec_plain_outputs(
        crate::txmodel::p2pkh_script(to.hash),
        crate::txmodel::p2pkh_script(from.hash),
        spec_send_value(amount, fee, paid_by_sender) as u64,
        remaining as u64,
    );
    assert(txn.output == outs);
    assert(sum_outputs(Seq::<TxOutV>::empty()) == 0);
    assert(0 <= remaining <= u64::MAX);
    if remaining > DUST_THRESHOLD {
        assert(outs == seq![pay].push(change));
        assert(seq![pay].push(change).drop_last() =~= seq![pay]);
        assert(seq![pay].push(change).last() == change);
        assert(seq![pay].drop_last() =~= Seq::<TxOutV>::empty());
        assert(seq![pay].last() == pay);
        assert(sum_outputs(seq![pay]) == pay.value);
        assert(sum_outputs(seq![pay].push(change)) == pay.value + change.value);
        assert(sum_outputs(txn.output) == pay.value + change.value);
    } else {
        assert(outs == seq![pay]);
        assert(seq![pay].drop_last() =~= Seq::<TxOutV>::empty());
        assert(seq![pay].last() == pay);
        assert(sum_outputs(seq![pay]) == pay.value);
        assert(sum_outputs(txn.output) == pay.value);
    }
}

/// Runes are conserved by a rune transfer, and the receiver gets exactly
/// the requested amount: with a change output, the enciphered edict names
/// the requested amount for the receiver's postage output and the rest of
/// the drawn balance stays with the sender at the preceding output; without
/// one, the whole drawn balance, which then equals the requested amount,
/// flows to the receiver's single postage output.
pub proof fn lemma_rune_conservation(
    orig_runic: Seq<RunicUtxoV>,
    orig_fee_pool: Seq<UtxoV>,
    m2: UtxoManagerV,
    sender_addr: Seq<char>,
    fee_addr: Seq<char>,
    rune: RuneId,
    amount: u128,
    sender: AddressV,
    receiver: AddressV,
    fee: u64,
    postage: u64,
    txn: TransactionV,
    rdv: Seq<RunicUtxoV>,
    fdv: Seq<UtxoV>,
)
    requires
        rune_build_ok(
            orig_runic,
            orig_fee_pool,
            m2,
            sender_addr,
            fee_addr,
            rune,
            amount,
            sender,
            receiver,
            fee,
            postage,
            txn,
            rdv,
            fdv,
        ),
    ensures
        ({
            let total = sum_balances(rdv);
            let to_receiver: int = if spec_need_change(total as u128, amount, rdv.len() as int) {
                amount as int
            } else {
                total
            };
            let change_to_sender: int = total - to_receiver;
            &&& to_receiver == amount
            &&& to_receiver + change_to_sender == total
            &&& spec_need_change(total as u128, amount, rdv.len() as int) ==> txn.output[
                0
            ].script_pubkey == crate::runestone::runestone_script(rune.block, rune.tx, amount)
                && txn.output[0].value == 0
        }),
{
    let total = sum_balances(rdv);
    crate::manager::lemma_sum_balances_nonneg(rdv);
    if !spec_need_change(total as u128, amount, rdv.len() as int) {
        assert(!(total > amount));
        assert(total >= amount);
    }
}

/// An output drawn from a runic pool never appears among a transaction's
/// plain-bitcoin inputs: the runic and fee input sets of a rune transfer
/// spend disjoint outpoints.
pub proof fn lemma_no_runic_input_reused(
    orig_runic: Seq<RunicUtxoV>,
    orig_fee_pool: Seq<UtxoV>,
    m2: UtxoManagerV,
    sender_addr: Seq<char>,
    fee_addr: Seq<char>,
    rune: RuneId,
    amount: u128,
    sender: AddressV,
    receiver: AddressV,
    fee: u64,
    postage: u64,
    txn: TransactionV,
    rdv: Seq<RunicUtxoV>,
    fdv: Seq<UtxoV>,
)
    requires
        rune_build_ok(
            orig_runic,
            orig_fee_pool,
            m2,
            sender_addr,
            fee_addr,
            rune,
            amount,
            sender,
            receiver,
            fee,
            postage,
            txn,
            rdv,
            fdv,
        ),
    ensures
        forall|t: int, s: int|
            0 <= t < rdv.len() && 0 <= s < fdv.len() ==> (#[trigger] rdv[t]).utxo.outpoint != (
            #[trigger] fdv[s]).outpoint,
{
}

/// No output of a plain send carries a positive value at or below the dust
/// threshold, provided the payment itself is above it: change is only
/// emitted above the threshold, and a smaller remainder is absorbed by the
/// fee.
pub proof fn lemma_plain_dust_suppression(
    orig_pool: Seq<UtxoV>,
    m2: UtxoManagerV,
    addr: Seq<char>,
    from: AddressV,
    to: AddressV,
    amount: u64,
    fee: u64,
    paid_by_sender: bool,
    txn: TransactionV,
    dv: Seq<UtxoV>,
)
    requires
        plain_build_ok(orig_pool, m2, addr, from, to, amount, fee, paid_by_sender, txn, dv),
        spec_send_value(amount, fee, paid_by_sender) > DUST_THRESHOLD,
    ensures
        forall|k: int|
            0 <= k < txn.output.len() ==> (#[trigger] txn.output[k]).value == 0 || txn.output[
                k
            ].value > DUST_THRESHOLD,
{
    let remaining = sum_values(dv) - spec_total_amount(amount, fee, paid_by_sender);
    assert forall|k: int| 0 <= k < txn.output.len() implies (#[trigger] txn.output[k]).value == 0
        || txn.output[k].value > DUST_THRESHOLD by {
        if remaining > DUST_THRESHOLD {
            assert(txn.output.len() == 2);
        } else {
            assert(txn.output.len() == 1);
        }
    }
}

/// No output of a rune transfer carries a positive value at or below the
/// dust threshold, provided the postage is above it: the runestone output
/// is worth zero, postage outputs carry the postage, and the fee payer's
/// change is only emitted above the threshold.
pub proof fn lemma_rune_dust_suppression(
    orig_runic: Seq<RunicUtxoV>,
    orig_fee_pool: Seq<UtxoV>,
    m2: UtxoManagerV,
    sender_addr: Seq<char>,
    fee_addr: Seq<char>,
    rune: RuneId,
    amount: u128,
    sender: AddressV,
    receiver: AddressV,
    fee: u64,
    postage: u64,
    txn: TransactionV,
    rdv: Seq<RunicUtxoV>,
    fdv: Seq<UtxoV>,
)
    requires
        rune_build_ok(
            orig_runic,
            orig_fee_pool,
            m2,
            sender_addr,
            fee_addr,
            rune,
            amount,
            sender,
            receiver,
            fee,
            postage,
            txn,
            rdv,
            fdv,
        ),
        postage > DUST_THRESHOLD,
    ensures
        forall|k: int|
            0 <= k < txn.output.len() ==> (#[trigger] txn.output[k]).value == 0 || txn.output[
                k
            ].value > DUST_THRESHOLD,
{
    let total = sum_balances(rdv);
    let need_change = spec_need_change(total as u128, amount, rdv.len() as int);
    let actual = spec_actual_required_btc(need_change, postage, sum_runic_values(rdv) as u64);
    let remaining = sum_values(fdv) - fee - actual;
    assert forall|k: int| 0 <= k < txn.output.len() implies (#[trigger] txn.output[k]).value == 0
        || txn.output[k].value > DUST_THRESHOLD by {
        if need_change {
            if remaining > DUST_THRESHOLD {
                assert(txn.output.len() == 4);
            } else {
                assert(txn.output.len() == 3);
            }
        } else {
            if remaining > DUST_THRESHOLD {
                assert(txn.output.len() == 2);
            } else {
                assert(txn.output.len() == 1);
            }
        }
    }
}

/// Deriving a deposit address is deterministic: two derivations for the
/// same network and public key give the same text.
pub proof fn lemma_addressing_deterministic(
    network: Network,
    pubkey: Seq<u8>,
    text1: Seq<char>,
    text2: Seq<char>,
)
    requires
        text1 == crate::address::spec_p2pkh_text(network, pubkey),
        text2 == crate::address::spec_p2pkh_text(network, pubkey),
    ensures
        text1 == text2,
{
}

/// A rolled-back manager holds every pool's bag of outputs unchanged: when
/// a build fails or the fee loop restarts, each plain and runic pool's
/// contents return to the multiset they formed before the call.
pub proof fn lemma_rollback_preserves_bags(m1: UtxoManagerV, m2: UtxoManagerV)
    requires
        pools_unchanged(m1, m2),
    ensures
        forall|a: Seq<char>| #[trigger]
            m2.btc_pool(a).to_multiset() == m1.btc_pool(a).to_multiset(),
        forall|a: Seq<char>, rid: RuneId| #[trigger]
            m2.runic_pool(a, rid).to_multiset() == m1.runic_pool(a, rid).to_multiset(),
{
    assert forall|a: Seq<char>| true implies #[trigger] m2.btc_pool(a).to_multiset()
        == m1.btc_pool(a).to_multiset() by {
        assert(m2.btc_pool(a) == m1.btc_pool(a));
    }
    assert forall|a: Seq<char>, rid: RuneId| true implies #[trigger] m2.runic_pool(
        a,
        rid,
    ).to_multiset() == m1.runic_pool(a, rid).to_multiset() by {
        assert(m2.runic_pool(a, rid) == m1.runic_pool(a, rid));
    }
}

} // verus!
