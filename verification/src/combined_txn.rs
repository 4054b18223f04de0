use vstd::prelude::*;

use crate::address::{Address, AddressV};
use crate::builder::{btc_draw_count, inputs_match, inputs_match_runic, pools_unchanged,
    push_inputs, push_runic_inputs, take_btc_until, take_runic_until, lemma_suffix_restore,
    lemma_runic_suffix_restore, BuildSize, FeeOutcome};
use crate::encoding::compact_size;
use crate::manager::{batch_has_op, none_present, none_rpresent, ops_distinct, pool_has_rop,
    rops_distinct, runic_wf_seq, sum_balances, sum_runic_values, sum_values, utxos_wf_seq,
    UtxoManager, UtxoManagerV};
use crate::runestone::{runestone_script, spec_actual_required_btc, spec_need_change, spec_postage,
    spec_rune_outputs, lemma_pools_unchanged_btc_has_op};
use crate::transaction_handler::TransactionType;
use crate::txmodel::{lemma_mock_vsize, mock_sign, mock_signature, p2pkh_script,
    transaction_vsize, tx_vsize, wire_len_outputs, Transaction, TransactionV, TxOut, TxOutV};
use crate::types::{Account, RuneId, RunicUtxo, RunicUtxoV, Utxo, UtxoV};
use crate::DUST_THRESHOLD;

verus! {

/// The arguments of a combined rune and bitcoin transfer.
pub struct CombinedTransactionRequest<'a> {
    pub from_addr: &'a str,
    pub receiver_addr: &'a str,
    pub sender_address: Address,
    pub receiver_address: Address,
    pub runeid: RuneId,
    pub rune_amount: u128,
    pub btc_amount: u64,
    pub sender_account: Account,
    pub receiver_account: Account,
    pub postage: Option<u64>,
    pub fee_per_vbytes: u64,
    pub paid_by_sender: bool,
}

/// Everything a successful combined build guarantees: the sender's whole
/// runic pool for the rune is consumed, the sender's plain inputs cover the
/// bitcoin leg (and the fee when the sender pays), the fee payer's inputs
/// cover fee and missing postage otherwise, the receiver gets the rune
/// postage and the bitcoin payment, and non-dust remainders go back to
/// their owners.
pub open spec fn combined_build_ok(
    orig_runic: Seq<RunicUtxoV>,
    orig_btc: Seq<UtxoV>,
    orig_fee: Seq<UtxoV>,
    m2: UtxoManagerV,
    from_addr: Seq<char>,
    receiver_addr: Seq<char>,
    rune: RuneId,
    rune_amount: u128,
    btc_amount: u64,
    sender: AddressV,
    receiver: AddressV,
    fee: u64,
    postage: u64,
    paid_by_sender: bool,
    txn: TransactionV,
    rdv: Seq<RunicUtxoV>,
    bdv: Seq<UtxoV>,
    fdv: Seq<UtxoV>,
) -> bool {
    let total = sum_balances(rdv);
    let btc_in = sum_runic_values(rdv);
    let need_change = spec_need_change(total as u128, rune_amount, rdv.len() as int);
    let actual = spec_actual_required_btc(need_change, postage, btc_in as u64);
    let btc_total = sum_values(bdv);
    let fee_total = sum_values(fdv);
    let head = spec_rune_outputs(
        need_change,
        runestone_script(rune.block, rune.tx, rune_amount),
        p2pkh_script(sender.hash),
        p2pkh_script(receiver.hash),
        postage,
    );
    let with_pay = head.push(
        TxOutV { value: btc_amount, script_pubkey: p2pkh_script(receiver.hash) },
    );
    &&& txn.version == 2
    &&& txn.lock_time == 0
    &&& txn.input.len() == rdv.len() + bdv.len() + fdv.len()
    &&& inputs_match_runic(txn.input.take(rdv.len() as int), rdv)
    &&& inputs_match(txn.input.skip(rdv.len() as int).take(bdv.len() as int), bdv)
    &&& inputs_match(txn.input.skip(rdv.len() + bdv.len() as int), fdv)
    &&& total >= rune_amount
    &&& m2.runic_pool(from_addr, rune).len() == 0
    &&& btc_total <= u64::MAX
    &&& fee_total <= u64::MAX
    &&& (paid_by_sender ==> btc_total >= btc_amount + fee + actual && fdv.len() == 0)
    &&& (!paid_by_sender ==> btc_total >= btc_amount && fee_total >= fee + actual)
    &&& txn.output == (if paid_by_sender {
        let rem = btc_total - btc_amount - fee - actual;
        if rem > DUST_THRESHOLD {
            with_pay.push(TxOutV { value: rem as u64, script_pubkey: p2pkh_script(sender.hash) })
        } else {
            with_pay
        }
    } else {
        let rem_sender = btc_total - btc_amount;
        let rem_fee = fee_total - fee - actual;
        let with_sender = if rem_sender > DUST_THRESHOLD {
            with_pay.push(
                TxOutV { value: rem_sender as u64, script_pubkey: p2pkh_script(sender.hash) },
            )
        } else {
            with_pay
        };
        if rem_fee > DUST_THRESHOLD {
            with_sender.push(
                TxOutV { value: rem_fee as u64, script_pubkey: p2pkh_script(receiver.hash) },
            )
        } else {
            with_sender
        }
    })
    &&& rdv.len() == orig_runic.len()
    &&& forall|t: int| 0 <= t < rdv.len() ==> #[trigger] rdv[t] == orig_runic[orig_runic.len() - 1
        - t]
    &&& bdv.len() <= orig_btc.len()
    &&& m2.btc_pool(from_addr) == orig_btc.take(orig_btc.len() - bdv.len())
    &&& forall|t: int| 0 <= t < bdv.len() ==> #[trigger] bdv[t] == orig_btc[orig_btc.len() - 1 - t]
    &&& fdv.len() <= orig_fee.len()
    &&& (!paid_by_sender ==> m2.btc_pool(receiver_addr) == orig_fee.take(
        orig_fee.len() - fdv.len(),
    ))
    &&& (paid_by_sender ==> m2.btc_pool(receiver_addr) == orig_fee)
    &&& forall|t: int| 0 <= t < fdv.len() ==> #[trigger] fdv[t] == orig_fee[orig_fee.len() - 1 - t]
    &&& runic_wf_seq(rdv)
    &&& rops_distinct(rdv)
    &&& utxos_wf_seq(bdv)
    &&& ops_distinct(bdv)
    &&& utxos_wf_seq(fdv)
    &&& ops_distinct(fdv)
    &&& none_present(m2, bdv)
    &&& none_present(m2, fdv)
    &&& none_rpresent(m2, from_addr, rune, rdv)
    &&& forall|t: int, s: int|
        0 <= t < rdv.len() && 0 <= s < bdv.len() ==> (#[trigger] rdv[t]).utxo.outpoint != (
        #[trigger] bdv[s]).outpoint
    &&& forall|t: int, s: int|
        0 <= t < rdv.len() && 0 <= s < fdv.len() ==> (#[trigger] rdv[t]).utxo.outpoint != (
        #[trigger] fdv[s]).outpoint
    &&& forall|t: int, s: int|
        0 <= t < bdv.len() && 0 <= s < fdv.len() ==> (#[trigger] bdv[t]).outpoint != (
        #[trigger] fdv[s]).outpoint
    &&& sum_balances(rdv) == sum_balances(orig_runic)
    &&& sum_runic_values(rdv) == sum_runic_values(orig_runic)
    &&& sum_values(m2.btc_pool(from_addr)) + btc_total == sum_values(orig_btc)
    &&& (!paid_by_sender ==> sum_values(m2.btc_pool(receiver_addr)) + fee_total == sum_values(
        orig_fee,
    ))
}

/// The satoshis the fee payer must add beyond fee and payment when the
/// whole runic pool is drained: the postage of the rune outputs less what
/// the pool's outputs carry, floored at zero.
pub open spec fn combined_drawn_actual(
    pool: Seq<RunicUtxoV>,
    rune_amount: u128,
    postage: u64,
) -> int {
    spec_actual_required_btc(
        spec_need_change(sum_balances(pool) as u128, rune_amount, pool.len() as int),
        postage,
        sum_runic_values(pool) as u64,
    )
}

/// Why a combined build failed, as its error names it: the sender's runic
/// pool held less than the rune amount; or the sender's plain pool held
/// less than the bitcoin leg (plus fee and exactly the missing postage
/// when the sender pays); or, when the receiver pays, the receiver's plain
/// pool held less than the fee plus exactly the missing postage.
pub open spec fn combined_build_shortfall(
    m0: UtxoManagerV,
    from_addr: Seq<char>,
    receiver_addr: Seq<char>,
    rune: RuneId,
    rune_amount: u128,
    btc_amount: u64,
    fee: u64,
    postage: u64,
    paid_by_sender: bool,
    e: (u128, u64, u64),
) -> bool {
    let extra = combined_drawn_actual(m0.runic_pool(from_addr, rune), rune_amount, postage);
    ||| (e == (rune_amount, btc_amount, fee) && sum_balances(m0.runic_pool(from_addr, rune))
        < rune_amount)
    ||| (paid_by_sender && e.0 == rune_amount && e.2 == 0 && e.1 == btc_amount + fee + extra
        && sum_values(m0.btc_pool(from_addr)) < e.1)
    ||| (!paid_by_sender && e == (rune_amount, btc_amount, fee) && sum_values(
        m0.btc_pool(from_addr),
    ) < btc_amount)
    ||| (!paid_by_sender && e.0 == rune_amount && e.1 == btc_amount && e.2 == fee + extra
        && sum_values(m0.btc_pool(receiver_addr)) < e.2)
}

/// The deterministic size of the combined build at a fixed fee.
pub open spec fn combined_build_size(
    runic_pool: Seq<RunicUtxoV>,
    from_pool: Seq<UtxoV>,
    fee_pool: Seq<UtxoV>,
    rune: RuneId,
    rune_amount: u128,
    btc_amount: u64,
    fee: u64,
    postage: u64,
    paid_by_sender: bool,
    sender_hash: Seq<u8>,
    receiver_hash: Seq<u8>,
) -> BuildSize {
    if btc_amount + fee + 2 * postage > u64::MAX {
        BuildSize::OutOfRange
    } else if sum_balances(runic_pool) < rune_amount {
        BuildSize::Short
    } else {
        let d_r = runic_pool.len() as int;
        let total = sum_balances(runic_pool);
        let btc_in = sum_runic_values(runic_pool);
        let need_change = spec_need_change(total as u128, rune_amount, d_r);
        let actual = spec_actual_required_btc(need_change, postage, btc_in as u64);
        let btc_target: int = if paid_by_sender {
            btc_amount + fee + actual
        } else {
            btc_amount as int
        };
        if sum_values(from_pool) < btc_target {
            BuildSize::Short
        } else if !paid_by_sender && sum_values(fee_pool) < fee + actual {
            BuildSize::Short
        } else {
            let d_b = btc_draw_count(from_pool, btc_target, true);
            let btc_total = sum_values(from_pool) - sum_values(
                from_pool.take(from_pool.len() - d_b),
            );
            let d_f: int = if paid_by_sender {
                0
            } else {
                btc_draw_count(fee_pool, fee + actual, true)
            };
            let fee_total: int = if paid_by_sender {
                0
            } else {
                sum_values(fee_pool) - sum_values(fee_pool.take(fee_pool.len() - d_f))
            };
            let head = spec_rune_outputs(
                need_change,
                runestone_script(rune.block, rune.tx, rune_amount),
                p2pkh_script(sender_hash),
                p2pkh_script(receiver_hash),
                postage,
            );
            let with_pay = head.push(
                TxOutV { value: btc_amount, script_pubkey: p2pkh_script(receiver_hash) },
            );
            let outs = if paid_by_sender {
                let rem = btc_total - btc_amount - fee - actual;
                if rem > DUST_THRESHOLD {
                    with_pay.push(
                        TxOutV { value: rem as u64, script_pubkey: p2pkh_script(sender_hash) },
                    )
                } else {
                    with_pay
                }
            } else {
                let rem_sender = btc_total - btc_amount;
                let rem_fee = fee_total - fee - actual;
                let with_sender = if rem_sender > DUST_THRESHOLD {
                    with_pay.push(
                        TxOutV {
                            value: rem_sender as u64,
                            script_pubkey: p2pkh_script(sender_hash),
                        },
                    )
                } else {
                    with_pay
                };
                if rem_fee > DUST_THRESHOLD {
                    with_sender.push(
                        TxOutV {
                            value: rem_fee as u64,
                            script_pubkey: p2pkh_script(receiver_hash),
                        },
                    )
                } else {
                    with_sender
                }
            };
            BuildSize::Bytes(
                8 + compact_size((d_r + d_b + d_f) as nat).len() + 148 * (d_r + d_b + d_f)
                    + compact_size(outs.len()).len() + wire_len_outputs(outs),
            )
        }
    }
}

/// The fee iteration of a combined transfer.
pub open spec fn combined_fee_outcome(
    runic_pool: Seq<RunicUtxoV>,
    from_pool: Seq<UtxoV>,
    fee_pool: Seq<UtxoV>,
    rune: RuneId,
    rune_amount: u128,
    btc_amount: u64,
    postage: u64,
    paid_by_sender: bool,
    sender_hash: Seq<u8>,
    receiver_hash: Seq<u8>,
    rate: u64,
    fee: u64,
    budget: nat,
) -> FeeOutcome
    decreases budget,
{
    if budget == 0 {
        FeeOutcome::GaveUp
    } else {
        match combined_build_size(
            runic_pool,
            from_pool,
            fee_pool,
            rune,
            rune_amount,
            btc_amount,
            fee,
            postage,
            paid_by_sender,
            sender_hash,
            receiver_hash,
        ) {
            BuildSize::OutOfRange => FeeOutcome::GaveUp,
            BuildSize::Short => FeeOutcome::Shortfall { fee },
            BuildSize::Bytes(v) => {
                let g = v * rate as int / 1000;
                if g == fee {
                    FeeOutcome::Converged { fee }
                } else if g > u64::MAX {
                    FeeOutcome::GaveUp
                } else {
                    combined_fee_outcome(
                        runic_pool,
                        from_pool,
                        fee_pool,
                        rune,
                        rune_amount,
                        btc_amount,
                        postage,
                        paid_by_sender,
                        sender_hash,
                        receiver_hash,
                        rate,
                        g as u64,
                        (budget - 1) as nat,
                    )
                }
            },
        }
    }
}

/// Builds a combined transfer at a fixed fee: the sender's entire runic
/// pool for the rune is drawn, the sender's plain pool covers the bitcoin
/// leg (and the fee when the sender pays), and otherwise the receiver's
/// plain pool covers fee and missing postage. On a shortfall everything
/// drawn is returned and the pools are exactly as before.
#[verifier::rlimit(100)]
pub fn build_transaction_with_fee(
    manager: &mut UtxoManager,
    from_addr: &str,
    receiver_addr: &str,
    sender_address: &Address,
    receiver_address: &Address,
    runeid: &RuneId,
    rune_amount: u128,
    btc_amount: u64,
    postage: u64,
    fee: u64,
    paid_by_sender: bool,
) -> (r: Result<(Transaction, Vec<RunicUtxo>, Vec<Utxo>, Vec<Utxo>), (u128, u64, u64)>)
    requires
        old(manager)@.wf(),
        sender_address@.wf(),
        receiver_address@.wf(),
        from_addr@ != receiver_addr@,
        2 * postage <= u64::MAX,
        btc_amount + fee + 2 * postage <= u64::MAX,
    ensures
        final(manager)@.wf(),
        match r {
            Result::Ok((txn, runic_utxos, btc_utxos, fee_utxos)) => combined_build_ok(
                old(manager)@.runic_pool(from_addr@, *runeid),
                old(manager)@.btc_pool(from_addr@),
                old(manager)@.btc_pool(receiver_addr@),
                final(manager)@,
                from_addr@,
                receiver_addr@,
                *runeid,
                rune_amount,
                btc_amount,
                sender_address@,
                receiver_address@,
                fee,
                postage,
                paid_by_sender,
                txn@,
                runic_utxos.deep_view(),
                btc_utxos.deep_view(),
                fee_utxos.deep_view(),
            ) && (forall|a: Seq<char>, rid: RuneId|
                !(a == from_addr@ && rid == *runeid) ==> #[trigger] final(manager)@.runic_pool(
                    a,
                    rid,
                ) == old(manager)@.runic_pool(a, rid)) && (forall|a: Seq<char>|
                a != from_addr@ && a != receiver_addr@ ==> #[trigger] final(manager)@.btc_pool(a)
                    == old(manager)@.btc_pool(a)) && combined_build_size(
                old(manager)@.runic_pool(from_addr@, *runeid),
                old(manager)@.btc_pool(from_addr@),
                old(manager)@.btc_pool(receiver_addr@),
                *runeid,
                rune_amount,
                btc_amount,
                fee,
                postage,
                paid_by_sender,
                sender_address@.hash,
                receiver_address@.hash,
            ) == BuildSize::Bytes(tx_vsize(mock_sign(txn@)) as int),
            Result::Err(e) => pools_unchanged(old(manager)@, final(manager)@)
                && combined_build_size(
                old(manager)@.runic_pool(from_addr@, *runeid),
                old(manager)@.btc_pool(from_addr@),
                old(manager)@.btc_pool(receiver_addr@),
                *runeid,
                rune_amount,
                btc_amount,
                fee,
                postage,
                paid_by_sender,
                sender_address@.hash,
                receiver_address@.hash,
            ) is Short && (sum_balances(old(manager)@.runic_pool(from_addr@, *runeid))
                < rune_amount ==> e == (rune_amount, btc_amount, fee)) && combined_build_shortfall(
                old(manager)@,
                from_addr@,
                receiver_addr@,
                *runeid,
                rune_amount,
                btc_amount,
                fee,
                postage,
                paid_by_sender,
                e,
            ),
        },
{
    let ghost m0 = old(manager)@;
    let (runic_utxos, runic_total, btc_in) = match take_runic_until(
        manager,
        from_addr,
        runeid,
        rune_amount,
        true,
    ) {
        Result::Err(_) => {
            return Err((rune_amount, btc_amount, fee));
        },
        Result::Ok(t) => t,
    };
    let ghost m1 = manager@;
    let ghost rdv = runic_utxos.deep_view();
    let need_change = runic_total > rune_amount || runic_utxos.len() > 1;
    let required_btc = if need_change {
        2 * postage
    } else {
        postage
    };
    let actual_required = if btc_in >= required_btc {
        0
    } else {
        required_btc - btc_in
    };
    let btc_target = if paid_by_sender {
        btc_amount + fee + actual_required
    } else {
        btc_amount
    };
    let btc_draw = take_btc_until(manager, from_addr, btc_target, true);
    let (btc_utxos, btc_total) = match btc_draw {
        Result::Err(_) => {
            let ghost m2 = manager@;
            proof {
                assert(m1.btc == m0.btc);
                assert(sum_values(m0.btc_pool(from_addr@)) < btc_target);
                assert(actual_required <= 2 * postage);
                assert(paid_by_sender ==> btc_target == btc_amount + fee + actual_required);
                assert(!paid_by_sender ==> btc_target == btc_amount);
                crate::manager::lemma_runic_pool_sums_bounded(m0, from_addr@, *runeid);
                crate::manager::lemma_sum_balances_nonneg(m2.runic_pool(from_addr@, *runeid));
                crate::manager::lemma_sum_runic_values_nonneg(m2.runic_pool(from_addr@, *runeid));
                assert(m2.runic_pool(from_addr@, *runeid) == m1.runic_pool(from_addr@, *runeid));
                assert forall|t: int| 0 <= t < rdv.len() implies !m2.btc_has_op(
                    (#[trigger] rdv[t]).utxo.outpoint,
                ) && !pool_has_rop(
                    m2.runic_pool(from_addr@, *runeid),
                    rdv[t].utxo.outpoint,
                ) by {
                    if m2.btc_has_op(rdv[t].utxo.outpoint) {
                        lemma_pools_unchanged_btc_has_op(m1, m2, rdv[t].utxo.outpoint);
                    }
                }
                assert(sum_balances(rdv) == runic_total as int);
                assert(sum_runic_values(rdv) == btc_in as int);
                assert(sum_balances(m2.runic_pool(from_addr@, *runeid)) + runic_total as int
                    == sum_balances(m0.runic_pool(from_addr@, *runeid)));
                assert(sum_runic_values(m2.runic_pool(from_addr@, *runeid)) + btc_in as int
                    == sum_runic_values(m0.runic_pool(from_addr@, *runeid)));
            }
            manager.record_runic(from_addr, runeid, runic_utxos);
            proof {
                lemma_runic_suffix_restore(
                    m0.runic_pool(from_addr@, *runeid),
                    m2.runic_pool(from_addr@, *runeid),
                    rdv,
                    manager@.runic_pool(from_addr@, *runeid),
                );
                assert forall|a: Seq<char>, rid: RuneId| true implies
                    #[trigger] manager@.runic_pool(a, rid) == m0.runic_pool(a, rid) by {
                    if !(a == from_addr@ && rid == *runeid) {
                        assert(manager@.runic_pool(a, rid) == m2.runic_pool(a, rid));
                        assert(m2.runic_pool(a, rid) == m1.runic_pool(a, rid));
                    }
                }
                assert forall|a: Seq<char>| true implies #[trigger] manager@.btc_pool(a)
                    == m0.btc_pool(a) by {
                    assert(manager@.btc == m2.btc);
                    assert(m2.btc_pool(a) == m1.btc_pool(a));
                    assert(m1.btc == m0.btc);
                }
            }
            if paid_by_sender {
                return Err((rune_amount, btc_target, 0));
            }
            return Err((rune_amount, btc_amount, fee));
        },
        Result::Ok(t) => t,
    };
    let ghost m2b = manager@;
    let ghost bdv = btc_utxos.deep_view();
    let fee_target = fee + actual_required;
    let mut fee_utxos: Vec<Utxo> = Vec::new();
    let mut fee_total: u64 = 0;
    if !paid_by_sender {
        match take_btc_until(manager, receiver_addr, fee_target, true) {
            Result::Err(_) => {
                // give the bitcoin leg back, then the runic leg
                let ghost m3 = manager@;
                proof {
                    assert(m2b.btc_pool(receiver_addr@) == m1.btc_pool(receiver_addr@));
                    assert(m1.btc == m0.btc);
                    assert(sum_values(m0.btc_pool(receiver_addr@)) < fee_target);
                    assert(actual_required <= 2 * postage);
                    crate::manager::lemma_btc_pool_sum_bounded(m1, from_addr@);
                    crate::manager::lemma_sum_values_nonneg(m3.btc_pool(from_addr@));
                    crate::manager::lemma_sum_values_nonneg(bdv);
                    assert(m3.btc_pool(from_addr@) == m2b.btc_pool(from_addr@));
                    assert forall|t: int| 0 <= t < bdv.len() implies !m3.has_op(
                        (#[trigger] bdv[t]).outpoint,
                    ) by {
                        if m3.btc_has_op(bdv[t].outpoint) {
                            assert(m2b.btc_has_op(bdv[t].outpoint));
                        }
                        assert(m3.runic == m2b.runic);
                    }
                    assert(sum_values(m3.btc_pool(from_addr@)) + sum_values(bdv) == sum_values(
                        m1.btc_pool(from_addr@),
                    ));
                }
                manager.record_bitcoin(from_addr, btc_utxos);
                let ghost m4 = manager@;
                proof {
                    lemma_suffix_restore(
                        m1.btc_pool(from_addr@),
                        m3.btc_pool(from_addr@),
                        bdv,
                        m4.btc_pool(from_addr@),
                    );
                    crate::manager::lemma_runic_pool_sums_bounded(m0, from_addr@, *runeid);
                    crate::manager::lemma_sum_balances_nonneg(m4.runic_pool(from_addr@, *runeid));
                    crate::manager::lemma_sum_runic_values_nonneg(
                        m4.runic_pool(from_addr@, *runeid),
                    );
                    assert(m4.runic == m3.runic);
                    assert(m4.runic_pool(from_addr@, *runeid) == m3.runic_pool(
                        from_addr@,
                        *runeid,
                    ));
                    assert(m3.runic_pool(from_addr@, *runeid) == m2b.runic_pool(
                        from_addr@,
                        *runeid,
                    ));
                    assert(m2b.runic_pool(from_addr@, *runeid) == m1.runic_pool(
                        from_addr@,
                        *runeid,
                    ));
                    assert forall|t: int| 0 <= t < rdv.len() implies !m4.btc_has_op(
                        (#[trigger] rdv[t]).utxo.outpoint,
                    ) && !pool_has_rop(
                        m4.runic_pool(from_addr@, *runeid),
                        rdv[t].utxo.outpoint,
                    ) by {
                        assert(!m1.btc_has_op(rdv[t].utxo.outpoint));
                        assert(!pool_has_rop(
                            m1.runic_pool(from_addr@, *runeid),
                            rdv[t].utxo.outpoint,
                        ));
                        if m4.btc_has_op(rdv[t].utxo.outpoint) {
                            assert(m3.btc_has_op(rdv[t].utxo.outpoint) || batch_has_op(
                                bdv,
                                rdv[t].utxo.outpoint,
                            ));
                            if m3.btc_has_op(rdv[t].utxo.outpoint) {
                                assert(m2b.btc_has_op(rdv[t].utxo.outpoint));
                                assert(m1.btc_has_op(rdv[t].utxo.outpoint));
                            }
                            if batch_has_op(bdv, rdv[t].utxo.outpoint) {
                                let s = choose|s: int|
                                    0 <= s < bdv.len() && (#[trigger] bdv[s]).outpoint == rdv[
                                        t
                                    ].utxo.outpoint;
                                assert(m1.btc_has_op(bdv[s].outpoint));
                            }
                        }
                    }
                    assert(sum_balances(rdv) == runic_total as int);
                    assert(sum_runic_values(rdv) == btc_in as int);
                    assert(sum_balances(m4.runic_pool(from_addr@, *runeid)) + runic_total as int
                        == sum_balances(m0.runic_pool(from_addr@, *runeid)));
                    assert(sum_runic_values(m4.runic_pool(from_addr@, *runeid)) + btc_in as int
                        == sum_runic_values(m0.runic_pool(from_addr@, *runeid)));
                }
                manager.record_runic(from_addr, runeid, runic_utxos);
                proof {
                    lemma_runic_suffix_restore(
                        m0.runic_pool(from_addr@, *runeid),
                        m4.runic_pool(from_addr@, *runeid),
                        rdv,
                        manager@.runic_pool(from_addr@, *runeid),
                    );
                    assert forall|a: Seq<char>, rid: RuneId| true implies
                        #[trigger] manager@.runic_pool(a, rid) == m0.runic_pool(a, rid) by {
                        if !(a == from_addr@ && rid == *runeid) {
                            assert(manager@.runic_pool(a, rid) == m4.runic_pool(a, rid));
                            assert(m4.runic == m3.runic);
                            assert(m3.runic_pool(a, rid) == m2b.runic_pool(a, rid));
                            assert(m2b.runic_pool(a, rid) == m1.runic_pool(a, rid));
                        }
                    }
                    assert forall|a: Seq<char>| true implies #[trigger] manager@.btc_pool(a)
                        == m0.btc_pool(a) by {
                        assert(manager@.btc == m4.btc);
                        if a != from_addr@ {
                            assert(m4.btc_pool(a) == m3.btc_pool(a));
                            assert(m3.btc_pool(a) == m2b.btc_pool(a));
                        }
                        assert(m2b.btc_pool(a) == m1.btc_pool(a) || a == from_addr@);
                        assert(m1.btc == m0.btc);
                        if a == from_addr@ {
                            assert(m4.btc_pool(a) == m1.btc_pool(a));
                        }
                    }
                }
                return Err((rune_amount, btc_amount, fee + actual_required));
            },
            Result::Ok((fu, ft)) => {
                fee_utxos = fu;
                fee_total = ft;
            },
        }
    }
    let ghost m3f = manager@;
    let ghost fdv = fee_utxos.deep_view();
    let mut input: Vec<crate::txmodel::TxIn> = Vec::new();
    push_runic_inputs(&mut input, &runic_utxos);
    let ghost ins1 = input.deep_view();
    push_inputs(&mut input, &btc_utxos);
    let ghost ins2 = input.deep_view();
    push_inputs(&mut input, &fee_utxos);
    proof {
        assert(ins1.skip(0) =~= ins1);
        assert(inputs_match_runic(ins1, rdv));
        assert(ins2.take(rdv.len() as int) =~= ins1);
        assert(input.deep_view().take(rdv.len() as int) =~= ins1);
        assert(ins2.skip(rdv.len() as int).take(bdv.len() as int) =~= ins2.skip(
            rdv.len() as int,
        ));
        assert(input.deep_view().skip(rdv.len() as int).take(bdv.len() as int) =~= ins2.skip(
            rdv.len() as int,
        ));
        assert(input.deep_view().skip(ins2.len() as int) == input.deep_view().skip(
            rdv.len() + bdv.len() as int,
        ));
    }
    let script = crate::runestone::encipher_transfer_edict(runeid.block, runeid.tx, rune_amount);
    let mut output: Vec<TxOut> = Vec::new();
    if need_change {
        output.push(TxOut { value: 0, script_pubkey: script });
        output.push(TxOut { value: postage, script_pubkey: sender_address.script_pubkey() });
        output.push(TxOut { value: postage, script_pubkey: receiver_address.script_pubkey() });
    } else {
        output.push(TxOut { value: postage, script_pubkey: receiver_address.script_pubkey() });
    }
    output.push(TxOut { value: btc_amount, script_pubkey: receiver_address.script_pubkey() });
    let ghost with_pay = output.deep_view();
    if paid_by_sender {
        let rem = btc_total - btc_amount - fee - actual_required;
        if rem > crate::dust_threshold() {
            output.push(TxOut { value: rem, script_pubkey: sender_address.script_pubkey() });
        }
    } else {
        let rem_sender = btc_total - btc_amount;
        if rem_sender > crate::dust_threshold() {
            output.push(TxOut { value: rem_sender, script_pubkey: sender_address.script_pubkey() });
        }
        let rem_fee = fee_total - fee_target;
        if rem_fee > crate::dust_threshold() {
            output.push(TxOut { value: rem_fee, script_pubkey: receiver_address.script_pubkey() });
        }
    }
    let txn = Transaction { version: 2, lock_time: 0, input, output };
    proof {
        let need_change_s = spec_need_change(runic_total as u128, rune_amount, rdv.len() as int);
        assert(need_change == need_change_s);
        assert(actual_required as int == spec_actual_required_btc(need_change_s, postage, btc_in));
        let head = spec_rune_outputs(
            need_change_s,
            runestone_script(runeid.block, runeid.tx, rune_amount),
            p2pkh_script(sender_address@.hash),
            p2pkh_script(receiver_address@.hash),
            postage,
        );
        assert(with_pay =~= head.push(
            TxOutV { value: btc_amount, script_pubkey: p2pkh_script(receiver_address@.hash) },
        ));
        if paid_by_sender {
            let rem = sum_values(bdv) - btc_amount - fee - actual_required;
            if rem > DUST_THRESHOLD {
                assert(txn@.output =~= with_pay.push(
                    TxOutV {
                        value: rem as u64,
                        script_pubkey: p2pkh_script(sender_address@.hash),
                    },
                ));
            } else {
                assert(txn@.output =~= with_pay);
            }
        } else {
            let rem_sender = sum_values(bdv) - btc_amount;
            let rem_fee = sum_values(fdv) - fee - actual_required;
            let with_sender = if rem_sender > DUST_THRESHOLD {
                with_pay.push(
                    TxOutV {
                        value: rem_sender as u64,
                        script_pubkey: p2pkh_script(sender_address@.hash),
                    },
                )
            } else {
                with_pay
            };
            assert(fee_total as int == sum_values(fdv));
            if rem_fee > DUST_THRESHOLD {
                assert(txn@.output =~= with_sender.push(
                    TxOutV {
                        value: rem_fee as u64,
                        script_pubkey: p2pkh_script(receiver_address@.hash),
                    },
                ));
            } else {
                assert(txn@.output =~= with_sender);
            }
        }
        if paid_by_sender {
            assert(fdv =~= Seq::<UtxoV>::empty());
        }
        // the three input groups are pairwise distinct
        assert forall|t: int, s: int| 0 <= t < rdv.len() && 0 <= s < bdv.len() implies (
        #[trigger] rdv[t]).utxo.outpoint != (#[trigger] bdv[s]).outpoint by {
            assert(!m1.btc_has_op(rdv[t].utxo.outpoint));
            assert(m1.btc_has_op(bdv[s].outpoint));
        }
        assert forall|t: int, s: int| 0 <= t < rdv.len() && 0 <= s < fdv.len() implies (
        #[trigger] rdv[t]).utxo.outpoint != (#[trigger] fdv[s]).outpoint by {
            if m2b.btc_has_op(fdv[s].outpoint) {
                if rdv[t].utxo.outpoint == fdv[s].outpoint {
                    assert(!m1.btc_has_op(rdv[t].utxo.outpoint));
                    assert(m2b.btc_has_op(rdv[t].utxo.outpoint));
                    assert(m1.btc_has_op(rdv[t].utxo.outpoint));
                }
            }
        }
        assert forall|t: int, s: int| 0 <= t < bdv.len() && 0 <= s < fdv.len() implies (
        #[trigger] bdv[t]).outpoint != (#[trigger] fdv[s]).outpoint by {
            assert(!m2b.has_op(bdv[t].outpoint));
            assert(m2b.btc_has_op(fdv[s].outpoint));
        }
        // the earlier batches stay absent through the later draws
        assert forall|t: int| 0 <= t < bdv.len() implies !manager@.has_op(
            (#[trigger] bdv[t]).outpoint,
        ) by {
            if manager@.btc_has_op(bdv[t].outpoint) {
                assert(m2b.btc_has_op(bdv[t].outpoint));
            }
            assert(manager@.runic == m2b.runic);
        }
        assert forall|t: int| 0 <= t < rdv.len() implies !manager@.btc_has_op(
            (#[trigger] rdv[t]).utxo.outpoint,
        ) && !pool_has_rop(
            manager@.runic_pool(from_addr@, *runeid),
            rdv[t].utxo.outpoint,
        ) by {
            if manager@.btc_has_op(rdv[t].utxo.outpoint) {
                assert(m2b.btc_has_op(rdv[t].utxo.outpoint));
                assert(m1.btc_has_op(rdv[t].utxo.outpoint));
            }
            assert(manager@.runic == m2b.runic);
            assert(manager@.runic_pool(from_addr@, *runeid) == m2b.runic_pool(
                from_addr@,
                *runeid,
            ));
            assert(m2b.runic_pool(from_addr@, *runeid) == m1.runic_pool(from_addr@, *runeid));
        }
        assert(manager@.btc_pool(from_addr@) == m2b.btc_pool(from_addr@));
        if paid_by_sender {
            assert(manager@.btc_pool(receiver_addr@) == m2b.btc_pool(receiver_addr@));
            assert(m2b.btc_pool(receiver_addr@) == m1.btc_pool(receiver_addr@));
            assert(m1.btc == m0.btc);
        }
        assert(manager@.runic_pool(from_addr@, *runeid).len() == 0);
        assert(sum_balances(rdv) == runic_total as int);
        assert(sum_runic_values(rdv) == btc_in as int);
        assert(m1.runic_pool(from_addr@, *runeid) =~= Seq::<RunicUtxoV>::empty());
        assert(sum_balances(m1.runic_pool(from_addr@, *runeid)) == 0);
        assert(sum_runic_values(m1.runic_pool(from_addr@, *runeid)) == 0);
        assert(rdv.len() == m0.runic_pool(from_addr@, *runeid).len());
    }
    proof {
        assert forall|a: Seq<char>, rid: RuneId|
            !(a == from_addr@ && rid == *runeid) implies #[trigger] manager@.runic_pool(a, rid)
            == m0.runic_pool(a, rid) by {
            assert(manager@.runic == m2b.runic);
            assert(m2b.runic == m1.runic);
            assert(manager@.runic_pool(a, rid) == m1.runic_pool(a, rid));
            assert(m1.runic_pool(a, rid) == m0.runic_pool(a, rid));
        }
        assert forall|a: Seq<char>|
            a != from_addr@ && a != receiver_addr@ implies #[trigger] manager@.btc_pool(a)
            == m0.btc_pool(a) by {
            assert(manager@.btc_pool(a) == m2b.btc_pool(a));
            assert(m2b.btc_pool(a) == m1.btc_pool(a));
            assert(m1.btc == m0.btc);
        }
        // the deterministic sizing matches the built transaction
        let rpool = m0.runic_pool(from_addr@, *runeid);
        let bpool = m0.btc_pool(from_addr@);
        let fpool = m0.btc_pool(receiver_addr@);
        let fdv2 = fee_utxos.deep_view();
        assert(m1.btc_pool(from_addr@) == bpool);
        assert(bdv.len() == btc_draw_count(bpool, btc_target as int, true));
        if !paid_by_sender {
            assert(m2b.btc_pool(receiver_addr@) == fpool);
            assert(fdv2.len() == btc_draw_count(fpool, fee_target as int, true));
        }
        assert(combined_build_ok(
            rpool,
            bpool,
            fpool,
            manager@,
            from_addr@,
            receiver_addr@,
            *runeid,
            rune_amount,
            btc_amount,
            sender_address@,
            receiver_address@,
            fee,
            postage,
            paid_by_sender,
            txn@,
            rdv,
            bdv,
            fdv2,
        ));
        lemma_combined_sizing(
            rpool,
            bpool,
            fpool,
            manager@,
            from_addr@,
            receiver_addr@,
            *runeid,
            rune_amount,
            btc_amount,
            sender_address@,
            receiver_address@,
            fee,
            postage,
            paid_by_sender,
            txn@,
            rdv,
            bdv,
            fdv2,
        );
    }
    Ok((txn, runic_utxos, btc_utxos, fee_utxos))
}

/// The deterministic sizing names a successful combined build's virtual
/// size: the pools fix the draws, the draws fix the inputs and outputs,
/// and those fix the mock-signed serialization length.
#[verifier::rlimit(100)]
pub proof fn lemma_combined_sizing(
    orig_runic: Seq<RunicUtxoV>,
    orig_btc: Seq<UtxoV>,
    orig_fee: Seq<UtxoV>,
    m2: UtxoManagerV,
    from_addr: Seq<char>,
    receiver_addr: Seq<char>,
    rune: RuneId,
    rune_amount: u128,
    btc_amount: u64,
    sender: AddressV,
    receiver: AddressV,
    fee: u64,
    postage: u64,
    paid_by_sender: bool,
    txn: TransactionV,
    rdv: Seq<RunicUtxoV>,
    bdv: Seq<UtxoV>,
    fdv: Seq<UtxoV>,
)
    requires
        combined_build_ok(
            orig_runic,
            orig_btc,
            orig_fee,
            m2,
            from_addr,
            receiver_addr,
            rune,
            rune_amount,
            btc_amount,
            sender,
            receiver,
            fee,
            postage,
            paid_by_sender,
            txn,
            rdv,
            bdv,
            fdv,
        ),
        sender.wf(),
        receiver.wf(),
        btc_amount + fee + 2 * postage <= u64::MAX,
        bdv.len() == btc_draw_count(
            orig_btc,
            if paid_by_sender {
                btc_amount + fee + spec_actual_required_btc(
                    spec_need_change(sum_balances(rdv) as u128, rune_amount, rdv.len() as int),
                    postage,
                    sum_runic_values(rdv) as u64,
                )
            } else {
                btc_amount as int
            },
            true,
        ),
        !paid_by_sender ==> fdv.len() == btc_draw_count(
            orig_fee,
            fee + spec_actual_required_btc(
                spec_need_change(sum_balances(rdv) as u128, rune_amount, rdv.len() as int),
                postage,
                sum_runic_values(rdv) as u64,
            ),
            true,
        ),
    ensures
        combined_build_size(
            orig_runic,
            orig_btc,
            orig_fee,
            rune,
            rune_amount,
            btc_amount,
            fee,
            postage,
            paid_by_sender,
            sender.hash,
            receiver.hash,
        ) == BuildSize::Bytes(tx_vsize(mock_sign(txn)) as int),
{
    assert(rdv.len() == orig_runic.len());
    assert(orig_runic.take(0) =~= Seq::<RunicUtxoV>::empty());
    assert(sum_balances(orig_runic.take(0)) == 0);
    assert(sum_runic_values(orig_runic.take(0)) == 0);
    assert(sum_balances(rdv) == sum_balances(orig_runic));
    assert(sum_runic_values(rdv) == sum_runic_values(orig_runic));
    if paid_by_sender {
        assert(fdv =~= Seq::<UtxoV>::empty());
    }
    crate::manager::lemma_sum_values_nonneg(m2.btc_pool(from_addr));
    crate::manager::lemma_sum_values_nonneg(m2.btc_pool(receiver_addr));
    assert(sum_values(bdv) == sum_values(orig_btc) - sum_values(
        orig_btc.take(orig_btc.len() - bdv.len()),
    ));
    if !paid_by_sender {
        assert(sum_values(fdv) == sum_values(orig_fee) - sum_values(
            orig_fee.take(orig_fee.len() - fdv.len()),
        ));
    } else {
        assert(sum_values(fdv) == 0);
    }
    assert forall|i: int|
        0 <= i < txn.input.len() implies (#[trigger] txn.input[i]).previous_output.txid.len()
        == 32 by {
        if i < rdv.len() {
            assert(txn.input.take(rdv.len() as int)[i] == txn.input[i]);
            assert(txn.input[i].previous_output == rdv[i].utxo.outpoint);
            assert(rdv[i].wf());
        } else if i < rdv.len() + bdv.len() {
            assert(txn.input.skip(rdv.len() as int).take(bdv.len() as int)[i - rdv.len()]
                == txn.input[i]);
            assert(txn.input[i].previous_output == bdv[i - rdv.len()].outpoint);
            assert(bdv[i - rdv.len()].wf());
        } else {
            assert(txn.input.skip(rdv.len() + bdv.len() as int)[i - rdv.len() - bdv.len()]
                == txn.input[i]);
            assert(txn.input[i].previous_output == fdv[i - rdv.len() - bdv.len()].outpoint);
            assert(fdv[i - rdv.len() - bdv.len()].wf());
        }
    }
    lemma_mock_vsize(txn);
}


/// What a successful combined transfer returns.
pub open spec fn combined_transfer_ok(
    m0: UtxoManagerV,
    m2: UtxoManagerV,
    from_addr: Seq<char>,
    receiver_addr: Seq<char>,
    rune: RuneId,
    rune_amount: u128,
    btc_amount: u64,
    sender: AddressV,
    receiver: AddressV,
    paid_by_sender: bool,
    fee_per_vbytes: u64,
    postage: u64,
    t: TransactionType,
) -> bool {
    &&& t matches TransactionType::Combined { .. }
    &&& t matches TransactionType::Combined {
        sender_addr: rsa,
        receiver_addr: rra,
        sender_address: rsaddr,
        receiver_address: rraddr,
        sender_account: _,
        receiver_account: _,
        runic_utxos,
        btc_utxos,
        fee_utxos,
        runeid: rrune,
        rune_amount: ramount,
        btc_amount: rbtc,
        fee,
        postage: rpostage,
        paid_by_sender: rpaid,
        txn,
    } ==> {
        &&& rsa@ == from_addr
        &&& rra@ == receiver_addr
        &&& rsaddr@ == sender
        &&& rraddr@ == receiver
        &&& rrune == rune
        &&& ramount == rune_amount
        &&& rbtc == btc_amount
        &&& rpaid == paid_by_sender
        &&& rpostage == postage
        &&& combined_build_ok(
            m0.runic_pool(from_addr, rune),
            m0.btc_pool(from_addr),
            m0.btc_pool(receiver_addr),
            m2,
            from_addr,
            receiver_addr,
            rune,
            rune_amount,
            btc_amount,
            sender,
            receiver,
            fee,
            postage,
            paid_by_sender,
            txn@,
            runic_utxos.deep_view(),
            btc_utxos.deep_view(),
            fee_utxos.deep_view(),
        )
        &&& fee as int == tx_vsize(mock_sign(txn@)) * fee_per_vbytes as int / 1000
        &&& forall|a: Seq<char>, rid: RuneId|
            !(a == from_addr && rid == rune) ==> #[trigger] m2.runic_pool(a, rid)
                == m0.runic_pool(a, rid)
        &&& forall|a: Seq<char>|
            a != from_addr && a != receiver_addr ==> #[trigger] m2.btc_pool(a) == m0.btc_pool(a)
    }
}

/// Builds a combined rune and bitcoin transfer whose fee is a fixed point
/// of the mock-signed virtual size. Between attempts everything drawn is
/// returned; on failure the pools are exactly as before.
#[verifier::rlimit(60)]
pub fn transfer(manager: &mut UtxoManager, args: CombinedTransactionRequest) -> (r: Result<
    TransactionType,
    (u128, u64, u64),
>)
    requires
        old(manager)@.wf(),
        args.sender_address@.wf(),
        args.receiver_address@.wf(),
        args.from_addr@ != args.receiver_addr@,
        match args.postage {
            Option::Some(p) => 2 * p <= u64::MAX,
            Option::None => true,
        },
        args.btc_amount + 2 * spec_postage(args.postage) <= u64::MAX,
    ensures
        final(manager)@.wf(),
        match r {
            Result::Ok(t) => combined_transfer_ok(
                old(manager)@,
                final(manager)@,
                args.from_addr@,
                args.receiver_addr@,
                args.runeid,
                args.rune_amount,
                args.btc_amount,
                args.sender_address@,
                args.receiver_address@,
                args.paid_by_sender,
                args.fee_per_vbytes,
                spec_postage(args.postage),
                t,
            ) && (t matches TransactionType::Combined { sender_account, receiver_account, .. }
                ==> sender_account@ == args.sender_account@ && receiver_account@
                == args.receiver_account@),
            Result::Err(e) => pools_unchanged(old(manager)@, final(manager)@) && ((exists|f: u64|
                #[trigger] combined_build_shortfall(
                    old(manager)@,
                    args.from_addr@,
                    args.receiver_addr@,
                    args.runeid,
                    args.rune_amount,
                    args.btc_amount,
                    f,
                    spec_postage(args.postage),
                    args.paid_by_sender,
                    e,
                )) || e == (0u128, 0u64, u64::MAX)),
        },
        // the result follows the deterministic fee iteration: success is
        // owed at its first fixed point
        match combined_fee_outcome(
            old(manager)@.runic_pool(args.from_addr@, args.runeid),
            old(manager)@.btc_pool(args.from_addr@),
            old(manager)@.btc_pool(args.receiver_addr@),
            args.runeid,
            args.rune_amount,
            args.btc_amount,
            spec_postage(args.postage),
            args.paid_by_sender,
            args.sender_address@.hash,
            args.receiver_address@.hash,
            args.fee_per_vbytes,
            0,
            crate::transaction::MAX_FEE_ITERATIONS as nat,
        ) {
            FeeOutcome::Converged { fee } => r matches Result::Ok(t) && (t matches
                TransactionType::Combined { fee: rf, .. } ==> rf == fee),
            FeeOutcome::Shortfall { fee } => r matches Result::Err(e)
                && combined_build_shortfall(
                old(manager)@,
                args.from_addr@,
                args.receiver_addr@,
                args.runeid,
                args.rune_amount,
                args.btc_amount,
                fee,
                spec_postage(args.postage),
                args.paid_by_sender,
                e,
            ),
            FeeOutcome::GaveUp => r matches Result::Err(e) && e == (0u128, 0u64, u64::MAX),
        },
{
    let from_addr = args.from_addr;
    let receiver_addr = args.receiver_addr;
    let runeid = args.runeid;
    let rune_amount = args.rune_amount;
    let btc_amount = args.btc_amount;
    let fee_per_vbytes = args.fee_per_vbytes;
    let paid_by_sender = args.paid_by_sender;
    let postage: u64 = match args.postage {
        Option::Some(p) => p,
        Option::None => crate::DEFAULT_POSTAGE,
    };
    let sender_account = args.sender_account;
    let receiver_account = args.receiver_account;
    let sender_address = args.sender_address;
    let receiver_address = args.receiver_address;
    let ghost m0 = old(manager)@;
    let ghost outcome = combined_fee_outcome(
        m0.runic_pool(from_addr@, runeid),
        m0.btc_pool(from_addr@),
        m0.btc_pool(receiver_addr@),
        runeid,
        rune_amount,
        btc_amount,
        postage,
        paid_by_sender,
        sender_address@.hash,
        receiver_address@.hash,
        fee_per_vbytes,
        0,
        crate::transaction::MAX_FEE_ITERATIONS as nat,
    );
    let mut total_fee: u64 = 0;
    let mut iterations: u64 = 0;
    loop
        invariant_except_break
            m0 == old(manager)@,
            manager@.wf(),
            pools_unchanged(m0, manager@),
            iterations <= crate::transaction::MAX_FEE_ITERATIONS,
            sender_address@.wf(),
            receiver_address@.wf(),
            from_addr@ != receiver_addr@,
            2 * postage <= u64::MAX,
            btc_amount + 2 * postage <= u64::MAX,
            postage == spec_postage(args.postage),
            from_addr@ == args.from_addr@,
            receiver_addr@ == args.receiver_addr@,
            runeid == args.runeid,
            rune_amount == args.rune_amount,
            btc_amount == args.btc_amount,
            fee_per_vbytes == args.fee_per_vbytes,
            paid_by_sender == args.paid_by_sender,
            sender_address@ == args.sender_address@,
            receiver_address@ == args.receiver_address@,
            sender_account@ == args.sender_account@,
            receiver_account@ == args.receiver_account@,
            outcome == combined_fee_outcome(
                m0.runic_pool(from_addr@, runeid),
                m0.btc_pool(from_addr@),
                m0.btc_pool(receiver_addr@),
                runeid,
                rune_amount,
                btc_amount,
                postage,
                paid_by_sender,
                sender_address@.hash,
                receiver_address@.hash,
                fee_per_vbytes,
                0,
                crate::transaction::MAX_FEE_ITERATIONS as nat,
            ),
            outcome == combined_fee_outcome(
                m0.runic_pool(from_addr@, runeid),
                m0.btc_pool(from_addr@),
                m0.btc_pool(receiver_addr@),
                runeid,
                rune_amount,
                btc_amount,
                postage,
                paid_by_sender,
                sender_address@.hash,
                receiver_address@.hash,
                fee_per_vbytes,
                total_fee,
                (crate::transaction::MAX_FEE_ITERATIONS - iterations) as nat,
            ),
        ensures
            m0 == old(manager)@,
            manager@.wf(),
            pools_unchanged(m0, manager@),
            outcome == FeeOutcome::GaveUp,
        decreases crate::transaction::MAX_FEE_ITERATIONS - iterations,
    {
        if iterations >= crate::transaction::MAX_FEE_ITERATIONS {
            proof {
                assert(outcome == FeeOutcome::GaveUp);
            }
            break ;
        }
        iterations = iterations + 1;
        if total_fee > u64::MAX - btc_amount - 2 * postage {
            proof {
                assert(combined_build_size(
                    m0.runic_pool(from_addr@, runeid),
                    m0.btc_pool(from_addr@),
                    m0.btc_pool(receiver_addr@),
                    runeid,
                    rune_amount,
                    btc_amount,
                    total_fee,
                    postage,
                    paid_by_sender,
                    sender_address@.hash,
                    receiver_address@.hash,
                ) is OutOfRange);
                assert(outcome == FeeOutcome::GaveUp);
            }
            break ;
        }
        let ghost m_iter = manager@;
        let built = build_transaction_with_fee(
            manager,
            from_addr,
            receiver_addr,
            &sender_address,
            &receiver_address,
            &runeid,
            rune_amount,
            btc_amount,
            postage,
            total_fee,
            paid_by_sender,
        );
        let (txn, runic_utxos, btc_utxos, fee_utxos) = match built {
            Result::Err(e) => {
                proof {
                    assert(m_iter.runic_pool(from_addr@, runeid) == m0.runic_pool(
                        from_addr@,
                        runeid,
                    ));
                    assert(m_iter.btc_pool(from_addr@) == m0.btc_pool(from_addr@));
                    assert(m_iter.btc_pool(receiver_addr@) == m0.btc_pool(receiver_addr@));
                    assert(combined_build_shortfall(
                        m0,
                        args.from_addr@,
                        args.receiver_addr@,
                        args.runeid,
                        args.rune_amount,
                        args.btc_amount,
                        total_fee,
                        postage,
                        args.paid_by_sender,
                        e,
                    ));
                    // the iteration ends in a shortfall at this fee
                    assert(combined_build_size(
                        m0.runic_pool(from_addr@, runeid),
                        m0.btc_pool(from_addr@),
                        m0.btc_pool(receiver_addr@),
                        runeid,
                        rune_amount,
                        btc_amount,
                        total_fee,
                        postage,
                        paid_by_sender,
                        sender_address@.hash,
                        receiver_address@.hash,
                    ) is Short);
                    assert(outcome == FeeOutcome::Shortfall { fee: total_fee });
                }
                return Err(e);
            },
            Result::Ok(t) => t,
        };
        let signed_txn = mock_signature(&txn);
        let txn_vsize = transaction_vsize(&signed_txn);
        let v128 = txn_vsize as u128;
        let r128 = fee_per_vbytes as u128;
        proof {
            assert(v128 * r128 <= 0xffffffffffffffffffffffffffffffffu128) by (nonlinear_arith)
                requires
                    v128 <= 0xffffffffffffffffu128,
                    r128 <= 0xffffffffffffffffu128,
            ;
        }
        let new_fee_wide = v128 * r128 / 1000;
        proof {
            assert(new_fee_wide as int == tx_vsize(mock_sign(txn@)) * fee_per_vbytes as int
                / 1000);
            // the deterministic sizing names this build's virtual size
            assert(combined_build_size(
                m0.runic_pool(from_addr@, runeid),
                m0.btc_pool(from_addr@),
                m0.btc_pool(receiver_addr@),
                runeid,
                rune_amount,
                btc_amount,
                total_fee,
                postage,
                paid_by_sender,
                sender_address@.hash,
                receiver_address@.hash,
            ) == BuildSize::Bytes(tx_vsize(mock_sign(txn@)) as int));
        }
        if new_fee_wide == total_fee as u128 {
            proof {
                assert(outcome == FeeOutcome::Converged { fee: total_fee });
                assert(m_iter.runic_pool(from_addr@, runeid) == m0.runic_pool(
                    from_addr@,
                    runeid,
                ));
                assert(m_iter.btc_pool(from_addr@) == m0.btc_pool(from_addr@));
                assert(m_iter.btc_pool(receiver_addr@) == m0.btc_pool(receiver_addr@));
                assert(combined_build_ok(
                    m0.runic_pool(from_addr@, runeid),
                    m0.btc_pool(from_addr@),
                    m0.btc_pool(receiver_addr@),
                    manager@,
                    from_addr@,
                    receiver_addr@,
                    runeid,
                    rune_amount,
                    btc_amount,
                    sender_address@,
                    receiver_address@,
                    total_fee,
                    postage,
                    paid_by_sender,
                    txn@,
                    runic_utxos.deep_view(),
                    btc_utxos.deep_view(),
                    fee_utxos.deep_view(),
                ));
                assert forall|a: Seq<char>, rid: RuneId|
                    !(a == from_addr@ && rid == runeid) implies #[trigger] manager@.runic_pool(
                    a,
                    rid,
                ) == m0.runic_pool(a, rid) by {
                    assert(manager@.runic_pool(a, rid) == m_iter.runic_pool(a, rid));
                }
                assert forall|a: Seq<char>| a != from_addr@ && a != receiver_addr@ implies
                    #[trigger] manager@.btc_pool(a) == m0.btc_pool(a) by {
                    assert(manager@.btc_pool(a) == m_iter.btc_pool(a));
                }
            }
            let result = TransactionType::Combined {
                sender_addr: from_addr.to_owned(),
                receiver_addr: receiver_addr.to_owned(),
                sender_address,
                receiver_address,
                sender_account,
                receiver_account,
                runic_utxos,
                btc_utxos,
                fee_utxos,
                runeid,
                rune_amount,
                btc_amount,
                fee: total_fee,
                postage,
                paid_by_sender,
                txn,
            };
            proof {
                assert(result matches TransactionType::Combined {
                    runic_utxos: ru2,
                    btc_utxos: bu2,
                    fee_utxos: fu2,
                    txn: txn2,
                    ..
                } ==> {
                    &&& combined_build_ok(
                        m0.runic_pool(from_addr@, runeid),
                        m0.btc_pool(from_addr@),
                        m0.btc_pool(receiver_addr@),
                        manager@,
                        from_addr@,
                        receiver_addr@,
                        runeid,
                        rune_amount,
                        btc_amount,
                        args.sender_address@,
                        args.receiver_address@,
                        total_fee,
                        postage,
                        paid_by_sender,
                        txn2@,
                        ru2.deep_view(),
                        bu2.deep_view(),
                        fu2.deep_view(),
                    )
                    &&& total_fee as int == tx_vsize(mock_sign(txn2@)) * fee_per_vbytes as int
                        / 1000
                });
                assert(combined_transfer_ok(
                    m0,
                    manager@,
                    args.from_addr@,
                    args.receiver_addr@,
                    args.runeid,
                    args.rune_amount,
                    args.btc_amount,
                    args.sender_address@,
                    args.receiver_address@,
                    args.paid_by_sender,
                    args.fee_per_vbytes,
                    postage,
                    result,
                ));
            }
            return Ok(result);
        }
        // not a fixed point: give everything back and retry
        let ghost m_built = manager@;
        let ghost rdv = runic_utxos.deep_view();
        let ghost bdv = btc_utxos.deep_view();
        let ghost fdv = fee_utxos.deep_view();
        proof {
            crate::manager::lemma_btc_pool_sum_bounded(m_iter, receiver_addr@);
            crate::manager::lemma_sum_values_nonneg(m_built.btc_pool(receiver_addr@));
            crate::manager::lemma_sum_values_nonneg(fdv);
            if paid_by_sender {
                assert(fdv =~= Seq::<UtxoV>::empty());
                assert(sum_values(fdv) == 0);
                assert(crate::manager::all_present(m_built, fdv));
            }
        }
        manager.record_bitcoin(receiver_addr, fee_utxos);
        let ghost m_r1 = manager@;
        proof {
            if paid_by_sender {
                assert(m_r1 == m_built);
                assert(m_r1.btc_pool(from_addr@) == m_built.btc_pool(from_addr@));
            } else {
                lemma_suffix_restore(
                    m_iter.btc_pool(receiver_addr@),
                    m_built.btc_pool(receiver_addr@),
                    fdv,
                    m_r1.btc_pool(receiver_addr@),
                );
            }
            crate::manager::lemma_btc_pool_sum_bounded(m_iter, from_addr@);
            crate::manager::lemma_sum_values_nonneg(m_r1.btc_pool(from_addr@));
            crate::manager::lemma_sum_values_nonneg(bdv);
            assert(m_r1.btc_pool(from_addr@) == m_built.btc_pool(from_addr@));
            assert forall|t: int| 0 <= t < bdv.len() implies !m_r1.has_op(
                (#[trigger] bdv[t]).outpoint,
            ) by {
                assert(!m_built.has_op(bdv[t].outpoint));
                if m_r1.btc_has_op(bdv[t].outpoint) {
                    assert(m_built.btc_has_op(bdv[t].outpoint) || batch_has_op(
                        fdv,
                        bdv[t].outpoint,
                    ));
                    if batch_has_op(fdv, bdv[t].outpoint) {
                        let s = choose|s: int|
                            0 <= s < fdv.len() && (#[trigger] fdv[s]).outpoint == bdv[t].outpoint;
                        assert(bdv[t].outpoint != fdv[s].outpoint);
                    }
                }
                assert(m_r1.runic == m_built.runic);
            }
            assert(sum_values(m_r1.btc_pool(from_addr@)) + sum_values(bdv) == sum_values(
                m_iter.btc_pool(from_addr@),
            ));
        }
        manager.record_bitcoin(from_addr, btc_utxos);
        let ghost m_r2 = manager@;
        proof {
            lemma_suffix_restore(
                m_iter.btc_pool(from_addr@),
                m_r1.btc_pool(from_addr@),
                bdv,
                m_r2.btc_pool(from_addr@),
            );
            crate::manager::lemma_runic_pool_sums_bounded(m_iter, from_addr@, runeid);
            crate::manager::lemma_sum_balances_nonneg(m_r2.runic_pool(from_addr@, runeid));
            crate::manager::lemma_sum_runic_values_nonneg(m_r2.runic_pool(from_addr@, runeid));
            assert(m_r2.runic == m_r1.runic);
            assert(m_r1.runic == m_built.runic);
            assert(m_r2.runic_pool(from_addr@, runeid) == m_built.runic_pool(from_addr@, runeid));
            assert forall|t: int| 0 <= t < rdv.len() implies !m_r2.btc_has_op(
                (#[trigger] rdv[t]).utxo.outpoint,
            ) && !pool_has_rop(
                m_r2.runic_pool(from_addr@, runeid),
                rdv[t].utxo.outpoint,
            ) by {
                if m_r2.btc_has_op(rdv[t].utxo.outpoint) {
                    assert(m_r1.btc_has_op(rdv[t].utxo.outpoint) || batch_has_op(
                        bdv,
                        rdv[t].utxo.outpoint,
                    ));
                    if m_r1.btc_has_op(rdv[t].utxo.outpoint) {
                        assert(m_built.btc_has_op(rdv[t].utxo.outpoint) || batch_has_op(
                            fdv,
                            rdv[t].utxo.outpoint,
                        ));
                        if batch_has_op(fdv, rdv[t].utxo.outpoint) {
                            let s = choose|s: int|
                                0 <= s < fdv.len() && (#[trigger] fdv[s]).outpoint == rdv[
                                    t
                                ].utxo.outpoint;
                            assert(rdv[t].utxo.outpoint != fdv[s].outpoint);
                        }
                    }
                    if batch_has_op(bdv, rdv[t].utxo.outpoint) {
                        let s = choose|s: int|
                            0 <= s < bdv.len() && (#[trigger] bdv[s]).outpoint == rdv[
                                t
                            ].utxo.outpoint;
                        assert(rdv[t].utxo.outpoint != bdv[s].outpoint);
                    }
                }
            }
            assert(sum_balances(m_r2.runic_pool(from_addr@, runeid)) + sum_balances(rdv)
                == sum_balances(m_iter.runic_pool(from_addr@, runeid)));
            assert(sum_runic_values(m_r2.runic_pool(from_addr@, runeid)) + sum_runic_values(rdv)
                == sum_runic_values(m_iter.runic_pool(from_addr@, runeid)));
        }
        manager.record_runic(from_addr, &runeid, runic_utxos);
        proof {
            assert(m_r2.runic_pool(from_addr@, runeid) =~= m_iter.runic_pool(
                from_addr@,
                runeid,
            ).take(m_iter.runic_pool(from_addr@, runeid).len() - rdv.len()));
            lemma_runic_suffix_restore(
                m_iter.runic_pool(from_addr@, runeid),
                m_r2.runic_pool(from_addr@, runeid),
                rdv,
                manager@.runic_pool(from_addr@, runeid),
            );
            assert forall|a: Seq<char>| true implies #[trigger] manager@.btc_pool(a)
                == m0.btc_pool(a) by {
                assert(manager@.btc == m_r2.btc);
                if a != from_addr@ {
                    assert(m_r2.btc_pool(a) == m_r1.btc_pool(a));
                    if a != receiver_addr@ {
                        assert(m_r1.btc_pool(a) == m_built.btc_pool(a));
                        assert(m_built.btc_pool(a) == m_iter.btc_pool(a));
                    } else {
                        assert(m_r1.btc_pool(a) == m_iter.btc_pool(a));
                    }
                }
            }
            assert forall|a: Seq<char>, rid: RuneId| true implies #[trigger] manager@.runic_pool(
                a,
                rid,
            ) == m0.runic_pool(a, rid) by {
                if !(a == from_addr@ && rid == runeid) {
                    assert(manager@.runic_pool(a, rid) == m_r2.runic_pool(a, rid));
                    assert(m_r2.runic == m_built.runic);
                    assert(m_built.runic_pool(a, rid) == m_iter.runic_pool(a, rid));
                }
            }
        }
        if new_fee_wide > 0xffff_ffff_ffff_ffffu128 {
            proof {
                assert(outcome == FeeOutcome::GaveUp);
            }
            break ;
        }
        proof {
            // the iteration steps to the recomputed fee with one less try
            assert(outcome == combined_fee_outcome(
                m0.runic_pool(from_addr@, runeid),
                m0.btc_pool(from_addr@),
                m0.btc_pool(receiver_addr@),
                runeid,
                rune_amount,
                btc_amount,
                postage,
                paid_by_sender,
                sender_address@.hash,
                receiver_address@.hash,
                fee_per_vbytes,
                new_fee_wide as u64,
                (crate::transaction::MAX_FEE_ITERATIONS - iterations) as nat,
            ));
        }
        total_fee = new_fee_wide as u64;
    }
    Err((0, 0, u64::MAX))
}

} // verus!

