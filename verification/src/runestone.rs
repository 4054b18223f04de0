use vstd::prelude::*;

use crate::address::{Address, AddressV};
use crate::builder::{btc_draw_count, inputs_match, inputs_match_runic, pools_unchanged,
    push_inputs, push_runic_inputs, runic_draw_count, take_btc_until, take_runic_until,
    lemma_suffix_restore, lemma_runic_suffix_restore, BuildSize, FeeOutcome};
use crate::encoding::compact_size;
use crate::encoding::leb128;
use crate::manager::{none_present, none_rpresent, ops_distinct, pool_has_rop, rops_distinct,
    runic_wf_seq, sum_balances, sum_runic_values, sum_values, utxos_wf_seq, UtxoManager,
    UtxoManagerV};
use crate::transaction_handler::TransactionType;
use crate::txmodel::{lemma_mock_vsize, mock_sign, mock_signature, p2pkh_script,
    transaction_vsize, tx_vsize, wire_len_outputs, Transaction, TransactionV, TxOut, TxOutV};
use crate::types::{Account, OutPointV, RuneId, RunicUtxo, RunicUtxoV, Utxo, UtxoV};
use crate::DUST_THRESHOLD;

verus! {

/// The body of a runestone holding exactly one transfer edict: the body
/// tag, then the edict's rune id as block and transaction deltas from zero,
/// its amount, and its target output index, each in LEB128.
pub open spec fn runestone_payload(block: u64, tx: u32, amount: u128) -> Seq<u8> {
    leb128(0) + leb128(block as nat) + leb128(tx as nat) + leb128(amount as nat) + leb128(2)
}

/// The script of that runestone: OP_RETURN, the runestone magic number
/// OP_PUSHNUM_13, then the payload as a single data push with a one-byte
/// length (the payload is at most 36 bytes).
pub open spec fn runestone_script(block: u64, tx: u32, amount: u128) -> Seq<u8> {
    seq![0x6au8, 0x5du8, runestone_payload(block, tx, amount).len() as u8] + runestone_payload(
        block,
        tx,
        amount,
    )
}

/// Relies on ordinals' Runestone::encipher: a runestone with one edict and
/// no etching, mint or pointer enciphers to OP_RETURN, OP_PUSHNUM_13, and
/// one push of the LEB128-encoded body tag, block delta, transaction delta,
/// amount, and output index.
#[verifier::external_body]
pub(crate) fn encipher_transfer_edict(block: u64, tx: u32, amount: u128) -> (r: Vec<u8>)
    ensures
        r@ == runestone_script(block, tx, amount),
{
    let runestone = ordinals::Runestone {
        edicts: vec![ordinals::Edict { id: ordinals::RuneId { block, tx }, amount, output: 2 }],
        ..Default::default()
    };
    runestone.encipher().into_bytes()
}

/// The leading outputs of a rune transfer. With rune change: the runestone,
/// the sender's postage output where the change lands, and the receiver's
/// postage output where the edict lands. Without: a single postage output
/// to the receiver, to which the whole rune balance flows by protocol
/// convention.
pub open spec fn spec_rune_outputs(
    need_change: bool,
    script: Seq<u8>,
    sender_spk: Seq<u8>,
    receiver_spk: Seq<u8>,
    postage: u64,
) -> Seq<TxOutV> {
    if need_change {
        seq![
            TxOutV { value: 0, script_pubkey: script },
            TxOutV { value: postage, script_pubkey: sender_spk },
            TxOutV { value: postage, script_pubkey: receiver_spk },
        ]
    } else {
        seq![TxOutV { value: postage, script_pubkey: receiver_spk }]
    }
}

/// Whether the transfer needs a rune-change output: some of the drawn
/// balance stays with the sender, or several runic outputs were consumed.
pub open spec fn spec_need_change(total: u128, amount: u128, inputs: int) -> bool {
    total > amount || inputs > 1
}

/// The satoshis the fee payer must add: the postage for the rune outputs
/// less what the runic inputs already carry, floored at zero.
pub open spec fn spec_actual_required_btc(need_change: bool, postage: u64, btc_in: u64) -> int {
    let required = if need_change {
        2 * postage as int
    } else {
        postage as int
    };
    if btc_in as int >= required {
        0
    } else {
        required - btc_in
    }
}

/// Everything a successful rune build guarantees.
pub open spec fn rune_build_ok(
    orig_runic: Seq<RunicUtxoV>,
    orig_fee_pool: Seq<UtxoV>,
    m2: UtxoManagerV,
    sender_addr: Seq<char>,
    fee_addr: Seq<char>,
    rune: RuneId,
    amount: u128,
    sender: AddressV,
    receiver: AddressV,
    fee: u64,
    postage: u64,
    txn: TransactionV,
    rdv: Seq<RunicUtxoV>,
    fdv: Seq<UtxoV>,
) -> bool {
    let total = sum_balances(rdv);
    let btc_in = sum_runic_values(rdv);
    let need_change = spec_need_change(total as u128, amount, rdv.len() as int);
    let actual = spec_actual_required_btc(need_change, postage, btc_in as u64);
    let fee_total = sum_values(fdv);
    let remaining = fee_total - fee - actual;
    let head = spec_rune_outputs(
        need_change,
        runestone_script(rune.block, rune.tx, amount),
        p2pkh_script(sender.hash),
        p2pkh_script(receiver.hash),
        postage,
    );
    &&& txn.version == 2
    &&& txn.lock_time == 0
    &&& txn.input.len() == rdv.len() + fdv.len()
    &&& inputs_match_runic(txn.input.take(rdv.len() as int), rdv)
    &&& inputs_match(txn.input.skip(rdv.len() as int), fdv)
    &&& total >= amount
    &&& total <= u128::MAX
    &&& btc_in <= u64::MAX
    &&& fee_total >= fee + actual
    &&& fee_total <= u64::MAX
    &&& txn.output == if remaining > DUST_THRESHOLD {
        head.push(TxOutV { value: remaining as u64, script_pubkey: p2pkh_script(fee_addr_spk_hash(
            sender,
            receiver,
            sender_addr,
            fee_addr,
        )) })
    } else {
        head
    }
    &&& rdv.len() <= orig_runic.len()
    &&& m2.runic_pool(sender_addr, rune) == orig_runic.take(orig_runic.len() - rdv.len())
    &&& forall|t: int| 0 <= t < rdv.len() ==> #[trigger] rdv[t] == orig_runic[orig_runic.len() - 1
        - t]
    &&& fdv.len() <= orig_fee_pool.len()
    &&& m2.btc_pool(fee_addr) == orig_fee_pool.take(orig_fee_pool.len() - fdv.len())
    &&& forall|t: int| 0 <= t < fdv.len() ==> #[trigger] fdv[t] == orig_fee_pool[orig_fee_pool.len()
        - 1 - t]
    &&& runic_wf_seq(rdv)
    &&& rops_distinct(rdv)
    &&& utxos_wf_seq(fdv)
    &&& ops_distinct(fdv)
    &&& none_present(m2, fdv)
    &&& none_rpresent(m2, sender_addr, rune, rdv)
    &&& forall|t: int, s: int|
        0 <= t < rdv.len() && 0 <= s < fdv.len() ==> (#[trigger] rdv[t]).utxo.outpoint != (
        #[trigger] fdv[s]).outpoint
    &&& sum_balances(m2.runic_pool(sender_addr, rune)) + total == sum_balances(orig_runic)
    &&& sum_runic_values(m2.runic_pool(sender_addr, rune)) + btc_in == sum_runic_values(orig_runic)
    &&& sum_values(m2.btc_pool(fee_addr)) + fee_total == sum_values(orig_fee_pool)
}

/// The satoshis the fee payer must add beyond the fee when the runic draw
/// succeeds: the postage of the rune outputs less what the deterministically
/// drawn runic outputs already carry, floored at zero.
pub open spec fn rune_drawn_actual(pool: Seq<RunicUtxoV>, amount: u128, postage: u64) -> int {
    let d = runic_draw_count(pool, amount as int, false);
    let total = sum_balances(pool) - sum_balances(pool.take(pool.len() - d));
    let btc_in = sum_runic_values(pool) - sum_runic_values(pool.take(pool.len() - d));
    spec_actual_required_btc(spec_need_change(total as u128, amount, d), postage, btc_in as u64)
}

/// Why a rune build failed, as its error names it: either the sender's
/// runic pool held less than the transferred amount, or the fee payer's
/// plain pool held less than the fee plus exactly the missing postage of
/// the deterministic runic draw.
pub open spec fn rune_build_shortfall(
    m0: UtxoManagerV,
    sender_addr: Seq<char>,
    receiver_addr: Seq<char>,
    rune: RuneId,
    amount: u128,
    fee: u64,
    postage: u64,
    paid_by_sender: bool,
    e: (u128, u64),
) -> bool {
    let fee_addr = if paid_by_sender {
        sender_addr
    } else {
        receiver_addr
    };
    ||| (e.0 == amount && e.1 == 0 && sum_balances(m0.runic_pool(sender_addr, rune)) < amount)
    ||| (e.0 == 0 && e.1 == fee && sum_values(m0.btc_pool(fee_addr)) < fee + rune_drawn_actual(
        m0.runic_pool(sender_addr, rune),
        amount,
        postage,
    ))
}

/// The deterministic size of the rune build at a fixed fee.
pub open spec fn rune_build_size(
    runic_pool: Seq<RunicUtxoV>,
    fee_pool: Seq<UtxoV>,
    rune: RuneId,
    amount: u128,
    fee: u64,
    postage: u64,
    sender_hash: Seq<u8>,
    receiver_hash: Seq<u8>,
    change_hash: Seq<u8>,
) -> BuildSize {
    if fee + 2 * postage > u64::MAX {
        BuildSize::OutOfRange
    } else if sum_balances(runic_pool) < amount {
        BuildSize::Short
    } else {
        let d_r = runic_draw_count(runic_pool, amount as int, false);
        let total = sum_balances(runic_pool) - sum_balances(
            runic_pool.take(runic_pool.len() - d_r),
        );
        let btc_in = sum_runic_values(runic_pool) - sum_runic_values(
            runic_pool.take(runic_pool.len() - d_r),
        );
        let need_change = spec_need_change(total as u128, amount, d_r);
        let actual = spec_actual_required_btc(need_change, postage, btc_in as u64);
        if sum_values(fee_pool) < fee + actual {
            BuildSize::Short
        } else {
            let d_f = btc_draw_count(fee_pool, fee + actual, true);
            let fee_total = sum_values(fee_pool) - sum_values(fee_pool.take(fee_pool.len() - d_f));
            let remaining = fee_total - fee - actual;
            let head = spec_rune_outputs(
                need_change,
                runestone_script(rune.block, rune.tx, amount),
                p2pkh_script(sender_hash),
                p2pkh_script(receiver_hash),
                postage,
            );
            let outs = if remaining > DUST_THRESHOLD {
                head.push(
                    TxOutV { value: remaining as u64, script_pubkey: p2pkh_script(change_hash) },
                )
            } else {
                head
            };
            BuildSize::Bytes(
                8 + compact_size((d_r + d_f) as nat).len() + 148 * (d_r + d_f) + compact_size(
                    outs.len(),
                ).len() + wire_len_outputs(outs),
            )
        }
    }
}

/// The fee iteration of a rune transfer.
pub open spec fn rune_fee_outcome(
    runic_pool: Seq<RunicUtxoV>,
    fee_pool: Seq<UtxoV>,
    rune: RuneId,
    amount: u128,
    postage: u64,
    sender_hash: Seq<u8>,
    receiver_hash: Seq<u8>,
    change_hash: Seq<u8>,
    rate: u64,
    fee: u64,
    budget: nat,
) -> FeeOutcome
    decreases budget,
{
    if budget == 0 {
        FeeOutcome::GaveUp
    } else {
        match rune_build_size(
            runic_pool,
            fee_pool,
            rune,
            amount,
            fee,
            postage,
            sender_hash,
            receiver_hash,
            change_hash,
        ) {
            BuildSize::OutOfRange => FeeOutcome::GaveUp,
            BuildSize::Short => FeeOutcome::Shortfall { fee },
            BuildSize::Bytes(v) => {
                let g = v * rate as int / 1000;
                if g == fee {
                    FeeOutcome::Converged { fee }
                } else if g > u64::MAX {
                    FeeOutcome::GaveUp
                } else {
                    rune_fee_outcome(
                        runic_pool,
                        fee_pool,
                        rune,
                        amount,
                        postage,
                        sender_hash,
                        receiver_hash,
                        change_hash,
                        rate,
                        g as u64,
                        (budget - 1) as nat,
                    )
                }
            },
        }
    }
}

/// Which pay-to-pubkey-hash script receives the fee payer's change: the
/// sender's when the sender paid, the receiver's otherwise; the fee address
/// names whose plain pool was drawn.
pub open spec fn fee_addr_spk_hash(
    sender: AddressV,
    receiver: AddressV,
    sender_addr: Seq<char>,
    fee_addr: Seq<char>,
) -> Seq<u8> {
    if fee_addr == sender_addr {
        sender.hash
    } else {
        receiver.hash
    }
}

/// Builds a rune transfer at a fixed fee: draws runic outputs of the sender
/// until they cover the amount, emits the runestone and postage outputs
/// (with rune change when needed), draws the fee payer's plain outputs for
/// fee and missing postage, and returns non-dust change to the fee payer.
/// On a shortfall everything drawn is returned and the pools are exactly as
/// before: the error names the missing rune amount or the fee.
#[verifier::rlimit(100)]
pub fn build_transaction_with_fee(
    manager: &mut UtxoManager,
    runeid: &RuneId,
    amount: u128,
    sender_addr: &str,
    receiver_addr: &str,
    sender_address: &Address,
    receiver_address: &Address,
    fee: u64,
    paid_by_sender: bool,
    postage: u64,
) -> (r: Result<(Transaction, Vec<RunicUtxo>, Vec<Utxo>), (u128, u64)>)
    requires
        old(manager)@.wf(),
        sender_address@.wf(),
        receiver_address@.wf(),
        2 * postage <= u64::MAX,
        fee + 2 * postage <= u64::MAX,
        !paid_by_sender ==> sender_addr@ != receiver_addr@,
    ensures
        final(manager)@.wf(),
        match r {
            Result::Ok((txn, runic_utxos, fee_utxos)) => rune_build_ok(
                old(manager)@.runic_pool(sender_addr@, *runeid),
                old(manager)@.btc_pool(if paid_by_sender { sender_addr@ } else { receiver_addr@ }),
                final(manager)@,
                sender_addr@,
                if paid_by_sender { sender_addr@ } else { receiver_addr@ },
                *runeid,
                amount,
                sender_address@,
                receiver_address@,
                fee,
                postage,
                txn@,
                runic_utxos.deep_view(),
                fee_utxos.deep_view(),
            ) && (forall|a: Seq<char>, rid: RuneId|
                !(a == sender_addr@ && rid == *runeid) ==> #[trigger] final(manager)@.runic_pool(
                    a,
                    rid,
                ) == old(manager)@.runic_pool(a, rid)) && (forall|a: Seq<char>|
                a != (if paid_by_sender { sender_addr@ } else { receiver_addr@ })
                    ==> #[trigger] final(manager)@.btc_pool(a) == old(manager)@.btc_pool(a))
                && rune_build_size(
                old(manager)@.runic_pool(sender_addr@, *runeid),
                old(manager)@.btc_pool(if paid_by_sender { sender_addr@ } else { receiver_addr@ }),
                *runeid,
                amount,
                fee,
                postage,
                sender_address@.hash,
                receiver_address@.hash,
                if paid_by_sender { sender_address@.hash } else { receiver_address@.hash },
            ) == BuildSize::Bytes(tx_vsize(mock_sign(txn@)) as int),
            Result::Err(e) => pools_unchanged(old(manager)@, final(manager)@)
                && rune_build_shortfall(
                old(manager)@,
                sender_addr@,
                receiver_addr@,
                *runeid,
                amount,
                fee,
                postage,
                paid_by_sender,
                e,
            ) && rune_build_size(
                old(manager)@.runic_pool(sender_addr@, *runeid),
                old(manager)@.btc_pool(if paid_by_sender { sender_addr@ } else { receiver_addr@ }),
                *runeid,
                amount,
                fee,
                postage,
                sender_address@.hash,
                receiver_address@.hash,
                if paid_by_sender { sender_address@.hash } else { receiver_address@.hash },
            ) is Short && (sum_balances(old(manager)@.runic_pool(sender_addr@, *runeid)) < amount
                ==> e == (amount, 0u64)),
        },
{
    let ghost m0 = old(manager)@;
    let (runic_utxos, runic_total, btc_in) = match take_runic_until(
        manager,
        sender_addr,
        runeid,
        amount,
        false,
    ) {
        Result::Err(_) => {
            proof {
                assert(sum_balances(m0.runic_pool(sender_addr@, *runeid)) < amount);
            }
            return Err((amount, 0));
        },
        Result::Ok(t) => t,
    };
    let ghost m1 = manager@;
    let ghost rdv = runic_utxos.deep_view();
    let need_change = runic_total > amount || runic_utxos.len() > 1;
    let required_btc = if need_change {
        2 * postage
    } else {
        postage
    };
    let actual_required = if btc_in >= required_btc {
        0
    } else {
        required_btc - btc_in
    };
    let fee_payer = if paid_by_sender {
        sender_addr
    } else {
        receiver_addr
    };
    let fee_target = fee + actual_required;
    let (fee_utxos, fee_total) = match take_btc_until(manager, fee_payer, fee_target, true) {
        Result::Err(_) => {
            // give the runic outputs back before reporting the shortfall
            let ghost m2 = manager@;
            proof {
                crate::manager::lemma_runic_pool_sums_bounded(m0, sender_addr@, *runeid);
                crate::manager::lemma_sum_balances_nonneg(m2.runic_pool(sender_addr@, *runeid));
                crate::manager::lemma_sum_runic_values_nonneg(
                    m2.runic_pool(sender_addr@, *runeid),
                );
                assert(m2.runic_pool(sender_addr@, *runeid) == m1.runic_pool(
                    sender_addr@,
                    *runeid,
                ));
                assert forall|t: int| 0 <= t < rdv.len() implies !m2.btc_has_op(
                    (#[trigger] rdv[t]).utxo.outpoint,
                ) && !pool_has_rop(
                    m2.runic_pool(sender_addr@, *runeid),
                    rdv[t].utxo.outpoint,
                ) by {
                    if m2.btc_has_op(rdv[t].utxo.outpoint) {
                        lemma_pools_unchanged_btc_has_op(m1, m2, rdv[t].utxo.outpoint);
                    }
                }
                assert(sum_balances(rdv) == runic_total as int);
                assert(sum_runic_values(rdv) == btc_in as int);
                assert(sum_balances(m2.runic_pool(sender_addr@, *runeid)) + runic_total as int
                    == sum_balances(m0.runic_pool(sender_addr@, *runeid)));
                assert(sum_runic_values(m2.runic_pool(sender_addr@, *runeid)) + btc_in as int
                    == sum_runic_values(m0.runic_pool(sender_addr@, *runeid)));
            }
            manager.record_runic(sender_addr, runeid, runic_utxos);
            proof {
                lemma_runic_suffix_restore(
                    m0.runic_pool(sender_addr@, *runeid),
                    m2.runic_pool(sender_addr@, *runeid),
                    rdv,
                    manager@.runic_pool(sender_addr@, *runeid),
                );
                assert forall|a: Seq<char>, rid: RuneId| true implies
                    #[trigger] manager@.runic_pool(a, rid) == m0.runic_pool(a, rid) by {
                    if !(a == sender_addr@ && rid == *runeid) {
                        assert(manager@.runic_pool(a, rid) == m2.runic_pool(a, rid));
                        assert(m2.runic_pool(a, rid) == m1.runic_pool(a, rid));
                    }
                }
                assert forall|a: Seq<char>| true implies #[trigger] manager@.btc_pool(a)
                    == m0.btc_pool(a) by {
                    assert(manager@.btc == m2.btc);
                    assert(m2.btc_pool(a) == m1.btc_pool(a));
                    assert(m1.btc == m0.btc);
                }
            }
            proof {
                assert(m1.btc_pool(fee_payer@) == m0.btc_pool(fee_payer@));
                assert(sum_values(m0.btc_pool(fee_payer@)) < fee + actual_required);
                assert(actual_required <= 2 * postage);
            }
            return Err((0, fee));
        },
        Result::Ok(t) => t,
    };
    let mut input: Vec<crate::txmodel::TxIn> = Vec::new();
    push_runic_inputs(&mut input, &runic_utxos);
    let ghost ins1 = input.deep_view();
    push_inputs(&mut input, &fee_utxos);
    proof {
        assert(ins1.skip(0) =~= ins1);
        assert(inputs_match_runic(ins1, rdv));
        assert(input.deep_view().take(rdv.len() as int) =~= ins1);
        assert(input.deep_view().skip(ins1.len() as int) == input.deep_view().skip(
            rdv.len() as int,
        ));
    }
    let script = encipher_transfer_edict(runeid.block, runeid.tx, amount);
    let mut output: Vec<TxOut> = Vec::new();
    if need_change {
        output.push(TxOut { value: 0, script_pubkey: script });
        output.push(TxOut { value: postage, script_pubkey: sender_address.script_pubkey() });
        output.push(TxOut { value: postage, script_pubkey: receiver_address.script_pubkey() });
    } else {
        output.push(TxOut { value: postage, script_pubkey: receiver_address.script_pubkey() });
    }
    let ghost head = output.deep_view();
    let remaining = fee_total - fee_target;
    if remaining > crate::dust_threshold() {
        if paid_by_sender {
            output.push(TxOut { value: remaining, script_pubkey: sender_address.script_pubkey() });
        } else {
            output.push(
                TxOut { value: remaining, script_pubkey: receiver_address.script_pubkey() },
            );
        }
    }
    let txn = Transaction { version: 2, lock_time: 0, input, output };
    proof {
        let need_change_s = spec_need_change(runic_total as u128, amount, rdv.len() as int);
        assert(need_change == need_change_s);
        assert(actual_required as int == spec_actual_required_btc(
            need_change_s,
            postage,
            btc_in,
        ));
        assert(head =~= spec_rune_outputs(
            need_change_s,
            runestone_script(runeid.block, runeid.tx, amount),
            p2pkh_script(sender_address@.hash),
            p2pkh_script(receiver_address@.hash),
            postage,
        ));
        if remaining > DUST_THRESHOLD {
            assert(txn@.output =~= head.push(
                TxOutV {
                    value: remaining,
                    script_pubkey: p2pkh_script(fee_addr_spk_hash(
                        sender_address@,
                        receiver_address@,
                        sender_addr@,
                        fee_payer@,
                    )),
                },
            ));
        } else {
            assert(txn@.output =~= head);
        }
        // the fee inputs come from plain pools, the runic inputs never do
        assert forall|t: int, s: int|
            0 <= t < rdv.len() && 0 <= s < fee_utxos.deep_view().len() implies (
        #[trigger] rdv[t]).utxo.outpoint != (#[trigger] fee_utxos.deep_view()[s]).outpoint by {
            assert(!m1.btc_has_op(rdv[t].utxo.outpoint));
            assert(m1.btc_has_op(fee_utxos.deep_view()[s].outpoint));
        }
        // runic freshness survives the plain draw
        assert forall|t: int| 0 <= t < rdv.len() implies !manager@.btc_has_op(
            (#[trigger] rdv[t]).utxo.outpoint,
        ) && !pool_has_rop(
            manager@.runic_pool(sender_addr@, *runeid),
            rdv[t].utxo.outpoint,
        ) by {
            if manager@.btc_has_op(rdv[t].utxo.outpoint) {
                assert(m1.btc_has_op(rdv[t].utxo.outpoint));
            }
            assert(manager@.runic_pool(sender_addr@, *runeid) == m1.runic_pool(
                sender_addr@,
                *runeid,
            ));
        }
    }
    proof {
        assert(fee_payer@ == if paid_by_sender {
            sender_addr@
        } else {
            receiver_addr@
        });
        assert forall|a: Seq<char>, rid: RuneId|
            !(a == sender_addr@ && rid == *runeid) implies #[trigger] manager@.runic_pool(a, rid)
            == m0.runic_pool(a, rid) by {
            assert(manager@.runic == m1.runic);
            assert(m1.runic_pool(a, rid) == m0.runic_pool(a, rid));
        }
        assert forall|a: Seq<char>| a != fee_payer@ implies #[trigger] manager@.btc_pool(a)
            == m0.btc_pool(a) by {
            assert(manager@.btc_pool(a) == m1.btc_pool(a));
            assert(m1.btc == m0.btc);
        }
        assert(manager@.runic_pool(sender_addr@, *runeid) == m1.runic_pool(sender_addr@, *runeid));
        assert(m1.btc_pool(fee_payer@) == m0.btc_pool(fee_payer@));
        assert(sum_balances(rdv) == runic_total as int);
        assert(sum_runic_values(rdv) == btc_in as int);
        assert(rune_build_ok(
            m0.runic_pool(sender_addr@, *runeid),
            m0.btc_pool(fee_payer@),
            manager@,
            sender_addr@,
            fee_payer@,
            *runeid,
            amount,
            sender_address@,
            receiver_address@,
            fee,
            postage,
            txn@,
            rdv,
            fee_utxos.deep_view(),
        ));
        // the deterministic sizing matches the built transaction
        let rpool = m0.runic_pool(sender_addr@, *runeid);
        let fpool = m0.btc_pool(fee_payer@);
        let fdv = fee_utxos.deep_view();
        assert(rdv.len() == runic_draw_count(rpool, amount as int, false));
        assert(sum_balances(rpool) - sum_balances(rpool.take(rpool.len() - rdv.len()))
            == runic_total as int);
        assert(sum_runic_values(rpool) - sum_runic_values(rpool.take(rpool.len() - rdv.len()))
            == btc_in as int);
        assert(m1.btc_pool(fee_payer@) == fpool);
        assert(fdv.len() == btc_draw_count(fpool, fee_target as int, true));
        assert(sum_values(fpool) - sum_values(fpool.take(fpool.len() - fdv.len()))
            == fee_total as int);
        assert forall|i: int|
            0 <= i < txn@.input.len() implies (#[trigger] txn@.input[i]).previous_output.txid.len()
            == 32 by {
            if i < rdv.len() {
                assert(txn@.input.take(rdv.len() as int)[i] == txn@.input[i]);
                assert(txn@.input[i].previous_output == rdv[i].utxo.outpoint);
                assert(rdv[i].wf());
            } else {
                assert(txn@.input.skip(rdv.len() as int)[i - rdv.len()] == txn@.input[i]);
                assert(txn@.input[i].previous_output == fdv[i - rdv.len()].outpoint);
                assert(fdv[i - rdv.len()].wf());
            }
        }
        lemma_mock_vsize(txn@);
        if !paid_by_sender {
            assert(fee_addr_spk_hash(sender_address@, receiver_address@, sender_addr@, fee_payer@)
                == receiver_address@.hash);
        }
        assert(rune_build_size(
            rpool,
            fpool,
            *runeid,
            amount,
            fee,
            postage,
            sender_address@.hash,
            receiver_address@.hash,
            if paid_by_sender { sender_address@.hash } else { receiver_address@.hash },
        ) == BuildSize::Bytes(tx_vsize(mock_sign(txn@)) as int));
    }
    Ok((txn, runic_utxos, fee_utxos))
}

/// With equal pools, an outpoint held as plain bitcoin on one side is held
/// as plain bitcoin on the other.
pub proof fn lemma_pools_unchanged_btc_has_op(m1: UtxoManagerV, m2: UtxoManagerV, op: OutPointV)
    requires
        m1.wf(),
        m2.wf(),
        forall|a: Seq<char>| #[trigger] m2.btc_pool(a) == m1.btc_pool(a),
        m2.btc_has_op(op),
    ensures
        m1.btc_has_op(op),
{
    let (i, j): (int, int) = choose|i: int, j: int|
        #![trigger m2.btc[i].utxos[j]]
        0 <= i < m2.btc.len() && 0 <= j < m2.btc[i].utxos.len() && m2.btc[i].utxos[j].outpoint
            == op;
    let a = m2.btc[i].addr;
    crate::manager::lemma_btc_entry(m2, i);
    assert(m2.btc_pool(a)[j].outpoint == op);
    assert(m1.btc_pool(a)[j].outpoint == op);
    assert(m1.has_btc(a)) by {
        if !m1.has_btc(a) {
            assert(m1.btc_pool(a) =~= Seq::<UtxoV>::empty());
        }
    }
    let w = m1.btc_idx(a);
    assert(0 <= w < m1.btc.len() && m1.btc[w].addr == a);
    crate::manager::lemma_btc_entry(m1, w);
    assert(m1.btc[w].utxos[j].outpoint == op);
}


/// The arguments of a rune transfer.
pub struct RuneTransferArgs<'a> {
    pub runeid: RuneId,
    pub amount: u128,
    pub sender_addr: &'a str,
    pub receiver_addr: &'a str,
    pub sender_account: Account,
    pub receiver_account: Account,
    pub sender_address: Address,
    pub receiver_address: Address,
    pub fee_per_vbytes: u64,
    pub paid_by_sender: bool,
    pub postage: Option<u64>,
}

/// What a successful rune transfer returns: a rune-transfer shape whose fee
/// is the fixed point of the mock-signed virtual size, with the runic and
/// fee inputs drawn from their pools and every other pool untouched.
pub open spec fn rune_transfer_ok(
    m0: UtxoManagerV,
    m2: UtxoManagerV,
    sender_addr: Seq<char>,
    receiver_addr: Seq<char>,
    rune: RuneId,
    amount: u128,
    sender: AddressV,
    receiver: AddressV,
    paid_by_sender: bool,
    fee_per_vbytes: u64,
    postage: u64,
    t: TransactionType,
) -> bool {
    let fee_addr = if paid_by_sender {
        sender_addr
    } else {
        receiver_addr
    };
    &&& t matches TransactionType::Runestone { .. }
    &&& t matches TransactionType::Runestone {
        sender_addr: rsa,
        receiver_addr: rra,
        sender_account: _,
        receiver_account: _,
        runeid: rrune,
        amount: ramount,
        fee,
        runic_utxos,
        fee_utxos,
        paid_by_sender: rpaid,
        sender_address: rsaddr,
        receiver_address: rraddr,
        postage: rpostage,
        txn,
    } ==> {
        &&& rsa@ == sender_addr
        &&& rra@ == receiver_addr
        &&& rrune == rune
        &&& ramount == amount
        &&& rpaid == paid_by_sender
        &&& rsaddr@ == sender
        &&& rraddr@ == receiver
        &&& rpostage == postage
        &&& rune_build_ok(
            m0.runic_pool(sender_addr, rune),
            m0.btc_pool(fee_addr),
            m2,
            sender_addr,
            fee_addr,
            rune,
            amount,
            sender,
            receiver,
            fee,
            postage,
            txn@,
            runic_utxos.deep_view(),
            fee_utxos.deep_view(),
        )
        &&& fee as int == tx_vsize(mock_sign(txn@)) * fee_per_vbytes as int / 1000
        &&& fee + 2 * postage <= u64::MAX
        &&& forall|a: Seq<char>, rid: RuneId|
            !(a == sender_addr && rid == rune) ==> #[trigger] m2.runic_pool(a, rid)
                == m0.runic_pool(a, rid)
        &&& forall|a: Seq<char>| a != fee_addr ==> #[trigger] m2.btc_pool(a) == m0.btc_pool(a)
    }
}

/// Builds a rune transfer whose fee is a fixed point of the mock-signed
/// virtual size. Between attempts every drawn output is returned; on
/// failure the pools are exactly as before, and the error names the missing
/// rune amount or the fee that could not be covered.
#[verifier::rlimit(30)]
pub fn transfer(manager: &mut UtxoManager, args: RuneTransferArgs) -> (r: Result<
    TransactionType,
    (u128, u64),
>)
    requires
        old(manager)@.wf(),
        args.sender_address@.wf(),
        args.receiver_address@.wf(),
        match args.postage {
            Option::Some(p) => 2 * p <= u64::MAX,
            Option::None => true,
        },
        !args.paid_by_sender ==> args.sender_addr@ != args.receiver_addr@,
    ensures
        final(manager)@.wf(),
        match r {
            Result::Ok(t) => rune_transfer_ok(
                old(manager)@,
                final(manager)@,
                args.sender_addr@,
                args.receiver_addr@,
                args.runeid,
                args.amount,
                args.sender_address@,
                args.receiver_address@,
                args.paid_by_sender,
                args.fee_per_vbytes,
                spec_postage(args.postage),
                t,
            ) && (t matches TransactionType::Runestone { sender_account, receiver_account, .. }
                ==> sender_account@ == args.sender_account@ && receiver_account@
                == args.receiver_account@),
            Result::Err(e) => pools_unchanged(old(manager)@, final(manager)@) && ((exists|f: u64|
                #[trigger] rune_build_shortfall(
                    old(manager)@,
                    args.sender_addr@,
                    args.receiver_addr@,
                    args.runeid,
                    args.amount,
                    f,
                    spec_postage(args.postage),
                    args.paid_by_sender,
                    e,
                )) || e == (0u128, u64::MAX)),
        },
        // the result follows the deterministic fee iteration: success is
        // owed at its first fixed point
        match rune_fee_outcome(
            old(manager)@.runic_pool(args.sender_addr@, args.runeid),
            old(manager)@.btc_pool(
                if args.paid_by_sender {
                    args.sender_addr@
                } else {
                    args.receiver_addr@
                },
            ),
            args.runeid,
            args.amount,
            spec_postage(args.postage),
            args.sender_address@.hash,
            args.receiver_address@.hash,
            if args.paid_by_sender {
                args.sender_address@.hash
            } else {
                args.receiver_address@.hash
            },
            args.fee_per_vbytes,
            0,
            crate::transaction::MAX_FEE_ITERATIONS as nat,
        ) {
            FeeOutcome::Converged { fee } => r matches Result::Ok(t) && (t matches
                TransactionType::Runestone { fee: rf, .. } ==> rf == fee),
            FeeOutcome::Shortfall { fee } => r matches Result::Err(e) && rune_build_shortfall(
                old(manager)@,
                args.sender_addr@,
                args.receiver_addr@,
                args.runeid,
                args.amount,
                fee,
                spec_postage(args.postage),
                args.paid_by_sender,
                e,
            ),
            FeeOutcome::GaveUp => r matches Result::Err(e) && e == (0u128, u64::MAX),
        },
{
    let runeid = args.runeid;
    let amount = args.amount;
    let sender_addr = args.sender_addr;
    let receiver_addr = args.receiver_addr;
    let fee_per_vbytes = args.fee_per_vbytes;
    let paid_by_sender = args.paid_by_sender;
    let postage: u64 = match args.postage {
        Option::Some(p) => p,
        Option::None => crate::DEFAULT_POSTAGE,
    };
    let sender_account = args.sender_account;
    let receiver_account = args.receiver_account;
    let sender_address = args.sender_address;
    let receiver_address = args.receiver_address;
    proof {
        assert(sender_address@ == args.sender_address@);
        assert(receiver_address@ == args.receiver_address@);
    }
    let ghost m0 = old(manager)@;
    let ghost fee_addr = if paid_by_sender {
        sender_addr@
    } else {
        receiver_addr@
    };
    let ghost change_hash = if paid_by_sender {
        sender_address@.hash
    } else {
        receiver_address@.hash
    };
    let ghost outcome = rune_fee_outcome(
        m0.runic_pool(sender_addr@, runeid),
        m0.btc_pool(fee_addr),
        runeid,
        amount,
        postage,
        sender_address@.hash,
        receiver_address@.hash,
        change_hash,
        fee_per_vbytes,
        0,
        crate::transaction::MAX_FEE_ITERATIONS as nat,
    );
    let mut total_fee: u64 = 0;
    let mut iterations: u64 = 0;
    loop
        invariant_except_break
            m0 == old(manager)@,
            manager@.wf(),
            pools_unchanged(m0, manager@),
            iterations <= crate::transaction::MAX_FEE_ITERATIONS,
            sender_address@.wf(),
            receiver_address@.wf(),
            2 * postage <= u64::MAX,
            postage == spec_postage(args.postage),
            !paid_by_sender ==> sender_addr@ != receiver_addr@,
            sender_addr@ == args.sender_addr@,
            receiver_addr@ == args.receiver_addr@,
            runeid == args.runeid,
            amount == args.amount,
            fee_per_vbytes == args.fee_per_vbytes,
            paid_by_sender == args.paid_by_sender,
            sender_address@ == args.sender_address@,
            receiver_address@ == args.receiver_address@,
            sender_account@ == args.sender_account@,
            receiver_account@ == args.receiver_account@,
            fee_addr == if paid_by_sender {
                sender_addr@
            } else {
                receiver_addr@
            },
            change_hash == if paid_by_sender {
                sender_address@.hash
            } else {
                receiver_address@.hash
            },
            outcome == rune_fee_outcome(
                m0.runic_pool(sender_addr@, runeid),
                m0.btc_pool(fee_addr),
                runeid,
                amount,
                postage,
                sender_address@.hash,
                receiver_address@.hash,
                change_hash,
                fee_per_vbytes,
                0,
                crate::transaction::MAX_FEE_ITERATIONS as nat,
            ),
            outcome == rune_fee_outcome(
                m0.runic_pool(sender_addr@, runeid),
                m0.btc_pool(fee_addr),
                runeid,
                amount,
                postage,
                sender_address@.hash,
                receiver_address@.hash,
                change_hash,
                fee_per_vbytes,
                total_fee,
                (crate::transaction::MAX_FEE_ITERATIONS - iterations) as nat,
            ),
        ensures
            m0 == old(manager)@,
            manager@.wf(),
            pools_unchanged(m0, manager@),
            outcome == FeeOutcome::GaveUp,
        decreases crate::transaction::MAX_FEE_ITERATIONS - iterations,
    {
        if iterations >= crate::transaction::MAX_FEE_ITERATIONS {
            proof {
                assert(outcome == FeeOutcome::GaveUp);
            }
            break ;
        }
        iterations = iterations + 1;
        if total_fee > u64::MAX - 2 * postage {
            proof {
                assert(rune_build_size(
                    m0.runic_pool(sender_addr@, runeid),
                    m0.btc_pool(fee_addr),
                    runeid,
                    amount,
                    total_fee,
                    postage,
                    sender_address@.hash,
                    receiver_address@.hash,
                    change_hash,
                ) is OutOfRange);
                assert(outcome == FeeOutcome::GaveUp);
            }
            break ;
        }
        let ghost m_iter = manager@;
        let built = build_transaction_with_fee(
            manager,
            &runeid,
            amount,
            sender_addr,
            receiver_addr,
            &sender_address,
            &receiver_address,
            total_fee,
            paid_by_sender,
            postage,
        );
        let (txn, runic_utxos, fee_utxos) = match built {
            Result::Err(e) => {
                proof {
                    let fee_addr = if paid_by_sender {
                        sender_addr@
                    } else {
                        receiver_addr@
                    };
                    assert(m_iter.runic_pool(sender_addr@, runeid) == m0.runic_pool(
                        sender_addr@,
                        runeid,
                    ));
                    assert(m_iter.btc_pool(fee_addr) == m0.btc_pool(fee_addr));
                    assert(rune_build_shortfall(
                        m0,
                        args.sender_addr@,
                        args.receiver_addr@,
                        args.runeid,
                        args.amount,
                        total_fee,
                        postage,
                        args.paid_by_sender,
                        e,
                    ));
                    // the iteration ends in a shortfall at this fee
                    assert(rune_build_size(
                        m0.runic_pool(sender_addr@, runeid),
                        m0.btc_pool(fee_addr),
                        runeid,
                        amount,
                        total_fee,
                        postage,
                        sender_address@.hash,
                        receiver_address@.hash,
                        change_hash,
                    ) is Short);
                    assert(outcome == FeeOutcome::Shortfall { fee: total_fee });
                }
                return Err(e);
            },
            Result::Ok(t) => t,
        };
        let fee_payer = if paid_by_sender {
            sender_addr
        } else {
            receiver_addr
        };
        let signed_txn = mock_signature(&txn);
        let txn_vsize = transaction_vsize(&signed_txn);
        let v128 = txn_vsize as u128;
        let r128 = fee_per_vbytes as u128;
        proof {
            assert(v128 * r128 <= 0xffffffffffffffffffffffffffffffffu128) by (nonlinear_arith)
                requires
                    v128 <= 0xffffffffffffffffu128,
                    r128 <= 0xffffffffffffffffu128,
            ;
        }
        let new_fee_wide = v128 * r128 / 1000;
        proof {
            assert(new_fee_wide as int == tx_vsize(mock_sign(txn@)) * fee_per_vbytes as int
                / 1000);
            // the deterministic sizing names this build's virtual size
            assert(rune_build_size(
                m0.runic_pool(sender_addr@, runeid),
                m0.btc_pool(fee_addr),
                runeid,
                amount,
                total_fee,
                postage,
                sender_address@.hash,
                receiver_address@.hash,
                change_hash,
            ) == BuildSize::Bytes(tx_vsize(mock_sign(txn@)) as int));
        }
        if new_fee_wide == total_fee as u128 {
            proof {
                assert(outcome == FeeOutcome::Converged { fee: total_fee });
                let fee_addr0 = if paid_by_sender {
                    sender_addr@
                } else {
                    receiver_addr@
                };
                assert(m_iter.runic_pool(sender_addr@, runeid) == m0.runic_pool(
                    sender_addr@,
                    runeid,
                ));
                assert(m_iter.btc_pool(fee_addr0) == m0.btc_pool(fee_addr0));
                assert(rune_build_ok(
                    m0.runic_pool(sender_addr@, runeid),
                    m0.btc_pool(fee_addr0),
                    manager@,
                    sender_addr@,
                    fee_addr0,
                    runeid,
                    amount,
                    sender_address@,
                    receiver_address@,
                    total_fee,
                    postage,
                    txn@,
                    runic_utxos.deep_view(),
                    fee_utxos.deep_view(),
                ));
            }
            let result = TransactionType::Runestone {
                sender_addr: sender_addr.to_owned(),
                receiver_addr: receiver_addr.to_owned(),
                sender_account,
                receiver_account,
                runeid,
                amount,
                fee: total_fee,
                runic_utxos,
                fee_utxos,
                paid_by_sender,
                sender_address,
                receiver_address,
                postage,
                txn,
            };
            proof {
                assert(result matches TransactionType::Runestone {
                    runic_utxos: ru2,
                    fee_utxos: fu2,
                    txn: txn2,
                    ..
                } ==> {
                    &&& rune_build_ok(
                        m0.runic_pool(sender_addr@, runeid),
                        m0.btc_pool(if paid_by_sender { sender_addr@ } else { receiver_addr@ }),
                        manager@,
                        sender_addr@,
                        if paid_by_sender { sender_addr@ } else { receiver_addr@ },
                        runeid,
                        amount,
                        args.sender_address@,
                        args.receiver_address@,
                        total_fee,
                        postage,
                        txn2@,
                        ru2.deep_view(),
                        fu2.deep_view(),
                    )
                    &&& total_fee as int == tx_vsize(mock_sign(txn2@)) * fee_per_vbytes as int
                        / 1000
                });
                assert(rune_transfer_ok(
                    m0,
                    manager@,
                    args.sender_addr@,
                    args.receiver_addr@,
                    args.runeid,
                    args.amount,
                    args.sender_address@,
                    args.receiver_address@,
                    args.paid_by_sender,
                    args.fee_per_vbytes,
                    postage,
                    result,
                ));
            }
            return Ok(result);
        }
        // not a fixed point: give everything back and retry
        let ghost m_built = manager@;
        let ghost rdv = runic_utxos.deep_view();
        let ghost fdv = fee_utxos.deep_view();
        let ghost fee_addr = if paid_by_sender {
            sender_addr@
        } else {
            receiver_addr@
        };
        proof {
            crate::manager::lemma_btc_pool_sum_bounded(m_iter, fee_addr);
            crate::manager::lemma_sum_values_nonneg(m_built.btc_pool(fee_addr));
            crate::manager::lemma_sum_values_nonneg(fdv);
        }
        manager.record_bitcoin(fee_payer, fee_utxos);
        let ghost m_r1 = manager@;
        proof {
            lemma_suffix_restore(
                m_iter.btc_pool(fee_addr),
                m_built.btc_pool(fee_addr),
                fdv,
                m_r1.btc_pool(fee_addr),
            );
            crate::manager::lemma_runic_pool_sums_bounded(m_iter, sender_addr@, runeid);
            crate::manager::lemma_sum_balances_nonneg(m_r1.runic_pool(sender_addr@, runeid));
            crate::manager::lemma_sum_runic_values_nonneg(m_r1.runic_pool(sender_addr@, runeid));
            assert(m_r1.runic == m_built.runic);
            assert(m_r1.runic_pool(sender_addr@, runeid) == m_built.runic_pool(
                sender_addr@,
                runeid,
            ));
            assert forall|t: int| 0 <= t < rdv.len() implies !m_r1.btc_has_op(
                (#[trigger] rdv[t]).utxo.outpoint,
            ) && !pool_has_rop(
                m_r1.runic_pool(sender_addr@, runeid),
                rdv[t].utxo.outpoint,
            ) by {
                if m_r1.btc_has_op(rdv[t].utxo.outpoint) {
                    assert(m_built.btc_has_op(rdv[t].utxo.outpoint) || crate::manager::batch_has_op(
                        fdv,
                        rdv[t].utxo.outpoint,
                    ));
                    if crate::manager::batch_has_op(fdv, rdv[t].utxo.outpoint) {
                        let s = choose|s: int|
                            0 <= s < fdv.len() && (#[trigger] fdv[s]).outpoint == rdv[
                                t
                            ].utxo.outpoint;
                        assert(rdv[t].utxo.outpoint != fdv[s].outpoint);
                    }
                }
            }
            assert(sum_balances(m_built.runic_pool(sender_addr@, runeid)) + sum_balances(rdv)
                == sum_balances(m_iter.runic_pool(sender_addr@, runeid)));
            assert(m_r1.runic_pool(sender_addr@, runeid) == m_built.runic_pool(
                sender_addr@,
                runeid,
            ));
            assert(sum_balances(m_r1.runic_pool(sender_addr@, runeid)) + sum_balances(rdv)
                == sum_balances(m_iter.runic_pool(sender_addr@, runeid)));
            assert(sum_runic_values(m_built.runic_pool(sender_addr@, runeid)) + sum_runic_values(
                rdv,
            ) == sum_runic_values(m_iter.runic_pool(sender_addr@, runeid)));
            assert(sum_runic_values(m_r1.runic_pool(sender_addr@, runeid)) + sum_runic_values(rdv)
                == sum_runic_values(m_iter.runic_pool(sender_addr@, runeid)));
        }
        manager.record_runic(sender_addr, &runeid, runic_utxos);
        proof {
            lemma_runic_suffix_restore(
                m_iter.runic_pool(sender_addr@, runeid),
                m_r1.runic_pool(sender_addr@, runeid),
                rdv,
                manager@.runic_pool(sender_addr@, runeid),
            );
            assert forall|a: Seq<char>| true implies #[trigger] manager@.btc_pool(a)
                == m0.btc_pool(a) by {
                assert(manager@.btc == m_r1.btc);
                if a != fee_addr {
                    assert(m_r1.btc_pool(a) == m_built.btc_pool(a));
                    assert(m_built.btc_pool(a) == m_iter.btc_pool(a));
                }
            }
            assert forall|a: Seq<char>, rid: RuneId| true implies #[trigger] manager@.runic_pool(
                a,
                rid,
            ) == m0.runic_pool(a, rid) by {
                if !(a == sender_addr@ && rid == runeid) {
                    assert(manager@.runic_pool(a, rid) == m_r1.runic_pool(a, rid));
                    assert(m_r1.runic_pool(a, rid) == m_built.runic_pool(a, rid));
                    assert(m_built.runic_pool(a, rid) == m_iter.runic_pool(a, rid));
                }
            }
        }
        if new_fee_wide > 0xffff_ffff_ffff_ffffu128 {
            proof {
                assert(outcome == FeeOutcome::GaveUp);
            }
            break ;
        }
        proof {
            // the iteration steps to the recomputed fee with one less try
            assert(outcome == rune_fee_outcome(
                m0.runic_pool(sender_addr@, runeid),
                m0.btc_pool(fee_addr),
                runeid,
                amount,
                postage,
                sender_address@.hash,
                receiver_address@.hash,
                change_hash,
                fee_per_vbytes,
                new_fee_wide as u64,
                (crate::transaction::MAX_FEE_ITERATIONS - iterations) as nat,
            ));
        }
        total_fee = new_fee_wide as u64;
    }
    Err((0, u64::MAX))
}

/// The postage in effect: the caller's, or the default.
pub open spec fn spec_postage(p: Option<u64>) -> u64 {
    match p {
        Option::Some(v) => v,
        Option::None => crate::DEFAULT_POSTAGE,
    }
}

} // verus!

