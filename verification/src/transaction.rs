use vstd::prelude::*;

use crate::address::Address;
use crate::address::AddressV;
use crate::builder::{btc_draw_count, inputs_match, pools_unchanged, push_inputs,
    take_btc_until, lemma_suffix_restore, BuildSize, FeeOutcome};
use crate::manager::{none_present, ops_distinct, sum_values, utxos_wf_seq, UtxoManager,
    UtxoManagerV};
use crate::encoding::compact_size;
use crate::txmodel::{lemma_mock_vsize, mock_sign, p2pkh_script, transaction_vsize, tx_vsize,
    mock_signature, wire_len_outputs, Transaction, TransactionV, TxOut, TxOutV};
use crate::transaction_handler::TransactionType;
use crate::types::{Account, Utxo, UtxoV};
use crate::DUST_THRESHOLD;

verus! {

/// How many times the fee loop will rebuild before giving up: the fee can
/// oscillate when growing it drops a change output and shrinks the
/// transaction again.
pub const MAX_FEE_ITERATIONS: u64 = 64;

/// The satoshis the sender's inputs must cover: the amount, plus the fee
/// when the sender pays it.
pub open spec fn spec_total_amount(amount: u64, fee: u64, paid_by_sender: bool) -> int {
    amount + if paid_by_sender {
        fee as int
    } else {
        0
    }
}

/// What the receiver is paid: the amount, less the fee when the receiver
/// pays it.
pub open spec fn spec_send_value(amount: u64, fee: u64, paid_by_sender: bool) -> int {
    if paid_by_sender {
        amount as int
    } else {
        amount - fee
    }
}

/// The outputs of a plain send: the receiver's payment, then the sender's
/// change unless the remainder is dust (at most the dust threshold), in
/// which case the remainder is absorbed by the fee.
pub open spec fn spec_plain_outputs(
    to_spk: Seq<u8>,
    from_spk: Seq<u8>,
    send_value: u64,
    remaining: u64,
) -> Seq<TxOutV> {
    let pay = TxOutV { value: send_value, script_pubkey: to_spk };
    if remaining > DUST_THRESHOLD {
        seq![pay, TxOutV { value: remaining, script_pubkey: from_spk }]
    } else {
        seq![pay]
    }
}

/// Everything a successful plain build guarantees: the inputs spend exactly
/// the drawn outputs, which came off the end of the sender's pool; the
/// outputs pay the receiver and return any non-dust change to the sender;
/// and the drawn total covers the required total.
pub open spec fn plain_build_ok(
    orig_pool: Seq<UtxoV>,
    m2: UtxoManagerV,
    addr: Seq<char>,
    from: AddressV,
    to: AddressV,
    amount: u64,
    fee: u64,
    paid_by_sender: bool,
    txn: TransactionV,
    dv: Seq<UtxoV>,
) -> bool {
    let total_amount = spec_total_amount(amount, fee, paid_by_sender);
    let total_spent = sum_values(dv);
    &&& txn.version == 2
    &&& txn.lock_time == 0
    &&& inputs_match(txn.input, dv)
    &&& 0 <= spec_send_value(amount, fee, paid_by_sender)
    &&& total_spent >= total_amount
    &&& total_spent <= u64::MAX
    &&& txn.output == spec_plain_outputs(
        p2pkh_script(to.hash),
        p2pkh_script(from.hash),
        spec_send_value(amount, fee, paid_by_sender) as u64,
        (total_spent - total_amount) as u64,
    )
    &&& dv.len() <= orig_pool.len()
    &&& m2.btc_pool(addr) == orig_pool.take(orig_pool.len() - dv.len())
    &&& forall|t: int| 0 <= t < dv.len() ==> #[trigger] dv[t] == orig_pool[orig_pool.len() - 1 - t]
    &&& utxos_wf_seq(dv)
    &&& ops_distinct(dv)
    &&& none_present(m2, dv)
    &&& sum_values(m2.btc_pool(addr)) + total_spent == sum_values(orig_pool)
}

/// The deterministic size of the plain build at a fixed fee: drawing from
/// the end of the pool is deterministic, so the spent total, the outputs
/// and the mock-signed virtual size are functions of the pool and the
/// parameters.
pub open spec fn plain_build_size(
    pool: Seq<UtxoV>,
    amount: u64,
    fee: u64,
    paid_by_sender: bool,
    to_hash: Seq<u8>,
    from_hash: Seq<u8>,
) -> BuildSize {
    if (paid_by_sender && amount + fee > u64::MAX) || (!paid_by_sender && fee > amount) {
        BuildSize::OutOfRange
    } else {
        let total = spec_total_amount(amount, fee, paid_by_sender);
        if sum_values(pool) < total {
            BuildSize::Short
        } else {
            let d = btc_draw_count(pool, total, true);
            let spent = sum_values(pool) - sum_values(pool.take(pool.len() - d));
            let outs = spec_plain_outputs(
                p2pkh_script(to_hash),
                p2pkh_script(from_hash),
                spec_send_value(amount, fee, paid_by_sender) as u64,
                (spent - total) as u64,
            );
            BuildSize::Bytes(
                8 + compact_size(d as nat).len() + 148 * d + compact_size(outs.len()).len()
                    + wire_len_outputs(outs),
            )
        }
    }
}

/// The fee iteration of a plain send: starting from a fee, rebuild with
/// the recomputed fee until it is a fixed point, a pool falls short, or
/// the budget runs out.
pub open spec fn plain_fee_outcome(
    pool: Seq<UtxoV>,
    amount: u64,
    paid_by_sender: bool,
    to_hash: Seq<u8>,
    from_hash: Seq<u8>,
    rate: u64,
    fee: u64,
    budget: nat,
) -> FeeOutcome
    decreases budget,
{
    if budget == 0 {
        FeeOutcome::GaveUp
    } else {
        match plain_build_size(pool, amount, fee, paid_by_sender, to_hash, from_hash) {
            BuildSize::OutOfRange => FeeOutcome::GaveUp,
            BuildSize::Short => FeeOutcome::Shortfall { fee },
            BuildSize::Bytes(v) => {
                let g = v * rate as int / 1000;
                if g == fee {
                    FeeOutcome::Converged { fee }
                } else if g > u64::MAX {
                    FeeOutcome::GaveUp
                } else {
                    plain_fee_outcome(
                        pool,
                        amount,
                        paid_by_sender,
                        to_hash,
                        from_hash,
                        rate,
                        g as u64,
                        (budget - 1) as nat,
                    )
                }
            },
        }
    }
}

/// Builds a plain send at a fixed fee: draws the sender's plain outputs
/// until they cover amount and fee, pays the receiver, and returns non-dust
/// change. On a shortfall the drawn outputs go back and the pools are
/// exactly as before; the error carries the total that was required.
pub fn build_transaction_with_fee(
    manager: &mut UtxoManager,
    addr: &str,
    from: &Address,
    to: &Address,
    amount: u64,
    fee: u64,
    paid_by_sender: bool,
) -> (r: Result<(Transaction, Vec<Utxo>), u64>)
    requires
        old(manager)@.wf(),
        from@.wf(),
        to@.wf(),
        paid_by_sender ==> amount + fee <= u64::MAX,
        !paid_by_sender ==> fee <= amount,
    ensures
        final(manager)@.wf(),
        final(manager)@.runic == old(manager)@.runic,
        forall|a: Seq<char>|
            a != addr@ ==> #[trigger] final(manager)@.btc_pool(a) == old(manager)@.btc_pool(a),
        match r {
            Result::Ok((txn, utxos)) => plain_build_ok(
                old(manager)@.btc_pool(addr@),
                final(manager)@,
                addr@,
                from@,
                to@,
                amount,
                fee,
                paid_by_sender,
                txn@,
                utxos.deep_view(),
            ) && plain_build_size(old(manager)@.btc_pool(addr@), amount, fee, paid_by_sender, to@.hash, from@.hash)
                == BuildSize::Bytes(tx_vsize(mock_sign(txn@)) as int),
            Result::Err(req) => req == spec_total_amount(amount, fee, paid_by_sender)
                && pools_unchanged(old(manager)@, final(manager)@) && sum_values(
                old(manager)@.btc_pool(addr@),
            ) < spec_total_amount(amount, fee, paid_by_sender) && plain_build_size(
                old(manager)@.btc_pool(addr@),
                amount,
                fee,
                paid_by_sender,
                to@.hash,
                from@.hash,
            ) is Short,
        },
{
    let total_amount = if paid_by_sender {
        amount + fee
    } else {
        amount
    };
    let (utxos_to_spend, total_spent) = match take_btc_until(manager, addr, total_amount, true) {
        Result::Err(req) => {
            return Err(req);
        },
        Result::Ok(p) => p,
    };
    let mut input: Vec<crate::txmodel::TxIn> = Vec::new();
    push_inputs(&mut input, &utxos_to_spend);
    proof {
        assert(input.deep_view().skip(0) =~= input.deep_view());
    }
    let send_value = if paid_by_sender {
        amount
    } else {
        amount - fee
    };
    let mut output: Vec<TxOut> = Vec::new();
    output.push(TxOut { value: send_value, script_pubkey: to.script_pubkey() });
    let remaining = total_spent - total_amount;
    if remaining > crate::dust_threshold() {
        output.push(TxOut { value: remaining, script_pubkey: from.script_pubkey() });
    }
    let txn = Transaction { version: 2, lock_time: 0, input, output };
    proof {
        assert(txn@.output =~= spec_plain_outputs(
            p2pkh_script(to@.hash),
            p2pkh_script(from@.hash),
            send_value,
            remaining,
        ));
        // the deterministic sizing matches the built transaction
        let pool = old(manager)@.btc_pool(addr@);
        let dv = utxos_to_spend.deep_view();
        assert(dv.len() == btc_draw_count(pool, spec_total_amount(amount, fee, paid_by_sender), true));
        assert(manager@.btc_pool(addr@) == pool.take(pool.len() - dv.len()));
        assert(sum_values(pool) - sum_values(pool.take(pool.len() - dv.len())) == total_spent as int);
        assert forall|i: int|
            0 <= i < txn@.input.len() implies (#[trigger] txn@.input[i]).previous_output.txid.len()
            == 32 by {
            assert(txn@.input[i].previous_output == dv[i].outpoint);
            assert(dv[i].wf());
        }
        lemma_mock_vsize(txn@);
        assert(plain_build_size(pool, amount, fee, paid_by_sender, to@.hash, from@.hash)
            == BuildSize::Bytes(tx_vsize(mock_sign(txn@)) as int));
    }
    Ok((txn, utxos_to_spend))
}

/// What a successful plain-send transfer returns: a plain-send shape whose
/// fee is the fixed point of the mock-signed virtual size, whose inputs
/// were drawn from the sender's pool, and which left every other pool
/// untouched.
pub open spec fn plain_transfer_ok(
    m0: UtxoManagerV,
    m2: UtxoManagerV,
    addr: Seq<char>,
    account: crate::types::AccountV,
    from: AddressV,
    to: AddressV,
    amount: u64,
    paid_by_sender: bool,
    fee_per_vbytes: u64,
    t: TransactionType,
) -> bool {
    &&& t matches TransactionType::Bitcoin { addr: raddr, utxos, signer_account, signer_address, txn }
    &&& t matches TransactionType::Bitcoin { addr: raddr, utxos, signer_account, signer_address, txn }
        ==> {
        &&& raddr@ == addr
        &&& signer_account@ == account
        &&& signer_address@ == from
        &&& exists|fee: u64|
            {
                &&& #[trigger] plain_build_ok(
                    m0.btc_pool(addr),
                    m2,
                    addr,
                    from,
                    to,
                    amount,
                    fee,
                    paid_by_sender,
                    txn@,
                    utxos.deep_view(),
                )
                &&& fee as int == tx_vsize(mock_sign(txn@)) * fee_per_vbytes as int / 1000
                &&& paid_by_sender ==> amount + fee <= u64::MAX
                &&& !paid_by_sender ==> fee <= amount
            }
        &&& m2.runic == m0.runic
        &&& forall|a: Seq<char>| a != addr ==> #[trigger] m2.btc_pool(a) == m0.btc_pool(a)
    }
}

/// Builds a plain bitcoin send whose fee is a fixed point: the transaction
/// is rebuilt until the fee computed from the mock-signed size equals the
/// fee the inputs and outputs were chosen for. Between attempts every drawn
/// output is returned, and on failure the pools are exactly as before.
pub fn transfer(
    manager: &mut UtxoManager,
    addr: &str,
    account: Account,
    from: Address,
    to: Address,
    amount: u64,
    paid_by_sender: bool,
    fee_per_vbytes: u64,
) -> (r: Result<TransactionType, u64>)
    requires
        old(manager)@.wf(),
        from@.wf(),
        to@.wf(),
    ensures
        final(manager)@.wf(),
        match r {
            Result::Ok(t) => plain_transfer_ok(
                old(manager)@,
                final(manager)@,
                addr@,
                account@,
                from@,
                to@,
                amount,
                paid_by_sender,
                fee_per_vbytes,
                t,
            ),
            Result::Err(req) => pools_unchanged(old(manager)@, final(manager)@) && ((exists|
                f: u64,
            |
                #[trigger] spec_total_amount(amount, f, paid_by_sender) == req && sum_values(
                    old(manager)@.btc_pool(addr@),
                ) < req) || req == u64::MAX),
        },
        // the result follows the deterministic fee iteration: success is
        // owed at its first fixed point
        match plain_fee_outcome(
            old(manager)@.btc_pool(addr@),
            amount,
            paid_by_sender,
            to@.hash,
            from@.hash,
            fee_per_vbytes,
            0,
            MAX_FEE_ITERATIONS as nat,
        ) {
            FeeOutcome::Converged { fee } => r matches Result::Ok(t) && (t matches
                TransactionType::Bitcoin { txn, .. } ==> fee as int == tx_vsize(mock_sign(txn@))
                * fee_per_vbytes as int / 1000),
            FeeOutcome::Shortfall { fee } => r matches Result::Err(req) && req
                == spec_total_amount(amount, fee, paid_by_sender),
            FeeOutcome::GaveUp => r matches Result::Err(req) && req == u64::MAX,
        },
{
    let ghost m0 = old(manager)@;
    let ghost outcome = plain_fee_outcome(
        m0.btc_pool(addr@),
        amount,
        paid_by_sender,
        to@.hash,
        from@.hash,
        fee_per_vbytes,
        0,
        MAX_FEE_ITERATIONS as nat,
    );
    let mut total_fee: u64 = 0;
    let mut iterations: u64 = 0;
    loop
        invariant_except_break
            m0 == old(manager)@,
            manager@.wf(),
            manager@.runic == m0.runic,
            pools_unchanged(m0, manager@),
            iterations <= MAX_FEE_ITERATIONS,
            from@.wf(),
            to@.wf(),
            outcome == plain_fee_outcome(
                m0.btc_pool(addr@),
                amount,
                paid_by_sender,
                to@.hash,
                from@.hash,
                fee_per_vbytes,
                0,
                MAX_FEE_ITERATIONS as nat,
            ),
            outcome == plain_fee_outcome(
                m0.btc_pool(addr@),
                amount,
                paid_by_sender,
                to@.hash,
                from@.hash,
                fee_per_vbytes,
                total_fee,
                (MAX_FEE_ITERATIONS - iterations) as nat,
            ),
        ensures
            m0 == old(manager)@,
            manager@.wf(),
            manager@.runic == m0.runic,
            pools_unchanged(m0, manager@),
            outcome == FeeOutcome::GaveUp,
        decreases MAX_FEE_ITERATIONS - iterations,
    {
        if iterations >= MAX_FEE_ITERATIONS {
            proof {
                assert(outcome == FeeOutcome::GaveUp);
            }
            break ;
        }
        iterations = iterations + 1;
        if paid_by_sender && total_fee > u64::MAX - amount {
            proof {
                assert(plain_build_size(
                    m0.btc_pool(addr@),
                    amount,
                    total_fee,
                    paid_by_sender,
                    to@.hash,
                    from@.hash,
                ) is OutOfRange);
                assert(outcome == FeeOutcome::GaveUp);
            }
            break ;
        }
        if !paid_by_sender && total_fee > amount {
            proof {
                assert(plain_build_size(
                    m0.btc_pool(addr@),
                    amount,
                    total_fee,
                    paid_by_sender,
                    to@.hash,
                    from@.hash,
                ) is OutOfRange);
                assert(outcome == FeeOutcome::GaveUp);
            }
            break ;
        }
        let ghost m_iter = manager@;
        let ghost budget = (MAX_FEE_ITERATIONS - iterations + 1) as nat;
        let built = build_transaction_with_fee(
            manager,
            addr,
            &from,
            &to,
            amount,
            total_fee,
            paid_by_sender,
        );
        let (txn, utxos) = match built {
            Result::Err(req) => {
                proof {
                    assert(manager@.btc_pool(addr@) == m_iter.btc_pool(addr@));
                    assert(m_iter.btc_pool(addr@) == m0.btc_pool(addr@));
                    assert(spec_total_amount(amount, total_fee, paid_by_sender) == req
                        && sum_values(m0.btc_pool(addr@)) < req);
                    // the iteration ends in a shortfall at this fee
                    assert(plain_build_size(
                        m0.btc_pool(addr@),
                        amount,
                        total_fee,
                        paid_by_sender,
                        to@.hash,
                        from@.hash,
                    ) is Short);
                    assert(outcome == FeeOutcome::Shortfall { fee: total_fee });
                }
                return Err(req);
            },
            Result::Ok(p) => p,
        };
        let signed_txn = mock_signature(&txn);
        let txn_vsize = transaction_vsize(&signed_txn);
        let v128 = txn_vsize as u128;
        let r128 = fee_per_vbytes as u128;
        proof {
            assert(v128 * r128 <= 0xffffffffffffffffffffffffffffffffu128) by (nonlinear_arith)
                requires
                    v128 <= 0xffffffffffffffffu128,
                    r128 <= 0xffffffffffffffffu128,
            ;
        }
        let new_fee_wide = v128 * r128 / 1000;
        proof {
            assert(new_fee_wide as int == tx_vsize(mock_sign(txn@)) * fee_per_vbytes as int
                / 1000);
        }
        proof {
            // the deterministic sizing names this build's virtual size
            assert(plain_build_size(
                m0.btc_pool(addr@),
                amount,
                total_fee,
                paid_by_sender,
                to@.hash,
                from@.hash,
            ) == BuildSize::Bytes(tx_vsize(mock_sign(txn@)) as int));
        }
        if new_fee_wide == total_fee as u128 {
            proof {
                assert(outcome == FeeOutcome::Converged { fee: total_fee });
                assert(plain_build_ok(
                    m0.btc_pool(addr@),
                    manager@,
                    addr@,
                    from@,
                    to@,
                    amount,
                    total_fee,
                    paid_by_sender,
                    txn@,
                    utxos.deep_view(),
                ));
            }
            let result = TransactionType::Bitcoin {
                addr: addr.to_owned(),
                utxos,
                signer_account: account,
                signer_address: from,
                txn,
            };
            proof {
                assert(result matches TransactionType::Bitcoin {
                    addr: raddr2,
                    utxos: utxos2,
                    signer_account: sa2,
                    signer_address: sad2,
                    txn: txn2,
                } ==> {
                    &&& plain_build_ok(
                        m0.btc_pool(addr@),
                        manager@,
                        addr@,
                        from@,
                        to@,
                        amount,
                        total_fee,
                        paid_by_sender,
                        txn2@,
                        utxos2.deep_view(),
                    )
                    &&& total_fee as int == tx_vsize(mock_sign(txn2@)) * fee_per_vbytes as int
                        / 1000
                    &&& paid_by_sender ==> amount + total_fee <= u64::MAX
                    &&& !paid_by_sender ==> total_fee <= amount
                });
                assert(plain_transfer_ok(
                    m0,
                    manager@,
                    addr@,
                    account@,
                    from@,
                    to@,
                    amount,
                    paid_by_sender,
                    fee_per_vbytes,
                    result,
                ));
            }
            return Ok(result);
        }
        // not a fixed point: give the drawn outputs back and retry with the
        // recomputed fee
        let ghost m_built = manager@;
        let ghost dv = utxos.deep_view();
        proof {
            crate::manager::lemma_sum_values_nonneg(m_built.btc_pool(addr@));
            crate::manager::lemma_sum_values_nonneg(dv);
            crate::manager::lemma_btc_pool_sum_bounded(m_iter, addr@);
        }
        manager.record_bitcoin(addr, utxos);
        proof {
            lemma_suffix_restore(
                m_iter.btc_pool(addr@),
                m_built.btc_pool(addr@),
                dv,
                manager@.btc_pool(addr@),
            );
            assert forall|a: Seq<char>| true implies #[trigger] manager@.btc_pool(a)
                == m0.btc_pool(a) by {
                if a != addr@ {
                    assert(manager@.btc_pool(a) == m_built.btc_pool(a));
                }
            }
            assert forall|a: Seq<char>, rid: crate::types::RuneId| true implies
                #[trigger] manager@.runic_pool(a, rid) == m0.runic_pool(a, rid) by {
                assert(manager@.runic == m_built.runic);
                assert(m_built.runic_pool(a, rid) == m_iter.runic_pool(a, rid));
            }
        }
        if new_fee_wide > 0xffff_ffff_ffff_ffffu128 {
            proof {
                assert(outcome == FeeOutcome::GaveUp);
            }
            break ;
        }
        proof {
            // the iteration steps to the recomputed fee with one less try
            assert(outcome == plain_fee_outcome(
                m0.btc_pool(addr@),
                amount,
                paid_by_sender,
                to@.hash,
                from@.hash,
                fee_per_vbytes,
                new_fee_wide as u64,
                (MAX_FEE_ITERATIONS - iterations) as nat,
            ));
        }
        total_fee = new_fee_wide as u64;
    }
    Err(u64::MAX)
}

} // verus!
