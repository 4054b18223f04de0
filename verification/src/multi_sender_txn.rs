use vstd::prelude::*;

use crate::address::{Address, AddressV};
use crate::builder::{btc_draw_count, inputs_match, pools_unchanged, push_inputs,
    take_btc_until, lemma_suffix_restore, BuildSize, FeeOutcome};
use crate::encoding::compact_size;
use crate::manager::{batch_has_op, none_present, ops_distinct, sum_values, utxos_wf_seq,
    UtxoManager, UtxoManagerV};
use crate::transaction_handler::TransactionType;
use crate::txmodel::{lemma_mock_vsize, mock_sign, mock_signature, p2pkh_script,
    transaction_vsize, tx_vsize, wire_len_outputs, Transaction, TransactionV, TxOut, TxOutV};
use crate::types::{Account, RuneId, Utxo, UtxoV};
use crate::DUST_THRESHOLD;

verus! {

/// The arguments of a two-sender bitcoin send.
pub struct MultiSendTransactionArgument<'a> {
    pub addr0: &'a str,
    pub addr1: &'a str,
    pub address0: Address,
    pub address1: Address,
    pub receiver: Address,
    pub account0: Account,
    pub account1: Account,
    pub amount0: u64,
    pub amount1: u64,
    pub fee_per_vbytes: u64,
    pub paid_by_sender: bool,
}

/// The first sender's share of the fee: half, rounded down.
pub open spec fn spec_fee0(fee: u64) -> int {
    if fee % 2 == 0 {
        fee as int / 2
    } else {
        (fee - 1) / 2
    }
}

/// The second sender's share of the fee: half, with the odd satoshi.
pub open spec fn spec_fee1(fee: u64) -> int {
    if fee % 2 == 0 {
        fee as int / 2
    } else {
        (fee - 1) / 2 + 1
    }
}

/// The deterministic size of the two-sender build at a fixed fee.
pub open spec fn multi_build_size(
    pool0: Seq<UtxoV>,
    pool1: Seq<UtxoV>,
    amount0: u64,
    amount1: u64,
    fee: u64,
    paid_by_sender: bool,
    recv_hash: Seq<u8>,
    a0_hash: Seq<u8>,
    a1_hash: Seq<u8>,
) -> BuildSize {
    if (paid_by_sender && amount0 + amount1 + fee > u64::MAX) || (!paid_by_sender && fee > amount0
        + amount1) {
        BuildSize::OutOfRange
    } else {
        let t0 = amount0 + if paid_by_sender {
            spec_fee0(fee)
        } else {
            0
        };
        let t1 = amount1 + if paid_by_sender {
            spec_fee1(fee)
        } else {
            0
        };
        if sum_values(pool0) < t0 || sum_values(pool1) < t1 {
            BuildSize::Short
        } else {
            let d0 = btc_draw_count(pool0, t0, false);
            let d1 = btc_draw_count(pool1, t1, false);
            let spent0 = sum_values(pool0) - sum_values(pool0.take(pool0.len() - d0));
            let spent1 = sum_values(pool1) - sum_values(pool1.take(pool1.len() - d1));
            let rem0 = spent0 - t0;
            let rem1 = spent1 - t1;
            let pay = TxOutV {
                value: (amount0 + amount1 - if paid_by_sender {
                    0
                } else {
                    fee as int
                }) as u64,
                script_pubkey: p2pkh_script(recv_hash),
            };
            let with0 = if rem0 > DUST_THRESHOLD {
                seq![pay].push(TxOutV { value: rem0 as u64, script_pubkey: p2pkh_script(a0_hash) })
            } else {
                seq![pay]
            };
            let outs = if rem1 > DUST_THRESHOLD {
                with0.push(TxOutV { value: rem1 as u64, script_pubkey: p2pkh_script(a1_hash) })
            } else {
                with0
            };
            BuildSize::Bytes(
                8 + compact_size((d0 + d1) as nat).len() + 148 * (d0 + d1) + compact_size(
                    outs.len(),
                ).len() + wire_len_outputs(outs),
            )
        }
    }
}

/// The fee iteration of a two-sender send.
pub open spec fn multi_fee_outcome(
    pool0: Seq<UtxoV>,
    pool1: Seq<UtxoV>,
    amount0: u64,
    amount1: u64,
    paid_by_sender: bool,
    recv_hash: Seq<u8>,
    a0_hash: Seq<u8>,
    a1_hash: Seq<u8>,
    rate: u64,
    fee: u64,
    budget: nat,
) -> FeeOutcome
    decreases budget,
{
    if budget == 0 {
        FeeOutcome::GaveUp
    } else {
        match multi_build_size(
            pool0,
            pool1,
            amount0,
            amount1,
            fee,
            paid_by_sender,
            recv_hash,
            a0_hash,
            a1_hash,
        ) {
            BuildSize::OutOfRange => FeeOutcome::GaveUp,
            BuildSize::Short => FeeOutcome::Shortfall { fee },
            BuildSize::Bytes(v) => {
                let g = v * rate as int / 1000;
                if g == fee {
                    FeeOutcome::Converged { fee }
                } else if g > u64::MAX {
                    FeeOutcome::GaveUp
                } else {
                    multi_fee_outcome(
                        pool0,
                        pool1,
                        amount0,
                        amount1,
                        paid_by_sender,
                        recv_hash,
                        a0_hash,
                        a1_hash,
                        rate,
                        g as u64,
                        (budget - 1) as nat,
                    )
                }
            },
        }
    }
}

/// Everything a successful two-sender build guarantees: each sender's
/// inputs cover their amount plus their fee share, the receiver is paid
/// once, and each sender gets their own non-dust change.
pub open spec fn multi_build_ok(
    orig0: Seq<UtxoV>,
    orig1: Seq<UtxoV>,
    m2: UtxoManagerV,
    addr0: Seq<char>,
    addr1: Seq<char>,
    a0: AddressV,
    a1: AddressV,
    receiver: AddressV,
    amount0: u64,
    amount1: u64,
    fee: u64,
    paid_by_sender: bool,
    txn: TransactionV,
    dv0: Seq<UtxoV>,
    dv1: Seq<UtxoV>,
) -> bool {
    let total_amount0 = amount0 + if paid_by_sender {
        spec_fee0(fee)
    } else {
        0
    };
    let total_amount1 = amount1 + if paid_by_sender {
        spec_fee1(fee)
    } else {
        0
    };
    let spent0 = sum_values(dv0);
    let spent1 = sum_values(dv1);
    let rem0 = spent0 - total_amount0;
    let rem1 = spent1 - total_amount1;
    let pay = TxOutV {
        value: (amount0 + amount1 - if paid_by_sender {
            0
        } else {
            fee as int
        }) as u64,
        script_pubkey: p2pkh_script(receiver.hash),
    };
    let with0 = if rem0 > DUST_THRESHOLD {
        seq![pay].push(TxOutV { value: rem0 as u64, script_pubkey: p2pkh_script(a0.hash) })
    } else {
        seq![pay]
    };
    &&& txn.version == 2
    &&& txn.lock_time == 0
    &&& txn.input.len() == dv0.len() + dv1.len()
    &&& inputs_match(txn.input.take(dv0.len() as int), dv0)
    &&& inputs_match(txn.input.skip(dv0.len() as int), dv1)
    &&& spent0 >= total_amount0
    &&& spent1 >= total_amount1
    &&& spent0 <= u64::MAX
    &&& spent1 <= u64::MAX
    &&& txn.output == if rem1 > DUST_THRESHOLD {
        with0.push(TxOutV { value: rem1 as u64, script_pubkey: p2pkh_script(a1.hash) })
    } else {
        with0
    }
    &&& dv0.len() <= orig0.len()
    &&& m2.btc_pool(addr0) == orig0.take(orig0.len() - dv0.len())
    &&& forall|t: int| 0 <= t < dv0.len() ==> #[trigger] dv0[t] == orig0[orig0.len() - 1 - t]
    &&& dv1.len() <= orig1.len()
    &&& m2.btc_pool(addr1) == orig1.take(orig1.len() - dv1.len())
    &&& forall|t: int| 0 <= t < dv1.len() ==> #[trigger] dv1[t] == orig1[orig1.len() - 1 - t]
    &&& utxos_wf_seq(dv0)
    &&& ops_distinct(dv0)
    &&& utxos_wf_seq(dv1)
    &&& ops_distinct(dv1)
    &&& none_present(m2, dv0)
    &&& none_present(m2, dv1)
    &&& forall|t: int, s: int|
        0 <= t < dv0.len() && 0 <= s < dv1.len() ==> (#[trigger] dv0[t]).outpoint != (
        #[trigger] dv1[s]).outpoint
    &&& sum_values(m2.btc_pool(addr0)) + spent0 == sum_values(orig0)
    &&& sum_values(m2.btc_pool(addr1)) + spent1 == sum_values(orig1)
}

/// Builds a two-sender send at a fixed fee: the amount and the fee are each
/// split between the senders (the odd satoshi of the fee falls to the
/// second), each sender's plain pool is drawn independently, a single
/// output pays the receiver, and each sender gets their own non-dust
/// change. On a shortfall everything drawn is returned and the error names
/// both senders' required totals.
#[verifier::rlimit(30)]
pub fn build_transaction_with_fee(
    manager: &mut UtxoManager,
    addr0: &str,
    addr1: &str,
    address0: &Address,
    address1: &Address,
    receiver: &Address,
    amount0: u64,
    amount1: u64,
    fee: u64,
    paid_by_sender: bool,
) -> (r: Result<(Transaction, Vec<Utxo>, Vec<Utxo>), (u64, u64)>)
    requires
        old(manager)@.wf(),
        address0@.wf(),
        address1@.wf(),
        receiver@.wf(),
        addr0@ != addr1@,
        amount0 + amount1 <= u64::MAX,
        paid_by_sender ==> amount0 + amount1 + fee <= u64::MAX,
        !paid_by_sender ==> fee <= amount0 + amount1,
    ensures
        final(manager)@.wf(),
        match r {
            Result::Ok((txn, utxos0, utxos1)) => multi_build_ok(
                old(manager)@.btc_pool(addr0@),
                old(manager)@.btc_pool(addr1@),
                final(manager)@,
                addr0@,
                addr1@,
                address0@,
                address1@,
                receiver@,
                amount0,
                amount1,
                fee,
                paid_by_sender,
                txn@,
                utxos0.deep_view(),
                utxos1.deep_view(),
            ) && final(manager)@.runic == old(manager)@.runic && (forall|a: Seq<char>|
                a != addr0@ && a != addr1@ ==> #[trigger] final(manager)@.btc_pool(a) == old(
                    manager,
                )@.btc_pool(a)) && multi_build_size(
                old(manager)@.btc_pool(addr0@),
                old(manager)@.btc_pool(addr1@),
                amount0,
                amount1,
                fee,
                paid_by_sender,
                receiver@.hash,
                address0@.hash,
                address1@.hash,
            ) == BuildSize::Bytes(tx_vsize(mock_sign(txn@)) as int),
            Result::Err((r0, r1)) => pools_unchanged(old(manager)@, final(manager)@) && r0
                == amount0 + if paid_by_sender {
                spec_fee0(fee)
            } else {
                0
            } && r1 == amount1 + if paid_by_sender {
                spec_fee1(fee)
            } else {
                0
            } && (sum_values(old(manager)@.btc_pool(addr0@)) < r0 || sum_values(
                old(manager)@.btc_pool(addr1@),
            ) < r1) && multi_build_size(
                old(manager)@.btc_pool(addr0@),
                old(manager)@.btc_pool(addr1@),
                amount0,
                amount1,
                fee,
                paid_by_sender,
                receiver@.hash,
                address0@.hash,
                address1@.hash,
            ) is Short,
        },
{
    let ghost m0 = old(manager)@;
    let (fee0, fee1) = if fee % 2 == 0 {
        (fee / 2, fee / 2)
    } else {
        ((fee - 1) / 2, (fee - 1) / 2 + 1)
    };
    proof {
        assert(fee0 as int == spec_fee0(fee));
        assert(fee1 as int == spec_fee1(fee));
        assert(fee0 + fee1 == fee);
    }
    let (total_amount0, total_amount1) = if paid_by_sender {
        (amount0 + fee0, amount1 + fee1)
    } else {
        (amount0, amount1)
    };
    let (utxos0, spent0) = match take_btc_until(manager, addr0, total_amount0, false) {
        Result::Err(_) => {
            return Err((total_amount0, total_amount1));
        },
        Result::Ok(p) => p,
    };
    let ghost m1 = manager@;
    let ghost dv0 = utxos0.deep_view();
    let (utxos1, spent1) = match take_btc_until(manager, addr1, total_amount1, false) {
        Result::Err(_) => {
            // give the first sender's outputs back before reporting
            let ghost m2 = manager@;
            proof {
                assert(m1.btc_pool(addr1@) == m0.btc_pool(addr1@));
                assert(sum_values(m0.btc_pool(addr1@)) < total_amount1);
                crate::manager::lemma_btc_pool_sum_bounded(m0, addr0@);
                crate::manager::lemma_sum_values_nonneg(m2.btc_pool(addr0@));
                crate::manager::lemma_sum_values_nonneg(dv0);
                assert(m2.btc_pool(addr0@) == m1.btc_pool(addr0@));
                assert forall|t: int| 0 <= t < dv0.len() implies !m2.has_op(
                    (#[trigger] dv0[t]).outpoint,
                ) by {
                    if m2.btc_has_op(dv0[t].outpoint) {
                        assert(m1.btc_has_op(dv0[t].outpoint));
                    }
                    assert(m2.runic == m1.runic);
                }
                assert(sum_values(m2.btc_pool(addr0@)) + sum_values(dv0) == sum_values(
                    m0.btc_pool(addr0@),
                ));
            }
            manager.record_bitcoin(addr0, utxos0);
            proof {
                lemma_suffix_restore(
                    m0.btc_pool(addr0@),
                    m2.btc_pool(addr0@),
                    dv0,
                    manager@.btc_pool(addr0@),
                );
                assert forall|a: Seq<char>| true implies #[trigger] manager@.btc_pool(a)
                    == m0.btc_pool(a) by {
                    if a != addr0@ {
                        assert(manager@.btc_pool(a) == m2.btc_pool(a));
                        assert(m2.btc_pool(a) == m1.btc_pool(a));
                    }
                }
                assert forall|a: Seq<char>, rid: RuneId| true implies
                    #[trigger] manager@.runic_pool(a, rid) == m0.runic_pool(a, rid) by {
                    assert(manager@.runic == m2.runic);
                    assert(m2.runic == m1.runic);
                    assert(m1.runic == m0.runic);
                }
            }
            return Err((total_amount0, total_amount1));
        },
        Result::Ok(p) => p,
    };
    let mut input: Vec<crate::txmodel::TxIn> = Vec::new();
    push_inputs(&mut input, &utxos0);
    let ghost ins1 = input.deep_view();
    push_inputs(&mut input, &utxos1);
    proof {
        assert(ins1.skip(0) =~= ins1);
        assert(inputs_match(ins1, dv0));
        assert(input.deep_view().take(dv0.len() as int) =~= ins1);
        assert(input.deep_view().skip(ins1.len() as int) == input.deep_view().skip(
            dv0.len() as int,
        ));
    }
    let pay_value = if paid_by_sender {
        amount0 + amount1
    } else {
        amount0 + amount1 - fee
    };
    let mut output: Vec<TxOut> = Vec::new();
    output.push(TxOut { value: pay_value, script_pubkey: receiver.script_pubkey() });
    let rem0 = spent0 - total_amount0;
    if rem0 > crate::dust_threshold() {
        output.push(TxOut { value: rem0, script_pubkey: address0.script_pubkey() });
    }
    let ghost with0 = output.deep_view();
    let rem1 = spent1 - total_amount1;
    if rem1 > crate::dust_threshold() {
        output.push(TxOut { value: rem1, script_pubkey: address1.script_pubkey() });
    }
    let txn = Transaction { version: 2, lock_time: 0, input, output };
    proof {
        let pay = TxOutV { value: pay_value, script_pubkey: p2pkh_script(receiver@.hash) };
        assert(with0 =~= if rem0 > DUST_THRESHOLD {
            seq![pay].push(
                TxOutV { value: rem0 as u64, script_pubkey: p2pkh_script(address0@.hash) },
            )
        } else {
            seq![pay]
        });
        if rem1 > DUST_THRESHOLD {
            assert(txn@.output =~= with0.push(
                TxOutV { value: rem1 as u64, script_pubkey: p2pkh_script(address1@.hash) },
            ));
        } else {
            assert(txn@.output =~= with0);
        }
        // the two senders' inputs are distinct outputs
        assert forall|t: int, s: int|
            0 <= t < dv0.len() && 0 <= s < utxos1.deep_view().len() implies (
        #[trigger] dv0[t]).outpoint != (#[trigger] utxos1.deep_view()[s]).outpoint by {
            assert(!m1.has_op(dv0[t].outpoint));
            assert(m1.btc_has_op(utxos1.deep_view()[s].outpoint));
        }
        // the first batch stays absent through the second draw
        assert forall|t: int| 0 <= t < dv0.len() implies !manager@.has_op(
            (#[trigger] dv0[t]).outpoint,
        ) by {
            if manager@.btc_has_op(dv0[t].outpoint) {
                assert(m1.btc_has_op(dv0[t].outpoint));
            }
            assert(manager@.runic == m1.runic);
        }
        assert(manager@.btc_pool(addr0@) == m1.btc_pool(addr0@));
        // the deterministic sizing matches the built transaction
        let p0 = m0.btc_pool(addr0@);
        let p1 = m0.btc_pool(addr1@);
        let dv1 = utxos1.deep_view();
        assert(dv0.len() == btc_draw_count(p0, total_amount0 as int, false));
        assert(m1.btc_pool(addr1@) == p1);
        assert(dv1.len() == btc_draw_count(p1, total_amount1 as int, false));
        assert(sum_values(p0) - sum_values(p0.take(p0.len() - dv0.len())) == spent0 as int);
        assert(sum_values(p1) - sum_values(p1.take(p1.len() - dv1.len())) == spent1 as int);
        assert forall|i: int|
            0 <= i < txn@.input.len() implies (#[trigger] txn@.input[i]).previous_output.txid.len()
            == 32 by {
            if i < dv0.len() {
                assert(txn@.input.take(dv0.len() as int)[i] == txn@.input[i]);
                assert(txn@.input[i].previous_output == dv0[i].outpoint);
                assert(dv0[i].wf());
            } else {
                assert(txn@.input.skip(dv0.len() as int)[i - dv0.len()] == txn@.input[i]);
                assert(txn@.input[i].previous_output == dv1[i - dv0.len()].outpoint);
                assert(dv1[i - dv0.len()].wf());
            }
        }
        lemma_mock_vsize(txn@);
        assert(multi_build_size(
            p0,
            p1,
            amount0,
            amount1,
            fee,
            paid_by_sender,
            receiver@.hash,
            address0@.hash,
            address1@.hash,
        ) == BuildSize::Bytes(tx_vsize(mock_sign(txn@)) as int));
    }
    Ok((txn, utxos0, utxos1))
}

/// Why a two-sender build failed, as its error names it: at the fee the
/// error's totals embed, one of the senders' plain pools held less than
/// that sender's amount plus fee share.
pub open spec fn multi_build_shortfall(
    m0: UtxoManagerV,
    addr0: Seq<char>,
    addr1: Seq<char>,
    amount0: u64,
    amount1: u64,
    fee: u64,
    paid_by_sender: bool,
    e: (u64, u64),
) -> bool {
    &&& e.0 == amount0 + if paid_by_sender {
        spec_fee0(fee)
    } else {
        0
    }
    &&& e.1 == amount1 + if paid_by_sender {
        spec_fee1(fee)
    } else {
        0
    }
    &&& (sum_values(m0.btc_pool(addr0)) < e.0 || sum_values(m0.btc_pool(addr1)) < e.1)
}

/// What a successful two-sender transfer returns.
pub open spec fn multi_transfer_ok(
    m0: UtxoManagerV,
    m2: UtxoManagerV,
    addr0: Seq<char>,
    addr1: Seq<char>,
    a0: AddressV,
    a1: AddressV,
    receiver: AddressV,
    amount0: u64,
    amount1: u64,
    paid_by_sender: bool,
    fee_per_vbytes: u64,
    t: TransactionType,
) -> bool {
    &&& t matches TransactionType::LegoBitcoin { .. }
    &&& t matches TransactionType::LegoBitcoin {
        addr0: ra0,
        addr1: ra1,
        account0: _,
        account1: _,
        address0: rad0,
        address1: rad1,
        utxos0,
        utxos1,
        amount0: ram0,
        amount1: ram1,
        fee,
        paid_by_sender: rpaid,
        receiver: rrecv,
        txn,
    } ==> {
        &&& ra0@ == addr0
        &&& ra1@ == addr1
        &&& rad0@ == a0
        &&& rad1@ == a1
        &&& rrecv@ == receiver
        &&& ram0 == amount0
        &&& ram1 == amount1
        &&& rpaid == paid_by_sender
        &&& multi_build_ok(
            m0.btc_pool(addr0),
            m0.btc_pool(addr1),
            m2,
            addr0,
            addr1,
            a0,
            a1,
            receiver,
            amount0,
            amount1,
            fee,
            paid_by_sender,
            txn@,
            utxos0.deep_view(),
            utxos1.deep_view(),
        )
        &&& fee as int == tx_vsize(mock_sign(txn@)) * fee_per_vbytes as int / 1000
        &&& forall|a: Seq<char>|
            a != addr0 && a != addr1 ==> #[trigger] m2.btc_pool(a) == m0.btc_pool(a)
        &&& m2.runic == m0.runic
    }
}

/// Builds a two-sender bitcoin send whose fee is a fixed point of the
/// mock-signed virtual size. Between attempts every drawn output is
/// returned; on failure the pools are exactly as before.
#[verifier::rlimit(30)]
pub fn transfer(manager: &mut UtxoManager, args: MultiSendTransactionArgument) -> (r: Result<
    TransactionType,
    (u64, u64),
>)
    requires
        old(manager)@.wf(),
        args.address0@.wf(),
        args.address1@.wf(),
        args.receiver@.wf(),
        args.addr0@ != args.addr1@,
        args.amount0 + args.amount1 <= u64::MAX,
    ensures
        final(manager)@.wf(),
        match r {
            Result::Ok(t) => multi_transfer_ok(
                old(manager)@,
                final(manager)@,
                args.addr0@,
                args.addr1@,
                args.address0@,
                args.address1@,
                args.receiver@,
                args.amount0,
                args.amount1,
                args.paid_by_sender,
                args.fee_per_vbytes,
                t,
            ) && (t matches TransactionType::LegoBitcoin { account0, account1, .. } ==> account0@
                == args.account0@ && account1@ == args.account1@),
            Result::Err(e) => pools_unchanged(old(manager)@, final(manager)@) && ((exists|f: u64|
                #[trigger] multi_build_shortfall(
                    old(manager)@,
                    args.addr0@,
                    args.addr1@,
                    args.amount0,
                    args.amount1,
                    f,
                    args.paid_by_sender,
                    e,
                )) || e == (u64::MAX, u64::MAX)),
        },
        // the result follows the deterministic fee iteration: success is
        // owed at its first fixed point
        match multi_fee_outcome(
            old(manager)@.btc_pool(args.addr0@),
            old(manager)@.btc_pool(args.addr1@),
            args.amount0,
            args.amount1,
            args.paid_by_sender,
            args.receiver@.hash,
            args.address0@.hash,
            args.address1@.hash,
            args.fee_per_vbytes,
            0,
            crate::transaction::MAX_FEE_ITERATIONS as nat,
        ) {
            FeeOutcome::Converged { fee } => r matches Result::Ok(t) && (t matches
                TransactionType::LegoBitcoin { fee: rf, .. } ==> rf == fee),
            FeeOutcome::Shortfall { fee } => r matches Result::Err(e) && multi_build_shortfall(
                old(manager)@,
                args.addr0@,
                args.addr1@,
                args.amount0,
                args.amount1,
                fee,
                args.paid_by_sender,
                e,
            ),
            FeeOutcome::GaveUp => r matches Result::Err(e) && e == (u64::MAX, u64::MAX),
        },
{
    let addr0 = args.addr0;
    let addr1 = args.addr1;
    let amount0 = args.amount0;
    let amount1 = args.amount1;
    let fee_per_vbytes = args.fee_per_vbytes;
    let paid_by_sender = args.paid_by_sender;
    let address0 = args.address0;
    let address1 = args.address1;
    let receiver = args.receiver;
    let account0 = args.account0;
    let account1 = args.account1;
    let ghost m0 = old(manager)@;
    let ghost outcome = multi_fee_outcome(
        m0.btc_pool(addr0@),
        m0.btc_pool(addr1@),
        amount0,
        amount1,
        paid_by_sender,
        receiver@.hash,
        address0@.hash,
        address1@.hash,
        fee_per_vbytes,
        0,
        crate::transaction::MAX_FEE_ITERATIONS as nat,
    );
    let mut total_fee: u64 = 0;
    let mut iterations: u64 = 0;
    loop
        invariant_except_break
            m0 == old(manager)@,
            manager@.wf(),
            manager@.runic == m0.runic,
            pools_unchanged(m0, manager@),
            iterations <= crate::transaction::MAX_FEE_ITERATIONS,
            address0@.wf(),
            address1@.wf(),
            receiver@.wf(),
            addr0@ != addr1@,
            amount0 + amount1 <= u64::MAX,
            addr0@ == args.addr0@,
            addr1@ == args.addr1@,
            amount0 == args.amount0,
            amount1 == args.amount1,
            fee_per_vbytes == args.fee_per_vbytes,
            paid_by_sender == args.paid_by_sender,
            address0@ == args.address0@,
            address1@ == args.address1@,
            receiver@ == args.receiver@,
            account0@ == args.account0@,
            account1@ == args.account1@,
            outcome == multi_fee_outcome(
                m0.btc_pool(addr0@),
                m0.btc_pool(addr1@),
                amount0,
                amount1,
                paid_by_sender,
                receiver@.hash,
                address0@.hash,
                address1@.hash,
                fee_per_vbytes,
                0,
                crate::transaction::MAX_FEE_ITERATIONS as nat,
            ),
            outcome == multi_fee_outcome(
                m0.btc_pool(addr0@),
                m0.btc_pool(addr1@),
                amount0,
                amount1,
                paid_by_sender,
                receiver@.hash,
                address0@.hash,
                address1@.hash,
                fee_per_vbytes,
                total_fee,
                (crate::transaction::MAX_FEE_ITERATIONS - iterations) as nat,
            ),
        ensures
            m0 == old(manager)@,
            manager@.wf(),
            manager@.runic == m0.runic,
            pools_unchanged(m0, manager@),
            outcome == FeeOutcome::GaveUp,
        decreases crate::transaction::MAX_FEE_ITERATIONS - iterations,
    {
        if iterations >= crate::transaction::MAX_FEE_ITERATIONS {
            proof {
                assert(outcome == FeeOutcome::GaveUp);
            }
            break ;
        }
        iterations = iterations + 1;
        if paid_by_sender && total_fee > u64::MAX - amount0 - amount1 {
            proof {
                assert(multi_build_size(
                    m0.btc_pool(addr0@),
                    m0.btc_pool(addr1@),
                    amount0,
                    amount1,
                    total_fee,
                    paid_by_sender,
                    receiver@.hash,
                    address0@.hash,
                    address1@.hash,
                ) is OutOfRange);
                assert(outcome == FeeOutcome::GaveUp);
            }
            break ;
        }
        if !paid_by_sender && total_fee > amount0 + amount1 {
            proof {
                assert(multi_build_size(
                    m0.btc_pool(addr0@),
                    m0.btc_pool(addr1@),
                    amount0,
                    amount1,
                    total_fee,
                    paid_by_sender,
                    receiver@.hash,
                    address0@.hash,
                    address1@.hash,
                ) is OutOfRange);
                assert(outcome == FeeOutcome::GaveUp);
            }
            break ;
        }
        let ghost m_iter = manager@;
        let built = build_transaction_with_fee(
            manager,
            addr0,
            addr1,
            &address0,
            &address1,
            &receiver,
            amount0,
            amount1,
            total_fee,
            paid_by_sender,
        );
        let (txn, utxos0, utxos1) = match built {
            Result::Err(e) => {
                proof {
                    assert(m_iter.btc_pool(addr0@) == m0.btc_pool(addr0@));
                    assert(m_iter.btc_pool(addr1@) == m0.btc_pool(addr1@));
                    assert(multi_build_shortfall(
                        m0,
                        args.addr0@,
                        args.addr1@,
                        args.amount0,
                        args.amount1,
                        total_fee,
                        args.paid_by_sender,
                        e,
                    ));
                    // the iteration ends in a shortfall at this fee
                    assert(multi_build_size(
                        m0.btc_pool(addr0@),
                        m0.btc_pool(addr1@),
                        amount0,
                        amount1,
                        total_fee,
                        paid_by_sender,
                        receiver@.hash,
                        address0@.hash,
                        address1@.hash,
                    ) is Short);
                    assert(outcome == FeeOutcome::Shortfall { fee: total_fee });
                }
                return Err(e);
            },
            Result::Ok(t) => t,
        };
        let signed_txn = mock_signature(&txn);
        let txn_vsize = transaction_vsize(&signed_txn);
        let v128 = txn_vsize as u128;
        let r128 = fee_per_vbytes as u128;
        proof {
            assert(v128 * r128 <= 0xffffffffffffffffffffffffffffffffu128) by (nonlinear_arith)
                requires
                    v128 <= 0xffffffffffffffffu128,
                    r128 <= 0xffffffffffffffffu128,
            ;
        }
        let new_fee_wide = v128 * r128 / 1000;
        proof {
            assert(new_fee_wide as int == tx_vsize(mock_sign(txn@)) * fee_per_vbytes as int
                / 1000);
            // the deterministic sizing names this build's virtual size
            assert(multi_build_size(
                m0.btc_pool(addr0@),
                m0.btc_pool(addr1@),
                amount0,
                amount1,
                total_fee,
                paid_by_sender,
                receiver@.hash,
                address0@.hash,
                address1@.hash,
            ) == BuildSize::Bytes(tx_vsize(mock_sign(txn@)) as int));
        }
        if new_fee_wide == total_fee as u128 {
            proof {
                assert(outcome == FeeOutcome::Converged { fee: total_fee });
                assert(m_iter.btc_pool(addr0@) == m0.btc_pool(addr0@));
                assert(m_iter.btc_pool(addr1@) == m0.btc_pool(addr1@));
                assert(multi_build_ok(
                    m0.btc_pool(addr0@),
                    m0.btc_pool(addr1@),
                    manager@,
                    addr0@,
                    addr1@,
                    address0@,
                    address1@,
                    receiver@,
                    amount0,
                    amount1,
                    total_fee,
                    paid_by_sender,
                    txn@,
                    utxos0.deep_view(),
                    utxos1.deep_view(),
                ));
            }
            let result = TransactionType::LegoBitcoin {
                addr0: addr0.to_owned(),
                addr1: addr1.to_owned(),
                account0,
                account1,
                address0,
                address1,
                utxos0,
                utxos1,
                amount0,
                amount1,
                fee: total_fee,
                paid_by_sender,
                receiver,
                txn,
            };
            proof {
                assert(result matches TransactionType::LegoBitcoin {
                    utxos0: u02,
                    utxos1: u12,
                    txn: txn2,
                    ..
                } ==> {
                    &&& multi_build_ok(
                        m0.btc_pool(addr0@),
                        m0.btc_pool(addr1@),
                        manager@,
                        addr0@,
                        addr1@,
                        args.address0@,
                        args.address1@,
                        args.receiver@,
                        amount0,
                        amount1,
                        total_fee,
                        paid_by_sender,
                        txn2@,
                        u02.deep_view(),
                        u12.deep_view(),
                    )
                    &&& total_fee as int == tx_vsize(mock_sign(txn2@)) * fee_per_vbytes as int
                        / 1000
                });
                assert forall|a: Seq<char>| a != addr0@ && a != addr1@ implies
                    #[trigger] manager@.btc_pool(a) == m0.btc_pool(a) by {
                    assert(manager@.btc_pool(a) == m_iter.btc_pool(a));
                }
                assert(manager@.runic == m0.runic);
                assert(multi_transfer_ok(
                    m0,
                    manager@,
                    args.addr0@,
                    args.addr1@,
                    args.address0@,
                    args.address1@,
                    args.receiver@,
                    args.amount0,
                    args.amount1,
                    args.paid_by_sender,
                    args.fee_per_vbytes,
                    result,
                ));
            }
            return Ok(result);
        }
        // not a fixed point: give both senders' outputs back and retry
        let ghost m_built = manager@;
        let ghost dv0 = utxos0.deep_view();
        let ghost dv1 = utxos1.deep_view();
        proof {
            crate::manager::lemma_btc_pool_sum_bounded(m_iter, addr1@);
            crate::manager::lemma_sum_values_nonneg(m_built.btc_pool(addr1@));
            crate::manager::lemma_sum_values_nonneg(dv1);
        }
        manager.record_bitcoin(addr1, utxos1);
        let ghost m_r1 = manager@;
        proof {
            lemma_suffix_restore(
                m_iter.btc_pool(addr1@),
                m_built.btc_pool(addr1@),
                dv1,
                m_r1.btc_pool(addr1@),
            );
            crate::manager::lemma_btc_pool_sum_bounded(m_iter, addr0@);
            crate::manager::lemma_sum_values_nonneg(m_r1.btc_pool(addr0@));
            crate::manager::lemma_sum_values_nonneg(dv0);
            assert(m_r1.btc_pool(addr0@) == m_built.btc_pool(addr0@));
            assert forall|t: int| 0 <= t < dv0.len() implies !m_r1.has_op(
                (#[trigger] dv0[t]).outpoint,
            ) by {
                assert(!m_built.has_op(dv0[t].outpoint));
                if m_r1.btc_has_op(dv0[t].outpoint) {
                    assert(m_built.btc_has_op(dv0[t].outpoint) || batch_has_op(
                        dv1,
                        dv0[t].outpoint,
                    ));
                    if batch_has_op(dv1, dv0[t].outpoint) {
                        let s = choose|s: int|
                            0 <= s < dv1.len() && (#[trigger] dv1[s]).outpoint == dv0[t].outpoint;
                        assert(dv0[t].outpoint != dv1[s].outpoint);
                    }
                }
                assert(m_r1.runic == m_built.runic);
            }
            assert(sum_values(m_r1.btc_pool(addr0@)) + sum_values(dv0) == sum_values(
                m_iter.btc_pool(addr0@),
            ));
        }
        manager.record_bitcoin(addr0, utxos0);
        proof {
            lemma_suffix_restore(
                m_iter.btc_pool(addr0@),
                m_r1.btc_pool(addr0@),
                dv0,
                manager@.btc_pool(addr0@),
            );
            assert forall|a: Seq<char>| true implies #[trigger] manager@.btc_pool(a)
                == m0.btc_pool(a) by {
                if a != addr0@ {
                    assert(manager@.btc_pool(a) == m_r1.btc_pool(a));
                    if a != addr1@ {
                        assert(m_r1.btc_pool(a) == m_built.btc_pool(a));
                        assert(m_built.btc_pool(a) == m_iter.btc_pool(a));
                    }
                }
            }
            assert forall|a: Seq<char>, rid: RuneId| true implies #[trigger] manager@.runic_pool(
                a,
                rid,
            ) == m0.runic_pool(a, rid) by {
                assert(manager@.runic == m_r1.runic);
                assert(m_r1.runic == m_built.runic);
                assert(m_built.runic_pool(a, rid) == m_iter.runic_pool(a, rid));
            }
        }
        if new_fee_wide > 0xffff_ffff_ffff_ffffu128 {
            proof {
                assert(outcome == FeeOutcome::GaveUp);
            }
            break ;
        }
        proof {
            // the iteration steps to the recomputed fee with one less try
            assert(outcome == multi_fee_outcome(
                m0.btc_pool(addr0@),
                m0.btc_pool(addr1@),
                amount0,
                amount1,
                paid_by_sender,
                receiver@.hash,
                address0@.hash,
                address1@.hash,
                fee_per_vbytes,
                new_fee_wide as u64,
                (crate::transaction::MAX_FEE_ITERATIONS - iterations) as nat,
            ));
        }
        total_fee = new_fee_wide as u64;
    }
    Err((u64::MAX, u64::MAX))
}

} // verus!
