use vstd::prelude::*;

use crate::manager::{lemma_sum_balances_nonneg, lemma_sum_runic_values_nonneg,
    lemma_sum_values_nonneg, none_present, none_rpresent, ops_distinct, pool_has_rop,
    rops_distinct, runic_wf_seq, sum_balances, sum_runic_values, sum_values, utxos_wf_seq,
    UtxoManager, UtxoManagerV};
use crate::txmodel::{TxIn, TxInV};
use crate::types::{copy_bytes, OutPoint, OutPointV, RuneId, RunicUtxo, RunicUtxoV, Utxo, UtxoV};

verus! {

/// Every pool, plain and runic, holds the same outputs in the same order.
pub open spec fn pools_unchanged(m1: UtxoManagerV, m2: UtxoManagerV) -> bool {
    &&& forall|a: Seq<char>| #[trigger] m2.btc_pool(a) == m1.btc_pool(a)
    &&& forall|a: Seq<char>, rid: RuneId| #[trigger] m2.runic_pool(a, rid) == m1.runic_pool(a, rid)
}

/// The transaction inputs spend exactly these outputs, in order, unsigned.
pub open spec fn inputs_match(ins: Seq<TxInV>, utxos: Seq<UtxoV>) -> bool {
    &&& ins.len() == utxos.len()
    &&& forall|i: int|
        0 <= i < ins.len() ==> (#[trigger] ins[i]).previous_output == utxos[i].outpoint && ins[
            i
        ].script_sig == Seq::<u8>::empty() && ins[i].sequence == 0xffffffffu32
}

/// The transaction inputs spend exactly these runic outputs, in order.
pub open spec fn inputs_match_runic(ins: Seq<TxInV>, utxos: Seq<RunicUtxoV>) -> bool {
    &&& ins.len() == utxos.len()
    &&& forall|i: int|
        0 <= i < ins.len() ==> (#[trigger] ins[i]).previous_output == utxos[i].utxo.outpoint
            && ins[i].script_sig == Seq::<u8>::empty() && ins[i].sequence == 0xffffffffu32
}

/// Appends one unsigned input per output, spending them in order.
pub fn push_inputs(out: &mut Vec<TxIn>, utxos: &Vec<Utxo>)
    ensures
        final(out).deep_view().len() == old(out).deep_view().len() + utxos.deep_view().len(),
        forall|i: int|
            0 <= i < old(out).deep_view().len() ==> final(out).deep_view()[i] == old(
                out,
            ).deep_view()[i],
        inputs_match(
            final(out).deep_view().skip(old(out).deep_view().len() as int),
            utxos.deep_view(),
        ),
{
    let ghost base = old(out).deep_view().len() as int;
    let mut i: usize = 0;
    while i < utxos.len()
        invariant
            0 <= base,
            i <= utxos@.len(),
            out.deep_view().len() == base + i,
            forall|k: int| 0 <= k < base ==> out.deep_view()[k] == old(out).deep_view()[k],
            inputs_match(out.deep_view().skip(base), utxos.deep_view().take(i as int)),
        decreases utxos@.len() - i,
    {
        let u = &utxos[i];
        let x = TxIn {
            previous_output: OutPoint { txid: copy_bytes(&u.outpoint.txid), vout: u.outpoint.vout },
            script_sig: Vec::new(),
            sequence: 0xffffffffu32,
        };
        proof {
            assert(x@.previous_output == utxos.deep_view()[i as int].outpoint);
            assert(x@.script_sig =~= Seq::<u8>::empty());
        }
        let ghost prev = out.deep_view();
        out.push(x);
        proof {
            assert(out.deep_view() =~= prev.push(x@));
            assert(out.deep_view().skip(base) =~= prev.skip(base).push(x@));
            assert(utxos.deep_view().take(i + 1 as int) =~= utxos.deep_view().take(i as int).push(
                utxos.deep_view()[i as int],
            ));
        }
        i = i + 1;
    }
    proof {
        assert(utxos.deep_view().take(utxos.deep_view().len() as int) =~= utxos.deep_view());
    }
}

/// Appends one unsigned input per runic output, spending them in order.
pub fn push_runic_inputs(out: &mut Vec<TxIn>, utxos: &Vec<RunicUtxo>)
    ensures
        final(out).deep_view().len() == old(out).deep_view().len() + utxos.deep_view().len(),
        forall|i: int|
            0 <= i < old(out).deep_view().len() ==> final(out).deep_view()[i] == old(
                out,
            ).deep_view()[i],
        inputs_match_runic(
            final(out).deep_view().skip(old(out).deep_view().len() as int),
            utxos.deep_view(),
        ),
{
    let ghost base = old(out).deep_view().len() as int;
    let mut i: usize = 0;
    while i < utxos.len()
        invariant
            0 <= base,
            i <= utxos@.len(),
            out.deep_view().len() == base + i,
            forall|k: int| 0 <= k < base ==> out.deep_view()[k] == old(out).deep_view()[k],
            inputs_match_runic(out.deep_view().skip(base), utxos.deep_view().take(i as int)),
        decreases utxos@.len() - i,
    {
        let u = &utxos[i];
        let x = TxIn {
            previous_output: OutPoint {
                txid: copy_bytes(&u.utxo.outpoint.txid),
                vout: u.utxo.outpoint.vout,
            },
            script_sig: Vec::new(),
            sequence: 0xffffffffu32,
        };
        proof {
            assert(x@.previous_output == utxos.deep_view()[i as int].utxo.outpoint);
            assert(x@.script_sig =~= Seq::<u8>::empty());
        }
        let ghost prev = out.deep_view();
        out.push(x);
        proof {
            assert(out.deep_view() =~= prev.push(x@));
            assert(out.deep_view().skip(base) =~= prev.skip(base).push(x@));
            assert(utxos.deep_view().take(i + 1 as int) =~= utxos.deep_view().take(i as int).push(
                utxos.deep_view()[i as int],
            ));
        }
        i = i + 1;
    }
    proof {
        assert(utxos.deep_view().take(utxos.deep_view().len() as int) =~= utxos.deep_view());
    }
}

/// Whether a draw for `target` satoshis is complete, with a strict draw
/// stopping only once the target is strictly exceeded.
pub open spec fn btc_target_reached(sum: u64, target: u64, strict: bool) -> bool {
    if strict {
        sum > target
    } else {
        sum >= target
    }
}

/// How many outputs a draw takes off the end of the pool: one at a time
/// until the running total reaches the target (strictly exceeds it for a
/// strict draw), or the pool runs out.
pub open spec fn btc_draw_count(pool: Seq<UtxoV>, target: int, strict: bool) -> int
    decreases pool.len(),
{
    if pool.len() == 0 {
        0
    } else if (if strict {
        pool.last().value > target
    } else {
        pool.last().value >= target
    }) {
        1
    } else {
        1 + btc_draw_count(pool.drop_last(), target - pool.last().value, strict)
    }
}

/// How many runic outputs a draw takes off the end of the pool: all of
/// them when draining, otherwise one at a time until the balance strictly
/// exceeds the amount.
pub open spec fn runic_draw_count(pool: Seq<RunicUtxoV>, amount: int, drain_all: bool) -> int
    decreases pool.len(),
{
    if pool.len() == 0 {
        0
    } else if !drain_all && pool.last().balance > amount {
        1
    } else {
        1 + runic_draw_count(pool.drop_last(), amount - pool.last().balance, drain_all)
    }
}

/// Draws plain outputs of the address until their total reaches `target`
/// (strictly exceeds it when `strict`, unless the pool runs out exactly at
/// the target). On success the drawn outputs are removed from the pool; on
/// a shortfall every drawn output is returned and the pools are exactly as
/// before.
pub fn take_btc_until(manager: &mut UtxoManager, addr: &str, target: u64, strict: bool) -> (r:
    Result<(Vec<Utxo>, u64), u64>)
    requires
        old(manager)@.wf(),
    ensures
        final(manager)@.wf(),
        final(manager)@.runic == old(manager)@.runic,
        forall|a: Seq<char>|
            a != addr@ ==> #[trigger] final(manager)@.btc_pool(a) == old(manager)@.btc_pool(a),
        forall|op: OutPointV| #[trigger]
            final(manager)@.btc_has_op(op) ==> old(manager)@.btc_has_op(op),
        match r {
            Result::Ok((drawn, sum)) => {
                let orig = old(manager)@.btc_pool(addr@);
                let dv = drawn.deep_view();
                &&& sum as int == sum_values(dv)
                &&& sum >= target
                &&& dv.len() <= orig.len()
                &&& final(manager)@.btc_pool(addr@) == orig.take(orig.len() - dv.len())
                &&& forall|t: int| 0 <= t < dv.len() ==> dv[t] == orig[orig.len() - 1 - t]
                &&& utxos_wf_seq(dv)
                &&& ops_distinct(dv)
                &&& none_present(final(manager)@, dv)
                &&& forall|t: int|
                    0 <= t < dv.len() ==> old(manager)@.btc_has_op((#[trigger] dv[t]).outpoint)
                &&& sum_values(final(manager)@.btc_pool(addr@)) + sum == sum_values(orig)
                &&& dv.len() == btc_draw_count(orig, target as int, strict)
                &&& (strict ==> sum > target || final(manager)@.btc_pool(addr@).len() == 0)
            },
            Result::Err(req) => req == target && pools_unchanged(old(manager)@, final(manager)@)
                && sum_values(old(manager)@.btc_pool(addr@)) < target,
        },
        r is Err <==> sum_values(old(manager)@.btc_pool(addr@)) < target,
{
    let ghost m0 = old(manager)@;
    let ghost orig = m0.btc_pool(addr@);
    proof {
        if m0.has_btc(addr@) {
            crate::manager::lemma_btc_entry(m0, m0.btc_idx(addr@));
            assert(sum_values(orig) <= u64::MAX);
        } else {
            assert(orig =~= Seq::<UtxoV>::empty());
        }
    }
    let mut drawn: Vec<Utxo> = Vec::new();
    let mut sum: u64 = 0;
    proof {
        assert(drawn.deep_view() =~= Seq::<UtxoV>::empty());
        assert(orig.take(orig.len() as int) =~= orig);
    }
    loop
        invariant_except_break
            manager@.wf(),
            manager@.runic == m0.runic,
            forall|a: Seq<char>| a != addr@ ==> #[trigger] manager@.btc_pool(a) == m0.btc_pool(a),
            forall|op: OutPointV| #[trigger] manager@.btc_has_op(op) ==> m0.btc_has_op(op),
            drawn.deep_view().len() <= orig.len(),
            manager@.btc_pool(addr@) == orig.take(orig.len() - drawn.deep_view().len()),
            forall|t: int|
                0 <= t < drawn.deep_view().len() ==> #[trigger] drawn.deep_view()[t] == orig[
                    orig.len() - 1 - t],
            sum as int == sum_values(drawn.deep_view()),
            sum_values(manager@.btc_pool(addr@)) + sum == sum_values(orig),
            sum_values(orig) <= u64::MAX,
            utxos_wf_seq(drawn.deep_view()),
            ops_distinct(drawn.deep_view()),
            none_present(manager@, drawn.deep_view()),
            forall|t: int|
                0 <= t < drawn.deep_view().len() ==> m0.btc_has_op(
                    (#[trigger] drawn.deep_view()[t]).outpoint,
                ),
            btc_draw_count(orig, target as int, strict) == drawn.deep_view().len()
                + btc_draw_count(manager@.btc_pool(addr@), target - sum, strict),
        ensures
            manager@.wf(),
            manager@.runic == m0.runic,
            forall|a: Seq<char>| a != addr@ ==> #[trigger] manager@.btc_pool(a) == m0.btc_pool(a),
            forall|op: OutPointV| #[trigger] manager@.btc_has_op(op) ==> m0.btc_has_op(op),
            drawn.deep_view().len() <= orig.len(),
            manager@.btc_pool(addr@) == orig.take(orig.len() - drawn.deep_view().len()),
            forall|t: int|
                0 <= t < drawn.deep_view().len() ==> #[trigger] drawn.deep_view()[t] == orig[
                    orig.len() - 1 - t],
            sum as int == sum_values(drawn.deep_view()),
            sum_values(manager@.btc_pool(addr@)) + sum == sum_values(orig),
            sum_values(orig) <= u64::MAX,
            utxos_wf_seq(drawn.deep_view()),
            ops_distinct(drawn.deep_view()),
            none_present(manager@, drawn.deep_view()),
            forall|t: int|
                0 <= t < drawn.deep_view().len() ==> m0.btc_has_op(
                    (#[trigger] drawn.deep_view()[t]).outpoint,
                ),
            btc_target_reached(sum, target, strict) || manager@.btc_pool(addr@).len() == 0,
            btc_draw_count(orig, target as int, strict) == drawn.deep_view().len(),
        decreases manager@.btc_pool(addr@).len(),
    {
        let ghost pre = manager@;
        let u = match manager.take_bitcoin(addr) {
            Option::None => {
                proof {
                    assert(manager@.btc_pool(addr@).len() == 0);
                    assert(btc_draw_count(manager@.btc_pool(addr@), target - sum, strict) == 0);
                }
                break ;
            },
            Option::Some(u) => u,
        };
        proof {
            let pool = pre.btc_pool(addr@);
            assert(pool.len() > 0);
            assert(u@ == pool.last());
            assert(pool == orig.take(orig.len() - drawn.deep_view().len()));
            assert(u@ == orig[orig.len() - 1 - drawn.deep_view().len()]);
            assert(sum_values(pool) == sum_values(pool.drop_last()) + u@.value);
            lemma_sum_values_nonneg(pool.drop_last());
            lemma_sum_values_nonneg(drawn.deep_view());
            assert(sum + u@.value <= sum_values(orig));
            assert(manager@.btc_pool(addr@) == pool.drop_last());
            assert(pool.drop_last() =~= orig.take(orig.len() - (drawn.deep_view().len() + 1)));
        }
        sum = sum + u.value;
        let ghost prev_drawn = drawn.deep_view();
        let ghost uv = u@;
        drawn.push(u);
        proof {
            assert(drawn.deep_view() =~= prev_drawn.push(uv));
            assert(drawn.deep_view().drop_last() =~= prev_drawn);
            assert(drawn.deep_view().last() == uv);
            // the freshly drawn output is distinct from and as fresh as the rest
            assert forall|t: int| 0 <= t < drawn.deep_view().len() implies !manager@.has_op(
                (#[trigger] drawn.deep_view()[t]).outpoint,
            ) by {
                if t < prev_drawn.len() {
                    assert(!pre.has_op(prev_drawn[t].outpoint));
                    assert(drawn.deep_view()[t] == prev_drawn[t]);
                    if manager@.btc_has_op(prev_drawn[t].outpoint) {
                        assert(pre.btc_has_op(prev_drawn[t].outpoint));
                    }
                    assert(manager@.runic == pre.runic);
                } else {
                    assert(drawn.deep_view()[t] == uv);
                }
            }
            assert forall|t: int, l: int| 0 <= t < l < drawn.deep_view().len() implies (
            #[trigger] drawn.deep_view()[t]).outpoint != (
            #[trigger] drawn.deep_view()[l]).outpoint by {
                if l == prev_drawn.len() {
                    assert(!pre.has_op(prev_drawn[t].outpoint));
                    assert(pre.btc_has_op(uv.outpoint));
                }
            }
            assert forall|t: int| 0 <= t < drawn.deep_view().len() implies m0.btc_has_op(
                (#[trigger] drawn.deep_view()[t]).outpoint,
            ) by {
                if t == prev_drawn.len() {
                    assert(pre.btc_has_op(uv.outpoint));
                }
            }
        }
        proof {
            // the draw count steps with the loop: the popped output either
            // reaches the target or hands the reduced target on
            let pool = pre.btc_pool(addr@);
            assert(btc_draw_count(pool, target - (sum - uv.value), strict) == if (if strict {
                uv.value > target - (sum - uv.value)
            } else {
                uv.value >= target - (sum - uv.value)
            }) {
                1int
            } else {
                1 + btc_draw_count(pool.drop_last(), target - sum, strict)
            });
        }
        let reached = if strict {
            sum > target
        } else {
            sum >= target
        };
        if reached {
            proof {
                let pool = pre.btc_pool(addr@);
                assert(btc_draw_count(pool, target - (sum - uv.value), strict) == 1);
                assert(btc_draw_count(orig, target as int, strict) == drawn.deep_view().len());
            }
            break ;
        }
        proof {
            let pool = pre.btc_pool(addr@);
            assert(btc_draw_count(pool, target - (sum - uv.value), strict) == 1
                + btc_draw_count(pool.drop_last(), target - sum, strict));
        }
    }
    if sum < target {
        let ghost mcur = manager@;
        let ghost dv = drawn.deep_view();
        proof {
            lemma_sum_values_nonneg(mcur.btc_pool(addr@));
            // the draw stopped on an empty pool, so the whole pool was short
            assert(manager@.btc_pool(addr@).len() == 0);
            assert(sum_values(manager@.btc_pool(addr@)) == 0);
            assert(sum_values(orig) < target);
        }
        manager.record_bitcoin(addr, drawn);
        proof {
            assert(manager@.btc_pool(addr@) == mcur.btc_pool(addr@) + dv.reverse());
            assert(manager@.btc_pool(addr@) =~= orig) by {
                assert(mcur.btc_pool(addr@) == orig.take(orig.len() - dv.len()));
                assert forall|j: int| 0 <= j < dv.len() implies dv.reverse()[j] == orig[orig.len()
                    - dv.len() + j] by {
                    assert(dv.reverse()[j] == dv[dv.len() - 1 - j]);
                    assert(dv[dv.len() - 1 - j] == orig[orig.len() - 1 - (dv.len() - 1 - j)]);
                }
            }
            assert forall|a: Seq<char>| true implies #[trigger] manager@.btc_pool(a)
                == m0.btc_pool(a) by {
                if a != addr@ {
                    assert(manager@.btc_pool(a) == mcur.btc_pool(a));
                }
            }
            assert forall|a: Seq<char>, rid: RuneId| true implies #[trigger] manager@.runic_pool(
                a,
                rid,
            ) == m0.runic_pool(a, rid) by {
                assert(manager@.runic == m0.runic);
            }
        }
        return Err(target);
    }
    proof {
        lemma_sum_values_nonneg(manager@.btc_pool(addr@));
        assert(sum_values(orig) >= target);
    }
    Ok((drawn, sum))
}

/// Whether a runic draw for `amount` is complete. A draining draw empties
/// the pool; otherwise the draw stops once the balance strictly exceeds the
/// amount.
pub open spec fn rune_target_reached(total: u128, amount: u128, drain_all: bool) -> bool {
    !drain_all && total > amount
}

/// Draws runic outputs of the address and rune until their balance strictly
/// exceeds `amount` (or, when `drain_all`, until the pool is empty). On
/// success the drawn outputs are removed; on a shortfall every drawn output
/// is returned and the pools are exactly as before.
pub fn take_runic_until(
    manager: &mut UtxoManager,
    addr: &str,
    rune: &RuneId,
    amount: u128,
    drain_all: bool,
) -> (r: Result<(Vec<RunicUtxo>, u128, u64), ()>)
    requires
        old(manager)@.wf(),
    ensures
        final(manager)@.wf(),
        final(manager)@.btc == old(manager)@.btc,
        forall|a: Seq<char>, rid: RuneId|
            !(a == addr@ && rid == *rune) ==> #[trigger] final(manager)@.runic_pool(a, rid) == old(
                manager,
            )@.runic_pool(a, rid),
        forall|op: OutPointV| #[trigger]
            final(manager)@.runic_has_op(op) ==> old(manager)@.runic_has_op(op),
        match r {
            Result::Ok((drawn, total, btc_in)) => {
                let orig = old(manager)@.runic_pool(addr@, *rune);
                let dv = drawn.deep_view();
                &&& total as int == sum_balances(dv)
                &&& btc_in as int == sum_runic_values(dv)
                &&& total >= amount
                &&& dv.len() <= orig.len()
                &&& final(manager)@.runic_pool(addr@, *rune) == orig.take(orig.len() - dv.len())
                &&& forall|t: int| 0 <= t < dv.len() ==> dv[t] == orig[orig.len() - 1 - t]
                &&& runic_wf_seq(dv)
                &&& rops_distinct(dv)
                &&& forall|t: int|
                    0 <= t < dv.len() ==> !final(manager)@.btc_has_op(
                        (#[trigger] dv[t]).utxo.outpoint,
                    ) && !pool_has_rop(
                        final(manager)@.runic_pool(addr@, *rune),
                        dv[t].utxo.outpoint,
                    )
                &&& forall|t: int|
                    0 <= t < dv.len() ==> old(manager)@.runic_has_op(
                        (#[trigger] dv[t]).utxo.outpoint,
                    )
                &&& sum_balances(final(manager)@.runic_pool(addr@, *rune)) + total == sum_balances(
                    orig,
                )
                &&& sum_runic_values(final(manager)@.runic_pool(addr@, *rune)) + btc_in
                    == sum_runic_values(orig)
                &&& dv.len() == runic_draw_count(orig, amount as int, drain_all)
                &&& (drain_all ==> final(manager)@.runic_pool(addr@, *rune).len() == 0)
                &&& (!drain_all ==> total > amount || final(manager)@.runic_pool(
                    addr@,
                    *rune,
                ).len() == 0)
            },
            Result::Err(u) => pools_unchanged(old(manager)@, final(manager)@) && sum_balances(
                old(manager)@.runic_pool(addr@, *rune),
            ) < amount,
        },
        r is Err <==> sum_balances(old(manager)@.runic_pool(addr@, *rune)) < amount,
{
    let ghost m0 = old(manager)@;
    let ghost orig = m0.runic_pool(addr@, *rune);
    proof {
        if m0.has_runic(addr@, *rune) {
            crate::manager::lemma_runic_entry(m0, m0.runic_idx(addr@, *rune));
            assert(sum_balances(orig) <= u128::MAX);
            assert(sum_runic_values(orig) <= u64::MAX);
        } else {
            assert(orig =~= Seq::<RunicUtxoV>::empty());
        }
    }
    let mut drawn: Vec<RunicUtxo> = Vec::new();
    let mut total: u128 = 0;
    let mut btc_in: u64 = 0;
    proof {
        assert(drawn.deep_view() =~= Seq::<RunicUtxoV>::empty());
        assert(orig.take(orig.len() as int) =~= orig);
    }
    loop
        invariant_except_break
            manager@.wf(),
            manager@.btc == m0.btc,
            forall|a: Seq<char>, rid: RuneId|
                !(a == addr@ && rid == *rune) ==> #[trigger] manager@.runic_pool(a, rid)
                    == m0.runic_pool(a, rid),
            forall|op: OutPointV| #[trigger] manager@.runic_has_op(op) ==> m0.runic_has_op(op),
            drawn.deep_view().len() <= orig.len(),
            manager@.runic_pool(addr@, *rune) == orig.take(orig.len() - drawn.deep_view().len()),
            forall|t: int|
                0 <= t < drawn.deep_view().len() ==> #[trigger] drawn.deep_view()[t] == orig[
                    orig.len() - 1 - t],
            total as int == sum_balances(drawn.deep_view()),
            btc_in as int == sum_runic_values(drawn.deep_view()),
            sum_balances(manager@.runic_pool(addr@, *rune)) + total == sum_balances(orig),
            sum_runic_values(manager@.runic_pool(addr@, *rune)) + btc_in == sum_runic_values(orig),
            sum_balances(orig) <= u128::MAX,
            sum_runic_values(orig) <= u64::MAX,
            runic_wf_seq(drawn.deep_view()),
            rops_distinct(drawn.deep_view()),
            forall|t: int|
                0 <= t < drawn.deep_view().len() ==> !manager@.btc_has_op(
                    (#[trigger] drawn.deep_view()[t]).utxo.outpoint,
                ) && !pool_has_rop(
                    manager@.runic_pool(addr@, *rune),
                    drawn.deep_view()[t].utxo.outpoint,
                ),
            forall|t: int|
                0 <= t < drawn.deep_view().len() ==> m0.runic_has_op(
                    (#[trigger] drawn.deep_view()[t]).utxo.outpoint,
                ),
            runic_draw_count(orig, amount as int, drain_all) == drawn.deep_view().len()
                + runic_draw_count(manager@.runic_pool(addr@, *rune), amount - total, drain_all),
        ensures
            manager@.wf(),
            manager@.btc == m0.btc,
            forall|a: Seq<char>, rid: RuneId|
                !(a == addr@ && rid == *rune) ==> #[trigger] manager@.runic_pool(a, rid)
                    == m0.runic_pool(a, rid),
            forall|op: OutPointV| #[trigger] manager@.runic_has_op(op) ==> m0.runic_has_op(op),
            drawn.deep_view().len() <= orig.len(),
            manager@.runic_pool(addr@, *rune) == orig.take(orig.len() - drawn.deep_view().len()),
            forall|t: int|
                0 <= t < drawn.deep_view().len() ==> #[trigger] drawn.deep_view()[t] == orig[
                    orig.len() - 1 - t],
            total as int == sum_balances(drawn.deep_view()),
            btc_in as int == sum_runic_values(drawn.deep_view()),
            sum_balances(manager@.runic_pool(addr@, *rune)) + total == sum_balances(orig),
            sum_runic_values(manager@.runic_pool(addr@, *rune)) + btc_in == sum_runic_values(orig),
            sum_balances(orig) <= u128::MAX,
            sum_runic_values(orig) <= u64::MAX,
            runic_wf_seq(drawn.deep_view()),
            rops_distinct(drawn.deep_view()),
            forall|t: int|
                0 <= t < drawn.deep_view().len() ==> !manager@.btc_has_op(
                    (#[trigger] drawn.deep_view()[t]).utxo.outpoint,
                ) && !pool_has_rop(
                    manager@.runic_pool(addr@, *rune),
                    drawn.deep_view()[t].utxo.outpoint,
                ),
            forall|t: int|
                0 <= t < drawn.deep_view().len() ==> m0.runic_has_op(
                    (#[trigger] drawn.deep_view()[t]).utxo.outpoint,
                ),
            rune_target_reached(total, amount, drain_all) || manager@.runic_pool(
                addr@,
                *rune,
            ).len() == 0,
            runic_draw_count(orig, amount as int, drain_all) == drawn.deep_view().len(),
        decreases manager@.runic_pool(addr@, *rune).len(),
    {
        let ghost pre = manager@;
        let u = match manager.take_runic(addr, rune) {
            Option::None => {
                proof {
                    assert(manager@.runic_pool(addr@, *rune).len() == 0);
                    assert(runic_draw_count(
                        manager@.runic_pool(addr@, *rune),
                        amount - total,
                        drain_all,
                    ) == 0);
                }
                break ;
            },
            Option::Some(u) => u,
        };
        proof {
            let pool = pre.runic_pool(addr@, *rune);
            assert(pool.len() > 0);
            assert(u@ == pool.last());
            assert(u@ == orig[orig.len() - 1 - drawn.deep_view().len()]);
            assert(sum_balances(pool) == sum_balances(pool.drop_last()) + u@.balance);
            assert(sum_runic_values(pool) == sum_runic_values(pool.drop_last()) + u@.utxo.value);
            lemma_sum_balances_nonneg(pool.drop_last());
            lemma_sum_runic_values_nonneg(pool.drop_last());
            lemma_sum_balances_nonneg(drawn.deep_view());
            lemma_sum_runic_values_nonneg(drawn.deep_view());
            assert(total + u@.balance <= sum_balances(orig));
            assert(btc_in + u@.utxo.value <= sum_runic_values(orig));
            assert(manager@.runic_pool(addr@, *rune) == pool.drop_last());
            assert(pool.drop_last() =~= orig.take(orig.len() - (drawn.deep_view().len() + 1)));
        }
        total = total + u.balance;
        btc_in = btc_in + u.utxo.value;
        let ghost prev_drawn = drawn.deep_view();
        let ghost uv = u@;
        drawn.push(u);
        proof {
            assert(drawn.deep_view() =~= prev_drawn.push(uv));
            assert(drawn.deep_view().drop_last() =~= prev_drawn);
            assert(drawn.deep_view().last() == uv);
            assert forall|t: int| 0 <= t < drawn.deep_view().len() implies !manager@.btc_has_op(
                (#[trigger] drawn.deep_view()[t]).utxo.outpoint,
            ) && !pool_has_rop(
                manager@.runic_pool(addr@, *rune),
                drawn.deep_view()[t].utxo.outpoint,
            ) by {
                if t < prev_drawn.len() {
                    assert(drawn.deep_view()[t] == prev_drawn[t]);
                    assert(!pre.btc_has_op(prev_drawn[t].utxo.outpoint));
                    assert(manager@.btc == pre.btc);
                    if pool_has_rop(
                        manager@.runic_pool(addr@, *rune),
                        prev_drawn[t].utxo.outpoint,
                    ) {
                        let j = choose|j: int|
                            0 <= j < manager@.runic_pool(addr@, *rune).len() && (
                            #[trigger] manager@.runic_pool(addr@, *rune)[j]).utxo.outpoint
                                == prev_drawn[t].utxo.outpoint;
                        assert(pre.runic_pool(addr@, *rune)[j] == manager@.runic_pool(
                            addr@,
                            *rune,
                        )[j]);
                        assert(pool_has_rop(
                            pre.runic_pool(addr@, *rune),
                            prev_drawn[t].utxo.outpoint,
                        ));
                    }
                } else {
                    assert(drawn.deep_view()[t] == uv);
                }
            }
            assert forall|t: int, l: int| 0 <= t < l < drawn.deep_view().len() implies (
            #[trigger] drawn.deep_view()[t]).utxo.outpoint != (
            #[trigger] drawn.deep_view()[l]).utxo.outpoint by {
                if l == prev_drawn.len() {
                    let pool = pre.runic_pool(addr@, *rune);
                    assert(!pool_has_rop(pool, prev_drawn[t].utxo.outpoint));
                    assert(pool[pool.len() - 1] == uv);
                    assert(pool_has_rop(pool, uv.utxo.outpoint));
                }
            }
            assert forall|t: int| 0 <= t < drawn.deep_view().len() implies m0.runic_has_op(
                (#[trigger] drawn.deep_view()[t]).utxo.outpoint,
            ) by {
                if t == prev_drawn.len() {
                    assert(pre.runic_has_op(uv.utxo.outpoint));
                }
            }
        }
        proof {
            // the draw count steps with the loop
            let pool = pre.runic_pool(addr@, *rune);
            assert(runic_draw_count(pool, amount - (total - uv.balance), drain_all) == if !drain_all
                && uv.balance > amount - (total - uv.balance) {
                1int
            } else {
                1 + runic_draw_count(pool.drop_last(), amount - total, drain_all)
            });
        }
        let reached = if drain_all {
            false
        } else {
            total > amount
        };
        if reached {
            proof {
                let pool = pre.runic_pool(addr@, *rune);
                assert(runic_draw_count(pool, amount - (total - uv.balance), drain_all) == 1);
                assert(runic_draw_count(orig, amount as int, drain_all) == drawn.deep_view().len());
            }
            break ;
        }
        proof {
            let pool = pre.runic_pool(addr@, *rune);
            assert(runic_draw_count(pool, amount - (total - uv.balance), drain_all) == 1
                + runic_draw_count(pool.drop_last(), amount - total, drain_all));
        }
    }
    if total < amount {
        let ghost mcur = manager@;
        let ghost dv = drawn.deep_view();
        proof {
            lemma_sum_balances_nonneg(mcur.runic_pool(addr@, *rune));
            lemma_sum_runic_values_nonneg(mcur.runic_pool(addr@, *rune));
            // the draw stopped on an empty pool, so the whole pool was short
            assert(manager@.runic_pool(addr@, *rune).len() == 0);
            assert(sum_balances(manager@.runic_pool(addr@, *rune)) == 0);
            assert(sum_balances(orig) < amount);
        }
        manager.record_runic(addr, rune, drawn);
        proof {
            assert(manager@.runic_pool(addr@, *rune) == mcur.runic_pool(addr@, *rune)
                + dv.reverse());
            assert(manager@.runic_pool(addr@, *rune) =~= orig) by {
                assert(mcur.runic_pool(addr@, *rune) == orig.take(orig.len() - dv.len()));
                assert forall|j: int| 0 <= j < dv.len() implies dv.reverse()[j] == orig[orig.len()
                    - dv.len() + j] by {
                    assert(dv.reverse()[j] == dv[dv.len() - 1 - j]);
                    assert(dv[dv.len() - 1 - j] == orig[orig.len() - 1 - (dv.len() - 1 - j)]);
                }
            }
            assert forall|a: Seq<char>, rid: RuneId| true implies #[trigger] manager@.runic_pool(
                a,
                rid,
            ) == m0.runic_pool(a, rid) by {
                if !(a == addr@ && rid == *rune) {
                    assert(manager@.runic_pool(a, rid) == mcur.runic_pool(a, rid));
                }
            }
            assert forall|a: Seq<char>| true implies #[trigger] manager@.btc_pool(a)
                == m0.btc_pool(a) by {
                assert(manager@.btc == m0.btc);
            }
        }
        return Err(());
    }
    proof {
        lemma_sum_balances_nonneg(manager@.runic_pool(addr@, *rune));
        assert(sum_balances(orig) >= amount);
    }
    Ok((drawn, total, btc_in))
}


/// Returning the drawn suffix restores the pool it was drawn from.
pub proof fn lemma_suffix_restore(orig: Seq<UtxoV>, cur: Seq<UtxoV>, dv: Seq<UtxoV>, rec: Seq<UtxoV>)
    requires
        dv.len() <= orig.len(),
        cur == orig.take(orig.len() - dv.len()),
        forall|t: int| 0 <= t < dv.len() ==> #[trigger] dv[t] == orig[orig.len() - 1 - t],
        rec == cur + dv.reverse(),
    ensures
        rec == orig,
{
    assert forall|j: int| 0 <= j < dv.len() implies dv.reverse()[j] == orig[orig.len() - dv.len()
        + j] by {
        assert(dv.reverse()[j] == dv[dv.len() - 1 - j]);
        assert(dv[dv.len() - 1 - j] == orig[orig.len() - 1 - (dv.len() - 1 - j)]);
    }
    assert(rec =~= orig);
}

/// Returning the drawn runic suffix restores the pool it was drawn from.
pub proof fn lemma_runic_suffix_restore(
    orig: Seq<RunicUtxoV>,
    cur: Seq<RunicUtxoV>,
    dv: Seq<RunicUtxoV>,
    rec: Seq<RunicUtxoV>,
)
    requires
        dv.len() <= orig.len(),
        cur == orig.take(orig.len() - dv.len()),
        forall|t: int| 0 <= t < dv.len() ==> #[trigger] dv[t] == orig[orig.len() - 1 - t],
        rec == cur + dv.reverse(),
    ensures
        rec == orig,
{
    assert forall|j: int| 0 <= j < dv.len() implies dv.reverse()[j] == orig[orig.len() - dv.len()
        + j] by {
        assert(dv.reverse()[j] == dv[dv.len() - 1 - j]);
        assert(dv[dv.len() - 1 - j] == orig[orig.len() - 1 - (dv.len() - 1 - j)]);
    }
    assert(rec =~= orig);
}


/// The sizing outcome of one build attempt at a fixed fee: the fee is out
/// of range for the amounts, a pool is short, or the build succeeds with
/// the given mock-signed virtual size.
pub enum BuildSize {
    OutOfRange,
    Short,
    Bytes(int),
}

/// The outcome of the fee-converging iteration: the first fixed point, the
/// fee at which a pool fell short, or no fixed point within the budget.
pub enum FeeOutcome {
    Converged { fee: u64 },
    Shortfall { fee: u64 },
    GaveUp,
}

} // verus!


