use vstd::prelude::*;

use crate::manager::{pool_has_rop, runic_wf_seq, sum_balances, sum_runic_values, sum_values,
    utxos_wf_seq, UtxoManager, UtxoManagerV};
use crate::types::{OutPointV, RuneId, RunicUtxo, RunicUtxoV, Utxo, UtxoV};

verus! {

/// What a synchronization pass aims for: enough plain value to reach the
/// target (the maximum value asks for everything).
pub enum TargetType {
    Bitcoin { target: u64 },
}

/// The fee rate to use, in satoshis per thousand virtual bytes: the 50th
/// percentile of recent fees, or the regtest fallback when the node reports
/// no percentiles at all.
pub fn fee_from_percentiles(percentiles: &Vec<u64>) -> (r: u64)
    requires
        percentiles@.len() == 0 || percentiles@.len() > 50,
    ensures
        percentiles@.len() == 0 ==> r == 2000,
        percentiles@.len() > 50 ==> r == percentiles@[50],
{
    if percentiles.len() == 0 {
        2000
    } else {
        percentiles[50]
    }
}

/// What a withdrawal does next.
pub enum WithdrawStep {
    /// Fetch outputs for the address up to the target, then check again.
    Synchronize { target: u64 },
    /// The request cannot be met.
    Insufficient,
    /// The balance suffices: build the transaction.
    Proceed,
}

/// The balance check a withdrawal starts with: proceed when the balance
/// covers the request, synchronize once when it does not, and give up when
/// it still falls short after a synchronization pass.
pub fn check_balance_step(balance: u64, required: u64, already_synced: bool) -> (r: WithdrawStep)
    ensures
        balance >= required ==> r is Proceed,
        balance < required && !already_synced ==> (r matches WithdrawStep::Synchronize { target }
            && target == required),
        balance < required && already_synced ==> r is Insufficient,
{
    if balance >= required {
        WithdrawStep::Proceed
    } else if !already_synced {
        WithdrawStep::Synchronize { target: required }
    } else {
        WithdrawStep::Insufficient
    }
}

/// The rune-balance check a rune withdrawal starts with; a shortfall always
/// asks for everything, since rune balances cannot be targeted by value.
pub fn check_rune_balance_step(balance: u128, required: u128, already_synced: bool) -> (r:
    WithdrawStep)
    ensures
        balance >= required ==> r is Proceed,
        balance < required && !already_synced ==> (r matches WithdrawStep::Synchronize { target }
            && target == u64::MAX),
        balance < required && already_synced ==> r is Insufficient,
{
    if balance >= required {
        WithdrawStep::Proceed
    } else if !already_synced {
        WithdrawStep::Synchronize { target: u64::MAX }
    } else {
        WithdrawStep::Insufficient
    }
}

/// The decision after a first build reported a shortfall: when a
/// synchronization pass already ran and the pool holds more than the builder
/// asked for, the request is hopeless; otherwise synchronize up to the
/// reported shortfall and build once more.
pub fn retry_after_shortfall(required: u64, current_balance: u64, already_synced: bool) -> (r:
    WithdrawStep)
    ensures
        already_synced && required < current_balance ==> r is Insufficient,
        !(already_synced && required < current_balance) ==> (r matches WithdrawStep::Synchronize {
            target,
        } && target == required),
{
    if already_synced && required < current_balance {
        WithdrawStep::Insufficient
    } else {
        WithdrawStep::Synchronize { target: required }
    }
}

/// How a plain withdrawal's amount is split across two senders: half each,
/// the odd satoshi to the first.
pub fn split_amount(amount: u64) -> (r: (u64, u64))
    ensures
        r.0 + r.1 == amount,
        amount % 2 == 0 ==> r.0 == r.1,
        amount % 2 == 1 ==> r.0 == r.1 + 1,
{
    if amount % 2 == 0 {
        (amount / 2, amount / 2)
    } else {
        ((amount - 1) / 2 + 1, (amount - 1) / 2)
    }
}

/// Ghost mirror of a [`FetchedUtxo`].
#[verifier::ext_equal]
pub struct FetchedUtxoV {
    pub utxo: UtxoV,
    pub runes: Seq<(RuneId, u128)>,
}

/// One fetched output and the rune balances the indexer reports on it.
pub struct FetchedUtxo {
    pub utxo: Utxo,
    pub runes: Vec<(RuneId, u128)>,
}

impl View for FetchedUtxo {
    type V = FetchedUtxoV;

    open spec fn view(&self) -> FetchedUtxoV {
        FetchedUtxoV { utxo: self.utxo@, runes: self.runes@ }
    }
}

impl DeepView for FetchedUtxo {
    type V = FetchedUtxoV;

    open spec fn deep_view(&self) -> FetchedUtxoV {
        self@
    }
}

/// The outputs of the rune-free fetched items, in order: what reconciling
/// adds to the plain pool.
pub open spec fn routed_plain(items: Seq<FetchedUtxoV>) -> Seq<UtxoV>
    decreases items.len(),
{
    if items.len() == 0 {
        Seq::empty()
    } else {
        (if items[0].runes.len() == 0 {
            seq![items[0].utxo]
        } else {
            Seq::empty()
        }) + routed_plain(items.drop_first())
    }
}

/// The runic entries one item's rune list yields for one rune: the item's
/// output paired with each reported balance of that rune.
pub open spec fn rune_entries(runes: Seq<(RuneId, u128)>, rid: RuneId, u: UtxoV) -> Seq<
    RunicUtxoV,
>
    decreases runes.len(),
{
    if runes.len() == 0 {
        Seq::empty()
    } else {
        (if runes[0].0 == rid {
            seq![RunicUtxoV { utxo: u, balance: runes[0].1 }]
        } else {
            Seq::empty()
        }) + rune_entries(runes.drop_first(), rid, u)
    }
}

/// The runic entries of the fetched items for one rune, in order: what
/// reconciling adds to that rune's pool.
pub open spec fn routed_runic(items: Seq<FetchedUtxoV>, rid: RuneId) -> Seq<RunicUtxoV>
    decreases items.len(),
{
    if items.len() == 0 {
        Seq::empty()
    } else {
        rune_entries(items[0].runes, rid, items[0].utxo) + routed_runic(items.drop_first(), rid)
    }
}

pub proof fn lemma_routed_plain_concat(a: Seq<FetchedUtxoV>, b: Seq<FetchedUtxoV>)
    ensures
        routed_plain(a + b) == routed_plain(a) + routed_plain(b),
    decreases a.len(),
{
    if a.len() == 0 {
        assert(a + b =~= b);
        assert(routed_plain(a) =~= Seq::<UtxoV>::empty());
        assert(routed_plain(a) + routed_plain(b) =~= routed_plain(b));
    } else {
        assert((a + b).drop_first() =~= a.drop_first() + b);
        assert((a + b)[0] == a[0]);
        lemma_routed_plain_concat(a.drop_first(), b);
        assert(routed_plain(a + b) =~= routed_plain(a) + routed_plain(b));
    }
}

pub proof fn lemma_rune_entries_concat(
    a: Seq<(RuneId, u128)>,
    b: Seq<(RuneId, u128)>,
    rid: RuneId,
    u: UtxoV,
)
    ensures
        rune_entries(a + b, rid, u) == rune_entries(a, rid, u) + rune_entries(b, rid, u),
    decreases a.len(),
{
    if a.len() == 0 {
        assert(a + b =~= b);
        assert(rune_entries(a, rid, u) =~= Seq::<RunicUtxoV>::empty());
        assert(rune_entries(a, rid, u) + rune_entries(b, rid, u) =~= rune_entries(b, rid, u));
    } else {
        assert((a + b).drop_first() =~= a.drop_first() + b);
        assert((a + b)[0] == a[0]);
        lemma_rune_entries_concat(a.drop_first(), b, rid, u);
        assert(rune_entries(a + b, rid, u) =~= rune_entries(a, rid, u) + rune_entries(b, rid, u));
    }
}

pub proof fn lemma_routed_runic_concat(a: Seq<FetchedUtxoV>, b: Seq<FetchedUtxoV>, rid: RuneId)
    ensures
        routed_runic(a + b, rid) == routed_runic(a, rid) + routed_runic(b, rid),
    decreases a.len(),
{
    if a.len() == 0 {
        assert(a + b =~= b);
        assert(routed_runic(a, rid) =~= Seq::<RunicUtxoV>::empty());
        assert(routed_runic(a, rid) + routed_runic(b, rid) =~= routed_runic(b, rid));
    } else {
        assert((a + b).drop_first() =~= a.drop_first() + b);
        assert((a + b)[0] == a[0]);
        lemma_routed_runic_concat(a.drop_first(), b, rid);
        assert(routed_runic(a + b, rid) =~= routed_runic(a, rid) + routed_runic(b, rid));
    }
}

/// Routing a single item.
pub proof fn lemma_routed_plain_one(x: FetchedUtxoV)
    ensures
        routed_plain(seq![x]) == if x.runes.len() == 0 {
            seq![x.utxo]
        } else {
            Seq::<UtxoV>::empty()
        },
{
    assert(seq![x].drop_first() =~= Seq::<FetchedUtxoV>::empty());
    assert(routed_plain(Seq::<FetchedUtxoV>::empty()) =~= Seq::<UtxoV>::empty());
    assert(seq![x][0] == x);
    if x.runes.len() == 0 {
        assert(routed_plain(seq![x]) =~= seq![x.utxo]);
    } else {
        assert(routed_plain(seq![x]) =~= Seq::<UtxoV>::empty());
    }
}

/// The entries of a single listed balance.
pub proof fn lemma_rune_entries_one(x: (RuneId, u128), rid: RuneId, u: UtxoV)
    ensures
        rune_entries(seq![x], rid, u) == if x.0 == rid {
            seq![(RunicUtxoV { utxo: u, balance: x.1 })]
        } else {
            Seq::<RunicUtxoV>::empty()
        },
{
    assert(seq![x].drop_first() =~= Seq::<(RuneId, u128)>::empty());
    assert(rune_entries(Seq::<(RuneId, u128)>::empty(), rid, u) =~= Seq::<RunicUtxoV>::empty());
    assert(seq![x][0] == x);
    if x.0 == rid {
        assert(rune_entries(seq![x], rid, u) =~= seq![(RunicUtxoV { utxo: u, balance: x.1 })]);
    } else {
        assert(rune_entries(seq![x], rid, u) =~= Seq::<RunicUtxoV>::empty());
    }
}

/// Routing a single item for one rune.
pub proof fn lemma_routed_runic_one(x: FetchedUtxoV, rid: RuneId)
    ensures
        routed_runic(seq![x], rid) == rune_entries(x.runes, rid, x.utxo),
{
    assert(seq![x].drop_first() =~= Seq::<FetchedUtxoV>::empty());
    assert(routed_runic(Seq::<FetchedUtxoV>::empty(), rid) =~= Seq::<RunicUtxoV>::empty());
    assert(seq![x][0] == x);
    assert(routed_runic(seq![x], rid) =~= rune_entries(x.runes, rid, x.utxo));
}

/// Every routed runic entry carries the output of some fetched item.
pub proof fn lemma_routed_runic_ops(items: Seq<FetchedUtxoV>, rid: RuneId)
    ensures
        forall|t: int|
            0 <= t < routed_runic(items, rid).len() ==> exists|q: int|
                0 <= q < items.len() && (#[trigger] routed_runic(items, rid)[t]).utxo.outpoint
                    == items[q].utxo.outpoint,
    decreases items.len(),
{
    if items.len() > 0 {
        lemma_routed_runic_ops(items.drop_first(), rid);
        lemma_rune_entries_utxo(items[0].runes, rid, items[0].utxo);
        let head = rune_entries(items[0].runes, rid, items[0].utxo);
        let tail = routed_runic(items.drop_first(), rid);
        assert forall|t: int| 0 <= t < routed_runic(items, rid).len() implies exists|q: int|
            0 <= q < items.len() && (#[trigger] routed_runic(items, rid)[t]).utxo.outpoint
                == items[q].utxo.outpoint by {
            if t < head.len() {
                assert(routed_runic(items, rid)[t] == head[t]);
                assert(routed_runic(items, rid)[t].utxo.outpoint == items[0].utxo.outpoint);
            } else {
                assert(routed_runic(items, rid)[t] == tail[t - head.len()]);
                let q0 = choose|q: int|
                    0 <= q < items.drop_first().len() && (#[trigger] tail[
                        t - head.len()
                    ]).utxo.outpoint == items.drop_first()[q].utxo.outpoint;
                assert(items.drop_first()[q0] == items[q0 + 1]);
            }
        }
    }
}

/// Every entry a rune list yields carries the given output, and a rune with
/// an entry occurs in the list.
pub proof fn lemma_rune_entries_utxo(runes: Seq<(RuneId, u128)>, rid: RuneId, u: UtxoV)
    ensures
        forall|t: int|
            0 <= t < rune_entries(runes, rid, u).len() ==> (#[trigger] rune_entries(
                runes,
                rid,
                u,
            )[t]).utxo == u,
        rune_entries(runes, rid, u).len() > 0 ==> exists|a: int|
            0 <= a < runes.len() && (#[trigger] runes[a]).0 == rid,
    decreases runes.len(),
{
    if runes.len() > 0 {
        lemma_rune_entries_utxo(runes.drop_first(), rid, u);
        if rune_entries(runes, rid, u).len() > 0 {
            if runes[0].0 == rid {
                assert(runes[0].0 == rid);
            } else {
                assert(rune_entries(runes.drop_first(), rid, u).len() > 0);
                let a0 = choose|a: int|
                    0 <= a < runes.drop_first().len() && (#[trigger] runes.drop_first()[a]).0
                        == rid;
                assert(runes[a0 + 1].0 == rid);
            }
        }
    }
}

/// Whether a rune-free fetched item among these carries the outpoint.
pub open spec fn plain_fetched_op(items: Seq<FetchedUtxoV>, op: OutPointV) -> bool {
    exists|t: int|
        0 <= t < items.len() && (#[trigger] items[t]).runes.len() == 0 && items[t].utxo.outpoint
            == op
}

/// Whether a rune-bearing fetched item among these carries the outpoint.
pub open spec fn runic_fetched_op(items: Seq<FetchedUtxoV>, op: OutPointV) -> bool {
    exists|t: int|
        0 <= t < items.len() && (#[trigger] items[t]).runes.len() > 0 && items[t].utxo.outpoint
            == op
}

/// What the reconciling pass assumes of a fetched batch to admit it whole:
/// well-formed outputs, pairwise distinct outpoints none of which the
/// manager already holds, one entry per rune per item, and batch totals
/// that keep every touched pool within its machine bounds.
pub open spec fn fetched_admissible(
    m0: UtxoManagerV,
    addr: Seq<char>,
    items: Seq<FetchedUtxoV>,
) -> bool {
    &&& forall|i: int| 0 <= i < items.len() ==> (#[trigger] items[i]).utxo.wf()
    &&& forall|i: int, j: int|
        0 <= i < j < items.len() ==> (#[trigger] items[i]).utxo.outpoint != (
        #[trigger] items[j]).utxo.outpoint
    &&& forall|i: int| 0 <= i < items.len() ==> !m0.has_op((#[trigger] items[i]).utxo.outpoint)
    &&& forall|i: int, a: int, b: int|
        #![trigger items[i].runes[a], items[i].runes[b]]
        0 <= i < items.len() && 0 <= a < b < items[i].runes.len() ==> items[i].runes[a].0
            != items[i].runes[b].0
    &&& sum_values(m0.btc_pool(addr)) + sum_values(routed_plain(items)) <= u64::MAX
    &&& forall|rid: RuneId|
        sum_balances(m0.runic_pool(addr, rid)) + sum_balances(
            #[trigger] routed_runic(items, rid),
        ) <= u128::MAX
    &&& forall|rid: RuneId|
        sum_runic_values(m0.runic_pool(addr, rid)) + sum_runic_values(
            #[trigger] routed_runic(items, rid),
        ) <= u64::MAX
}

/// An output held in an address's runic pool is held as runic.
proof fn lemma_pool_rop_global(m: UtxoManagerV, addr: Seq<char>, rid: RuneId, op: OutPointV)
    requires
        pool_has_rop(m.runic_pool(addr, rid), op),
    ensures
        m.runic_has_op(op),
{
    if m.has_runic(addr, rid) {
        let w = m.runic_idx(addr, rid);
        let j = choose|j: int|
            0 <= j < m.runic_pool(addr, rid).len() && (#[trigger] m.runic_pool(addr, rid)[
                j
            ]).utxo.outpoint == op;
        assert(m.runic[w].utxos[j].utxo.outpoint == op);
    } else {
        assert(m.runic_pool(addr, rid) =~= Seq::<RunicUtxoV>::empty());
    }
}

/// An output held in an address's plain pool is held as plain bitcoin.
proof fn lemma_pool_op_global(m: UtxoManagerV, addr: Seq<char>, op: OutPointV, j: int)
    requires
        0 <= j < m.btc_pool(addr).len(),
        m.btc_pool(addr)[j].outpoint == op,
    ensures
        m.btc_has_op(op),
{
    if m.has_btc(addr) {
        let w = m.btc_idx(addr);
        assert(m.btc[w].utxos[j].outpoint == op);
    } else {
        assert(m.btc_pool(addr) =~= Seq::<UtxoV>::empty());
    }
}

/// Reconciles fetched outputs into the manager: an output carrying rune
/// balances goes to the runic pools, one record per rune; any other goes to
/// the plain pool. An admissible batch is admitted whole: the address's
/// plain pool is extended by exactly the rune-free outputs and each rune's
/// pool by exactly that rune's entries, in fetched order; every other pool
/// is untouched. An output whose insertion would push a pool total past its
/// machine bound is left out.
#[verifier::rlimit(100)]
pub fn reconcile_utxos(manager: &mut UtxoManager, addr: &str, fetched: Vec<FetchedUtxo>)
    requires
        old(manager)@.wf(),
        forall|i: int| 0 <= i < fetched@.len() ==> (#[trigger] fetched@[i]).utxo@.wf(),
    ensures
        final(manager)@.wf(),
        forall|a: Seq<char>|
            a != addr@ ==> #[trigger] final(manager)@.btc_pool(a) == old(manager)@.btc_pool(a),
        forall|a: Seq<char>, rid: RuneId|
            a != addr@ ==> #[trigger] final(manager)@.runic_pool(a, rid) == old(
                manager,
            )@.runic_pool(a, rid),
        fetched_admissible(old(manager)@, addr@, fetched.deep_view()) ==> {
            &&& final(manager)@.btc_pool(addr@) == old(manager)@.btc_pool(addr@) + routed_plain(
                fetched.deep_view(),
            )
            &&& forall|rid: RuneId|
                #[trigger] final(manager)@.runic_pool(addr@, rid) == old(manager)@.runic_pool(
                    addr@,
                    rid,
                ) + routed_runic(fetched.deep_view(), rid)
        },
{
    let ghost m0 = old(manager)@;
    let ghost items = fetched.deep_view();
    let ghost ok = fetched_admissible(m0, addr@, items);
    let mut i: usize = 0;
    proof {
        assert(items.take(0) =~= Seq::<FetchedUtxoV>::empty());
        assert(m0.btc_pool(addr@) + routed_plain(items.take(0)) =~= m0.btc_pool(addr@));
        assert forall|rid: RuneId| true implies m0.runic_pool(addr@, rid) + #[trigger] routed_runic(
            items.take(0),
            rid,
        ) =~= m0.runic_pool(addr@, rid) by {}
    }
    while i < fetched.len()
        invariant
            i <= items.len(),
            items == fetched.deep_view(),
            m0 == old(manager)@,
            ok == fetched_admissible(m0, addr@, items),
            forall|q: int| 0 <= q < items.len() ==> (#[trigger] items[q]).utxo.wf(),
            manager@.wf(),
            forall|a: Seq<char>| a != addr@ ==> #[trigger] manager@.btc_pool(a) == m0.btc_pool(a),
            forall|a: Seq<char>, rid: RuneId|
                a != addr@ ==> #[trigger] manager@.runic_pool(a, rid) == m0.runic_pool(a, rid),
            ok ==> manager@.btc_pool(addr@) == m0.btc_pool(addr@) + routed_plain(
                items.take(i as int),
            ),
            ok ==> forall|rid: RuneId|
                #[trigger] manager@.runic_pool(addr@, rid) == m0.runic_pool(addr@, rid)
                    + routed_runic(items.take(i as int), rid),
            ok ==> forall|op: OutPointV|
                #[trigger] manager@.btc_has_op(op) ==> m0.btc_has_op(op) || plain_fetched_op(
                    items.take(i as int),
                    op,
                ),
            ok ==> forall|op: OutPointV|
                #[trigger] manager@.runic_has_op(op) ==> m0.runic_has_op(op) || runic_fetched_op(
                    items.take(i as int),
                    op,
                ),
        decreases items.len() - i,
    {
        let ghost pre = manager@;
        let ghost item = items[i as int];
        let ghost op = item.utxo.outpoint;
        proof {
            assert(items.take(i + 1) =~= items.take(i as int) + seq![item]);
            if ok {
                // the item's outpoint is nowhere in the manager yet
                assert(!m0.has_op(op));
                if pre.btc_has_op(op) {
                    assert(plain_fetched_op(items.take(i as int), op));
                    let t = choose|t: int|
                        0 <= t < items.take(i as int).len() && (#[trigger] items.take(i as int)[
                            t
                        ]).runes.len() == 0 && items.take(i as int)[t].utxo.outpoint == op;
                    assert(items[t].utxo.outpoint != items[i as int].utxo.outpoint);
                    assert(false);
                }
                if pre.runic_has_op(op) {
                    let t = choose|t: int|
                        0 <= t < items.take(i as int).len() && (#[trigger] items.take(i as int)[
                            t
                        ]).runes.len() > 0 && items.take(i as int)[t].utxo.outpoint == op;
                    assert(items[t].utxo.outpoint != items[i as int].utxo.outpoint);
                    assert(false);
                }
            }
        }
        if fetched[i].runes.len() == 0 {
            let u = crate::types::copy_utxo(&fetched[i].utxo);
            let balance = manager.balance_bitcoin(addr);
            proof {
                assert(item.runes.len() == 0);
                if ok {
                    // the plain pool has room for the whole plain batch
                    assert(items.take(items.len() as int) =~= items);
                    lemma_routed_plain_concat(items.take(i + 1), items.skip(i + 1));
                    assert(items.take(i + 1) + items.skip(i + 1) =~= items);
                    lemma_routed_plain_concat(items.take(i as int), seq![item]);
                    lemma_routed_plain_one(item);
                    assert(routed_plain(seq![item]) =~= seq![item.utxo]);
                    assert(routed_plain(items.take(i + 1)) =~= routed_plain(items.take(i as int))
                        + seq![item.utxo]);
                    crate::manager::lemma_sum_values_nonneg(routed_plain(items.skip(i + 1)));
                    crate::manager::lemma_sum_values_nonneg(routed_plain(items.take(i as int)));
                    crate::manager::lemma_sum_values_nonneg(m0.btc_pool(addr@));
                    assert(routed_plain(items) == routed_plain(items.take(i + 1)) + routed_plain(
                        items.skip(i + 1),
                    ));
                    crate::manager::lemma_sum_values_split(
                        routed_plain(items),
                        routed_plain(items.take(i + 1)).len() as int,
                    );
                    assert(routed_plain(items).take(routed_plain(items.take(i + 1)).len() as int)
                        =~= routed_plain(items.take(i + 1)));
                    assert(routed_plain(items).skip(routed_plain(items.take(i + 1)).len() as int)
                        =~= routed_plain(items.skip(i + 1)));
                    assert(sum_values(routed_plain(items)) >= sum_values(
                        routed_plain(items.take(i + 1)),
                    ));
                    assert((routed_plain(items.take(i as int)) + seq![item.utxo]).drop_last()
                        =~= routed_plain(items.take(i as int)));
                    assert((routed_plain(items.take(i as int)) + seq![item.utxo]).last()
                        == item.utxo);
                    assert(sum_values(routed_plain(items.take(i as int)) + seq![item.utxo])
                        == sum_values(routed_plain(items.take(i as int))) + item.utxo.value);
                    assert(sum_values(routed_plain(items.take(i + 1))) == sum_values(
                        routed_plain(items.take(i as int)),
                    ) + item.utxo.value);
                    // the measured balance splits into the old pool and the
                    // outputs admitted so far
                    crate::manager::lemma_sum_values_split(
                        m0.btc_pool(addr@) + routed_plain(items.take(i as int)),
                        m0.btc_pool(addr@).len() as int,
                    );
                    assert((m0.btc_pool(addr@) + routed_plain(items.take(i as int))).take(
                        m0.btc_pool(addr@).len() as int,
                    ) =~= m0.btc_pool(addr@));
                    assert((m0.btc_pool(addr@) + routed_plain(items.take(i as int))).skip(
                        m0.btc_pool(addr@).len() as int,
                    ) =~= routed_plain(items.take(i as int)));
                    assert(balance == sum_values(m0.btc_pool(addr@)) + sum_values(
                        routed_plain(items.take(i as int)),
                    ));
                    assert(balance + item.utxo.value <= u64::MAX);
                }
            }
            if u.value <= u64::MAX - balance {
                let mut batch: Vec<Utxo> = Vec::new();
                let ghost uv = u@;
                batch.push(u);
                proof {
                    assert(batch.deep_view() =~= Seq::<UtxoV>::empty().push(uv));
                    assert(batch.deep_view().drop_last() =~= Seq::<UtxoV>::empty());
                    assert(utxos_wf_seq(batch.deep_view()));
                    crate::manager::lemma_sum_values_nonneg(pre.btc_pool(addr@));
                    assert(batch.deep_view().last() == uv);
                    assert(sum_values(Seq::<UtxoV>::empty()) == 0);
                    assert(sum_values(batch.deep_view()) == uv.value);
                }
                manager.record_bitcoin(addr, batch);
                proof {
                    assert forall|a: Seq<char>, rid: RuneId| a != addr@ implies
                        #[trigger] manager@.runic_pool(a, rid) == m0.runic_pool(a, rid) by {
                        assert(manager@.runic == pre.runic);
                        assert(manager@.runic_pool(a, rid) == pre.runic_pool(a, rid));
                    }
                    assert forall|a: Seq<char>| a != addr@ implies #[trigger] manager@.btc_pool(a)
                        == m0.btc_pool(a) by {
                        assert(manager@.btc_pool(a) == pre.btc_pool(a));
                    }
                    if ok {
                        assert(crate::manager::none_present(pre, batch.deep_view()));
                        assert(manager@.btc_pool(addr@) == pre.btc_pool(addr@) + batch.deep_view()
                            .reverse());
                        assert(batch.deep_view().reverse() =~= seq![uv]);
                        assert(manager@.btc_pool(addr@) =~= m0.btc_pool(addr@) + routed_plain(
                            items.take(i + 1),
                        ));
                        assert forall|rid: RuneId| true implies #[trigger] manager@.runic_pool(
                            addr@,
                            rid,
                        ) == m0.runic_pool(addr@, rid) + routed_runic(items.take(i + 1), rid) by {
                            assert(manager@.runic == pre.runic);
                            assert(manager@.runic_pool(addr@, rid) == pre.runic_pool(addr@, rid));
                            lemma_routed_runic_concat(items.take(i as int), seq![item], rid);
                            lemma_routed_runic_one(item, rid);
                            assert(rune_entries(item.runes, rid, item.utxo)
                                =~= Seq::<RunicUtxoV>::empty());
                            assert(routed_runic(seq![item], rid) =~= Seq::<RunicUtxoV>::empty());
                            assert(routed_runic(items.take(i + 1), rid) =~= routed_runic(
                                items.take(i as int),
                                rid,
                            ));
                        }
                        assert forall|op2: OutPointV| #[trigger] manager@.btc_has_op(op2) implies
                            m0.btc_has_op(op2) || plain_fetched_op(items.take(i + 1), op2) by {
                            assert(pre.btc_has_op(op2) || crate::manager::batch_has_op(
                                batch.deep_view(),
                                op2,
                            ));
                            if crate::manager::batch_has_op(batch.deep_view(), op2) {
                                assert(items.take(i + 1)[i as int].runes.len() == 0);
                                assert(items.take(i + 1)[i as int].utxo.outpoint == op2);
                            } else {
                                if plain_fetched_op(items.take(i as int), op2) {
                                    let t = choose|t: int|
                                        0 <= t < items.take(i as int).len() && (
                                        #[trigger] items.take(i as int)[t]).runes.len() == 0
                                            && items.take(i as int)[t].utxo.outpoint == op2;
                                    assert(items.take(i + 1)[t].runes.len() == 0);
                                    assert(items.take(i + 1)[t].utxo.outpoint == op2);
                                }
                            }
                        }
                        assert forall|op2: OutPointV| #[trigger] manager@.runic_has_op(op2) implies
                            m0.runic_has_op(op2) || runic_fetched_op(items.take(i + 1), op2) by {
                            assert(manager@.runic == pre.runic);
                            assert(pre.runic_has_op(op2));
                            if runic_fetched_op(items.take(i as int), op2) {
                                let t = choose|t: int|
                                    0 <= t < items.take(i as int).len() && (
                                    #[trigger] items.take(i as int)[t]).runes.len() > 0
                                        && items.take(i as int)[t].utxo.outpoint == op2;
                                assert(items.take(i + 1)[t].runes.len() > 0);
                                assert(items.take(i + 1)[t].utxo.outpoint == op2);
                            }
                        }
                    }
                }
            } else {
                proof {
                    if ok {
                        assert(false);
                    }
                }
            }
        } else {
            let ghost runes = item.runes;
            let mut k: usize = 0;
            proof {
                if ok {
                    assert forall|rid: RuneId| true implies #[trigger] manager@.runic_pool(
                        addr@,
                        rid,
                    ) == m0.runic_pool(addr@, rid) + routed_runic(items.take(i as int), rid)
                        + rune_entries(runes.take(0), rid, item.utxo) by {
                        assert(runes.take(0) =~= Seq::<(RuneId, u128)>::empty());
                        assert(rune_entries(runes.take(0), rid, item.utxo)
                            =~= Seq::<RunicUtxoV>::empty());
                        assert(m0.runic_pool(addr@, rid) + routed_runic(items.take(i as int), rid)
                            + rune_entries(runes.take(0), rid, item.utxo) =~= m0.runic_pool(
                            addr@,
                            rid,
                        ) + routed_runic(items.take(i as int), rid));
                    }
                }
            }
            while k < fetched[i].runes.len()
                invariant
                    i < items.len(),
                    k <= runes.len(),
                    items == fetched.deep_view(),
                    m0 == old(manager)@,
                    ok == fetched_admissible(m0, addr@, items),
                    item == items[i as int],
                    runes == item.runes,
                    op == item.utxo.outpoint,
                    item.runes.len() > 0,
                    forall|q: int| 0 <= q < items.len() ==> (#[trigger] items[q]).utxo.wf(),
                    manager@.wf(),
                    forall|a: Seq<char>|
                        a != addr@ ==> #[trigger] manager@.btc_pool(a) == m0.btc_pool(a),
                    forall|a: Seq<char>, rid: RuneId|
                        a != addr@ ==> #[trigger] manager@.runic_pool(a, rid) == m0.runic_pool(
                            a,
                            rid,
                        ),
                    ok ==> manager@.btc_pool(addr@) == m0.btc_pool(addr@) + routed_plain(
                        items.take(i as int),
                    ),
                    ok ==> forall|rid: RuneId|
                        #[trigger] manager@.runic_pool(addr@, rid) == m0.runic_pool(addr@, rid)
                            + routed_runic(items.take(i as int), rid) + rune_entries(
                            runes.take(k as int),
                            rid,
                            item.utxo,
                        ),
                    ok ==> forall|op2: OutPointV|
                        #[trigger] manager@.btc_has_op(op2) ==> m0.btc_has_op(op2)
                            || plain_fetched_op(items.take(i as int), op2),
                    ok ==> forall|op2: OutPointV|
                        #[trigger] manager@.runic_has_op(op2) ==> m0.runic_has_op(op2)
                            || runic_fetched_op(items.take(i + 1), op2),
                decreases runes.len() - k,
            {
                let ghost kpre = manager@;
                let rune = fetched[i].runes[k].0;
                let bal = fetched[i].runes[k].1;
                proof {
                    assert((rune, bal) == runes[k as int]);
                    assert(runes.take(k + 1) =~= runes.take(k as int) + seq![runes[k as int]]);
                }
                let rbal = manager.balance_rune(addr, &rune);
                let rval = manager.carried_value(addr, &rune);
                proof {
                    if ok {
                        // this rune's pool has room for its whole batch
                        lemma_rune_entries_concat(
                            runes.take(k as int),
                            seq![runes[k as int]],
                            rune,
                            item.utxo,
                        );
                        lemma_rune_entries_one(runes[k as int], rune, item.utxo);
                        assert(rune_entries(seq![runes[k as int]], rune, item.utxo) =~= seq![
                            (RunicUtxoV { utxo: item.utxo, balance: bal }),
                        ]);
                        // no earlier entry of this item names the same rune
                        assert(rune_entries(runes.take(k as int), rune, item.utxo)
                            =~= Seq::<RunicUtxoV>::empty()) by {
                            lemma_rune_entries_utxo(runes.take(k as int), rune, item.utxo);
                            if rune_entries(runes.take(k as int), rune, item.utxo).len() > 0 {
                                let a = choose|a: int|
                                    0 <= a < runes.take(k as int).len() && (#[trigger] runes.take(
                                        k as int,
                                    )[a]).0 == rune;
                                assert(runes[a].0 != runes[k as int].0);
                            }
                        }
                        assert(items.take(i + 1) =~= items.take(i as int) + seq![item]);
                        lemma_routed_runic_concat(items.take(i + 1), items.skip(i + 1), rune);
                        assert(items.take(i + 1) + items.skip(i + 1) =~= items);
                        assert(routed_runic(items, rune) == routed_runic(items.take(i + 1), rune)
                            + routed_runic(items.skip(i + 1), rune));
                        lemma_routed_runic_concat(items.take(i as int), seq![item], rune);
                        lemma_routed_runic_one(item, rune);
                        assert(routed_runic(seq![item], rune) =~= rune_entries(
                            runes,
                            rune,
                            item.utxo,
                        ));
                        assert(runes.take(k + 1) + runes.skip(k + 1) =~= runes);
                        lemma_rune_entries_concat(
                            runes.take(k + 1),
                            runes.skip(k + 1),
                            rune,
                            item.utxo,
                        );
                        crate::manager::lemma_sum_balances_nonneg(
                            rune_entries(runes.skip(k + 1), rune, item.utxo),
                        );
                        crate::manager::lemma_sum_runic_values_nonneg(
                            rune_entries(runes.skip(k + 1), rune, item.utxo),
                        );
                        crate::manager::lemma_sum_balances_nonneg(
                            routed_runic(items.skip(i + 1), rune),
                        );
                        crate::manager::lemma_sum_runic_values_nonneg(
                            routed_runic(items.skip(i + 1), rune),
                        );
                        crate::manager::lemma_sum_balances_nonneg(
                            routed_runic(items.take(i as int), rune),
                        );
                        crate::manager::lemma_sum_runic_values_nonneg(
                            routed_runic(items.take(i as int), rune),
                        );
                        crate::manager::lemma_sum_balances_nonneg(m0.runic_pool(addr@, rune));
                        crate::manager::lemma_sum_runic_values_nonneg(m0.runic_pool(addr@, rune));
                        crate::manager::lemma_sum_balances_split(
                            routed_runic(items, rune),
                            routed_runic(items.take(i + 1), rune).len() as int,
                        );
                        crate::manager::lemma_sum_runic_values_split(
                            routed_runic(items, rune),
                            routed_runic(items.take(i + 1), rune).len() as int,
                        );
                        assert(routed_runic(items, rune).take(
                            routed_runic(items.take(i + 1), rune).len() as int,
                        ) =~= routed_runic(items.take(i + 1), rune));
                        assert(routed_runic(items, rune).skip(
                            routed_runic(items.take(i + 1), rune).len() as int,
                        ) =~= routed_runic(items.skip(i + 1), rune));
                        assert(routed_runic(items.take(i + 1), rune) =~= routed_runic(
                            items.take(i as int),
                            rune,
                        ) + rune_entries(runes, rune, item.utxo));
                        assert(rune_entries(runes, rune, item.utxo) == rune_entries(
                            runes.take(k + 1),
                            rune,
                            item.utxo,
                        ) + rune_entries(runes.skip(k + 1), rune, item.utxo));
                        crate::manager::lemma_sum_balances_split(
                            routed_runic(items.take(i + 1), rune),
                            (routed_runic(items.take(i as int), rune) + rune_entries(
                                runes.take(k + 1),
                                rune,
                                item.utxo,
                            )).len() as int,
                        );
                        crate::manager::lemma_sum_runic_values_split(
                            routed_runic(items.take(i + 1), rune),
                            (routed_runic(items.take(i as int), rune) + rune_entries(
                                runes.take(k + 1),
                                rune,
                                item.utxo,
                            )).len() as int,
                        );
                        assert(routed_runic(items.take(i + 1), rune).take(
                            (routed_runic(items.take(i as int), rune) + rune_entries(
                                runes.take(k + 1),
                                rune,
                                item.utxo,
                            )).len() as int,
                        ) =~= routed_runic(items.take(i as int), rune) + rune_entries(
                            runes.take(k + 1),
                            rune,
                            item.utxo,
                        ));
                        let new_entry = RunicUtxoV { utxo: item.utxo, balance: bal };
                        assert(rune_entries(runes.take(k + 1), rune, item.utxo) == rune_entries(
                            runes.take(k as int),
                            rune,
                            item.utxo,
                        ) + seq![new_entry]);
                        assert((routed_runic(items.take(i as int), rune) + rune_entries(
                            runes.take(k as int),
                            rune,
                            item.utxo,
                        )).push(new_entry) =~= routed_runic(items.take(i as int), rune)
                            + rune_entries(runes.take(k + 1), rune, item.utxo));
                        // the measured balances split into the old pool, the
                        // entries of earlier items, and this item's earlier
                        // entries
                        let base = m0.runic_pool(addr@, rune);
                        let mid = routed_runic(items.take(i as int), rune);
                        let ef_k = rune_entries(runes.take(k as int), rune, item.utxo);
                        crate::manager::lemma_sum_balances_split(
                            base + mid + ef_k,
                            (base + mid).len() as int,
                        );
                        crate::manager::lemma_sum_runic_values_split(
                            base + mid + ef_k,
                            (base + mid).len() as int,
                        );
                        assert((base + mid + ef_k).take((base + mid).len() as int) =~= base + mid);
                        assert((base + mid + ef_k).skip((base + mid).len() as int) =~= ef_k);
                        crate::manager::lemma_sum_balances_split(base + mid, base.len() as int);
                        crate::manager::lemma_sum_runic_values_split(
                            base + mid,
                            base.len() as int,
                        );
                        assert((base + mid).take(base.len() as int) =~= base);
                        assert((base + mid).skip(base.len() as int) =~= mid);
                        assert(rbal == sum_balances(base) + sum_balances(mid) + sum_balances(
                            ef_k,
                        ));
                        assert(rval == sum_runic_values(base) + sum_runic_values(mid)
                            + sum_runic_values(ef_k));
                        // and the batch totals split around what this step adds
                        crate::manager::lemma_sum_balances_split(
                            mid + rune_entries(runes.take(k + 1), rune, item.utxo),
                            mid.len() as int,
                        );
                        crate::manager::lemma_sum_runic_values_split(
                            mid + rune_entries(runes.take(k + 1), rune, item.utxo),
                            mid.len() as int,
                        );
                        assert((mid + rune_entries(runes.take(k + 1), rune, item.utxo)).take(
                            mid.len() as int,
                        ) =~= mid);
                        assert((mid + rune_entries(runes.take(k + 1), rune, item.utxo)).skip(
                            mid.len() as int,
                        ) =~= rune_entries(runes.take(k + 1), rune, item.utxo));
                        assert((ef_k + seq![new_entry]).drop_last() =~= ef_k);
                        assert((ef_k + seq![new_entry]).last() == new_entry);
                        assert(sum_balances(rune_entries(runes.take(k + 1), rune, item.utxo))
                            == sum_balances(ef_k) + bal);
                        assert(sum_runic_values(rune_entries(runes.take(k + 1), rune, item.utxo))
                            == sum_runic_values(ef_k) + item.utxo.value);
                        assert(routed_runic(items.take(i + 1), rune).skip(
                            (mid + rune_entries(runes.take(k + 1), rune, item.utxo)).len() as int,
                        ) =~= rune_entries(runes.skip(k + 1), rune, item.utxo));
                        assert(sum_balances(routed_runic(items.take(i + 1), rune))
                            >= sum_balances(mid) + sum_balances(
                            rune_entries(runes.take(k + 1), rune, item.utxo),
                        ));
                        assert(sum_runic_values(routed_runic(items.take(i + 1), rune))
                            >= sum_runic_values(mid) + sum_runic_values(
                            rune_entries(runes.take(k + 1), rune, item.utxo),
                        ));
                        assert(rbal + bal <= u128::MAX);
                        assert(rval + item.utxo.value <= u64::MAX);
                    }
                }
                if bal <= u128::MAX - rbal && fetched[i].utxo.value <= u64::MAX - rval {
                    let mut batch: Vec<RunicUtxo> = Vec::new();
                    let entry = RunicUtxo {
                        utxo: crate::types::copy_utxo(&fetched[i].utxo),
                        balance: bal,
                    };
                    let ghost entryv = entry@;
                    batch.push(entry);
                    proof {
                        assert(batch.deep_view() =~= Seq::<RunicUtxoV>::empty().push(entryv));
                        assert(batch.deep_view().drop_last() =~= Seq::<RunicUtxoV>::empty());
                        assert(runic_wf_seq(batch.deep_view()));
                        crate::manager::lemma_sum_balances_nonneg(kpre.runic_pool(addr@, rune));
                        crate::manager::lemma_sum_runic_values_nonneg(
                            kpre.runic_pool(addr@, rune),
                        );
                        assert(batch.deep_view().last() == entryv);
                        assert(sum_balances(Seq::<RunicUtxoV>::empty()) == 0);
                        assert(sum_runic_values(Seq::<RunicUtxoV>::empty()) == 0);
                        assert(sum_balances(batch.deep_view()) == bal);
                        assert(sum_runic_values(batch.deep_view()) == entryv.utxo.value);
                        if ok {
                            // the entry's outpoint is absent from the plain
                            // pools and from this rune's pool
                            assert(entryv.utxo.outpoint == op);
                            if kpre.btc_has_op(op) {
                                assert(!m0.has_op(items[i as int].utxo.outpoint));
                                if plain_fetched_op(items.take(i as int), op) {
                                    let t = choose|t: int|
                                        0 <= t < items.take(i as int).len() && (
                                        #[trigger] items.take(i as int)[t]).runes.len() == 0
                                            && items.take(i as int)[t].utxo.outpoint == op;
                                    assert(items[t].utxo.outpoint != items[
                                        i as int
                                    ].utxo.outpoint);
                                }
                                assert(false);
                            }
                            if pool_has_rop(kpre.runic_pool(addr@, rune), op) {
                                let j = choose|j: int|
                                    0 <= j < kpre.runic_pool(addr@, rune).len() && (
                                    #[trigger] kpre.runic_pool(addr@, rune)[j]).utxo.outpoint
                                        == op;
                                let pool = kpre.runic_pool(addr@, rune);
                                let base = m0.runic_pool(addr@, rune);
                                let mid = routed_runic(items.take(i as int), rune);
                                if j < base.len() {
                                    lemma_pool_rop_global(m0, addr@, rune, op);
                                    assert(false);
                                } else if j < base.len() + mid.len() {
                                    lemma_routed_runic_ops(items.take(i as int), rune);
                                    let q = choose|q: int|
                                        0 <= q < items.take(i as int).len() && (#[trigger] mid[
                                            j - base.len()
                                        ]).utxo.outpoint == items.take(i as int)[
                                            q
                                        ].utxo.outpoint;
                                    assert(items[q].utxo.outpoint != items[
                                        i as int
                                    ].utxo.outpoint);
                                    assert(false);
                                } else {
                                    assert(rune_entries(runes.take(k as int), rune, item.utxo)
                                        =~= Seq::<RunicUtxoV>::empty());
                                    assert(false);
                                }
                            }
                        }
                    }
                    manager.record_runic(addr, &rune, batch);
                    proof {
                        assert forall|a: Seq<char>, rid: RuneId| a != addr@ implies
                            #[trigger] manager@.runic_pool(a, rid) == m0.runic_pool(a, rid) by {
                            assert(manager@.runic_pool(a, rid) == kpre.runic_pool(a, rid));
                        }
                        assert forall|a: Seq<char>| a != addr@ implies #[trigger] manager@.btc_pool(
                            a,
                        ) == m0.btc_pool(a) by {
                            assert(manager@.btc == kpre.btc);
                            assert(manager@.btc_pool(a) == kpre.btc_pool(a));
                        }
                        if ok {
                            assert(manager@.runic_pool(addr@, rune) == kpre.runic_pool(
                                addr@,
                                rune,
                            ) + batch.deep_view().reverse());
                            assert(batch.deep_view().reverse() =~= seq![entryv]);
                            assert forall|rid: RuneId| true implies #[trigger] manager@.runic_pool(
                                addr@,
                                rid,
                            ) == m0.runic_pool(addr@, rid) + routed_runic(
                                items.take(i as int),
                                rid,
                            ) + rune_entries(runes.take(k + 1), rid, item.utxo) by {
                                lemma_rune_entries_concat(
                                    runes.take(k as int),
                                    seq![runes[k as int]],
                                    rid,
                                    item.utxo,
                                );
                                lemma_rune_entries_one(runes[k as int], rid, item.utxo);
                                if rid == rune {
                                    assert(rune_entries(seq![runes[k as int]], rid, item.utxo)
                                        =~= seq![entryv]);
                                    assert(manager@.runic_pool(addr@, rid) =~= m0.runic_pool(
                                        addr@,
                                        rid,
                                    ) + routed_runic(items.take(i as int), rid) + rune_entries(
                                        runes.take(k + 1),
                                        rid,
                                        item.utxo,
                                    ));
                                } else {
                                    assert(manager@.runic_pool(addr@, rid) == kpre.runic_pool(
                                        addr@,
                                        rid,
                                    ));
                                    assert(rune_entries(seq![runes[k as int]], rid, item.utxo)
                                        =~= Seq::<RunicUtxoV>::empty());
                                    assert(rune_entries(runes.take(k + 1), rid, item.utxo)
                                        =~= rune_entries(runes.take(k as int), rid, item.utxo));
                                }
                            }
                            assert forall|op2: OutPointV| #[trigger] manager@.runic_has_op(
                                op2,
                            ) implies m0.runic_has_op(op2) || runic_fetched_op(
                                items.take(i + 1),
                                op2,
                            ) by {
                                assert(kpre.runic_has_op(op2) || crate::manager::rbatch_has_op(
                                    batch.deep_view(),
                                    op2,
                                ));
                                if crate::manager::rbatch_has_op(batch.deep_view(), op2) {
                                    assert(items.take(i + 1)[i as int].runes.len() > 0);
                                    assert(items.take(i + 1)[i as int].utxo.outpoint == op2);
                                }
                            }
                            assert(manager@.btc == kpre.btc);
                            assert(manager@.btc_pool(addr@) == kpre.btc_pool(addr@));
                            assert forall|op2: OutPointV| #[trigger] manager@.btc_has_op(
                                op2,
                            ) implies m0.btc_has_op(op2) || plain_fetched_op(
                                items.take(i as int),
                                op2,
                            ) by {
                                assert(kpre.btc_has_op(op2));
                            }
                        }
                    }
                } else {
                    proof {
                        if ok {
                            assert(false);
                        }
                    }
                }
                k = k + 1;
            }
            proof {
                if ok {
                    assert(runes.take(runes.len() as int) =~= runes);
                    assert forall|rid: RuneId| true implies #[trigger] manager@.runic_pool(
                        addr@,
                        rid,
                    ) == m0.runic_pool(addr@, rid) + routed_runic(items.take(i + 1), rid) by {
                        lemma_routed_runic_concat(items.take(i as int), seq![item], rid);
                        lemma_routed_runic_one(item, rid);
                        assert(items.take(i + 1) =~= items.take(i as int) + seq![item]);
                        assert(routed_runic(seq![item], rid) =~= rune_entries(
                            runes,
                            rid,
                            item.utxo,
                        ));
                        assert(m0.runic_pool(addr@, rid) + routed_runic(items.take(i as int), rid)
                            + rune_entries(runes, rid, item.utxo) =~= m0.runic_pool(addr@, rid)
                            + routed_runic(items.take(i + 1), rid));
                    }
                    assert(manager@.btc_pool(addr@) == m0.btc_pool(addr@) + routed_plain(
                        items.take(i as int),
                    ));
                    lemma_routed_plain_concat(items.take(i as int), seq![item]);
                    lemma_routed_plain_one(item);
                    assert(item.runes.len() > 0);
                    assert(routed_plain(seq![item]) =~= Seq::<UtxoV>::empty());
                    assert(routed_plain(items.take(i + 1)) =~= routed_plain(
                        items.take(i as int),
                    ));
                    assert forall|op2: OutPointV| #[trigger] manager@.btc_has_op(op2) implies
                        m0.btc_has_op(op2) || plain_fetched_op(items.take(i + 1), op2) by {
                        if plain_fetched_op(items.take(i as int), op2) {
                            let t = choose|t: int|
                                0 <= t < items.take(i as int).len() && (#[trigger] items.take(
                                    i as int,
                                )[t]).runes.len() == 0 && items.take(i as int)[t].utxo.outpoint
                                    == op2;
                            assert(items.take(i + 1)[t].runes.len() == 0);
                            assert(items.take(i + 1)[t].utxo.outpoint == op2);
                        }
                    }
                }
            }
        }
        i = i + 1;
    }
    proof {
        assert(items.take(items.len() as int) =~= items);
    }
}

} // verus!
