use vstd::prelude::*;
use vstd::string::StrSliceExecFns;

use crate::types::{OutPointV, RuneId, RunicUtxo, RunicUtxoV, Utxo, UtxoV};

verus! {

/// Whether two strings hold the same characters.
pub fn str_eq(a: &str, b: &str) -> (r: bool)
    ensures
        r == (a@ == b@),
{
    let n = a.unicode_len();
    if n != b.unicode_len() {
        return false;
    }
    let mut i: usize = 0;
    while i < n
        invariant
            i <= n,
            n == a@.len(),
            n == b@.len(),
            forall|j: int| 0 <= j < i ==> a@[j] == b@[j],
        decreases n - i,
    {
        if a.get_char(i) != b.get_char(i) {
            return false;
        }
        i = i + 1;
    }
    proof {
        assert(a@ =~= b@);
    }
    true
}

/// The total satoshi value of a list of plain outputs.
pub open spec fn sum_values(s: Seq<UtxoV>) -> int
    decreases s.len(),
{
    if s.len() == 0 {
        0
    } else {
        sum_values(s.drop_last()) + s.last().value
    }
}

/// The total rune balance of a list of runic outputs.
pub open spec fn sum_balances(s: Seq<RunicUtxoV>) -> int
    decreases s.len(),
{
    if s.len() == 0 {
        0
    } else {
        sum_balances(s.drop_last()) + s.last().balance
    }
}

/// The total satoshi value carried inside a list of runic outputs.
pub open spec fn sum_runic_values(s: Seq<RunicUtxoV>) -> int
    decreases s.len(),
{
    if s.len() == 0 {
        0
    } else {
        sum_runic_values(s.drop_last()) + s.last().utxo.value
    }
}

pub proof fn lemma_sum_values_nonneg(s: Seq<UtxoV>)
    ensures
        sum_values(s) >= 0,
    decreases s.len(),
{
    if s.len() > 0 {
        lemma_sum_values_nonneg(s.drop_last());
    }
}

pub proof fn lemma_sum_balances_nonneg(s: Seq<RunicUtxoV>)
    ensures
        sum_balances(s) >= 0,
    decreases s.len(),
{
    if s.len() > 0 {
        lemma_sum_balances_nonneg(s.drop_last());
    }
}

pub proof fn lemma_sum_runic_values_nonneg(s: Seq<RunicUtxoV>)
    ensures
        sum_runic_values(s) >= 0,
    decreases s.len(),
{
    if s.len() > 0 {
        lemma_sum_runic_values_nonneg(s.drop_last());
    }
}

/// Splitting a list splits its value sum.
pub proof fn lemma_sum_values_split(s: Seq<UtxoV>, i: int)
    requires
        0 <= i <= s.len(),
    ensures
        sum_values(s) == sum_values(s.take(i)) + sum_values(s.skip(i)),
    decreases s.len() - i,
{
    if i == s.len() {
        assert(s.take(i) =~= s);
        assert(s.skip(i) =~= Seq::<UtxoV>::empty());
    } else {
        lemma_sum_values_split(s.drop_last(), i);
        assert(s.drop_last().take(i) =~= s.take(i));
        assert(s.drop_last().skip(i) =~= s.skip(i).drop_last());
        assert(s.skip(i).last() == s.last());
        assert(s.skip(i).len() > 0);
    }
}

/// Ghost mirror of a [`BtcPool`].
#[verifier::ext_equal]
pub struct BtcPoolV {
    pub addr: Seq<char>,
    pub utxos: Seq<UtxoV>,
}

/// The plain-bitcoin outputs held for one address.
pub struct BtcPool {
    pub addr: String,
    pub utxos: Vec<Utxo>,
}

impl View for BtcPool {
    type V = BtcPoolV;

    open spec fn view(&self) -> BtcPoolV {
        BtcPoolV { addr: self.addr@, utxos: self.utxos.deep_view() }
    }
}

impl DeepView for BtcPool {
    type V = BtcPoolV;

    open spec fn deep_view(&self) -> BtcPoolV {
        self@
    }
}

/// Ghost mirror of a [`RunicPool`].
#[verifier::ext_equal]
pub struct RunicPoolV {
    pub addr: Seq<char>,
    pub rune: RuneId,
    pub utxos: Seq<RunicUtxoV>,
}

/// The outputs held for one address that carry a balance of one rune.
pub struct RunicPool {
    pub addr: String,
    pub rune: RuneId,
    pub utxos: Vec<RunicUtxo>,
}

impl View for RunicPool {
    type V = RunicPoolV;

    open spec fn view(&self) -> RunicPoolV {
        RunicPoolV { addr: self.addr@, rune: self.rune, utxos: self.utxos.deep_view() }
    }
}

impl DeepView for RunicPool {
    type V = RunicPoolV;

    open spec fn deep_view(&self) -> RunicPoolV {
        self@
    }
}

/// Ghost mirror of a [`UtxoManager`].
#[verifier::ext_equal]
pub struct UtxoManagerV {
    pub btc: Seq<BtcPoolV>,
    pub runic: Seq<RunicPoolV>,
}

/// The wallet's pool of spendable outputs, split per address into plain
/// bitcoin and, per rune, runic outputs. An output handed out by `take_*`
/// leaves the pool until it is recorded back or spent.
pub struct UtxoManager {
    pub btc: Vec<BtcPool>,
    pub runic: Vec<RunicPool>,
}

impl View for UtxoManager {
    type V = UtxoManagerV;

    open spec fn view(&self) -> UtxoManagerV {
        UtxoManagerV { btc: self.btc.deep_view(), runic: self.runic.deep_view() }
    }
}

impl UtxoManagerV {
    pub open spec fn has_btc(self, addr: Seq<char>) -> bool {
        exists|i: int| 0 <= i < self.btc.len() && self.btc[i].addr == addr
    }

    pub open spec fn btc_idx(self, addr: Seq<char>) -> int {
        choose|i: int| 0 <= i < self.btc.len() && self.btc[i].addr == addr
    }

    /// The plain pool of an address, empty when the address is unknown.
    pub open spec fn btc_pool(self, addr: Seq<char>) -> Seq<UtxoV> {
        if self.has_btc(addr) {
            self.btc[self.btc_idx(addr)].utxos
        } else {
            Seq::empty()
        }
    }

    pub open spec fn has_runic(self, addr: Seq<char>, rune: RuneId) -> bool {
        exists|i: int| 0 <= i < self.runic.len() && self.runic[i].addr == addr && self.runic[i].rune
            == rune
    }

    pub open spec fn runic_idx(self, addr: Seq<char>, rune: RuneId) -> int {
        choose|i: int|
            0 <= i < self.runic.len() && self.runic[i].addr == addr && self.runic[i].rune == rune
    }

    /// The runic pool of an address and rune, empty when unknown.
    pub open spec fn runic_pool(self, addr: Seq<char>, rune: RuneId) -> Seq<RunicUtxoV> {
        if self.has_runic(addr, rune) {
            self.runic[self.runic_idx(addr, rune)].utxos
        } else {
            Seq::empty()
        }
    }

    /// Whether some plain pool holds an output with this outpoint.
    pub open spec fn btc_has_op(self, op: OutPointV) -> bool {
        exists|i: int, j: int|
            #![trigger self.btc[i].utxos[j]]
            0 <= i < self.btc.len() && 0 <= j < self.btc[i].utxos.len() && self.btc[i].utxos[
                j
            ].outpoint == op
    }

    /// Whether some runic pool holds an output with this outpoint.
    pub open spec fn runic_has_op(self, op: OutPointV) -> bool {
        exists|i: int, j: int|
            #![trigger self.runic[i].utxos[j]]
            0 <= i < self.runic.len() && 0 <= j < self.runic[i].utxos.len() && self.runic[i].utxos[
                j
            ].utxo.outpoint == op
    }

    /// Whether any pool holds an output with this outpoint.
    pub open spec fn has_op(self, op: OutPointV) -> bool {
        self.btc_has_op(op) || self.runic_has_op(op)
    }

    /// Plain pools are keyed by address: no two entries share one.
    pub open spec fn unique_btc_keys(self) -> bool {
        forall|i: int, j: int|
            0 <= i < j < self.btc.len() ==> #[trigger] self.btc[i].addr != #[trigger] self.btc[
                j
            ].addr
    }

    /// Runic pools are keyed by address and rune.
    pub open spec fn unique_runic_keys(self) -> bool {
        forall|i: int, j: int|
            0 <= i < j < self.runic.len() ==> !(#[trigger] self.runic[i].addr
                == #[trigger] self.runic[j].addr && self.runic[i].rune == self.runic[j].rune)
    }

    /// Every held output names its transaction by a full 32-byte id.
    pub open spec fn utxos_wf(self) -> bool {
        &&& forall|i: int, j: int|
            #![trigger self.btc[i].utxos[j]]
            0 <= i < self.btc.len() && 0 <= j < self.btc[i].utxos.len() ==> self.btc[i].utxos[
                j
            ].wf()
        &&& forall|i: int, j: int|
            #![trigger self.runic[i].utxos[j]]
            0 <= i < self.runic.len() && 0 <= j < self.runic[i].utxos.len() ==> self.runic[i].utxos[
                j
            ].wf()
    }

    /// No outpoint occurs twice among the plain pools.
    pub open spec fn btc_ops_distinct(self) -> bool {
        forall|i: int, j: int, k: int, l: int|
            #![trigger self.btc[i].utxos[j], self.btc[k].utxos[l]]
            0 <= i < self.btc.len() && 0 <= j < self.btc[i].utxos.len() && 0 <= k < self.btc.len()
                && 0 <= l < self.btc[k].utxos.len() && (i != k || j != l) ==> self.btc[i].utxos[
                j
            ].outpoint != self.btc[k].utxos[l].outpoint
    }

    /// No outpoint occurs twice within one runic pool. The same outpoint may
    /// occur in runic pools of different runes: one output can carry several
    /// rune balances.
    pub open spec fn runic_ops_distinct(self) -> bool {
        forall|i: int, j: int, l: int|
            #![trigger self.runic[i].utxos[j], self.runic[i].utxos[l]]
            0 <= i < self.runic.len() && 0 <= j < self.runic[i].utxos.len() && 0 <= l
                < self.runic[i].utxos.len() && j != l ==> self.runic[i].utxos[j].utxo.outpoint
                != self.runic[i].utxos[l].utxo.outpoint
    }

    /// An output is held as plain bitcoin or as runic, never both: a runic
    /// output is never offered for plain-bitcoin selection.
    pub open spec fn btc_runic_disjoint(self) -> bool {
        forall|i: int, j: int, k: int, l: int|
            #![trigger self.btc[i].utxos[j], self.runic[k].utxos[l]]
            0 <= i < self.btc.len() && 0 <= j < self.btc[i].utxos.len() && 0 <= k
                < self.runic.len() && 0 <= l < self.runic[k].utxos.len() ==> self.btc[i].utxos[
                j
            ].outpoint != self.runic[k].utxos[l].utxo.outpoint
    }

    /// Every pool's totals fit the machine integers the balances use.
    pub open spec fn sums_bounded(self) -> bool {
        &&& forall|i: int|
            0 <= i < self.btc.len() ==> sum_values(#[trigger] self.btc[i].utxos) <= u64::MAX
        &&& forall|i: int|
            0 <= i < self.runic.len() ==> sum_balances(#[trigger] self.runic[i].utxos) <= u128::MAX
        &&& forall|i: int|
            0 <= i < self.runic.len() ==> sum_runic_values(#[trigger] self.runic[i].utxos)
                <= u64::MAX
    }

    /// The manager's invariant.
    pub open spec fn wf(self) -> bool {
        &&& self.unique_btc_keys()
        &&& self.unique_runic_keys()
        &&& self.utxos_wf()
        &&& self.btc_ops_distinct()
        &&& self.runic_ops_distinct()
        &&& self.btc_runic_disjoint()
        &&& self.sums_bounded()
    }
}

/// With unique keys, the entry at a valid index is the pool its address
/// names.
pub proof fn lemma_btc_entry(m: UtxoManagerV, i: int)
    requires
        m.unique_btc_keys(),
        0 <= i < m.btc.len(),
    ensures
        m.has_btc(m.btc[i].addr),
        m.btc_idx(m.btc[i].addr) == i,
        m.btc_pool(m.btc[i].addr) == m.btc[i].utxos,
{
    assert(m.has_btc(m.btc[i].addr));
    let w = m.btc_idx(m.btc[i].addr);
    assert(0 <= w < m.btc.len() && m.btc[w].addr == m.btc[i].addr);
    if w != i {
        if w < i {
            assert(m.btc[w].addr != m.btc[i].addr);
        } else {
            assert(m.btc[i].addr != m.btc[w].addr);
        }
    }
}

pub proof fn lemma_runic_entry(m: UtxoManagerV, i: int)
    requires
        m.unique_runic_keys(),
        0 <= i < m.runic.len(),
    ensures
        m.has_runic(m.runic[i].addr, m.runic[i].rune),
        m.runic_idx(m.runic[i].addr, m.runic[i].rune) == i,
        m.runic_pool(m.runic[i].addr, m.runic[i].rune) == m.runic[i].utxos,
{
    assert(m.has_runic(m.runic[i].addr, m.runic[i].rune));
    let w = m.runic_idx(m.runic[i].addr, m.runic[i].rune);
    assert(0 <= w < m.runic.len() && m.runic[w].addr == m.runic[i].addr && m.runic[w].rune
        == m.runic[i].rune);
    if w != i {
        if w < i {
            assert(!(m.runic[w].addr == m.runic[i].addr && m.runic[w].rune == m.runic[i].rune));
        } else {
            assert(!(m.runic[i].addr == m.runic[w].addr && m.runic[i].rune == m.runic[w].rune));
        }
    }
}

/// Replacing the outputs of one plain pool leaves every other address's
/// pool as it was.
pub proof fn lemma_btc_frame_update(m1: UtxoManagerV, m2: UtxoManagerV, p: int)
    requires
        m1.unique_btc_keys(),
        0 <= p < m1.btc.len(),
        m2.btc.len() == m1.btc.len(),
        forall|k: int| 0 <= k < m1.btc.len() && k != p ==> m2.btc[k] == m1.btc[k],
        m2.btc[p].addr == m1.btc[p].addr,
    ensures
        m2.unique_btc_keys(),
        forall|a: Seq<char>|
            a != m1.btc[p].addr ==> #[trigger] m2.btc_pool(a) == m1.btc_pool(a),
        forall|a: Seq<char>| #[trigger] m2.has_btc(a) == m1.has_btc(a),
{
    assert forall|i: int, j: int| 0 <= i < j < m2.btc.len() implies #[trigger] m2.btc[i].addr
        != #[trigger] m2.btc[j].addr by {
        assert(m2.btc[i].addr == m1.btc[i].addr);
        assert(m2.btc[j].addr == m1.btc[j].addr);
    }
    assert forall|a: Seq<char>| true implies #[trigger] m2.has_btc(a) == m1.has_btc(a) by {
        if m1.has_btc(a) {
            let w = m1.btc_idx(a);
            assert(m2.btc[w].addr == a);
            assert(m2.has_btc(a));
        }
        if m2.has_btc(a) {
            let w = choose|i: int| 0 <= i < m2.btc.len() && m2.btc[i].addr == a;
            assert(m1.btc[w].addr == a);
            assert(m1.has_btc(a));
        }
    }
    assert forall|a: Seq<char>| a != m1.btc[p].addr implies #[trigger] m2.btc_pool(a)
        == m1.btc_pool(a) by {
        if m1.has_btc(a) {
            let w1 = m1.btc_idx(a);
            assert(0 <= w1 < m1.btc.len() && m1.btc[w1].addr == a);
            assert(w1 != p);
            assert(m2.btc[w1].addr == a);
            lemma_btc_entry(m2, w1);
            assert(m2.btc_pool(a) == m2.btc[w1].utxos);
            assert(m2.btc[w1] == m1.btc[w1]);
            lemma_btc_entry(m1, w1);
        }
    }
}

/// Appending a pool for a fresh address leaves every other address's pool
/// as it was.
pub proof fn lemma_btc_frame_push(m1: UtxoManagerV, m2: UtxoManagerV, pool: BtcPoolV)
    requires
        m1.unique_btc_keys(),
        !m1.has_btc(pool.addr),
        m2.btc == m1.btc.push(pool),
    ensures
        m2.unique_btc_keys(),
        forall|a: Seq<char>| a != pool.addr ==> #[trigger] m2.btc_pool(a) == m1.btc_pool(a),
        m2.has_btc(pool.addr),
        m2.btc_idx(pool.addr) == m1.btc.len(),
        m2.btc_pool(pool.addr) == pool.utxos,
{
    assert forall|i: int, j: int| 0 <= i < j < m2.btc.len() implies #[trigger] m2.btc[i].addr
        != #[trigger] m2.btc[j].addr by {
        if j < m1.btc.len() {
            assert(m2.btc[i] == m1.btc[i]);
            assert(m2.btc[j] == m1.btc[j]);
        } else {
            assert(m2.btc[j] == pool);
            assert(m2.btc[i] == m1.btc[i]);
            if m1.btc[i].addr == pool.addr {
                assert(m1.has_btc(pool.addr));
            }
        }
    }
    assert(m2.btc[m1.btc.len() as int] == pool);
    lemma_btc_entry(m2, m1.btc.len() as int);
    assert forall|a: Seq<char>| a != pool.addr implies #[trigger] m2.btc_pool(a) == m1.btc_pool(
        a,
    ) by {
        if m1.has_btc(a) {
            let w1 = m1.btc_idx(a);
            assert(0 <= w1 < m1.btc.len() && m1.btc[w1].addr == a);
            assert(m2.btc[w1].addr == a);
            lemma_btc_entry(m2, w1);
            lemma_btc_entry(m1, w1);
        } else {
            if m2.has_btc(a) {
                let w = choose|i: int| 0 <= i < m2.btc.len() && m2.btc[i].addr == a;
                assert(w < m1.btc.len());
                assert(m1.btc[w].addr == a);
                assert(m1.has_btc(a));
            }
        }
    }
}

/// Replacing the outputs of one runic pool leaves every other pool as it
/// was.
pub proof fn lemma_runic_frame_update(m1: UtxoManagerV, m2: UtxoManagerV, p: int)
    requires
        m1.unique_runic_keys(),
        0 <= p < m1.runic.len(),
        m2.runic.len() == m1.runic.len(),
        forall|k: int| 0 <= k < m1.runic.len() && k != p ==> m2.runic[k] == m1.runic[k],
        m2.runic[p].addr == m1.runic[p].addr,
        m2.runic[p].rune == m1.runic[p].rune,
    ensures
        m2.unique_runic_keys(),
        forall|a: Seq<char>, rid: RuneId|
            !(a == m1.runic[p].addr && rid == m1.runic[p].rune) ==> #[trigger] m2.runic_pool(
                a,
                rid,
            ) == m1.runic_pool(a, rid),
        forall|a: Seq<char>, rid: RuneId| #[trigger]
            m2.has_runic(a, rid) == m1.has_runic(a, rid),
{
    assert forall|i: int, j: int| 0 <= i < j < m2.runic.len() implies !(#[trigger] m2.runic[i].addr
        == #[trigger] m2.runic[j].addr && m2.runic[i].rune == m2.runic[j].rune) by {
        assert(m2.runic[i].addr == m1.runic[i].addr && m2.runic[i].rune == m1.runic[i].rune);
        assert(m2.runic[j].addr == m1.runic[j].addr && m2.runic[j].rune == m1.runic[j].rune);
    }
    assert forall|a: Seq<char>, rid: RuneId| true implies #[trigger] m2.has_runic(a, rid)
        == m1.has_runic(a, rid) by {
        if m1.has_runic(a, rid) {
            let w = m1.runic_idx(a, rid);
            assert(m2.runic[w].addr == a && m2.runic[w].rune == rid);
            assert(m2.has_runic(a, rid));
        }
        if m2.has_runic(a, rid) {
            let w = choose|i: int|
                0 <= i < m2.runic.len() && m2.runic[i].addr == a && m2.runic[i].rune == rid;
            assert(m1.runic[w].addr == a && m1.runic[w].rune == rid);
            assert(m1.has_runic(a, rid));
        }
    }
    assert forall|a: Seq<char>, rid: RuneId|
        !(a == m1.runic[p].addr && rid == m1.runic[p].rune) implies #[trigger] m2.runic_pool(a, rid)
        == m1.runic_pool(a, rid) by {
        if m1.has_runic(a, rid) {
            let w1 = m1.runic_idx(a, rid);
            assert(0 <= w1 < m1.runic.len() && m1.runic[w1].addr == a && m1.runic[w1].rune == rid);
            assert(w1 != p);
            assert(m2.runic[w1].addr == a && m2.runic[w1].rune == rid);
            lemma_runic_entry(m2, w1);
            lemma_runic_entry(m1, w1);
        }
    }
}

/// Appending a runic pool for a fresh key leaves every other pool as it
/// was.
pub proof fn lemma_runic_frame_push(m1: UtxoManagerV, m2: UtxoManagerV, pool: RunicPoolV)
    requires
        m1.unique_runic_keys(),
        !m1.has_runic(pool.addr, pool.rune),
        m2.runic == m1.runic.push(pool),
    ensures
        m2.unique_runic_keys(),
        forall|a: Seq<char>, rid: RuneId|
            !(a == pool.addr && rid == pool.rune) ==> #[trigger] m2.runic_pool(a, rid)
                == m1.runic_pool(a, rid),
        m2.has_runic(pool.addr, pool.rune),
        m2.runic_idx(pool.addr, pool.rune) == m1.runic.len(),
        m2.runic_pool(pool.addr, pool.rune) == pool.utxos,
{
    assert forall|i: int, j: int| 0 <= i < j < m2.runic.len() implies !(#[trigger] m2.runic[i].addr
        == #[trigger] m2.runic[j].addr && m2.runic[i].rune == m2.runic[j].rune) by {
        if j < m1.runic.len() {
            assert(m2.runic[i] == m1.runic[i]);
            assert(m2.runic[j] == m1.runic[j]);
        } else {
            assert(m2.runic[j] == pool);
            assert(m2.runic[i] == m1.runic[i]);
            if m1.runic[i].addr == pool.addr && m1.runic[i].rune == pool.rune {
                assert(m1.has_runic(pool.addr, pool.rune));
            }
        }
    }
    assert(m2.runic[m1.runic.len() as int] == pool);
    lemma_runic_entry(m2, m1.runic.len() as int);
    assert forall|a: Seq<char>, rid: RuneId|
        !(a == pool.addr && rid == pool.rune) implies #[trigger] m2.runic_pool(a, rid)
        == m1.runic_pool(a, rid) by {
        if m1.has_runic(a, rid) {
            let w1 = m1.runic_idx(a, rid);
            assert(0 <= w1 < m1.runic.len() && m1.runic[w1].addr == a && m1.runic[w1].rune == rid);
            assert(m2.runic[w1].addr == a && m2.runic[w1].rune == rid);
            lemma_runic_entry(m2, w1);
            lemma_runic_entry(m1, w1);
        } else {
            if m2.has_runic(a, rid) {
                let w = choose|i: int|
                    0 <= i < m2.runic.len() && m2.runic[i].addr == a && m2.runic[i].rune == rid;
                assert(w < m1.runic.len());
                assert(m1.has_runic(a, rid));
            }
        }
    }
}

impl UtxoManager {
    /// An empty manager.
    pub fn new() -> (r: Self)
        ensures
            r@.btc.len() == 0,
            r@.runic.len() == 0,
            r@.wf(),
    {
        let r = UtxoManager { btc: Vec::new(), runic: Vec::new() };
        proof {
            assert(r@.btc =~= Seq::<BtcPoolV>::empty());
            assert(r@.runic =~= Seq::<RunicPoolV>::empty());
        }
        r
    }

    fn find_btc(&self, addr: &str) -> (r: Option<usize>)
        requires
            self@.unique_btc_keys(),
        ensures
            match r {
                Option::Some(i) => self@.has_btc(addr@) && self@.btc_idx(addr@) == i && i
                    < self@.btc.len() && self@.btc[i as int].addr == addr@,
                Option::None => !self@.has_btc(addr@),
            },
    {
        let mut i: usize = 0;
        while i < self.btc.len()
            invariant
                i <= self@.btc.len(),
                self@.btc.len() == self.btc@.len(),
                self@.unique_btc_keys(),
                forall|k: int| 0 <= k < i ==> self@.btc[k].addr != addr@,
            decreases self@.btc.len() - i,
        {
            if str_eq(self.btc[i].addr.as_str(), addr) {
                proof {
                    lemma_btc_entry(self@, i as int);
                }
                return Some(i);
            }
            i = i + 1;
        }
        proof {
            if self@.has_btc(addr@) {
                let w = self@.btc_idx(addr@);
                assert(self@.btc[w].addr != addr@);
            }
        }
        None
    }

    fn find_runic(&self, addr: &str, rune: &RuneId) -> (r: Option<usize>)
        requires
            self@.unique_runic_keys(),
        ensures
            match r {
                Option::Some(i) => self@.has_runic(addr@, *rune) && self@.runic_idx(addr@, *rune)
                    == i && i < self@.runic.len() && self@.runic[i as int].addr == addr@
                    && self@.runic[i as int].rune == *rune,
                Option::None => !self@.has_runic(addr@, *rune),
            },
    {
        let mut i: usize = 0;
        while i < self.runic.len()
            invariant
                i <= self@.runic.len(),
                self@.runic.len() == self.runic@.len(),
                self@.unique_runic_keys(),
                forall|k: int|
                    0 <= k < i ==> !(self@.runic[k].addr == addr@ && self@.runic[k].rune == *rune),
            decreases self@.runic.len() - i,
        {
            let hit = str_eq(self.runic[i].addr.as_str(), addr) && self.runic[i].rune.block
                == rune.block && self.runic[i].rune.tx == rune.tx;
            if hit {
                proof {
                    lemma_runic_entry(self@, i as int);
                }
                return Some(i);
            }
            i = i + 1;
        }
        proof {
            if self@.has_runic(addr@, *rune) {
                let w = self@.runic_idx(addr@, *rune);
                assert(!(self@.runic[w].addr == addr@ && self@.runic[w].rune == *rune));
            }
        }
        None
    }

    /// Removes and returns one plain output of the address, or `None` when
    /// its plain pool is empty. The rest of the manager is untouched.
    pub fn take_bitcoin(&mut self, addr: &str) -> (r: Option<Utxo>)
        requires
            old(self)@.wf(),
        ensures
            final(self)@.wf(),
            final(self)@.runic == old(self)@.runic,
            forall|a: Seq<char>|
                a != addr@ ==> #[trigger] final(self)@.btc_pool(a) == old(self)@.btc_pool(a),
            forall|op: OutPointV| #[trigger]
                final(self)@.btc_has_op(op) ==> old(self)@.btc_has_op(op),
            match r {
                Option::Some(u) => old(self)@.btc_pool(addr@).len() > 0 && u@ == old(
                    self,
                )@.btc_pool(addr@).last() && u@.wf() && final(self)@.btc_pool(addr@) == old(
                    self,
                )@.btc_pool(addr@).drop_last() && !final(self)@.has_op(u@.outpoint) && old(
                    self,
                )@.btc_has_op(u@.outpoint),
                Option::None => old(self)@.btc_pool(addr@).len() == 0 && final(self)@ == old(
                    self,
                )@,
            },
    {
        let idx = match self.find_btc(addr) {
            None => {
                return None;
            },
            Some(i) => i,
        };
        let ghost m1 = self@;
        if self.btc[idx].utxos.len() == 0 {
            proof {
                assert(m1.btc_pool(addr@).len() == 0);
            }
            return None;
        }
        let mut pool = self.btc.remove(idx);
        let u = match pool.utxos.pop() {
            Some(u) => u,
            None => {
                proof {
                    assert(false);
                }
                unreached()
            },
        };
        self.btc.insert(idx, pool);
        proof {
            let m2 = self@;
            let p = idx as int;
            assert(self.btc@.len() == old(self).btc@.len());
            assert(m2.btc.len() == m1.btc.len());
            assert forall|k: int| 0 <= k < m1.btc.len() && k != p implies m2.btc[k] == m1.btc[
                k
            ] by {
                assert(self.btc@[k] == old(self).btc@[k]);
            }
            assert(m2.btc[p].addr == m1.btc[p].addr);
            assert(m2.btc[p].utxos =~= m1.btc[p].utxos.drop_last());
            assert(m2.runic == m1.runic);
            lemma_btc_frame_update(m1, m2, p);
            lemma_btc_entry(m2, p);
            assert(m2.btc_pool(addr@) == m1.btc_pool(addr@).drop_last());
            assert(u@ == m1.btc_pool(addr@).last());
            // the removed outpoint is nowhere else: it is gone from the manager
            assert(!m2.has_op(u@.outpoint)) by {
                let op = u@.outpoint;
                let jlast = m1.btc[p].utxos.len() - 1;
                assert(m1.btc[p].utxos[jlast] == u@);
                if m2.btc_has_op(op) {
                    let (i, j): (int, int) = choose|i: int, j: int|
                        #![trigger m2.btc[i].utxos[j]]
                        0 <= i < m2.btc.len() && 0 <= j < m2.btc[i].utxos.len() && m2.btc[i].utxos[
                            j
                        ].outpoint == op;
                    assert(m1.btc[i].utxos[j].outpoint == op);
                    assert(i != p || j != jlast);
                    assert(m1.btc[i].utxos[j].outpoint != m1.btc[p].utxos[jlast].outpoint);
                }
                if m2.runic_has_op(op) {
                    let (i, j): (int, int) = choose|i: int, j: int|
                        #![trigger m2.runic[i].utxos[j]]
                        0 <= i < m2.runic.len() && 0 <= j < m2.runic[i].utxos.len() && m2.runic[
                            i
                        ].utxos[j].utxo.outpoint == op;
                    assert(m1.runic[i].utxos[j].utxo.outpoint == op);
                    assert(m1.btc[p].utxos[jlast].outpoint != m1.runic[i].utxos[j].utxo.outpoint);
                }
            }
            // the pool shrank: every remaining plain outpoint was already there
            assert forall|op: OutPointV| #[trigger] m2.btc_has_op(op) implies m1.btc_has_op(op) by {
                let (i, j): (int, int) = choose|i: int, j: int|
                    #![trigger m2.btc[i].utxos[j]]
                    0 <= i < m2.btc.len() && 0 <= j < m2.btc[i].utxos.len() && m2.btc[i].utxos[
                        j
                    ].outpoint == op;
                assert(m1.btc[i].utxos[j].outpoint == op);
            }
            // the invariant is preserved
            assert(m2.wf()) by {
                assert forall|i: int, j: int|
                    #![trigger m2.btc[i].utxos[j]]
                    0 <= i < m2.btc.len() && 0 <= j < m2.btc[i].utxos.len() implies m2.btc[i].utxos[
                    j
                ].wf() by {
                    assert(m2.btc[i].utxos[j] == m1.btc[i].utxos[j]);
                }
                assert forall|i: int, j: int, k: int, l: int|
                    #![trigger m2.btc[i].utxos[j], m2.btc[k].utxos[l]]
                    0 <= i < m2.btc.len() && 0 <= j < m2.btc[i].utxos.len() && 0 <= k
                        < m2.btc.len() && 0 <= l < m2.btc[k].utxos.len() && (i != k || j
                        != l) implies m2.btc[i].utxos[j].outpoint != m2.btc[k].utxos[
                    l
                ].outpoint by {
                    assert(m2.btc[i].utxos[j] == m1.btc[i].utxos[j]);
                    assert(m2.btc[k].utxos[l] == m1.btc[k].utxos[l]);
                }
                assert forall|i: int, j: int, k: int, l: int|
                    #![trigger m2.btc[i].utxos[j], m2.runic[k].utxos[l]]
                    0 <= i < m2.btc.len() && 0 <= j < m2.btc[i].utxos.len() && 0 <= k
                        < m2.runic.len() && 0 <= l < m2.runic[k].utxos.len() implies m2.btc[
                    i
                ].utxos[j].outpoint != m2.runic[k].utxos[l].utxo.outpoint by {
                    assert(m2.btc[i].utxos[j] == m1.btc[i].utxos[j]);
                }
                assert forall|i: int| 0 <= i < m2.btc.len() implies sum_values(
                    #[trigger] m2.btc[i].utxos,
                ) <= u64::MAX by {
                    if i == p {
                        assert(sum_values(m1.btc[p].utxos) == sum_values(
                            m1.btc[p].utxos.drop_last(),
                        ) + m1.btc[p].utxos.last().value);
                    } else {
                        assert(m2.btc[i] == m1.btc[i]);
                    }
                }
            }
        }
        Some(u)
    }
}


/// Every output in the list is well formed.
pub open spec fn utxos_wf_seq(s: Seq<UtxoV>) -> bool {
    forall|k: int| 0 <= k < s.len() ==> (#[trigger] s[k]).wf()
}

/// No outpoint occurs twice in the list.
pub open spec fn ops_distinct(s: Seq<UtxoV>) -> bool {
    forall|k: int, l: int| 0 <= k < l < s.len() ==> (#[trigger] s[k]).outpoint != (#[trigger] s[l]).outpoint
}

/// Whether the list holds an output with this outpoint.
pub open spec fn batch_has_op(s: Seq<UtxoV>, op: OutPointV) -> bool {
    exists|k: int| 0 <= k < s.len() && (#[trigger] s[k]).outpoint == op
}

/// No outpoint of the list is anywhere in the manager.
pub open spec fn none_present(m: UtxoManagerV, s: Seq<UtxoV>) -> bool {
    forall|k: int| 0 <= k < s.len() ==> !m.has_op((#[trigger] s[k]).outpoint)
}

/// Every outpoint of the list is already somewhere in the manager.
pub open spec fn all_present(m: UtxoManagerV, s: Seq<UtxoV>) -> bool {
    forall|k: int| 0 <= k < s.len() ==> m.has_op((#[trigger] s[k]).outpoint)
}

/// Every runic output in the list is well formed.
pub open spec fn runic_wf_seq(s: Seq<RunicUtxoV>) -> bool {
    forall|k: int| 0 <= k < s.len() ==> (#[trigger] s[k]).wf()
}

/// No outpoint occurs twice in the runic list.
pub open spec fn rops_distinct(s: Seq<RunicUtxoV>) -> bool {
    forall|k: int, l: int|
        0 <= k < l < s.len() ==> (#[trigger] s[k]).utxo.outpoint != (#[trigger] s[l]).utxo.outpoint
}

/// Whether the runic list holds an output with this outpoint.
pub open spec fn pool_has_rop(s: Seq<RunicUtxoV>, op: OutPointV) -> bool {
    exists|j: int| 0 <= j < s.len() && (#[trigger] s[j]).utxo.outpoint == op
}


impl UtxoManager {
    /// Removes and returns one runic output of the address and rune, or
    /// `None` when that runic pool is empty. The rest of the manager is
    /// untouched.
    pub fn take_runic(&mut self, addr: &str, rune: &RuneId) -> (r: Option<RunicUtxo>)
        requires
            old(self)@.wf(),
        ensures
            final(self)@.wf(),
            final(self)@.btc == old(self)@.btc,
            forall|a: Seq<char>, rid: RuneId|
                !(a == addr@ && rid == *rune) ==> #[trigger] final(self)@.runic_pool(a, rid)
                    == old(self)@.runic_pool(a, rid),
            forall|op: OutPointV| #[trigger]
                final(self)@.runic_has_op(op) ==> old(self)@.runic_has_op(op),
            match r {
                Option::Some(u) => old(self)@.runic_pool(addr@, *rune).len() > 0 && u@ == old(
                    self,
                )@.runic_pool(addr@, *rune).last() && u@.wf() && final(self)@.runic_pool(
                    addr@,
                    *rune,
                ) == old(self)@.runic_pool(addr@, *rune).drop_last() && !final(self)@.btc_has_op(
                    u@.utxo.outpoint,
                ) && !pool_has_rop(final(self)@.runic_pool(addr@, *rune), u@.utxo.outpoint) && old(
                    self,
                )@.runic_has_op(u@.utxo.outpoint),
                Option::None => old(self)@.runic_pool(addr@, *rune).len() == 0 && final(self)@
                    == old(self)@,
            },
    {
        let idx = match self.find_runic(addr, rune) {
            None => {
                return None;
            },
            Some(i) => i,
        };
        let ghost m1 = self@;
        if self.runic[idx].utxos.len() == 0 {
            proof {
                assert(m1.runic_pool(addr@, *rune).len() == 0);
            }
            return None;
        }
        let mut pool = self.runic.remove(idx);
        let u = match pool.utxos.pop() {
            Some(u) => u,
            None => {
                proof {
                    assert(false);
                }
                unreached()
            },
        };
        self.runic.insert(idx, pool);
        proof {
            let m2 = self@;
            let p = idx as int;
            assert(self.runic@.len() == old(self).runic@.len());
            assert(m2.runic.len() == m1.runic.len());
            assert forall|k: int| 0 <= k < m1.runic.len() && k != p implies m2.runic[k]
                == m1.runic[k] by {
                assert(self.runic@[k] == old(self).runic@[k]);
            }
            assert(m2.runic[p].addr == m1.runic[p].addr);
            assert(m2.runic[p].rune == m1.runic[p].rune);
            assert(m2.runic[p].utxos =~= m1.runic[p].utxos.drop_last());
            assert(m2.btc == m1.btc);
            lemma_runic_frame_update(m1, m2, p);
            lemma_runic_entry(m2, p);
            assert(m2.runic_pool(addr@, *rune) == m1.runic_pool(addr@, *rune).drop_last());
            assert(u@ == m1.runic_pool(addr@, *rune).last());
            let op = u@.utxo.outpoint;
            let jlast = m1.runic[p].utxos.len() - 1;
            assert(m1.runic[p].utxos[jlast] == u@);
            assert(!m2.btc_has_op(op)) by {
                if m2.btc_has_op(op) {
                    let (i, j): (int, int) = choose|i: int, j: int|
                        #![trigger m2.btc[i].utxos[j]]
                        0 <= i < m2.btc.len() && 0 <= j < m2.btc[i].utxos.len() && m2.btc[i].utxos[
                            j
                        ].outpoint == op;
                    assert(m1.btc[i].utxos[j].outpoint == op);
                    assert(m1.btc[i].utxos[j].outpoint != m1.runic[p].utxos[jlast].utxo.outpoint);
                }
            }
            assert(!pool_has_rop(m2.runic_pool(addr@, *rune), op)) by {
                if pool_has_rop(m2.runic_pool(addr@, *rune), op) {
                    let j = choose|j: int|
                        0 <= j < m2.runic_pool(addr@, *rune).len() && (#[trigger] m2.runic_pool(
                            addr@,
                            *rune,
                        )[j]).utxo.outpoint == op;
                    assert(m2.runic[p].utxos[j] == m1.runic[p].utxos[j]);
                    assert(m1.runic[p].utxos[j].utxo.outpoint != m1.runic[p].utxos[
                        jlast
                    ].utxo.outpoint);
                }
            }
            assert forall|opx: OutPointV| #[trigger] m2.runic_has_op(opx) implies m1.runic_has_op(
                opx,
            ) by {
                let (i, j): (int, int) = choose|i: int, j: int|
                    #![trigger m2.runic[i].utxos[j]]
                    0 <= i < m2.runic.len() && 0 <= j < m2.runic[i].utxos.len() && m2.runic[
                        i
                    ].utxos[j].utxo.outpoint == opx;
                assert(m1.runic[i].utxos[j].utxo.outpoint == opx);
            }
            assert(m2.wf()) by {
                assert forall|i: int, j: int|
                    #![trigger m2.runic[i].utxos[j]]
                    0 <= i < m2.runic.len() && 0 <= j < m2.runic[i].utxos.len() implies m2.runic[
                    i
                ].utxos[j].wf() by {
                    assert(m2.runic[i].utxos[j] == m1.runic[i].utxos[j]);
                }
                assert forall|i: int, j: int, l: int|
                    #![trigger m2.runic[i].utxos[j], m2.runic[i].utxos[l]]
                    0 <= i < m2.runic.len() && 0 <= j < m2.runic[i].utxos.len() && 0 <= l
                        < m2.runic[i].utxos.len() && j != l implies m2.runic[i].utxos[
                    j
                ].utxo.outpoint != m2.runic[i].utxos[l].utxo.outpoint by {
                    assert(m2.runic[i].utxos[j] == m1.runic[i].utxos[j]);
                    assert(m2.runic[i].utxos[l] == m1.runic[i].utxos[l]);
                }
                assert forall|i: int, j: int, k: int, l: int|
                    #![trigger m2.btc[i].utxos[j], m2.runic[k].utxos[l]]
                    0 <= i < m2.btc.len() && 0 <= j < m2.btc[i].utxos.len() && 0 <= k
                        < m2.runic.len() && 0 <= l < m2.runic[k].utxos.len() implies m2.btc[
                    i
                ].utxos[j].outpoint != m2.runic[k].utxos[l].utxo.outpoint by {
                    assert(m2.runic[k].utxos[l] == m1.runic[k].utxos[l]);
                }
                assert forall|i: int| 0 <= i < m2.runic.len() implies sum_balances(
                    #[trigger] m2.runic[i].utxos,
                ) <= u128::MAX && sum_runic_values(m2.runic[i].utxos) <= u64::MAX by {
                    if i == p {
                        assert(sum_balances(m1.runic[p].utxos) == sum_balances(
                            m1.runic[p].utxos.drop_last(),
                        ) + m1.runic[p].utxos.last().balance);
                        assert(sum_runic_values(m1.runic[p].utxos) == sum_runic_values(
                            m1.runic[p].utxos.drop_last(),
                        ) + m1.runic[p].utxos.last().utxo.value);
                        lemma_sum_balances_nonneg(m2.runic[i].utxos);
                        lemma_sum_runic_values_nonneg(m2.runic[i].utxos);
                    } else {
                        assert(m2.runic[i] == m1.runic[i]);
                    }
                }
            }
        }
        Some(u)
    }

    /// Whether any pool, plain or runic, holds an output with this outpoint.
    fn contains_op(&self, op: &crate::types::OutPoint) -> (r: bool)
        ensures
            r == self@.has_op(op@),
    {
        if self.btc_contains_op(op) {
            return true;
        }
        let mut i: usize = 0;
        while i < self.runic.len()
            invariant
                i <= self.runic@.len(),
                self@.runic.len() == self.runic@.len(),
                !self@.btc_has_op(op@),
                forall|k: int, j: int|
                    #![trigger self@.runic[k].utxos[j]]
                    0 <= k < i && 0 <= j < self@.runic[k].utxos.len() ==> self@.runic[k].utxos[
                        j
                    ].utxo.outpoint != op@,
            decreases self.runic@.len() - i,
        {
            let mut j: usize = 0;
            while j < self.runic[i].utxos.len()
                invariant
                    i < self.runic@.len(),
                    self@.runic.len() == self.runic@.len(),
                    j <= self@.runic[i as int].utxos.len(),
                    self@.runic[i as int].utxos.len() == self.runic@[i as int].utxos@.len(),
                    forall|l: int|
                        0 <= l < j ==> (#[trigger] self@.runic[i as int].utxos[l]).utxo.outpoint
                            != op@,
                decreases self@.runic[i as int].utxos.len() - j,
            {
                if crate::types::outpoint_eq(&self.runic[i].utxos[j].utxo.outpoint, op) {
                    proof {
                        assert(self@.runic[i as int].utxos[j as int].utxo.outpoint == op@);
                    }
                    return true;
                }
                j = j + 1;
            }
            i = i + 1;
        }
        proof {
            if self@.runic_has_op(op@) {
                let (k, j): (int, int) = choose|k: int, j: int|
                    #![trigger self@.runic[k].utxos[j]]
                    0 <= k < self@.runic.len() && 0 <= j < self@.runic[k].utxos.len()
                        && self@.runic[k].utxos[j].utxo.outpoint == op@;
                assert(self@.runic[k].utxos[j].utxo.outpoint != op@);
            }
        }
        false
    }

    /// Whether a plain pool holds an output with this outpoint.
    fn btc_contains_op(&self, op: &crate::types::OutPoint) -> (r: bool)
        ensures
            r == self@.btc_has_op(op@),
    {
        let mut i: usize = 0;
        while i < self.btc.len()
            invariant
                i <= self.btc@.len(),
                self@.btc.len() == self.btc@.len(),
                forall|k: int, j: int|
                    #![trigger self@.btc[k].utxos[j]]
                    0 <= k < i && 0 <= j < self@.btc[k].utxos.len() ==> self@.btc[k].utxos[
                        j
                    ].outpoint != op@,
            decreases self.btc@.len() - i,
        {
            let mut j: usize = 0;
            while j < self.btc[i].utxos.len()
                invariant
                    i < self.btc@.len(),
                    self@.btc.len() == self.btc@.len(),
                    j <= self@.btc[i as int].utxos.len(),
                    self@.btc[i as int].utxos.len() == self.btc@[i as int].utxos@.len(),
                    forall|l: int|
                        0 <= l < j ==> (#[trigger] self@.btc[i as int].utxos[l]).outpoint != op@,
                decreases self@.btc[i as int].utxos.len() - j,
            {
                if crate::types::outpoint_eq(&self.btc[i].utxos[j].outpoint, op) {
                    proof {
                        assert(self@.btc[i as int].utxos[j as int].outpoint == op@);
                    }
                    return true;
                }
                j = j + 1;
            }
            i = i + 1;
        }
        proof {
            if self@.btc_has_op(op@) {
                let (k, j): (int, int) = choose|k: int, j: int|
                    #![trigger self@.btc[k].utxos[j]]
                    0 <= k < self@.btc.len() && 0 <= j < self@.btc[k].utxos.len() && self@.btc[
                        k
                    ].utxos[j].outpoint == op@;
                assert(self@.btc[k].utxos[j].outpoint != op@);
            }
        }
        false
    }
}


impl UtxoManager {
    fn ensure_btc_pool(&mut self, addr: &str) -> (i: usize)
        requires
            old(self)@.wf(),
        ensures
            final(self)@.wf(),
            i < final(self)@.btc.len(),
            final(self)@.btc[i as int].addr == addr@,
            final(self)@.btc_idx(addr@) == i,
            final(self)@.has_btc(addr@),
            final(self)@.runic == old(self)@.runic,
            forall|a: Seq<char>|
                a != addr@ ==> #[trigger] final(self)@.btc_pool(a) == old(self)@.btc_pool(a),
            final(self)@.btc_pool(addr@) == old(self)@.btc_pool(addr@),
            forall|op: OutPointV| #[trigger]
                final(self)@.btc_has_op(op) == old(self)@.btc_has_op(op),
    {
        match self.find_btc(addr) {
            Some(i) => {
                proof {
                    assert(final(self)@ == old(self)@);
                }
                i
            },
            None => {
                let ghost m1 = self@;
                let pool = BtcPool { addr: addr.to_owned(), utxos: Vec::new() };
                proof {
                    assert(pool@.utxos =~= Seq::<UtxoV>::empty());
                }
                self.btc.push(pool);
                let i = self.btc.len() - 1;
                proof {
                    let m2 = self@;
                    let pv = BtcPoolV { addr: addr@, utxos: Seq::empty() };
                    assert(m2.btc =~= m1.btc.push(pv));
                    assert(m2.runic == m1.runic);
                    lemma_btc_frame_push(m1, m2, pv);
                    assert(m2.btc_pool(addr@) =~= m1.btc_pool(addr@));
                    assert forall|op: OutPointV| #[trigger] m2.btc_has_op(op)
                        == m1.btc_has_op(op) by {
                        if m2.btc_has_op(op) {
                            let (k, j): (int, int) = choose|k: int, j: int|
                                #![trigger m2.btc[k].utxos[j]]
                                0 <= k < m2.btc.len() && 0 <= j < m2.btc[k].utxos.len()
                                    && m2.btc[k].utxos[j].outpoint == op;
                            assert(k < m1.btc.len());
                            assert(m1.btc[k].utxos[j].outpoint == op);
                        }
                        if m1.btc_has_op(op) {
                            let (k, j): (int, int) = choose|k: int, j: int|
                                #![trigger m1.btc[k].utxos[j]]
                                0 <= k < m1.btc.len() && 0 <= j < m1.btc[k].utxos.len()
                                    && m1.btc[k].utxos[j].outpoint == op;
                            assert(m2.btc[k].utxos[j].outpoint == op);
                        }
                    }
                    assert forall|k: int, j: int|
                        #![trigger m2.btc[k].utxos[j]]
                        0 <= k < m2.btc.len() && 0 <= j < m2.btc[k].utxos.len() implies m2.btc[
                        k
                    ].utxos[j].wf() by {
                        if k < m1.btc.len() {
                            assert(m2.btc[k].utxos[j] == m1.btc[k].utxos[j]);
                        } else {
                            assert(m2.btc[k].utxos.len() == 0);
                        }
                    }
                    {
                        assert forall|i1: int, j1: int, k1: int, l1: int|
                            #![trigger m2.btc[i1].utxos[j1], m2.btc[k1].utxos[l1]]
                            0 <= i1 < m2.btc.len() && 0 <= j1 < m2.btc[i1].utxos.len() && 0 <= k1
                                < m2.btc.len() && 0 <= l1 < m2.btc[k1].utxos.len() && (i1 != k1
                                || j1 != l1) implies m2.btc[i1].utxos[j1].outpoint != m2.btc[
                            k1
                        ].utxos[l1].outpoint by {
                            assert(i1 < m1.btc.len() && k1 < m1.btc.len());
                            assert(m2.btc[i1].utxos[j1] == m1.btc[i1].utxos[j1]);
                            assert(m2.btc[k1].utxos[l1] == m1.btc[k1].utxos[l1]);
                        }
                        assert forall|i1: int, j1: int, k1: int, l1: int|
                            #![trigger m2.btc[i1].utxos[j1], m2.runic[k1].utxos[l1]]
                            0 <= i1 < m2.btc.len() && 0 <= j1 < m2.btc[i1].utxos.len() && 0 <= k1
                                < m2.runic.len() && 0 <= l1
                                < m2.runic[k1].utxos.len() implies m2.btc[i1].utxos[j1].outpoint
                            != m2.runic[k1].utxos[l1].utxo.outpoint by {
                            assert(i1 < m1.btc.len());
                            assert(m2.btc[i1].utxos[j1] == m1.btc[i1].utxos[j1]);
                        }
                        assert forall|k: int| 0 <= k < m2.btc.len() implies sum_values(
                            #[trigger] m2.btc[k].utxos,
                        ) <= u64::MAX by {
                            if k < m1.btc.len() {
                                assert(m2.btc[k] == m1.btc[k]);
                            } else {
                                assert(m2.btc[k].utxos.len() == 0);
                            }
                        }
                    }
                    assert(m2.unique_btc_keys());
                    assert(m2.unique_runic_keys());
                    assert(m2.utxos_wf());
                    assert(m2.btc_ops_distinct());
                    assert(m2.runic_ops_distinct());
                    assert(m2.btc_runic_disjoint());
                    assert(m2.sums_bounded());
                    assert(m2.wf());
                }
                i
            },
        }
    }

    /// Inserts plain outputs for the address, skipping any whose outpoint
    /// the manager already holds somewhere: re-submitted outpoints are
    /// deduplicated, and an output held as runic is never added as plain.
    pub fn record_bitcoin(&mut self, addr: &str, utxos: Vec<Utxo>)
        requires
            old(self)@.wf(),
            utxos_wf_seq(utxos.deep_view()),
            sum_values(old(self)@.btc_pool(addr@)) + sum_values(utxos.deep_view()) <= u64::MAX,
        ensures
            final(self)@.wf(),
            final(self)@.runic == old(self)@.runic,
            forall|a: Seq<char>|
                a != addr@ ==> #[trigger] final(self)@.btc_pool(a) == old(self)@.btc_pool(a),
            forall|op: OutPointV| #[trigger]
                final(self)@.btc_has_op(op) ==> old(self)@.btc_has_op(op) || batch_has_op(
                    utxos.deep_view(),
                    op,
                ),
            none_present(old(self)@, utxos.deep_view()) && ops_distinct(utxos.deep_view())
                ==> final(self)@.btc_pool(addr@) == old(self)@.btc_pool(addr@)
                + utxos.deep_view().reverse(),
            all_present(old(self)@, utxos.deep_view()) ==> final(self)@ == old(self)@,
    {
        let ghost m0 = self@;
        let ghost full = utxos.deep_view();
        let mut batch = utxos;
        proof {
            assert(batch.deep_view() =~= full.take(batch@.len() as int));
        }
        while batch.len() > 0
            invariant
                self@.wf(),
                batch@.len() <= full.len(),
                batch.deep_view() == full.take(batch@.len() as int),
                utxos_wf_seq(full),
                self@.runic == m0.runic,
                forall|a: Seq<char>|
                    a != addr@ ==> #[trigger] self@.btc_pool(a) == m0.btc_pool(a),
                forall|op: OutPointV| #[trigger]
                    self@.btc_has_op(op) ==> m0.btc_has_op(op) || batch_has_op(full, op),
                sum_values(self@.btc_pool(addr@)) + sum_values(batch.deep_view()) <= u64::MAX,
                none_present(m0, full) && ops_distinct(full) ==> (self@.btc_pool(addr@)
                    == m0.btc_pool(addr@) + full.skip(batch@.len() as int).reverse() && forall|
                    k: int,
                |
                    0 <= k < batch@.len() ==> !self@.has_op((#[trigger] full[k]).outpoint)),
                all_present(m0, full) ==> self@ == m0,
            decreases batch@.len(),
        {
            let ghost n = batch@.len() as int;
            let ghost pre = self@;
            let u = match batch.pop() {
                Some(u) => u,
                None => {
                    proof {
                        assert(false);
                    }
                    unreached()
                },
            };
            proof {
                assert(u@ == full[n - 1]);
                assert(batch.deep_view() =~= full.take(n - 1));
                assert(full.take(n).drop_last() =~= full.take(n - 1));
                assert(full.take(n).last() == full[n - 1]);
                assert(sum_values(full.take(n)) == sum_values(full.take(n - 1)) + u@.value);
            }
            if !self.contains_op(&u.outpoint) {
                let ghost uop = u@.outpoint;
                let i = self.ensure_btc_pool(addr);
                let ghost mid = self@;
                let mut pool = self.btc.remove(i);
                pool.utxos.push(u);
                self.btc.insert(i, pool);
                proof {
                    let m2 = self@;
                    let p = i as int;
                    assert(m2.btc.len() == mid.btc.len());
                    assert forall|k: int| 0 <= k < mid.btc.len() && k != p implies m2.btc[k]
                        == mid.btc[k] by {
                        assert(self.btc@[k] == old(self).btc@[k] || true);
                    }
                    assert(m2.btc[p].addr == mid.btc[p].addr);
                    assert(m2.btc[p].utxos =~= mid.btc[p].utxos.push(full[n - 1]));
                    assert(m2.runic == mid.runic);
                    lemma_btc_frame_update(mid, m2, p);
                    lemma_btc_entry(mid, p);
                    lemma_btc_entry(m2, p);
                    assert(m2.btc_pool(addr@) == mid.btc_pool(addr@).push(full[n - 1]));
                    // how presence changes: exactly the one outpoint is added
                    assert forall|op: OutPointV| #[trigger] m2.btc_has_op(op) implies
                        mid.btc_has_op(op) || op == uop by {
                        let (k, j): (int, int) = choose|k: int, j: int|
                            #![trigger m2.btc[k].utxos[j]]
                            0 <= k < m2.btc.len() && 0 <= j < m2.btc[k].utxos.len() && m2.btc[
                                k
                            ].utxos[j].outpoint == op;
                        if k != p || j < mid.btc[p].utxos.len() {
                            assert(mid.btc[k].utxos[j].outpoint == op);
                        }
                    }
                    assert(m2.btc_has_op(uop)) by {
                        assert(m2.btc[p].utxos[mid.btc[p].utxos.len() as int].outpoint == uop);
                    }
                    // the invariant is preserved
                    assert(m2.wf()) by {
                        assert forall|k: int, j: int|
                            #![trigger m2.btc[k].utxos[j]]
                            0 <= k < m2.btc.len() && 0 <= j < m2.btc[k].utxos.len() implies m2.btc[
                            k
                        ].utxos[j].wf() by {
                            if k != p || j < mid.btc[p].utxos.len() {
                                assert(m2.btc[k].utxos[j] == mid.btc[k].utxos[j]);
                            } else {
                                assert(m2.btc[k].utxos[j] == full[n - 1]);
                            }
                        }
                        assert forall|i1: int, j1: int, k1: int, l1: int|
                            #![trigger m2.btc[i1].utxos[j1], m2.btc[k1].utxos[l1]]
                            0 <= i1 < m2.btc.len() && 0 <= j1 < m2.btc[i1].utxos.len() && 0 <= k1
                                < m2.btc.len() && 0 <= l1 < m2.btc[k1].utxos.len() && (i1 != k1
                                || j1 != l1) implies m2.btc[i1].utxos[j1].outpoint != m2.btc[
                            k1
                        ].utxos[l1].outpoint by {
                            let fresh1 = i1 == p && j1 == mid.btc[p].utxos.len();
                            let fresh2 = k1 == p && l1 == mid.btc[p].utxos.len();
                            if fresh1 && !fresh2 {
                                assert(m2.btc[k1].utxos[l1] == mid.btc[k1].utxos[l1]);
                                if mid.btc[k1].utxos[l1].outpoint == uop {
                                    assert(mid.btc_has_op(uop));
                                    assert(pre.btc_has_op(uop));
                                    assert(false);
                                }
                            } else if !fresh1 && fresh2 {
                                assert(m2.btc[i1].utxos[j1] == mid.btc[i1].utxos[j1]);
                                if mid.btc[i1].utxos[j1].outpoint == uop {
                                    assert(mid.btc_has_op(uop));
                                    assert(pre.btc_has_op(uop));
                                    assert(false);
                                }
                            } else if !fresh1 && !fresh2 {
                                assert(m2.btc[i1].utxos[j1] == mid.btc[i1].utxos[j1]);
                                assert(m2.btc[k1].utxos[l1] == mid.btc[k1].utxos[l1]);
                            }
                        }
                        assert forall|i1: int, j1: int, k1: int, l1: int|
                            #![trigger m2.btc[i1].utxos[j1], m2.runic[k1].utxos[l1]]
                            0 <= i1 < m2.btc.len() && 0 <= j1 < m2.btc[i1].utxos.len() && 0 <= k1
                                < m2.runic.len() && 0 <= l1
                                < m2.runic[k1].utxos.len() implies m2.btc[i1].utxos[j1].outpoint
                            != m2.runic[k1].utxos[l1].utxo.outpoint by {
                            assert(m2.runic[k1].utxos[l1] == mid.runic[k1].utxos[l1]);
                            if i1 == p && j1 == mid.btc[p].utxos.len() {
                                assert(m2.btc[i1].utxos[j1].outpoint == uop);
                                if mid.runic[k1].utxos[l1].utxo.outpoint == uop {
                                    assert(pre.runic[k1].utxos[l1].utxo.outpoint == uop);
                                    assert(pre.runic_has_op(uop));
                                    assert(false);
                                }
                            } else {
                                assert(m2.btc[i1].utxos[j1] == mid.btc[i1].utxos[j1]);
                            }
                        }
                        assert forall|k: int| 0 <= k < m2.btc.len() implies sum_values(
                            #[trigger] m2.btc[k].utxos,
                        ) <= u64::MAX by {
                            if k == p {
                                lemma_sum_values_nonneg(batch.deep_view());
                                assert(m2.btc[p].utxos.drop_last() =~= mid.btc[p].utxos);
                                assert(m2.btc[p].utxos.last() == full[n - 1]);
                                assert(sum_values(m2.btc[p].utxos) == sum_values(mid.btc[p].utxos)
                                    + full[n - 1].value);
                                assert(mid.btc_pool(addr@) == pre.btc_pool(addr@));
                                assert(mid.btc[p].utxos == mid.btc_pool(addr@));
                            } else {
                                assert(m2.btc[k] == mid.btc[k]);
                            }
                        }
                    }
                    // the address pool grew by exactly the popped output
                    assert(mid.btc_pool(addr@) == pre.btc_pool(addr@));
                    assert(m2.btc_pool(addr@).drop_last() =~= pre.btc_pool(addr@));
                    assert(m2.btc_pool(addr@).last() == full[n - 1]);
                    assert(sum_values(m2.btc_pool(addr@)) == sum_values(pre.btc_pool(addr@))
                        + full[n - 1].value);
                    // conditional exact-append invariant
                    if none_present(m0, full) && ops_distinct(full) {
                        assert(pre.btc_pool(addr@) == m0.btc_pool(addr@) + full.skip(n).reverse());
                        assert(full.skip(n - 1).reverse() =~= full.skip(n).reverse().push(
                            full[n - 1],
                        ));
                        assert(m2.btc_pool(addr@) =~= m0.btc_pool(addr@) + full.skip(
                            n - 1,
                        ).reverse());
                        assert forall|k: int| 0 <= k < n - 1 implies !m2.has_op(
                            (#[trigger] full[k]).outpoint,
                        ) by {
                            assert(!pre.has_op(full[k].outpoint));
                            assert(full[k].outpoint != full[n - 1].outpoint);
                            if m2.btc_has_op(full[k].outpoint) {
                                assert(pre.btc_has_op(full[k].outpoint) || full[k].outpoint
                                    == uop);
                            }
                            if m2.runic_has_op(full[k].outpoint) {
                                let (k1, l1): (int, int) = choose|k1: int, l1: int|
                                    #![trigger m2.runic[k1].utxos[l1]]
                                    0 <= k1 < m2.runic.len() && 0 <= l1
                                        < m2.runic[k1].utxos.len() && m2.runic[k1].utxos[
                                        l1
                                    ].utxo.outpoint == full[k].outpoint;
                                assert(pre.runic[k1].utxos[l1].utxo.outpoint == full[k].outpoint);
                            }
                        }
                    }
                    if all_present(m0, full) {
                        assert(pre == m0);
                        assert(pre.has_op(uop));
                        assert(false);
                    }
                }
            } else {
                proof {
                    let m2 = self@;
                    assert(m2 == pre);
                    if none_present(m0, full) && ops_distinct(full) {
                        assert(!pre.has_op(full[n - 1].outpoint));
                        assert(false);
                    }
                    assert(sum_values(batch.deep_view()) <= sum_values(full.take(n)));
                }
            }
        }
        proof {
            assert(full.take(0) =~= Seq::<UtxoV>::empty());
            assert(full.skip(0) =~= full);
            if none_present(m0, full) && ops_distinct(full) {
                assert(self@.btc_pool(addr@) == m0.btc_pool(addr@) + full.reverse());
            }
        }
    }
}


/// No outpoint of the runic list is in a plain pool or in the named pool.
pub open spec fn none_rpresent(
    m: UtxoManagerV,
    addr: Seq<char>,
    rune: RuneId,
    s: Seq<RunicUtxoV>,
) -> bool {
    forall|k: int|
        0 <= k < s.len() ==> !m.btc_has_op((#[trigger] s[k]).utxo.outpoint) && !pool_has_rop(
            m.runic_pool(addr, rune),
            s[k].utxo.outpoint,
        )
}

/// Every outpoint of the runic list is in a plain pool or in the named pool.
pub open spec fn all_rpresent(
    m: UtxoManagerV,
    addr: Seq<char>,
    rune: RuneId,
    s: Seq<RunicUtxoV>,
) -> bool {
    forall|k: int|
        0 <= k < s.len() ==> m.btc_has_op((#[trigger] s[k]).utxo.outpoint) || pool_has_rop(
            m.runic_pool(addr, rune),
            s[k].utxo.outpoint,
        )
}

/// Whether the runic list holds an output with this outpoint.
pub open spec fn rbatch_has_op(s: Seq<RunicUtxoV>, op: OutPointV) -> bool {
    exists|k: int| 0 <= k < s.len() && (#[trigger] s[k]).utxo.outpoint == op
}

impl UtxoManager {
    fn ensure_runic_pool(&mut self, addr: &str, rune: &RuneId) -> (i: usize)
        requires
            old(self)@.wf(),
        ensures
            final(self)@.wf(),
            i < final(self)@.runic.len(),
            final(self)@.runic[i as int].addr == addr@,
            final(self)@.runic[i as int].rune == *rune,
            final(self)@.runic_idx(addr@, *rune) == i,
            final(self)@.has_runic(addr@, *rune),
            final(self)@.btc == old(self)@.btc,
            forall|a: Seq<char>, rid: RuneId|
                !(a == addr@ && rid == *rune) ==> #[trigger] final(self)@.runic_pool(a, rid)
                    == old(self)@.runic_pool(a, rid),
            final(self)@.runic_pool(addr@, *rune) == old(self)@.runic_pool(addr@, *rune),
            forall|op: OutPointV| #[trigger]
                final(self)@.runic_has_op(op) == old(self)@.runic_has_op(op),
    {
        match self.find_runic(addr, rune) {
            Some(i) => i,
            None => {
                let ghost m1 = self@;
                let pool = RunicPool {
                    addr: addr.to_owned(),
                    rune: RuneId { block: rune.block, tx: rune.tx },
                    utxos: Vec::new(),
                };
                proof {
                    assert(pool@.utxos =~= Seq::<RunicUtxoV>::empty());
                }
                self.runic.push(pool);
                let i = self.runic.len() - 1;
                proof {
                    let m2 = self@;
                    let pv = RunicPoolV { addr: addr@, rune: *rune, utxos: Seq::empty() };
                    assert(m2.runic =~= m1.runic.push(pv));
                    assert(m2.btc == m1.btc);
                    lemma_runic_frame_push(m1, m2, pv);
                    assert(m2.runic_pool(addr@, *rune) =~= m1.runic_pool(addr@, *rune));
                    assert forall|op: OutPointV| #[trigger] m2.runic_has_op(op)
                        == m1.runic_has_op(op) by {
                        if m2.runic_has_op(op) {
                            let (k, j): (int, int) = choose|k: int, j: int|
                                #![trigger m2.runic[k].utxos[j]]
                                0 <= k < m2.runic.len() && 0 <= j < m2.runic[k].utxos.len()
                                    && m2.runic[k].utxos[j].utxo.outpoint == op;
                            assert(k < m1.runic.len());
                            assert(m1.runic[k].utxos[j].utxo.outpoint == op);
                        }
                        if m1.runic_has_op(op) {
                            let (k, j): (int, int) = choose|k: int, j: int|
                                #![trigger m1.runic[k].utxos[j]]
                                0 <= k < m1.runic.len() && 0 <= j < m1.runic[k].utxos.len()
                                    && m1.runic[k].utxos[j].utxo.outpoint == op;
                            assert(m2.runic[k].utxos[j].utxo.outpoint == op);
                        }
                    }
                    assert forall|k: int, j: int|
                        #![trigger m2.runic[k].utxos[j]]
                        0 <= k < m2.runic.len() && 0 <= j
                            < m2.runic[k].utxos.len() implies m2.runic[k].utxos[j].wf() by {
                        if k < m1.runic.len() {
                            assert(m2.runic[k].utxos[j] == m1.runic[k].utxos[j]);
                        } else {
                            assert(m2.runic[k].utxos.len() == 0);
                        }
                    }
                    assert forall|i1: int, j1: int, l1: int|
                        #![trigger m2.runic[i1].utxos[j1], m2.runic[i1].utxos[l1]]
                        0 <= i1 < m2.runic.len() && 0 <= j1 < m2.runic[i1].utxos.len() && 0 <= l1
                            < m2.runic[i1].utxos.len() && j1 != l1 implies m2.runic[i1].utxos[
                        j1
                    ].utxo.outpoint != m2.runic[i1].utxos[l1].utxo.outpoint by {
                        assert(i1 < m1.runic.len());
                        assert(m2.runic[i1].utxos[j1] == m1.runic[i1].utxos[j1]);
                        assert(m2.runic[i1].utxos[l1] == m1.runic[i1].utxos[l1]);
                    }
                    assert forall|i1: int, j1: int, k1: int, l1: int|
                        #![trigger m2.btc[i1].utxos[j1], m2.runic[k1].utxos[l1]]
                        0 <= i1 < m2.btc.len() && 0 <= j1 < m2.btc[i1].utxos.len() && 0 <= k1
                            < m2.runic.len() && 0 <= l1 < m2.runic[k1].utxos.len() implies m2.btc[
                        i1
                    ].utxos[j1].outpoint != m2.runic[k1].utxos[l1].utxo.outpoint by {
                        assert(k1 < m1.runic.len());
                        assert(m2.runic[k1].utxos[l1] == m1.runic[k1].utxos[l1]);
                    }
                    assert forall|k: int| 0 <= k < m2.runic.len() implies sum_balances(
                        #[trigger] m2.runic[k].utxos,
                    ) <= u128::MAX && sum_runic_values(m2.runic[k].utxos) <= u64::MAX by {
                        if k < m1.runic.len() {
                            assert(m2.runic[k] == m1.runic[k]);
                        } else {
                            assert(m2.runic[k].utxos.len() == 0);
                        }
                    }
                    assert(m2.wf());
                }
                i
            },
        }
    }

    fn runic_pool_contains(&self, i: usize, op: &crate::types::OutPoint) -> (r: bool)
        requires
            i < self@.runic.len(),
        ensures
            r == pool_has_rop(self@.runic[i as int].utxos, op@),
    {
        let mut j: usize = 0;
        while j < self.runic[i].utxos.len()
            invariant
                i < self@.runic.len(),
                self@.runic.len() == self.runic@.len(),
                j <= self@.runic[i as int].utxos.len(),
                self@.runic[i as int].utxos.len() == self.runic@[i as int].utxos@.len(),
                forall|l: int|
                    0 <= l < j ==> (#[trigger] self@.runic[i as int].utxos[l]).utxo.outpoint
                        != op@,
            decreases self@.runic[i as int].utxos.len() - j,
        {
            if crate::types::outpoint_eq(&self.runic[i].utxos[j].utxo.outpoint, op) {
                proof {
                    assert(self@.runic[i as int].utxos[j as int].utxo.outpoint == op@);
                }
                return true;
            }
            j = j + 1;
        }
        proof {
            if pool_has_rop(self@.runic[i as int].utxos, op@) {
                let l = choose|l: int|
                    0 <= l < self@.runic[i as int].utxos.len() && (#[trigger] self@.runic[
                        i as int
                    ].utxos[l]).utxo.outpoint == op@;
                assert(self@.runic[i as int].utxos[l].utxo.outpoint != op@);
            }
        }
        false
    }

    /// Inserts runic outputs for the address and rune, skipping any whose
    /// outpoint is already held as plain bitcoin or already in that pool:
    /// re-submitted outpoints are deduplicated, and an output held as plain
    /// is never also held as runic.
    pub fn record_runic(&mut self, addr: &str, rune: &RuneId, utxos: Vec<RunicUtxo>)
        requires
            old(self)@.wf(),
            runic_wf_seq(utxos.deep_view()),
            sum_balances(old(self)@.runic_pool(addr@, *rune)) + sum_balances(utxos.deep_view())
                <= u128::MAX,
            sum_runic_values(old(self)@.runic_pool(addr@, *rune)) + sum_runic_values(
                utxos.deep_view(),
            ) <= u64::MAX,
        ensures
            final(self)@.wf(),
            final(self)@.btc == old(self)@.btc,
            forall|a: Seq<char>, rid: RuneId|
                !(a == addr@ && rid == *rune) ==> #[trigger] final(self)@.runic_pool(a, rid)
                    == old(self)@.runic_pool(a, rid),
            forall|op: OutPointV| #[trigger]
                final(self)@.runic_has_op(op) ==> old(self)@.runic_has_op(op) || rbatch_has_op(
                    utxos.deep_view(),
                    op,
                ),
            none_rpresent(old(self)@, addr@, *rune, utxos.deep_view()) && rops_distinct(
                utxos.deep_view(),
            ) ==> final(self)@.runic_pool(addr@, *rune) == old(self)@.runic_pool(addr@, *rune)
                + utxos.deep_view().reverse(),
            all_rpresent(old(self)@, addr@, *rune, utxos.deep_view()) ==> final(self)@ == old(
                self,
            )@,
    {
        let ghost m0 = self@;
        let ghost full = utxos.deep_view();
        let mut batch = utxos;
        proof {
            assert(batch.deep_view() =~= full.take(batch@.len() as int));
        }
        while batch.len() > 0
            invariant
                self@.wf(),
                batch@.len() <= full.len(),
                batch.deep_view() == full.take(batch@.len() as int),
                runic_wf_seq(full),
                self@.btc == m0.btc,
                forall|a: Seq<char>, rid: RuneId|
                    !(a == addr@ && rid == *rune) ==> #[trigger] self@.runic_pool(a, rid)
                        == m0.runic_pool(a, rid),
                forall|op: OutPointV| #[trigger]
                    self@.runic_has_op(op) ==> m0.runic_has_op(op) || rbatch_has_op(full, op),
                sum_balances(self@.runic_pool(addr@, *rune)) + sum_balances(batch.deep_view())
                    <= u128::MAX,
                sum_runic_values(self@.runic_pool(addr@, *rune)) + sum_runic_values(
                    batch.deep_view(),
                ) <= u64::MAX,
                none_rpresent(m0, addr@, *rune, full) && rops_distinct(full) ==> (
                self@.runic_pool(addr@, *rune) == m0.runic_pool(addr@, *rune) + full.skip(
                    batch@.len() as int,
                ).reverse() && forall|k: int|
                    0 <= k < batch@.len() ==> !self@.btc_has_op(
                        (#[trigger] full[k]).utxo.outpoint,
                    ) && !pool_has_rop(self@.runic_pool(addr@, *rune), full[k].utxo.outpoint)),
                all_rpresent(m0, addr@, *rune, full) ==> self@ == m0,
            decreases batch@.len(),
        {
            let ghost n = batch@.len() as int;
            let ghost pre = self@;
            let u = match batch.pop() {
                Some(u) => u,
                None => {
                    proof {
                        assert(false);
                    }
                    unreached()
                },
            };
            proof {
                assert(u@ == full[n - 1]);
                assert(batch.deep_view() =~= full.take(n - 1));
                assert(full.take(n).drop_last() =~= full.take(n - 1));
                assert(full.take(n).last() == full[n - 1]);
                assert(sum_balances(full.take(n)) == sum_balances(full.take(n - 1)) + u@.balance);
                assert(sum_runic_values(full.take(n)) == sum_runic_values(full.take(n - 1))
                    + u@.utxo.value);
            }
            let in_btc = self.btc_contains_op(&u.utxo.outpoint);
            let mut in_pool = false;
            if !in_btc {
                match self.find_runic(addr, rune) {
                    Some(pi) => {
                        in_pool = self.runic_pool_contains(pi, &u.utxo.outpoint);
                        proof {
                            lemma_runic_entry(self@, pi as int);
                            assert(in_pool == pool_has_rop(
                                self@.runic_pool(addr@, *rune),
                                u@.utxo.outpoint,
                            ));
                        }
                    },
                    None => {
                        proof {
                            assert(self@.runic_pool(addr@, *rune) =~= Seq::<RunicUtxoV>::empty());
                            assert(!pool_has_rop(
                                self@.runic_pool(addr@, *rune),
                                u@.utxo.outpoint,
                            ));
                        }
                    },
                }
            }
            if !in_btc && !in_pool {
                let ghost uop = u@.utxo.outpoint;
                let i = self.ensure_runic_pool(addr, rune);
                let ghost mid = self@;
                let mut pool = self.runic.remove(i);
                pool.utxos.push(u);
                self.runic.insert(i, pool);
                proof {
                    let m2 = self@;
                    let p = i as int;
                    assert(m2.runic.len() == mid.runic.len());
                    assert forall|k: int| 0 <= k < mid.runic.len() && k != p implies m2.runic[k]
                        == mid.runic[k] by {
                        assert(self.runic@[k] == old(self).runic@[k] || true);
                    }
                    assert(m2.runic[p].addr == mid.runic[p].addr);
                    assert(m2.runic[p].rune == mid.runic[p].rune);
                    assert(m2.runic[p].utxos =~= mid.runic[p].utxos.push(full[n - 1]));
                    assert(m2.btc == mid.btc);
                    lemma_runic_frame_update(mid, m2, p);
                    lemma_runic_entry(mid, p);
                    lemma_runic_entry(m2, p);
                    assert(m2.runic_pool(addr@, *rune) == mid.runic_pool(addr@, *rune).push(
                        full[n - 1],
                    ));
                    assert forall|op: OutPointV| #[trigger] m2.runic_has_op(op) implies
                        mid.runic_has_op(op) || op == uop by {
                        let (k, j): (int, int) = choose|k: int, j: int|
                            #![trigger m2.runic[k].utxos[j]]
                            0 <= k < m2.runic.len() && 0 <= j < m2.runic[k].utxos.len()
                                && m2.runic[k].utxos[j].utxo.outpoint == op;
                        if k != p || j < mid.runic[p].utxos.len() {
                            assert(mid.runic[k].utxos[j].utxo.outpoint == op);
                        }
                    }
                    assert forall|k: int, j: int|
                        #![trigger m2.runic[k].utxos[j]]
                        0 <= k < m2.runic.len() && 0 <= j
                            < m2.runic[k].utxos.len() implies m2.runic[k].utxos[j].wf() by {
                        if k != p || j < mid.runic[p].utxos.len() {
                            assert(m2.runic[k].utxos[j] == mid.runic[k].utxos[j]);
                        } else {
                            assert(m2.runic[k].utxos[j] == full[n - 1]);
                        }
                    }
                    assert forall|i1: int, j1: int, l1: int|
                        #![trigger m2.runic[i1].utxos[j1], m2.runic[i1].utxos[l1]]
                        0 <= i1 < m2.runic.len() && 0 <= j1 < m2.runic[i1].utxos.len() && 0 <= l1
                            < m2.runic[i1].utxos.len() && j1 != l1 implies m2.runic[i1].utxos[
                        j1
                    ].utxo.outpoint != m2.runic[i1].utxos[l1].utxo.outpoint by {
                        let fresh1 = i1 == p && j1 == mid.runic[p].utxos.len();
                        let fresh2 = i1 == p && l1 == mid.runic[p].utxos.len();
                        if fresh1 && !fresh2 {
                            assert(m2.runic[i1].utxos[l1] == mid.runic[i1].utxos[l1]);
                            if mid.runic[p].utxos[l1].utxo.outpoint == uop {
                                assert(pool_has_rop(mid.runic_pool(addr@, *rune), uop));
                                assert(pool_has_rop(pre.runic_pool(addr@, *rune), uop));
                                assert(false);
                            }
                        } else if !fresh1 && fresh2 {
                            assert(m2.runic[i1].utxos[j1] == mid.runic[i1].utxos[j1]);
                            if mid.runic[p].utxos[j1].utxo.outpoint == uop {
                                assert(pool_has_rop(mid.runic_pool(addr@, *rune), uop));
                                assert(pool_has_rop(pre.runic_pool(addr@, *rune), uop));
                                assert(false);
                            }
                        } else if !fresh1 && !fresh2 {
                            assert(m2.runic[i1].utxos[j1] == mid.runic[i1].utxos[j1]);
                            assert(m2.runic[i1].utxos[l1] == mid.runic[i1].utxos[l1]);
                        }
                    }
                    assert forall|i1: int, j1: int, k1: int, l1: int|
                        #![trigger m2.btc[i1].utxos[j1], m2.runic[k1].utxos[l1]]
                        0 <= i1 < m2.btc.len() && 0 <= j1 < m2.btc[i1].utxos.len() && 0 <= k1
                            < m2.runic.len() && 0 <= l1 < m2.runic[k1].utxos.len() implies m2.btc[
                        i1
                    ].utxos[j1].outpoint != m2.runic[k1].utxos[l1].utxo.outpoint by {
                        assert(m2.btc[i1].utxos[j1] == mid.btc[i1].utxos[j1]);
                        if k1 == p && l1 == mid.runic[p].utxos.len() {
                            if mid.btc[i1].utxos[j1].outpoint == uop {
                                assert(pre.btc[i1].utxos[j1].outpoint == uop);
                                assert(pre.btc_has_op(uop));
                                assert(false);
                            }
                        } else {
                            assert(m2.runic[k1].utxos[l1] == mid.runic[k1].utxos[l1]);
                        }
                    }
                    assert forall|k: int| 0 <= k < m2.runic.len() implies sum_balances(
                        #[trigger] m2.runic[k].utxos,
                    ) <= u128::MAX && sum_runic_values(m2.runic[k].utxos) <= u64::MAX by {
                        if k == p {
                            lemma_sum_balances_nonneg(batch.deep_view());
                            lemma_sum_runic_values_nonneg(batch.deep_view());
                            assert(m2.runic[p].utxos.drop_last() =~= mid.runic[p].utxos);
                            assert(m2.runic[p].utxos.last() == full[n - 1]);
                            assert(sum_balances(m2.runic[p].utxos) == sum_balances(
                                mid.runic[p].utxos,
                            ) + full[n - 1].balance);
                            assert(sum_runic_values(m2.runic[p].utxos) == sum_runic_values(
                                mid.runic[p].utxos,
                            ) + full[n - 1].utxo.value);
                            assert(mid.runic_pool(addr@, *rune) == pre.runic_pool(addr@, *rune));
                            assert(mid.runic[p].utxos == mid.runic_pool(addr@, *rune));
                        } else {
                            assert(m2.runic[k] == mid.runic[k]);
                        }
                    }
                    assert(m2.wf());
                    assert(mid.runic_pool(addr@, *rune) == pre.runic_pool(addr@, *rune));
                    assert(m2.runic_pool(addr@, *rune).drop_last() =~= pre.runic_pool(
                        addr@,
                        *rune,
                    ));
                    assert(m2.runic_pool(addr@, *rune).last() == full[n - 1]);
                    assert(sum_balances(m2.runic_pool(addr@, *rune)) == sum_balances(
                        pre.runic_pool(addr@, *rune),
                    ) + full[n - 1].balance);
                    assert(sum_runic_values(m2.runic_pool(addr@, *rune)) == sum_runic_values(
                        pre.runic_pool(addr@, *rune),
                    ) + full[n - 1].utxo.value);
                    if none_rpresent(m0, addr@, *rune, full) && rops_distinct(full) {
                        assert(pre.runic_pool(addr@, *rune) == m0.runic_pool(addr@, *rune)
                            + full.skip(n).reverse());
                        assert(full.skip(n - 1).reverse() =~= full.skip(n).reverse().push(
                            full[n - 1],
                        ));
                        assert(m2.runic_pool(addr@, *rune) =~= m0.runic_pool(addr@, *rune)
                            + full.skip(n - 1).reverse());
                        assert forall|k: int| 0 <= k < n - 1 implies !m2.btc_has_op(
                            (#[trigger] full[k]).utxo.outpoint,
                        ) && !pool_has_rop(
                            m2.runic_pool(addr@, *rune),
                            full[k].utxo.outpoint,
                        ) by {
                            assert(!pre.btc_has_op(full[k].utxo.outpoint));
                            assert(!pool_has_rop(
                                pre.runic_pool(addr@, *rune),
                                full[k].utxo.outpoint,
                            ));
                            assert(full[k].utxo.outpoint != full[n - 1].utxo.outpoint);
                            if m2.btc_has_op(full[k].utxo.outpoint) {
                                let (k1, l1): (int, int) = choose|k1: int, l1: int|
                                    #![trigger m2.btc[k1].utxos[l1]]
                                    0 <= k1 < m2.btc.len() && 0 <= l1 < m2.btc[k1].utxos.len()
                                        && m2.btc[k1].utxos[l1].outpoint == full[
                                        k
                                    ].utxo.outpoint;
                                assert(pre.btc[k1].utxos[l1].outpoint == full[k].utxo.outpoint);
                                assert(pre.btc_has_op(full[k].utxo.outpoint));
                            }
                            if pool_has_rop(m2.runic_pool(addr@, *rune), full[k].utxo.outpoint) {
                                let l = choose|l: int|
                                    0 <= l < m2.runic_pool(addr@, *rune).len() && (
                                    #[trigger] m2.runic_pool(addr@, *rune)[l]).utxo.outpoint
                                        == full[k].utxo.outpoint;
                                if l < pre.runic_pool(addr@, *rune).len() {
                                    assert(pool_has_rop(
                                        pre.runic_pool(addr@, *rune),
                                        full[k].utxo.outpoint,
                                    ));
                                } else {
                                    assert(m2.runic_pool(addr@, *rune)[l] == full[n - 1]);
                                }
                            }
                        }
                    }
                    if all_rpresent(m0, addr@, *rune, full) {
                        assert(pre == m0);
                        assert(m0.btc_has_op(uop) || pool_has_rop(
                            m0.runic_pool(addr@, *rune),
                            uop,
                        ));
                        assert(false);
                    }
                }
            } else {
                proof {
                    let m2 = self@;
                    assert(m2 == pre);
                    if none_rpresent(m0, addr@, *rune, full) && rops_distinct(full) {
                        assert(!pre.btc_has_op(full[n - 1].utxo.outpoint) && !pool_has_rop(
                            pre.runic_pool(addr@, *rune),
                            full[n - 1].utxo.outpoint,
                        ));
                        assert(false);
                    }
                    lemma_sum_balances_nonneg(batch.deep_view());
                    lemma_sum_runic_values_nonneg(batch.deep_view());
                    assert(sum_balances(batch.deep_view()) <= sum_balances(full.take(n)));
                    assert(sum_runic_values(batch.deep_view()) <= sum_runic_values(full.take(n)));
                }
            }
        }
        proof {
            assert(full.take(0) =~= Seq::<RunicUtxoV>::empty());
            assert(full.skip(0) =~= full);
            if none_rpresent(m0, addr@, *rune, full) && rops_distinct(full) {
                assert(self@.runic_pool(addr@, *rune) == m0.runic_pool(addr@, *rune)
                    + full.reverse());
            }
        }
    }
}


/// Splitting a runic list splits its balance sum.
pub proof fn lemma_sum_balances_split(s: Seq<RunicUtxoV>, i: int)
    requires
        0 <= i <= s.len(),
    ensures
        sum_balances(s) == sum_balances(s.take(i)) + sum_balances(s.skip(i)),
    decreases s.len() - i,
{
    if i == s.len() {
        assert(s.take(i) =~= s);
        assert(s.skip(i) =~= Seq::<RunicUtxoV>::empty());
    } else {
        lemma_sum_balances_split(s.drop_last(), i);
        assert(s.drop_last().take(i) =~= s.take(i));
        assert(s.drop_last().skip(i) =~= s.skip(i).drop_last());
        assert(s.skip(i).last() == s.last());
        assert(s.skip(i).len() > 0);
    }
}

impl UtxoManager {
    /// The total satoshi value of the address's plain pool.
    pub fn balance_bitcoin(&self, addr: &str) -> (r: u64)
        requires
            self@.wf(),
        ensures
            r == sum_values(self@.btc_pool(addr@)),
    {
        let idx = match self.find_btc(addr) {
            None => {
                proof {
                    assert(self@.btc_pool(addr@) =~= Seq::<UtxoV>::empty());
                }
                return 0;
            },
            Some(i) => i,
        };
        let ghost pool = self@.btc_pool(addr@);
        let mut total: u64 = 0;
        let mut i: usize = 0;
        while i < self.btc[idx].utxos.len()
            invariant
                self@.wf(),
                idx < self@.btc.len(),
                self@.btc.len() == self.btc@.len(),
                self@.btc_idx(addr@) == idx,
                self@.has_btc(addr@),
                self@.btc[idx as int].addr == addr@,
                pool == self@.btc_pool(addr@),
                pool == self@.btc[idx as int].utxos,
                self@.btc[idx as int].utxos.len() == self.btc@[idx as int].utxos@.len(),
                i <= pool.len(),
                total == sum_values(pool.take(i as int)),
            decreases pool.len() - i,
        {
            proof {
                lemma_sum_values_split(pool, i + 1);
                lemma_sum_values_nonneg(pool.skip(i + 1));
                lemma_sum_values_nonneg(pool.take(i as int));
                assert(pool.take(i + 1).drop_last() =~= pool.take(i as int));
                assert(pool.take(i + 1).last() == pool[i as int]);
                assert(sum_values(pool.take(i + 1)) == total + pool[i as int].value);
                assert(sum_values(pool) <= u64::MAX);
            }
            total = total + self.btc[idx].utxos[i].value;
            i = i + 1;
        }
        proof {
            assert(pool.take(pool.len() as int) =~= pool);
        }
        total
    }

    /// The total balance of the rune held for the address.
    pub fn balance_rune(&self, addr: &str, rune: &RuneId) -> (r: u128)
        requires
            self@.wf(),
        ensures
            r == sum_balances(self@.runic_pool(addr@, *rune)),
    {
        let idx = match self.find_runic(addr, rune) {
            None => {
                proof {
                    assert(self@.runic_pool(addr@, *rune) =~= Seq::<RunicUtxoV>::empty());
                }
                return 0;
            },
            Some(i) => i,
        };
        let ghost pool = self@.runic_pool(addr@, *rune);
        let mut total: u128 = 0;
        let mut i: usize = 0;
        while i < self.runic[idx].utxos.len()
            invariant
                self@.wf(),
                idx < self@.runic.len(),
                self@.runic.len() == self.runic@.len(),
                self@.runic_idx(addr@, *rune) == idx,
                self@.has_runic(addr@, *rune),
                self@.runic[idx as int].addr == addr@,
                self@.runic[idx as int].rune == *rune,
                pool == self@.runic_pool(addr@, *rune),
                pool == self@.runic[idx as int].utxos,
                self@.runic[idx as int].utxos.len() == self.runic@[idx as int].utxos@.len(),
                i <= pool.len(),
                total == sum_balances(pool.take(i as int)),
            decreases pool.len() - i,
        {
            proof {
                lemma_sum_balances_split(pool, i + 1);
                lemma_sum_balances_nonneg(pool.skip(i + 1));
                lemma_sum_balances_nonneg(pool.take(i as int));
                assert(pool.take(i + 1).drop_last() =~= pool.take(i as int));
                assert(pool.take(i + 1).last() == pool[i as int]);
                assert(sum_balances(pool.take(i + 1)) == total + pool[i as int].balance);
                assert(sum_balances(pool) <= u128::MAX);
            }
            total = total + self.runic[idx].utxos[i].balance;
            i = i + 1;
        }
        proof {
            assert(pool.take(pool.len() as int) =~= pool);
        }
        total
    }

    /// Every rune held for the address, with the total balance of each.
    #[verifier::rlimit(50)]
    pub fn all_runes_with_balances(&self, addr: &str) -> (r: Vec<(RuneId, u128)>)
        requires
            self@.wf(),
        ensures
            forall|k: int|
                0 <= k < r@.len() ==> self@.has_runic(addr@, (#[trigger] r@[k]).0) && r@[k].1
                    == sum_balances(self@.runic_pool(addr@, r@[k].0)),
            forall|rid: RuneId| #[trigger] self@.has_runic(addr@, rid) ==> rune_listed(r@, rid),
            forall|k: int, l: int| 0 <= k < l < r@.len() ==> (#[trigger] r@[k]).0 != (
            #[trigger] r@[l]).0,
    {
        let mut r: Vec<(RuneId, u128)> = Vec::new();
        let mut i: usize = 0;
        while i < self.runic.len()
            invariant
                self@.wf(),
                i <= self@.runic.len(),
                self@.runic.len() == self.runic@.len(),
                forall|k: int|
                    0 <= k < r@.len() ==> self@.has_runic(addr@, (#[trigger] r@[k]).0) && r@[k].1
                        == sum_balances(self@.runic_pool(addr@, r@[k].0)),
                forall|w: int|
                    0 <= w < i && (#[trigger] self@.runic[w]).addr == addr@ ==> rune_listed(
                        r@,
                        self@.runic[w].rune,
                    ),
                forall|k: int|
                    0 <= k < r@.len() ==> rune_from_scanned(
                        self@,
                        addr@,
                        i as int,
                        (#[trigger] r@[k]).0,
                    ),
                forall|k: int, l: int|
                    0 <= k < l < r@.len() ==> (#[trigger] r@[k]).0 != (#[trigger] r@[l]).0,
            decreases self@.runic.len() - i,
        {
            let ghost old_r = r@;
            if str_eq(self.runic[i].addr.as_str(), addr) {
                proof {
                    lemma_runic_entry(self@, i as int);
                }
                let rune = RuneId { block: self.runic[i].rune.block, tx: self.runic[i].rune.tx };
                proof {
                    assert(rune == self@.runic[i as int].rune);
                }
                let bal = self.balance_rune(addr, &rune);
                r.push((rune, bal));
                proof {
                    assert(r@[old_r.len() as int].0 == rune);
                    assert(rune_listed(r@, rune));
                    assert forall|w: int|
                        0 <= w < i + 1 && (#[trigger] self@.runic[w]).addr
                            == addr@ implies rune_listed(r@, self@.runic[w].rune) by {
                        if w < i {
                            assert(rune_listed(old_r, self@.runic[w].rune));
                            let k0 = choose|k: int|
                                0 <= k < old_r.len() && (#[trigger] old_r[k]).0 == self@.runic[
                                    w
                                ].rune;
                            assert(r@[k0].0 == self@.runic[w].rune);
                        }
                    }
                    assert forall|k: int| 0 <= k < r@.len() implies rune_from_scanned(
                        self@,
                        addr@,
                        i + 1,
                        (#[trigger] r@[k]).0,
                    ) by {
                        if k < old_r.len() {
                            assert(r@[k] == old_r[k]);
                            assert(rune_from_scanned(self@, addr@, i as int, old_r[k].0));
                            let w0 = choose|w: int|
                                0 <= w < i && (#[trigger] self@.runic[w]).addr == addr@
                                    && self@.runic[w].rune == old_r[k].0;
                            assert(0 <= w0 < i + 1 && self@.runic[w0].addr == addr@
                                && self@.runic[w0].rune == r@[k].0);
                        } else {
                            assert(self@.runic[i as int].addr == addr@ && self@.runic[
                                i as int
                            ].rune == r@[k].0);
                        }
                    }
                    assert forall|k: int, l: int| 0 <= k < l < r@.len() implies (
                    #[trigger] r@[k]).0 != (#[trigger] r@[l]).0 by {
                        if l == old_r.len() {
                            assert(rune_from_scanned(self@, addr@, i as int, old_r[k].0));
                            let w = choose|w: int|
                                0 <= w < i && (#[trigger] self@.runic[w]).addr == addr@
                                    && self@.runic[w].rune == old_r[k].0;
                            if r@[k].0 == rune {
                                assert(!(self@.runic[w].addr == self@.runic[i as int].addr
                                    && self@.runic[w].rune == self@.runic[i as int].rune));
                            }
                        }
                    }
                }
            } else {
                proof {
                    assert(self@.runic[i as int].addr != addr@);
                    assert forall|k: int| 0 <= k < r@.len() implies rune_from_scanned(
                        self@,
                        addr@,
                        i + 1,
                        (#[trigger] r@[k]).0,
                    ) by {
                        assert(rune_from_scanned(self@, addr@, i as int, r@[k].0));
                        let w0 = choose|w: int|
                            0 <= w < i && (#[trigger] self@.runic[w]).addr == addr@
                                && self@.runic[w].rune == r@[k].0;
                        assert(0 <= w0 < i + 1 && self@.runic[w0].addr == addr@ && self@.runic[
                            w0
                        ].rune == r@[k].0);
                    }
                }
            }
            i = i + 1;
        }
        proof {
            assert forall|rid: RuneId| #[trigger] self@.has_runic(addr@, rid) implies rune_listed(
                r@,
                rid,
            ) by {
                let w = self@.runic_idx(addr@, rid);
                assert(0 <= w < self@.runic.len() && self@.runic[w].addr == addr@
                    && self@.runic[w].rune == rid);
            }
        }
        r
    }
}

/// Whether the listing holds an entry for the rune.
pub open spec fn rune_listed(r: Seq<(RuneId, u128)>, rid: RuneId) -> bool {
    exists|k: int| 0 <= k < r.len() && (#[trigger] r[k]).0 == rid
}

/// Whether one of the first `i` runic pools is keyed by the address and
/// rune.
pub open spec fn rune_from_scanned(m: UtxoManagerV, addr: Seq<char>, i: int, rid: RuneId) -> bool {
    exists|w: int|
        0 <= w < i && (#[trigger] m.runic[w]).addr == addr && m.runic[w].rune == rid
}




/// A well-formed manager's plain pool total fits a u64.
pub proof fn lemma_btc_pool_sum_bounded(m: UtxoManagerV, a: Seq<char>)
    requires
        m.wf(),
    ensures
        0 <= sum_values(m.btc_pool(a)) <= u64::MAX,
{
    lemma_sum_values_nonneg(m.btc_pool(a));
    if m.has_btc(a) {
        lemma_btc_entry(m, m.btc_idx(a));
    } else {
        assert(m.btc_pool(a) =~= Seq::<UtxoV>::empty());
    }
}

/// A well-formed manager's runic pool totals fit their machine integers.
pub proof fn lemma_runic_pool_sums_bounded(m: UtxoManagerV, a: Seq<char>, rid: RuneId)
    requires
        m.wf(),
    ensures
        0 <= sum_balances(m.runic_pool(a, rid)) <= u128::MAX,
        0 <= sum_runic_values(m.runic_pool(a, rid)) <= u64::MAX,
{
    lemma_sum_balances_nonneg(m.runic_pool(a, rid));
    lemma_sum_runic_values_nonneg(m.runic_pool(a, rid));
    if m.has_runic(a, rid) {
        lemma_runic_entry(m, m.runic_idx(a, rid));
    } else {
        assert(m.runic_pool(a, rid) =~= Seq::<RunicUtxoV>::empty());
    }
}


/// Splitting a runic list splits its carried-value sum.
pub proof fn lemma_sum_runic_values_split(s: Seq<RunicUtxoV>, i: int)
    requires
        0 <= i <= s.len(),
    ensures
        sum_runic_values(s) == sum_runic_values(s.take(i)) + sum_runic_values(s.skip(i)),
    decreases s.len() - i,
{
    if i == s.len() {
        assert(s.take(i) =~= s);
        assert(s.skip(i) =~= Seq::<RunicUtxoV>::empty());
    } else {
        lemma_sum_runic_values_split(s.drop_last(), i);
        assert(s.drop_last().take(i) =~= s.take(i));
        assert(s.drop_last().skip(i) =~= s.skip(i).drop_last());
        assert(s.skip(i).last() == s.last());
        assert(s.skip(i).len() > 0);
    }
}

impl UtxoManager {
    /// The satoshi value carried inside the address's runic pool for a rune.
    pub fn carried_value(&self, addr: &str, rune: &RuneId) -> (r: u64)
        requires
            self@.wf(),
        ensures
            r == sum_runic_values(self@.runic_pool(addr@, *rune)),
    {
        let idx = match self.find_runic(addr, rune) {
            None => {
                proof {
                    assert(self@.runic_pool(addr@, *rune) =~= Seq::<RunicUtxoV>::empty());
                }
                return 0;
            },
            Some(i) => i,
        };
        let ghost pool = self@.runic_pool(addr@, *rune);
        let mut total: u64 = 0;
        let mut i: usize = 0;
        while i < self.runic[idx].utxos.len()
            invariant
                self@.wf(),
                idx < self@.runic.len(),
                self@.runic.len() == self.runic@.len(),
                self@.runic_idx(addr@, *rune) == idx,
                self@.has_runic(addr@, *rune),
                self@.runic[idx as int].addr == addr@,
                self@.runic[idx as int].rune == *rune,
                pool == self@.runic_pool(addr@, *rune),
                pool == self@.runic[idx as int].utxos,
                self@.runic[idx as int].utxos.len() == self.runic@[idx as int].utxos@.len(),
                i <= pool.len(),
                total == sum_runic_values(pool.take(i as int)),
            decreases pool.len() - i,
        {
            proof {
                lemma_sum_runic_values_split(pool, i + 1);
                lemma_sum_runic_values_nonneg(pool.skip(i + 1));
                lemma_sum_runic_values_nonneg(pool.take(i as int));
                assert(pool.take(i + 1).drop_last() =~= pool.take(i as int));
                assert(pool.take(i + 1).last() == pool[i as int]);
                assert(sum_runic_values(pool.take(i + 1)) == total + pool[i as int].utxo.value);
                assert(sum_runic_values(pool) <= u64::MAX);
            }
            total = total + self.runic[idx].utxos[i].utxo.value;
            i = i + 1;
        }
        proof {
            assert(pool.take(pool.len() as int) =~= pool);
        }
        total
    }
}

} // verus!







