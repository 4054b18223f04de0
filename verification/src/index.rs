use vstd::prelude::*;

use crate::encoding::hex_decode;
use crate::types::{bytes_eq, copy_bytes, OutPoint, RuneId};

verus! {

/// The block height at which rune indexing starts: the last block before
/// runes activate.
pub const FIRST_HEIGHT: u32 = 839999;

/// The halving interval of the block subsidy, in blocks.
pub const SUBSIDY_HALVING_INTERVAL: u64 = 210000;

/// A rune's name with its spacer bits.
#[derive(Clone, Copy, PartialEq, Eq, Structural, Debug)]
pub struct SpacedRune {
    pub rune: u128,
    pub spacers: u32,
}

/// The minting terms of a rune.
#[derive(Clone, Copy, PartialEq, Eq, Structural, Debug)]
pub struct Terms {
    pub amount: Option<u128>,
    pub cap: Option<u128>,
    pub height_start: Option<u64>,
    pub height_end: Option<u64>,
    pub offset_start: Option<u64>,
    pub offset_end: Option<u64>,
}

/// Everything the index records about a rune.
pub struct RuneEntry {
    pub block: u64,
    pub burned: u128,
    pub divisibility: u8,
    pub etching: Vec<u8>,
    pub terms: Option<Terms>,
    pub mints: u128,
    pub premine: u128,
    pub spaced_rune: SpacedRune,
    pub symbol: Option<char>,
    pub timestamp: u64,
    pub turbo: bool,
}

/// A rune balance attached to an output.
#[derive(Clone, Copy, PartialEq, Eq, Structural, Debug)]
pub struct RuneBalance {
    pub id: RuneId,
    pub balance: u128,
}

/// An amount of a rune as displayed: the raw amount with the rune's
/// divisibility and symbol.
#[derive(Clone, Copy, PartialEq, Eq, Structural, Debug)]
pub struct Pile {
    pub amount: u128,
    pub divisibility: u8,
    pub symbol: Option<char>,
}

/// The rune index: the height it has reached and its lookup tables, held
/// as association lists keyed by rune, rune id, etching transaction and
/// outpoint.
pub struct RuneIndex {
    pub height: u32,
    pub block_hash: Vec<u8>,
    pub rune_to_id: Vec<(u128, RuneId)>,
    pub id_to_entry: Vec<(RuneId, RuneEntry)>,
    pub tx_to_rune: Vec<(Vec<u8>, u128)>,
    pub outpoint_balances: Vec<(OutPoint, Vec<RuneBalance>)>,
}

/// Whether a rune has an id in the table.
pub open spec fn rune_known(r2i: Seq<(u128, RuneId)>, rune: u128) -> bool {
    exists|j: int| 0 <= j < r2i.len() && (#[trigger] r2i[j]).0 == rune
}

/// Whether a rune id has an entry in the table.
pub open spec fn id_known(i2e: Seq<(RuneId, RuneEntry)>, id: RuneId) -> bool {
    exists|k: int| 0 <= k < i2e.len() && (#[trigger] i2e[k]).0 == id
}

/// Every rune reachable from a lookup resolves: a rune found by etching
/// transaction has an id, and every id in use has an entry.
pub open spec fn tables_wf(
    r2i: Seq<(u128, RuneId)>,
    i2e: Seq<(RuneId, RuneEntry)>,
    t2r: Seq<(Vec<u8>, u128)>,
    ob: Seq<(OutPoint, Vec<RuneBalance>)>,
) -> bool {
    &&& forall|i: int| 0 <= i < t2r.len() ==> rune_known(r2i, (#[trigger] t2r[i]).1)
    &&& forall|j: int| 0 <= j < r2i.len() ==> id_known(i2e, (#[trigger] r2i[j]).1)
    &&& forall|i: int, j: int|
        0 <= i < ob.len() && 0 <= j < ob[i].1@.len() ==> id_known(
            i2e,
            (#[trigger] ob[i].1@[j]).id,
        )
}

impl RuneIndex {
    /// Every rune reachable from a lookup resolves.
    pub open spec fn wf(self) -> bool {
        tables_wf(self.rune_to_id@, self.id_to_entry@, self.tx_to_rune@, self.outpoint_balances@)
    }

    /// An empty index, not yet anchored to a block.
    pub fn new() -> (r: RuneIndex)
        ensures
            r.wf(),
            r.height == 0,
            r.rune_to_id@.len() == 0,
            r.id_to_entry@.len() == 0,
            r.tx_to_rune@.len() == 0,
            r.outpoint_balances@.len() == 0,
    {
        RuneIndex {
            height: 0,
            block_hash: Vec::new(),
            rune_to_id: Vec::new(),
            id_to_entry: Vec::new(),
            tx_to_rune: Vec::new(),
            outpoint_balances: Vec::new(),
        }
    }
}

/// Whether a string spells a block hash: sixty-four lower-case hexadecimal
/// digits.
pub open spec fn spec_block_hash_text(s: Seq<char>) -> bool {
    s.len() == 64 && forall|i: int| 0 <= i < s.len() ==> crate::encoding::is_hex_char(
        #[trigger] s[i],
    )
}

/// Anchors the index at the starting height with the given block hash,
/// written as sixty-four hexadecimal digits; anchoring succeeds exactly on
/// such strings.
pub fn set_beginning_block(index: &mut RuneIndex, hash: &str) -> (ok: bool)
    ensures
        ok == spec_block_hash_text(hash@),
        ok ==> final(index).height == FIRST_HEIGHT && final(index).block_hash@.len() == 32
            && crate::encoding::hex_of(final(index).block_hash@) == hash@,
        final(index).rune_to_id@ == old(index).rune_to_id@,
        final(index).id_to_entry@ == old(index).id_to_entry@,
        final(index).tx_to_rune@ == old(index).tx_to_rune@,
        final(index).outpoint_balances@ == old(index).outpoint_balances@,
        !ok ==> final(index).height == old(index).height && final(index).block_hash@ == old(
            index,
        ).block_hash@,
{
    match hex_decode(hash) {
        Option::Some(v) => {
            if v.len() == 32 {
                index.height = FIRST_HEIGHT;
                index.block_hash = v;
                true
            } else {
                false
            }
        },
        Option::None => {
            proof {
                if spec_block_hash_text(hash@) {
                    let i = choose|i: int|
                        0 <= i < hash@.len() && !crate::encoding::is_hex_char(
                            #[trigger] hash@[i],
                        );
                    assert(crate::encoding::is_hex_char(hash@[i]));
                }
            }
            false
        },
    }
}

/// The genesis rune's name value.
pub const GENESIS_RUNE: u128 = 2055900680524219742;

/// Seeds the index with its genesis rune: anchors the starting block, then
/// records the rune under id block 1, transaction 0, with an all-zero
/// etching transaction, minting terms over the fourth halving epoch, and
/// its display symbol.
pub fn init_rune(index: &mut RuneIndex, hash: &str) -> (ok: bool)
    requires
        old(index).wf(),
    ensures
        final(index).wf(),
        ok == spec_block_hash_text(hash@),
        ok ==> {
            &&& final(index).height == FIRST_HEIGHT
            &&& final(index).rune_to_id@ == old(index).rune_to_id@.push(
                (GENESIS_RUNE, RuneId { block: 1, tx: 0 }),
            )
            &&& final(index).id_to_entry@.len() == old(index).id_to_entry@.len() + 1
            &&& final(index).id_to_entry@.last().0 == (RuneId { block: 1, tx: 0 })
            &&& final(index).id_to_entry@.last().1.block == 1
            &&& final(index).id_to_entry@.last().1.spaced_rune == (SpacedRune {
                rune: GENESIS_RUNE,
                spacers: 128,
            })
            &&& final(index).id_to_entry@.last().1.terms == Some(
                Terms {
                    amount: Some(1u128),
                    cap: Some(u128::MAX),
                    height_start: Some((SUBSIDY_HALVING_INTERVAL * 4) as u64),
                    height_end: Some((SUBSIDY_HALVING_INTERVAL * 5) as u64),
                    offset_start: None,
                    offset_end: None,
                },
            )
            &&& final(index).id_to_entry@.last().1.etching@ == Seq::new(32, |i: int| 0u8)
            &&& final(index).id_to_entry@.last().1.burned == 0
            &&& final(index).id_to_entry@.last().1.divisibility == 0
            &&& final(index).id_to_entry@.last().1.mints == 0
            &&& final(index).id_to_entry@.last().1.premine == 0
            &&& final(index).id_to_entry@.last().1.symbol == Some('\u{29C9}')
            &&& final(index).id_to_entry@.last().1.timestamp == 0
            &&& final(index).id_to_entry@.last().1.turbo == true
            &&& final(index).tx_to_rune@.len() == old(index).tx_to_rune@.len() + 1
            &&& final(index).tx_to_rune@.last().0@ == Seq::new(32, |i: int| 0u8)
            &&& final(index).tx_to_rune@.last().1 == GENESIS_RUNE
        },
        !ok ==> final(index).rune_to_id@ == old(index).rune_to_id@ && final(index).id_to_entry@
            == old(index).id_to_entry@ && final(index).tx_to_rune@ == old(index).tx_to_rune@,
{
    if !set_beginning_block(index, hash) {
        return false;
    }
    let id = RuneId { block: 1, tx: 0 };
    let mut etching: Vec<u8> = Vec::new();
    let mut i: usize = 0;
    while i < 32
        invariant
            i <= 32,
            etching@ =~= Seq::new(i as nat, |j: int| 0u8),
        decreases 32 - i,
    {
        etching.push(0);
        proof {
            assert(etching@ =~= Seq::new((i + 1) as nat, |j: int| 0u8));
        }
        i = i + 1;
    }
    let ghost pre = *index;
    index.rune_to_id.push((GENESIS_RUNE, id));
    let entry = RuneEntry {
        block: 1,
        burned: 0,
        divisibility: 0,
        etching: copy_bytes(&etching),
        terms: Some(
            Terms {
                amount: Some(1),
                cap: Some(u128::MAX),
                height_start: Some(SUBSIDY_HALVING_INTERVAL * 4),
                height_end: Some(SUBSIDY_HALVING_INTERVAL * 5),
                offset_start: None,
                offset_end: None,
            },
        ),
        mints: 0,
        premine: 0,
        spaced_rune: SpacedRune { rune: GENESIS_RUNE, spacers: 128 },
        symbol: Some('\u{29C9}'),
        timestamp: 0,
        turbo: true,
    };
    index.id_to_entry.push((id, entry));
    index.tx_to_rune.push((etching, GENESIS_RUNE));
    proof {
        let r2i = index.rune_to_id@;
        let i2e = index.id_to_entry@;
        let t2r = index.tx_to_rune@;
        let ob = index.outpoint_balances@;
        assert(i2e[pre.id_to_entry@.len() as int].0 == id);
        assert(id_known(i2e, id));
        assert(r2i[pre.rune_to_id@.len() as int].0 == GENESIS_RUNE);
        assert(rune_known(r2i, GENESIS_RUNE));
        assert forall|i1: int| 0 <= i1 < t2r.len() implies rune_known(
            r2i,
            (#[trigger] t2r[i1]).1,
        ) by {
            if i1 < pre.tx_to_rune@.len() {
                assert(rune_known(pre.rune_to_id@, pre.tx_to_rune@[i1].1));
                let j0 = choose|j: int|
                    0 <= j < pre.rune_to_id@.len() && (#[trigger] pre.rune_to_id@[j]).0
                        == pre.tx_to_rune@[i1].1;
                assert(r2i[j0].0 == t2r[i1].1);
            } else {
                assert(t2r[i1].1 == GENESIS_RUNE);
            }
        }
        assert forall|j: int| 0 <= j < r2i.len() implies id_known(i2e, (#[trigger] r2i[j]).1) by {
            if j < pre.rune_to_id@.len() {
                assert(id_known(pre.id_to_entry@, pre.rune_to_id@[j].1));
                let k0 = choose|k: int|
                    0 <= k < pre.id_to_entry@.len() && (#[trigger] pre.id_to_entry@[k]).0
                        == pre.rune_to_id@[j].1;
                assert(i2e[k0].0 == r2i[j].1);
            } else {
                assert(r2i[j].1 == id);
            }
        }
        assert forall|i1: int, j: int|
            0 <= i1 < ob.len() && 0 <= j < ob[i1].1@.len() implies id_known(
            i2e,
            (#[trigger] ob[i1].1@[j]).id,
        ) by {
            assert(ob == pre.outpoint_balances@);
            assert(id_known(pre.id_to_entry@, pre.outpoint_balances@[i1].1@[j].id));
            let k0 = choose|k: int|
                0 <= k < pre.id_to_entry@.len() && (#[trigger] pre.id_to_entry@[k]).0
                    == pre.outpoint_balances@[i1].1@[j].id;
            assert(i2e[k0].0 == ob[i1].1@[j].id);
        }
    }
    true
}

fn find_rune_id(index: &RuneIndex, rune: u128) -> (r: Option<usize>)
    ensures
        match r {
            Option::Some(j) => j < index.rune_to_id@.len() && index.rune_to_id@[j as int].0
                == rune,
            Option::None => forall|j: int|
                0 <= j < index.rune_to_id@.len() ==> (#[trigger] index.rune_to_id@[j]).0 != rune,
        },
{
    let mut j: usize = 0;
    while j < index.rune_to_id.len()
        invariant
            j <= index.rune_to_id@.len(),
            forall|k: int| 0 <= k < j ==> (#[trigger] index.rune_to_id@[k]).0 != rune,
        decreases index.rune_to_id@.len() - j,
    {
        if index.rune_to_id[j].0 == rune {
            return Some(j);
        }
        j = j + 1;
    }
    None
}

fn find_entry(index: &RuneIndex, id: &RuneId) -> (r: Option<usize>)
    ensures
        match r {
            Option::Some(k) => k < index.id_to_entry@.len() && index.id_to_entry@[k as int].0
                == *id,
            Option::None => forall|k: int|
                0 <= k < index.id_to_entry@.len() ==> (#[trigger] index.id_to_entry@[k]).0 != *id,
        },
{
    let mut k: usize = 0;
    while k < index.id_to_entry.len()
        invariant
            k <= index.id_to_entry@.len(),
            forall|l: int| 0 <= l < k ==> (#[trigger] index.id_to_entry@[l]).0 != *id,
        decreases index.id_to_entry@.len() - k,
    {
        if index.id_to_entry[k].0.block == id.block && index.id_to_entry[k].0.tx == id.tx {
            return Some(k);
        }
        k = k + 1;
    }
    None
}

/// Looks up the rune etched by a transaction: its spaced name, or `None`
/// exactly when no transaction in the etching table matches.
pub fn get_etching(index: &RuneIndex, txid: &Vec<u8>) -> (r: Option<SpacedRune>)
    requires
        index.wf(),
    ensures
        match r {
            Option::Some(sr) => exists|i: int, j: int, k: int|
                {
                    &&& 0 <= i < index.tx_to_rune@.len()
                    &&& 0 <= j < index.rune_to_id@.len()
                    &&& 0 <= k < index.id_to_entry@.len()
                    &&& (#[trigger] index.tx_to_rune@[i]).0@ == txid@
                    &&& (#[trigger] index.rune_to_id@[j]).0 == index.tx_to_rune@[i].1
                    &&& (#[trigger] index.id_to_entry@[k]).0 == index.rune_to_id@[j].1
                    &&& index.id_to_entry@[k].1.spaced_rune == sr
                },
            Option::None => forall|i: int|
                0 <= i < index.tx_to_rune@.len() ==> (#[trigger] index.tx_to_rune@[i]).0@
                    != txid@,
        },
{
    let mut i: usize = 0;
    while i < index.tx_to_rune.len()
        invariant
            index.wf(),
            i <= index.tx_to_rune@.len(),
            forall|k: int| 0 <= k < i ==> (#[trigger] index.tx_to_rune@[k]).0@ != txid@,
        decreases index.tx_to_rune@.len() - i,
    {
        if bytes_eq(&index.tx_to_rune[i].0, txid) {
            let rune = index.tx_to_rune[i].1;
            let j = match find_rune_id(index, rune) {
                Some(j) => j,
                None => {
                    // the etching table only names runes with ids
                    proof {
                        assert(rune_known(index.rune_to_id@, index.tx_to_rune@[i as int].1));
                        assert(false);
                    }
                    unreached()
                },
            };
            let id = RuneId {
                block: index.rune_to_id[j].1.block,
                tx: index.rune_to_id[j].1.tx,
            };
            let k = match find_entry(index, &id) {
                Some(k) => k,
                None => {
                    // every id in the id table has an entry
                    proof {
                        assert(id == index.rune_to_id@[j as int].1);
                        assert(id_known(index.id_to_entry@, index.rune_to_id@[j as int].1));
                        assert(false);
                    }
                    unreached()
                },
            };
            let sr = index.id_to_entry[k].1.spaced_rune;
            proof {
                assert(index.tx_to_rune@[i as int].0@ == txid@);
                assert(index.rune_to_id@[j as int].0 == index.tx_to_rune@[i as int].1);
                assert(index.id_to_entry@[k as int].0 == index.rune_to_id@[j as int].1);
            }
            return Some(sr);
        }
        i = i + 1;
    }
    None
}

/// Whether the listing renders exactly these balances: one pile per
/// balance, in order, carrying the balance's amount and, from the entry
/// of the balance's rune, the spaced name, divisibility and symbol.
pub open spec fn piles_of(
    i2e: Seq<(RuneId, RuneEntry)>,
    bs: Seq<RuneBalance>,
    r: Seq<(SpacedRune, Pile)>,
) -> bool {
    &&& r.len() == bs.len()
    &&& forall|j: int|
        0 <= j < bs.len() ==> (#[trigger] r[j]).1.amount == bs[j].balance && exists|k: int|
            0 <= k < i2e.len() && (#[trigger] i2e[k]).0 == bs[j].id && i2e[k].1.spaced_rune == r[
                j
            ].0 && i2e[k].1.divisibility == r[j].1.divisibility && i2e[k].1.symbol == r[
                j
            ].1.symbol
}

/// The rune balances sitting on an output, each with its amount and its
/// rune's spaced name, divisibility and symbol; empty exactly when no
/// recorded output matches.
pub fn get_rune_balances_for_output(index: &RuneIndex, outpoint: &OutPoint) -> (r: Vec<
    (SpacedRune, Pile),
>)
    requires
        index.wf(),
    ensures
        (exists|i: int|
            0 <= i < index.outpoint_balances@.len() && (#[trigger] index.outpoint_balances@[
                i
            ]).0@ == outpoint@) ==> exists|i: int|
            {
                &&& 0 <= i < index.outpoint_balances@.len()
                &&& (#[trigger] index.outpoint_balances@[i]).0@ == outpoint@
                &&& piles_of(index.id_to_entry@, index.outpoint_balances@[i].1@, r@)
            },
        !(exists|i: int|
            0 <= i < index.outpoint_balances@.len() && (#[trigger] index.outpoint_balances@[
                i
            ]).0@ == outpoint@) ==> r@.len() == 0,
{
    let mut r: Vec<(SpacedRune, Pile)> = Vec::new();
    let mut i: usize = 0;
    while i < index.outpoint_balances.len()
        invariant
            index.wf(),
            i <= index.outpoint_balances@.len(),
            r@.len() == 0,
            forall|k: int|
                0 <= k < i ==> (#[trigger] index.outpoint_balances@[k]).0@ != outpoint@,
        decreases index.outpoint_balances@.len() - i,
    {
        if crate::types::outpoint_eq(&index.outpoint_balances[i].0, outpoint) {
            let ghost bs = index.outpoint_balances@[i as int].1@;
            let mut j: usize = 0;
            while j < index.outpoint_balances[i].1.len()
                invariant
                    index.wf(),
                    i < index.outpoint_balances@.len(),
                    bs == index.outpoint_balances@[i as int].1@,
                    j <= bs.len(),
                    piles_of(index.id_to_entry@, bs.take(j as int), r@),
                decreases bs.len() - j,
            {
                let bal = index.outpoint_balances[i].1[j];
                let id = RuneId { block: bal.id.block, tx: bal.id.tx };
                proof {
                    assert(bal == bs[j as int]);
                    assert(id == bs[j as int].id);
                }
                let k = match find_entry(index, &id) {
                    Some(k) => k,
                    None => {
                        // every recorded balance's rune has an entry
                        proof {
                            assert(id_known(index.id_to_entry@, bs[j as int].id));
                            assert(false);
                        }
                        unreached()
                    },
                };
                let entry_sr = index.id_to_entry[k].1.spaced_rune;
                let entry_div = index.id_to_entry[k].1.divisibility;
                let entry_sym = index.id_to_entry[k].1.symbol;
                let ghost prev = r@;
                r.push(
                    (
                        entry_sr,
                        Pile { amount: bal.balance, divisibility: entry_div, symbol: entry_sym },
                    ),
                );
                proof {
                    assert(bs.take(j + 1).drop_last() =~= bs.take(j as int));
                    assert(r@[prev.len() as int].1.amount == bs[j as int].balance);
                    assert(index.id_to_entry@[k as int].0 == bs[j as int].id);
                    assert(index.id_to_entry@[k as int].1.spaced_rune == r@[prev.len() as int].0);
                    assert(index.id_to_entry@[k as int].1.divisibility == r@[
                        prev.len() as int
                    ].1.divisibility);
                    assert(index.id_to_entry@[k as int].1.symbol == r@[
                        prev.len() as int
                    ].1.symbol);
                    assert forall|t: int| 0 <= t < bs.take(j + 1).len() implies (
                    #[trigger] r@[t]).1.amount == bs.take(j + 1)[t].balance && exists|k2: int|
                        0 <= k2 < index.id_to_entry@.len() && (#[trigger] index.id_to_entry@[
                            k2
                        ]).0 == bs.take(j + 1)[t].id && index.id_to_entry@[k2].1.spaced_rune
                            == r@[t].0 && index.id_to_entry@[k2].1.divisibility == r@[
                            t
                        ].1.divisibility && index.id_to_entry@[k2].1.symbol == r@[
                            t
                        ].1.symbol by {
                        if t < prev.len() {
                            assert(r@[t] == prev[t]);
                            assert(bs.take(j + 1)[t] == bs.take(j as int)[t]);
                        } else {
                            assert(bs.take(j + 1)[t] == bs[j as int]);
                        }
                    }
                    assert(piles_of(index.id_to_entry@, bs.take(j + 1), r@));
                }
                j = j + 1;
            }
            proof {
                assert(bs.take(bs.len() as int) =~= bs);
            }
            return r;
        }
        i = i + 1;
    }
    proof {
        if exists|k: int|
            0 <= k < index.outpoint_balances@.len() && (#[trigger] index.outpoint_balances@[
                k
            ]).0@ == outpoint@ {
            let k = choose|k: int|
                0 <= k < index.outpoint_balances@.len() && (#[trigger] index.outpoint_balances@[
                    k
                ]).0@ == outpoint@;
            assert(index.outpoint_balances@[k].0@ != outpoint@);
        }
    }
    r
}

/// What the block-synchronization timer does next.
#[derive(Clone, Copy, PartialEq, Eq, Structural, Debug)]
pub enum SyncAction {
    /// Indexing has reached its final height: stop.
    Done,
    /// The chain tip is too close to be confirmed: poll again later.
    Wait,
    /// The fetched block does not extend the indexed chain: back off and
    /// poll again.
    Reorg,
    /// Fetch and index the next block, then continue at once.
    IndexNext,
}

/// The height at which block synchronization stops.
pub const FINAL_HEIGHT: u32 = 840000;

/// The decision the synchronization timer takes from the indexed height,
/// the chain tip the node reports, the confirmations required, and whether
/// the next block extends the indexed chain.
pub fn sync_decision(
    height: u32,
    best: u32,
    required_confirmations: u32,
    next_extends_chain: bool,
) -> (r: SyncAction)
    requires
        height < u32::MAX,
        height + required_confirmations <= u32::MAX,
    ensures
        height >= FINAL_HEIGHT ==> r is Done,
        height < FINAL_HEIGHT && height + required_confirmations >= best ==> r is Wait,
        height < FINAL_HEIGHT && height + required_confirmations < best && !next_extends_chain
            ==> r is Reorg,
        height < FINAL_HEIGHT && height + required_confirmations < best && next_extends_chain
            ==> r is IndexNext,
{
    if height >= FINAL_HEIGHT {
        SyncAction::Done
    } else if height + required_confirmations >= best {
        SyncAction::Wait
    } else if !next_extends_chain {
        SyncAction::Reorg
    } else {
        SyncAction::IndexNext
    }
}

} // verus!

