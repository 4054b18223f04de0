use vstd::prelude::*;

verus! {

/// Identifies a rune by the block and transaction index of its etching.
/// Runes are ordered lexicographically by `(block, tx)`.
#[derive(Clone, Copy, PartialEq, Eq, Structural, Debug, Hash)]
pub struct RuneId {
    pub block: u64,
    pub tx: u32,
}

/// The kinds of token the wallet can hold.
#[derive(Clone, Copy, PartialEq, Eq, Structural, Debug, Hash)]
pub enum TokenType {
    Bitcoin,
    Icp,
    CkBTC,
    Runestone(RuneId),
}

/// Identifiers for the regions of the persistence substrate.
#[derive(Clone, Copy, PartialEq, Eq, Structural, Debug)]
pub enum MemoryIds {
    Config,
    Runic,
    Bitcoin,
}

impl MemoryIds {
    /// The numeric region id the persistence layer uses for this region.
    pub fn region_number(self) -> (r: u8)
        ensures
            self is Config ==> r == 0,
            self is Runic ==> r == 1,
            self is Bitcoin ==> r == 2,
    {
        match self {
            MemoryIds::Config => 0,
            MemoryIds::Runic => 1,
            MemoryIds::Bitcoin => 2,
        }
    }
}

/// Ghost mirror of an [`OutPoint`].
#[verifier::ext_equal]
pub struct OutPointV {
    pub txid: Seq<u8>,
    pub vout: u32,
}

/// A reference to a transaction output: the 32-byte id of the transaction
/// that created it and the index of the output within that transaction.
pub struct OutPoint {
    pub txid: Vec<u8>,
    pub vout: u32,
}

impl View for OutPoint {
    type V = OutPointV;

    open spec fn view(&self) -> OutPointV {
        OutPointV { txid: self.txid@, vout: self.vout }
    }
}

impl DeepView for OutPoint {
    type V = OutPointV;

    open spec fn deep_view(&self) -> OutPointV {
        self@
    }
}

impl OutPointV {
    /// A well-formed outpoint names its transaction by a full 32-byte id.
    pub open spec fn wf(self) -> bool {
        self.txid.len() == 32
    }
}

/// Ghost mirror of a [`Utxo`].
#[verifier::ext_equal]
pub struct UtxoV {
    pub outpoint: OutPointV,
    pub value: u64,
    pub height: u32,
}

/// An unspent transaction output holding plain bitcoin.
pub struct Utxo {
    pub outpoint: OutPoint,
    pub value: u64,
    pub height: u32,
}

impl View for Utxo {
    type V = UtxoV;

    open spec fn view(&self) -> UtxoV {
        UtxoV { outpoint: self.outpoint@, value: self.value, height: self.height }
    }
}

impl DeepView for Utxo {
    type V = UtxoV;

    open spec fn deep_view(&self) -> UtxoV {
        self@
    }
}

impl UtxoV {
    pub open spec fn wf(self) -> bool {
        self.outpoint.wf()
    }
}

/// Ghost mirror of a [`RunicUtxo`].
#[verifier::ext_equal]
pub struct RunicUtxoV {
    pub utxo: UtxoV,
    pub balance: u128,
}

/// An unspent output together with the balance of one rune it carries.
/// An output carrying several runes appears once per rune.
pub struct RunicUtxo {
    pub utxo: Utxo,
    pub balance: u128,
}

impl View for RunicUtxo {
    type V = RunicUtxoV;

    open spec fn view(&self) -> RunicUtxoV {
        RunicUtxoV { utxo: self.utxo@, balance: self.balance }
    }
}

impl DeepView for RunicUtxo {
    type V = RunicUtxoV;

    open spec fn deep_view(&self) -> RunicUtxoV {
        self@
    }
}

impl RunicUtxoV {
    pub open spec fn wf(self) -> bool {
        self.utxo.wf()
    }
}

/// Ghost mirror of an [`Account`].
#[verifier::ext_equal]
pub struct AccountV {
    pub owner: Seq<u8>,
    pub subaccount: Option<Seq<u8>>,
}

/// A ledger account: the raw bytes of the owner principal and an optional
/// 32-byte subaccount.
pub struct Account {
    pub owner: Vec<u8>,
    pub subaccount: Option<Vec<u8>>,
}

impl View for Account {
    type V = AccountV;

    open spec fn view(&self) -> AccountV {
        AccountV {
            owner: self.owner@,
            subaccount: match self.subaccount {
                Option::Some(ref s) => Option::Some(s@),
                Option::None => Option::None,
            },
        }
    }
}

impl DeepView for Account {
    type V = AccountV;

    open spec fn deep_view(&self) -> AccountV {
        self@
    }
}

impl AccountV {
    /// A well-formed account has a 32-byte subaccount when one is present.
    pub open spec fn wf(self) -> bool {
        match self.subaccount {
            Option::Some(s) => s.len() == 32,
            Option::None => true,
        }
    }
}

/// The Bitcoin network the wallet is configured against.
#[derive(Clone, Copy, PartialEq, Eq, Structural, Debug)]
pub enum Network {
    Mainnet,
    Testnet,
    Regtest,
}

/// Copies a byte vector; the result has the same contents.
pub fn copy_bytes(v: &Vec<u8>) -> (r: Vec<u8>)
    ensures
        r@ == v@,
{
    let mut r: Vec<u8> = Vec::new();
    let mut i: usize = 0;
    while i < v.len()
        invariant
            i <= v.len(),
            r@ == v@.take(i as int),
        decreases v.len() - i,
    {
        r.push(v[i]);
        proof {
            assert(r@ =~= v@.take(i + 1 as int));
        }
        i = i + 1;
    }
    proof {
        assert(r@ =~= v@);
    }
    r
}

/// Copies a plain-bitcoin output; the result has the same view.
pub fn copy_utxo(u: &Utxo) -> (r: Utxo)
    ensures
        r@ == u@,
{
    Utxo {
        outpoint: OutPoint { txid: copy_bytes(&u.outpoint.txid), vout: u.outpoint.vout },
        value: u.value,
        height: u.height,
    }
}

/// Copies a runic output; the result has the same view.
pub fn copy_runic(u: &RunicUtxo) -> (r: RunicUtxo)
    ensures
        r@ == u@,
{
    RunicUtxo { utxo: copy_utxo(&u.utxo), balance: u.balance }
}

/// Whether two byte vectors hold the same bytes.
pub fn bytes_eq(a: &Vec<u8>, b: &Vec<u8>) -> (r: bool)
    ensures
        r == (a@ == b@),
{
    if a.len() != b.len() {
        proof {
            assert(a@.len() != b@.len());
        }
        return false;
    }
    let mut i: usize = 0;
    while i < a.len()
        invariant
            i <= a.len(),
            a@.len() == b@.len(),
            forall|j: int| 0 <= j < i ==> a@[j] == b@[j],
        decreases a.len() - i,
    {
        if a[i] != b[i] {
            return false;
        }
        i = i + 1;
    }
    proof {
        assert(a@ =~= b@);
    }
    true
}

/// Whether two outpoints refer to the same output.
pub fn outpoint_eq(a: &OutPoint, b: &OutPoint) -> (r: bool)
    ensures
        r == (a@ == b@),
{
    let r = a.vout == b.vout && bytes_eq(&a.txid, &b.txid);
    proof {
        if a.vout == b.vout && a.txid@ == b.txid@ {
            assert(a@ =~= b@);
        }
    }
    r
}


/// The failures the wallet surfaces: what is missing and where, an address
/// that does not validate, a rejected broadcast, or a signing oracle that
/// cannot be reached.
#[derive(Debug)]
pub enum WalletError {
    /// A plain pool is short: replenish `addr` up to `required` satoshis.
    ShortfallPlain { addr: String, required: u64 },
    /// A runic pool is short of the rune being sent.
    ShortfallRune { required: u128 },
    /// Both senders' plain pools must reach their half.
    ShortfallPlainPair { required0: u64, required1: u64 },
    InvalidAddress,
    BroadcastFailed,
    OracleUnavailable,
}

} // verus!

