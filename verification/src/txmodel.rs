use vstd::prelude::*;

use crate::encoding::{compact_size, le_bytes, push_compact_size, push_le64};
use crate::types::{copy_bytes, OutPoint, OutPointV};

verus! {

/// Ghost mirror of a [`TxIn`].
#[verifier::ext_equal]
pub struct TxInV {
    pub previous_output: OutPointV,
    pub script_sig: Seq<u8>,
    pub sequence: u32,
}

/// A transaction input: the outpoint it spends, its signature script and
/// its sequence number.
pub struct TxIn {
    pub previous_output: OutPoint,
    pub script_sig: Vec<u8>,
    pub sequence: u32,
}

impl View for TxIn {
    type V = TxInV;

    open spec fn view(&self) -> TxInV {
        TxInV {
            previous_output: self.previous_output@,
            script_sig: self.script_sig@,
            sequence: self.sequence,
        }
    }
}

impl DeepView for TxIn {
    type V = TxInV;

    open spec fn deep_view(&self) -> TxInV {
        self@
    }
}

/// Ghost mirror of a [`TxOut`].
#[verifier::ext_equal]
pub struct TxOutV {
    pub value: u64,
    pub script_pubkey: Seq<u8>,
}

/// A transaction output: its value in satoshis and the script that locks it.
pub struct TxOut {
    pub value: u64,
    pub script_pubkey: Vec<u8>,
}

impl View for TxOut {
    type V = TxOutV;

    open spec fn view(&self) -> TxOutV {
        TxOutV { value: self.value, script_pubkey: self.script_pubkey@ }
    }
}

impl DeepView for TxOut {
    type V = TxOutV;

    open spec fn deep_view(&self) -> TxOutV {
        self@
    }
}

/// Ghost mirror of a [`Transaction`].
#[verifier::ext_equal]
pub struct TransactionV {
    pub version: u32,
    pub lock_time: u32,
    pub input: Seq<TxInV>,
    pub output: Seq<TxOutV>,
}

/// A legacy Bitcoin transaction.
pub struct Transaction {
    pub version: u32,
    pub lock_time: u32,
    pub input: Vec<TxIn>,
    pub output: Vec<TxOut>,
}

impl View for Transaction {
    type V = TransactionV;

    open spec fn view(&self) -> TransactionV {
        TransactionV {
            version: self.version,
            lock_time: self.lock_time,
            input: self.input.deep_view(),
            output: self.output.deep_view(),
        }
    }
}

/// The consensus serialization of one input.
pub open spec fn ser_txin(i: TxInV) -> Seq<u8> {
    i.previous_output.txid + le_bytes(i.previous_output.vout as nat, 4) + compact_size(
        i.script_sig.len(),
    ) + i.script_sig + le_bytes(i.sequence as nat, 4)
}

/// The consensus serialization of one output.
pub open spec fn ser_txout(o: TxOutV) -> Seq<u8> {
    le_bytes(o.value as nat, 8) + compact_size(o.script_pubkey.len()) + o.script_pubkey
}

/// The concatenated serialization of a list of inputs.
pub open spec fn ser_inputs(s: Seq<TxInV>) -> Seq<u8>
    decreases s.len(),
{
    if s.len() == 0 {
        Seq::empty()
    } else {
        ser_txin(s[0]) + ser_inputs(s.drop_first())
    }
}

/// The concatenated serialization of a list of outputs.
pub open spec fn ser_outputs(s: Seq<TxOutV>) -> Seq<u8>
    decreases s.len(),
{
    if s.len() == 0 {
        Seq::empty()
    } else {
        ser_txout(s[0]) + ser_outputs(s.drop_first())
    }
}

/// The legacy consensus serialization of a transaction: version, inputs,
/// outputs, lock time.
pub open spec fn ser_tx(t: TransactionV) -> Seq<u8> {
    le_bytes(t.version as nat, 4) + compact_size(t.input.len()) + ser_inputs(t.input)
        + compact_size(t.output.len()) + ser_outputs(t.output) + le_bytes(t.lock_time as nat, 4)
}

/// The virtual size of a transaction. For a legacy transaction, with no
/// witness data, the virtual size equals the serialized size.
pub open spec fn tx_vsize(t: TransactionV) -> nat {
    ser_tx(t).len()
}

pub proof fn lemma_ser_inputs_push(s: Seq<TxInV>, x: TxInV)
    ensures
        ser_inputs(s.push(x)) == ser_inputs(s) + ser_txin(x),
    decreases s.len(),
{
    if s.len() == 0 {
        assert(s =~= Seq::<TxInV>::empty());
        assert(ser_inputs(Seq::<TxInV>::empty()) =~= Seq::<u8>::empty());
        assert(s.push(x)[0] == x);
        assert(s.push(x).drop_first() =~= Seq::<TxInV>::empty());
        assert(ser_inputs(s.push(x)) =~= ser_inputs(s) + ser_txin(x));
    } else {
        let p = s.push(x);
        assert(p[0] == s[0]);
        assert(p.drop_first() =~= s.drop_first().push(x));
        lemma_ser_inputs_push(s.drop_first(), x);
        assert(ser_inputs(p) == ser_txin(p[0]) + ser_inputs(p.drop_first()));
        assert(ser_inputs(s) == ser_txin(s[0]) + ser_inputs(s.drop_first()));
        assert(ser_inputs(s.push(x)) =~= ser_inputs(s) + ser_txin(x));
    }
}

pub proof fn lemma_ser_outputs_push(s: Seq<TxOutV>, x: TxOutV)
    ensures
        ser_outputs(s.push(x)) == ser_outputs(s) + ser_txout(x),
    decreases s.len(),
{
    if s.len() == 0 {
        assert(s =~= Seq::<TxOutV>::empty());
        assert(ser_outputs(Seq::<TxOutV>::empty()) =~= Seq::<u8>::empty());
        assert(s.push(x)[0] == x);
        assert(s.push(x).drop_first() =~= Seq::<TxOutV>::empty());
        assert(ser_outputs(s.push(x)) =~= ser_outputs(s) + ser_txout(x));
    } else {
        let p = s.push(x);
        assert(p[0] == s[0]);
        assert(p.drop_first() =~= s.drop_first().push(x));
        lemma_ser_outputs_push(s.drop_first(), x);
        assert(ser_outputs(p) == ser_txout(p[0]) + ser_outputs(p.drop_first()));
        assert(ser_outputs(s) == ser_txout(s[0]) + ser_outputs(s.drop_first()));
        assert(ser_outputs(s.push(x)) =~= ser_outputs(s) + ser_txout(x));
    }
}

/// Appends the bytes of `v`.
pub fn push_bytes(out: &mut Vec<u8>, v: &Vec<u8>)
    ensures
        final(out)@ == old(out)@ + v@,
{
    let mut i: usize = 0;
    while i < v.len()
        invariant
            i <= v.len(),
            out@ == old(out)@ + v@.take(i as int),
        decreases v.len() - i,
    {
        out.push(v[i]);
        proof {
            assert(old(out)@ + v@.take(i + 1 as int) =~= (old(out)@ + v@.take(i as int)).push(
                v@[i as int],
            ));
        }
        i = i + 1;
    }
    proof {
        assert(v@.take(v@.len() as int) =~= v@);
    }
}

fn push_txin(out: &mut Vec<u8>, txin: &TxIn)
    ensures
        final(out)@ == old(out)@ + ser_txin(txin@),
{
    push_bytes(out, &txin.previous_output.txid);
    push_le64(out, txin.previous_output.vout as u64, 4);
    push_compact_size(out, txin.script_sig.len() as u64);
    push_bytes(out, &txin.script_sig);
    push_le64(out, txin.sequence as u64, 4);
    proof {
        assert(out@ =~= old(out)@ + ser_txin(txin@));
    }
}

fn push_txout(out: &mut Vec<u8>, txout: &TxOut)
    ensures
        final(out)@ == old(out)@ + ser_txout(txout@),
{
    push_le64(out, txout.value, 8);
    push_compact_size(out, txout.script_pubkey.len() as u64);
    push_bytes(out, &txout.script_pubkey);
    proof {
        assert(out@ =~= old(out)@ + ser_txout(txout@));
    }
}

/// Serializes a transaction in the legacy consensus encoding.
pub fn serialize_transaction(t: &Transaction) -> (r: Vec<u8>)
    ensures
        r@ == ser_tx(t@),
{
    let mut out: Vec<u8> = Vec::new();
    push_le64(&mut out, t.version as u64, 4);
    push_compact_size(&mut out, t.input.len() as u64);
    let ghost header = out@;
    let mut i: usize = 0;
    while i < t.input.len()
        invariant
            i <= t.input.len(),
            out@ == header + ser_inputs(t.input.deep_view().take(i as int)),
        decreases t.input.len() - i,
    {
        push_txin(&mut out, &t.input[i]);
        proof {
            assert(t.input.deep_view().take(i + 1 as int) =~= t.input.deep_view().take(
                i as int,
            ).push(t.input.deep_view()[i as int]));
            lemma_ser_inputs_push(t.input.deep_view().take(i as int), t.input.deep_view()[i as int]);
            assert(out@ =~= header + ser_inputs(t.input.deep_view().take(i + 1 as int)));
        }
        i = i + 1;
    }
    proof {
        assert(t.input.deep_view().take(t.input.deep_view().len() as int) =~= t.input.deep_view());
    }
    push_compact_size(&mut out, t.output.len() as u64);
    let ghost mid = out@;
    let mut j: usize = 0;
    while j < t.output.len()
        invariant
            j <= t.output.len(),
            out@ == mid + ser_outputs(t.output.deep_view().take(j as int)),
        decreases t.output.len() - j,
    {
        push_txout(&mut out, &t.output[j]);
        proof {
            assert(t.output.deep_view().take(j + 1 as int) =~= t.output.deep_view().take(
                j as int,
            ).push(t.output.deep_view()[j as int]));
            lemma_ser_outputs_push(
                t.output.deep_view().take(j as int),
                t.output.deep_view()[j as int],
            );
            assert(out@ =~= mid + ser_outputs(t.output.deep_view().take(j + 1 as int)));
        }
        j = j + 1;
    }
    proof {
        assert(t.output.deep_view().take(t.output.deep_view().len() as int) =~= t.output.deep_view());
    }
    push_le64(&mut out, t.lock_time as u64, 4);
    proof {
        assert(out@ =~= ser_tx(t@));
    }
    out
}

/// The virtual size of a transaction, measured by serializing it.
pub fn transaction_vsize(t: &Transaction) -> (r: usize)
    ensures
        r == tx_vsize(t@),
{
    let bytes = serialize_transaction(t);
    bytes.len()
}

/// The placeholder signature script used to measure virtual size before
/// real signatures exist: a push of a typical 72-byte signature followed by
/// a push of a 33-byte compressed public key.
pub open spec fn mock_script_sig() -> Seq<u8> {
    seq![72u8] + Seq::new(72, |i: int| 0u8) + seq![33u8] + Seq::new(33, |i: int| 0u8)
}

/// An input with its signature script replaced by the placeholder.
pub open spec fn mock_input(txin: TxInV) -> TxInV {
    TxInV { script_sig: mock_script_sig(), ..txin }
}

/// A transaction with every signature script replaced by the placeholder.
pub open spec fn mock_sign(t: TransactionV) -> TransactionV {
    TransactionV { input: Seq::new(t.input.len(), |i: int| mock_input(t.input[i])), ..t }
}

fn push_zeros(out: &mut Vec<u8>, k: usize)
    ensures
        final(out)@ == old(out)@ + Seq::new(k as nat, |i: int| 0u8),
{
    let mut i: usize = 0;
    while i < k
        invariant
            i <= k,
            out@ == old(out)@ + Seq::new(i as nat, |j: int| 0u8),
        decreases k - i,
    {
        out.push(0);
        proof {
            assert(old(out)@ + Seq::new((i + 1) as nat, |j: int| 0u8) =~= (old(out)@ + Seq::new(
                i as nat,
                |j: int| 0u8,
            )).push(0u8));
        }
        i = i + 1;
    }
}

fn mock_script_sig_bytes() -> (r: Vec<u8>)
    ensures
        r@ == mock_script_sig(),
{
    let mut out: Vec<u8> = Vec::new();
    out.push(72);
    push_zeros(&mut out, 72);
    out.push(33);
    push_zeros(&mut out, 33);
    proof {
        assert(out@ =~= mock_script_sig());
    }
    out
}

/// Produces the mock-signed clone of a transaction: the structure is kept
/// and every input's signature script becomes the placeholder.
pub fn mock_signature(t: &Transaction) -> (r: Transaction)
    ensures
        r@ == mock_sign(t@),
{
    let mut input: Vec<TxIn> = Vec::new();
    let mut i: usize = 0;
    while i < t.input.len()
        invariant
            i <= t.input.len(),
            input@.len() == i,
            forall|k: int|
                0 <= k < i ==> input.deep_view()[k] == mock_input(t.input.deep_view()[k]),
        decreases t.input.len() - i,
    {
        let src = &t.input[i];
        let x = TxIn {
            previous_output: OutPoint {
                txid: copy_bytes(&src.previous_output.txid),
                vout: src.previous_output.vout,
            },
            script_sig: mock_script_sig_bytes(),
            sequence: src.sequence,
        };
        proof {
            assert(x@ =~= mock_input(t.input.deep_view()[i as int]));
        }
        let ghost prev = input.deep_view();
        input.push(x);
        proof {
            assert(input.deep_view() =~= prev.push(x@));
        }
        i = i + 1;
    }
    let mut output: Vec<TxOut> = Vec::new();
    let mut j: usize = 0;
    while j < t.output.len()
        invariant
            j <= t.output.len(),
            output@.len() == j,
            forall|k: int| 0 <= k < j ==> output.deep_view()[k] == t.output.deep_view()[k],
        decreases t.output.len() - j,
    {
        let src = &t.output[j];
        let x = TxOut { value: src.value, script_pubkey: copy_bytes(&src.script_pubkey) };
        proof {
            assert(x@ =~= t.output.deep_view()[j as int]);
        }
        let ghost prev = output.deep_view();
        output.push(x);
        proof {
            assert(output.deep_view() =~= prev.push(x@));
        }
        j = j + 1;
    }
    let r = Transaction { version: t.version, lock_time: t.lock_time, input, output };
    proof {
        assert(r@.input =~= mock_sign(t@).input);
        assert(r@.output =~= mock_sign(t@).output);
        assert(r@ =~= mock_sign(t@));
    }
    r
}

/// The 25-byte pay-to-pubkey-hash script for a 20-byte public key hash.
pub open spec fn p2pkh_script(h: Seq<u8>) -> Seq<u8> {
    seq![0x76u8, 0xa9u8, 0x14u8] + h + seq![0x88u8, 0xacu8]
}

/// Builds the pay-to-pubkey-hash script locking an output to `hash`.
pub fn p2pkh_script_bytes(hash: &Vec<u8>) -> (r: Vec<u8>)
    ensures
        r@ == p2pkh_script(hash@),
{
    let mut out: Vec<u8> = Vec::new();
    out.push(0x76);
    out.push(0xa9);
    out.push(0x14);
    push_bytes(&mut out, hash);
    out.push(0x88);
    out.push(0xac);
    proof {
        assert(out@ =~= p2pkh_script(hash@));
    }
    out
}


/// The total satoshi value of a list of outputs.
pub open spec fn sum_outputs(s: Seq<TxOutV>) -> int
    decreases s.len(),
{
    if s.len() == 0 {
        0
    } else {
        sum_outputs(s.drop_last()) + s.last().value
    }
}


/// The serialized length of a list of outputs: for each, eight value
/// bytes, the script length's compact size, and the script.
pub open spec fn wire_len_outputs(s: Seq<TxOutV>) -> int
    decreases s.len(),
{
    if s.len() == 0 {
        0
    } else {
        8 + compact_size(s[0].script_pubkey.len()).len() + s[0].script_pubkey.len()
            + wire_len_outputs(s.drop_first())
    }
}

pub proof fn lemma_ser_outputs_wire_len(s: Seq<TxOutV>)
    ensures
        ser_outputs(s).len() == wire_len_outputs(s),
    decreases s.len(),
{
    if s.len() > 0 {
        lemma_ser_outputs_wire_len(s.drop_first());
        crate::encoding::lemma_le_bytes_len(s[0].value as nat, 8);
    }
}

/// A mock-signed input serializes to one hundred and forty-eight bytes:
/// the outpoint, a one-byte length, the hundred-and-seven-byte placeholder
/// script, and the sequence number.
pub proof fn lemma_ser_inputs_mock_len(s: Seq<TxInV>)
    requires
        forall|i: int|
            0 <= i < s.len() ==> (#[trigger] s[i]).previous_output.txid.len() == 32 && s[
                i
            ].script_sig == mock_script_sig(),
    ensures
        ser_inputs(s).len() == 148 * s.len(),
    decreases s.len(),
{
    if s.len() > 0 {
        assert forall|i: int|
            0 <= i < s.drop_first().len() implies (
        #[trigger] s.drop_first()[i]).previous_output.txid.len() == 32 && s.drop_first()[
            i
        ].script_sig == mock_script_sig() by {
            assert(s.drop_first()[i] == s[i + 1]);
        }
        lemma_ser_inputs_mock_len(s.drop_first());
        assert(s[0].previous_output.txid.len() == 32);
        assert(mock_script_sig().len() == 107);
        crate::encoding::lemma_le_bytes_len(s[0].previous_output.vout as nat, 4);
        crate::encoding::lemma_le_bytes_len(s[0].sequence as nat, 4);
        assert(compact_size(107).len() == 1);
        assert(ser_txin(s[0]).len() == 148);
    }
}

/// The virtual size of a mock-signed transaction in closed form: the
/// eight framing bytes, the input count's compact size, one hundred and
/// forty-eight bytes per input, the output count's compact size, and the
/// outputs' serialized length.
pub proof fn lemma_mock_vsize(t: TransactionV)
    requires
        forall|i: int|
            0 <= i < t.input.len() ==> (#[trigger] t.input[i]).previous_output.txid.len() == 32,
    ensures
        tx_vsize(mock_sign(t)) == 8 + compact_size(t.input.len()).len() + 148 * t.input.len()
            + compact_size(t.output.len()).len() + wire_len_outputs(t.output),
{
    let m = mock_sign(t);
    assert(m.input.len() == t.input.len());
    assert(m.output == t.output);
    assert forall|i: int|
        0 <= i < m.input.len() implies (#[trigger] m.input[i]).previous_output.txid.len() == 32
        && m.input[i].script_sig == mock_script_sig() by {
        assert(m.input[i] == mock_input(t.input[i]));
    }
    lemma_ser_inputs_mock_len(m.input);
    lemma_ser_outputs_wire_len(m.output);
    crate::encoding::lemma_le_bytes_len(m.version as nat, 4);
    crate::encoding::lemma_le_bytes_len(m.lock_time as nat, 4);
}

} // verus!


