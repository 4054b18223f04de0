use vstd::prelude::*;

use crate::address::bytes_range;
use crate::digests::{sha256, sha256_of};
use crate::encoding::{hex_of, hex_string, le_bytes, push_le64, reverse_bytes};
use crate::txmodel::{push_bytes, ser_tx, serialize_transaction, Transaction, TransactionV, TxIn,
    TxInV};
use crate::types::{copy_bytes, OutPoint};

verus! {

/// How many leading zero bytes an integer sheds in minimal DER form: all of
/// them, but never the last byte.
pub open spec fn strip_count(x: Seq<u8>) -> int
    decreases x.len(),
{
    if x.len() <= 1 {
        0
    } else if x[0] == 0 {
        1 + strip_count(x.drop_first())
    } else {
        0
    }
}

/// The minimal DER rendering of an unsigned big-endian integer: leading
/// zeros dropped, and one zero byte restored when the top bit would make
/// the number read as negative.
pub open spec fn der_int(x: Seq<u8>) -> Seq<u8> {
    let y = x.skip(strip_count(x));
    if y[0] >= 0x80 {
        seq![0u8] + y
    } else {
        y
    }
}

/// The DER rendering of a 64-byte SEC1 signature: a sequence of the two
/// 32-byte halves as DER integers.
pub open spec fn der_sig(sig: Seq<u8>) -> Seq<u8> {
    let r = der_int(sig.take(32));
    let s = der_int(sig.skip(32));
    seq![0x30u8, (4 + r.len() + s.len()) as u8, 0x02u8, r.len() as u8] + r + seq![
        0x02u8,
        s.len() as u8,
    ] + s
}

proof fn lemma_strip_count_is(x: Seq<u8>, i: int)
    requires
        x.len() >= 1,
        0 <= i <= x.len() - 1,
        forall|k: int| 0 <= k < i ==> x[k] == 0,
        i < x.len() - 1 ==> x[i] != 0,
    ensures
        strip_count(x) == i,
    decreases i,
{
    if i == 0 {
        if x.len() > 1 && x[0] == 0 {
            assert(false);
        }
    } else {
        assert(x[0] == 0);
        assert forall|k: int| 0 <= k < i - 1 implies x.drop_first()[k] == 0 by {
            assert(x.drop_first()[k] == x[k + 1]);
        }
        assert(i - 1 < x.drop_first().len() - 1 ==> x.drop_first()[i - 1] != 0);
        lemma_strip_count_is(x.drop_first(), i - 1);
    }
}

/// Converts a fixed 64-byte SEC1 signature, the two halves big-endian, to
/// its DER rendering.
pub fn sec1_to_der(sig: &Vec<u8>) -> (r: Vec<u8>)
    requires
        sig@.len() == 64,
    ensures
        r@ == der_sig(sig@),
        8 <= r@.len() <= 72,
{
    let rpart = der_int_bytes(sig, 0);
    let spart = der_int_bytes(sig, 32);
    let mut out: Vec<u8> = Vec::new();
    out.push(0x30);
    out.push((4 + rpart.len() + spart.len()) as u8);
    out.push(0x02);
    out.push(rpart.len() as u8);
    push_bytes(&mut out, &rpart);
    out.push(0x02);
    out.push(spart.len() as u8);
    push_bytes(&mut out, &spart);
    proof {
        assert(sig@.take(32) =~= sig@.subrange(0, 32));
        assert(sig@.skip(32) =~= sig@.subrange(32, 64));
        assert(out@ =~= der_sig(sig@));
    }
    out
}

/// The minimal DER integer taken from the 32 bytes of `sig` at `base`.
fn der_int_bytes(sig: &Vec<u8>, base: usize) -> (r: Vec<u8>)
    requires
        sig@.len() == 64,
        base == 0 || base == 32,
    ensures
        r@ == der_int(sig@.subrange(base as int, base + 32)),
        1 <= r@.len() <= 33,
{
    let ghost x = sig@.subrange(base as int, base + 32);
    let mut i: usize = 0;
    while i < 31 && sig[base + i] == 0
        invariant
            i <= 31,
            sig@.len() == 64,
            base == 0 || base == 32,
            forall|k: int| 0 <= k < i ==> x[k] == 0,
            x == sig@.subrange(base as int, base + 32),
        decreases 31 - i,
    {
        proof {
            assert(x[i as int] == sig@[base + i]);
        }
        i = i + 1;
    }
    proof {
        if i < 31 {
            assert(x[i as int] == sig@[base + i]);
            assert(x[i as int] != 0);
        }
        lemma_strip_count_is(x, i as int);
    }
    let stripped = bytes_range(sig, base + i, base + 32);
    proof {
        assert(stripped@ =~= x.skip(i as int));
    }
    if stripped[0] >= 0x80 {
        let mut out: Vec<u8> = Vec::new();
        out.push(0);
        push_bytes(&mut out, &stripped);
        proof {
            assert(out@ =~= der_int(x));
        }
        out
    } else {
        proof {
            assert(stripped@ =~= der_int(x));
        }
        stripped
    }
}

/// The transaction as hashed for a legacy signature of input `idx`: that
/// input carries the signer's locking script, every other input's script
/// is empty.
pub open spec fn sighash_tx(t: TransactionV, idx: int, spk: Seq<u8>) -> TransactionV {
    TransactionV {
        input: Seq::new(
            t.input.len(),
            |i: int|
                TxInV {
                    script_sig: if i == idx {
                        spk
                    } else {
                        Seq::empty()
                    },
                    ..t.input[i]
                },
        ),
        ..t
    }
}

/// The 32-byte digest a legacy SIGHASH_ALL signature of input `idx`
/// commits to: the double SHA-256 of the modified transaction followed by
/// the four-byte hash type.
pub open spec fn legacy_sighash_of(t: TransactionV, idx: int, spk: Seq<u8>) -> Seq<u8> {
    sha256_of(sha256_of(ser_tx(sighash_tx(t, idx, spk)) + le_bytes(1, 4)))
}

/// Computes the legacy SIGHASH_ALL digest of input `idx` against the
/// signer's locking script.
pub fn legacy_sighash(t: &Transaction, idx: usize, spk: &Vec<u8>) -> (r: Vec<u8>)
    requires
        idx < t.input@.len(),
    ensures
        r@ == legacy_sighash_of(t@, idx as int, spk@),
        r@.len() == 32,
{
    let mut input: Vec<TxIn> = Vec::new();
    let mut i: usize = 0;
    while i < t.input.len()
        invariant
            i <= t.input@.len(),
            input.deep_view().len() == i,
            forall|k: int|
                0 <= k < i ==> input.deep_view()[k] == (TxInV {
                    script_sig: if k == idx as int {
                        spk@
                    } else {
                        Seq::empty()
                    },
                    ..t.input.deep_view()[k]
                }),
        decreases t.input@.len() - i,
    {
        let src = &t.input[i];
        let script_sig = if i == idx {
            copy_bytes(spk)
        } else {
            Vec::new()
        };
        let x = TxIn {
            previous_output: OutPoint {
                txid: copy_bytes(&src.previous_output.txid),
                vout: src.previous_output.vout,
            },
            script_sig,
            sequence: src.sequence,
        };
        let ghost prev = input.deep_view();
        input.push(x);
        proof {
            assert(input.deep_view() =~= prev.push(x@));
        }
        i = i + 1;
    }
    let mut output: Vec<crate::txmodel::TxOut> = Vec::new();
    let mut j: usize = 0;
    while j < t.output.len()
        invariant
            j <= t.output@.len(),
            output.deep_view().len() == j,
            forall|k: int| 0 <= k < j ==> output.deep_view()[k] == t.output.deep_view()[k],
        decreases t.output@.len() - j,
    {
        let src = &t.output[j];
        let x = crate::txmodel::TxOut {
            value: src.value,
            script_pubkey: copy_bytes(&src.script_pubkey),
        };
        let ghost prev = output.deep_view();
        output.push(x);
        proof {
            assert(output.deep_view() =~= prev.push(x@));
        }
        j = j + 1;
    }
    let modified = Transaction { version: t.version, lock_time: t.lock_time, input, output };
    proof {
        assert(modified@.output =~= t@.output);
        assert(modified@ =~= sighash_tx(t@, idx as int, spk@));
    }
    let mut preimage = serialize_transaction(&modified);
    push_le64(&mut preimage, 1, 4);
    let once = sha256(&preimage);
    sha256(&once)
}

/// The signature script of a signed pay-to-pubkey-hash input: a push of
/// the DER signature with the hash-type byte, then a push of the public
/// key.
pub open spec fn spec_script_sig(sig_with_type: Seq<u8>, pubkey: Seq<u8>) -> Seq<u8> {
    seq![sig_with_type.len() as u8] + sig_with_type + seq![pubkey.len() as u8] + pubkey
}

/// Builds the signature script from a DER signature with its hash-type
/// byte and a public key, each short enough for a one-byte push.
pub fn script_sig_for(sig_with_type: &Vec<u8>, pubkey: &Vec<u8>) -> (r: Vec<u8>)
    requires
        sig_with_type@.len() < 76,
        pubkey@.len() < 76,
    ensures
        r@ == spec_script_sig(sig_with_type@, pubkey@),
{
    let mut out: Vec<u8> = Vec::new();
    out.push(sig_with_type.len() as u8);
    push_bytes(&mut out, sig_with_type);
    out.push(pubkey.len() as u8);
    push_bytes(&mut out, pubkey);
    proof {
        assert(out@ =~= spec_script_sig(sig_with_type@, pubkey@));
    }
    out
}

/// Installs a signature script on input `idx`; the rest of the transaction
/// is untouched.
pub fn apply_signature(t: &mut Transaction, idx: usize, script_sig: Vec<u8>)
    requires
        idx < old(t).input@.len(),
    ensures
        final(t)@.version == old(t)@.version,
        final(t)@.lock_time == old(t)@.lock_time,
        final(t)@.output == old(t)@.output,
        final(t)@.input == old(t)@.input.update(
            idx as int,
            TxInV { script_sig: script_sig@, ..old(t)@.input[idx as int] },
        ),
{
    let ghost ssv = script_sig@;
    let mut txin = t.input.remove(idx);
    txin.script_sig = script_sig;
    t.input.insert(idx, txin);
    proof {
        assert(t@.input =~= old(t)@.input.update(
            idx as int,
            TxInV { script_sig: ssv, ..old(t)@.input[idx as int] },
        ));
    }
}

/// The identifier of a transaction: the double SHA-256 of its
/// serialization, rendered in hexadecimal from the last byte to the first.
pub open spec fn spec_txid_hex(t: TransactionV) -> Seq<char> {
    hex_of(sha256_of(sha256_of(ser_tx(t))).reverse())
}

/// Computes the transaction's identifier as a hexadecimal string.
pub fn txid_hex(t: &Transaction) -> (r: String)
    ensures
        r@ == spec_txid_hex(t@),
{
    let bytes = serialize_transaction(t);
    let once = sha256(&bytes);
    let twice = sha256(&once);
    let rev = reverse_bytes(&twice);
    hex_string(&rev)
}

} // verus!
