use vstd::prelude::*;

use crate::address::{account_to_p2pkh_address, spec_p2pkh_text};
use crate::digests::{sha3_256, sha3_256_of};
use crate::encoding::{le_bytes, push_le64, reverse_bytes};
use crate::types::{copy_bytes, Account, Network};

verus! {

/// The deposit identities of one principal: its bitcoin address text and
/// the ledger account the address is derived from.
pub struct Addresses {
    pub bitcoin: String,
    pub icrc1: Account,
}

/// The 16-byte big-endian rendering of `n`.
pub open spec fn be_bytes_u128(n: nat) -> Seq<u8> {
    le_bytes(n, 16).reverse()
}

/// The subaccount bound to a principal: the SHA3-256 of its raw bytes.
pub fn principal_to_subaccount(principal: &Vec<u8>) -> (r: Vec<u8>)
    ensures
        r@ == sha3_256_of(principal@),
        r@.len() == 32,
{
    sha3_256(principal)
}

/// The numbered subaccount of the service itself: the SHA3-256 of the
/// service's principal bytes followed by the number in 16 big-endian bytes.
pub fn subaccount_with_num(canister_id: &Vec<u8>, num: u128) -> (r: Vec<u8>)
    ensures
        r@ == sha3_256_of(canister_id@ + be_bytes_u128(num as nat)),
        r@.len() == 32,
{
    let mut data = copy_bytes(canister_id);
    let mut le: Vec<u8> = Vec::new();
    push_le64(&mut le, (num % 0x10000000000000000) as u64, 8);
    push_le64(&mut le, (num / 0x10000000000000000) as u64, 8);
    proof {
        lemma_le_bytes_u128_halves(num as nat);
        assert(le@ =~= le_bytes(num as nat, 16));
    }
    let be = reverse_bytes(&le);
    crate::txmodel::push_bytes(&mut data, &be);
    sha3_256(&data)
}

/// Powers of 256.
pub open spec fn pow256(k: nat) -> nat
    decreases k,
{
    if k == 0 {
        1
    } else {
        256 * pow256((k - 1) as nat)
    }
}

/// The 16-byte little-endian rendering of a 128-bit value is its low half
/// followed by its high half.
proof fn lemma_le_bytes_u128_halves(n: nat)
    ensures
        le_bytes(n, 16) == le_bytes(n % 0x10000000000000000, 8) + le_bytes(
            n / 0x10000000000000000,
            8,
        ),
{
    lemma_le_bytes_chop(n, 8, 8);
    reveal_with_fuel(pow256, 9);
    assert(pow256(8) == 0x10000000000000000);
}

/// Little-endian bytes split: the first `k1` bytes render `n` modulo
/// `256^k1`, the rest render the quotient.
proof fn lemma_le_bytes_chop(n: nat, k1: nat, k2: nat)
    ensures
        le_bytes(n, k1 + k2) == le_bytes(n % pow256(k1), k1) + le_bytes(n / pow256(k1), k2),
    decreases k1,
{
    let p = pow256(k1);
    lemma_pow256_positive(k1);
    if k1 == 0 {
        assert(p == 1);
        assert(le_bytes(n % 1, 0) =~= Seq::<u8>::empty());
        assert(n % 1 == 0) by (nonlinear_arith);
        assert(n / 1 == n) by (nonlinear_arith);
        assert(le_bytes(n, k2) =~= le_bytes(n % 1, 0) + le_bytes(n / 1, k2));
    } else {
        lemma_le_bytes_chop(n / 256, (k1 - 1) as nat, k2);
        let p1 = pow256((k1 - 1) as nat);
        lemma_pow256_positive((k1 - 1) as nat);
        assert(p == 256 * p1);
        vstd::arithmetic::div_mod::lemma_div_denominator(n as int, 256, p1 as int);
        assert((n / 256) / p1 == n / p);
        vstd::arithmetic::div_mod::lemma_mod_mod(n as int, 256, p1 as int);
        assert((n % p) % 256 == n % 256);
        vstd::arithmetic::div_mod::lemma_mod_breakdown(n as int, 256, p1 as int);
        assert(n % p == 256 * ((n / 256) % p1) + n % 256);
        assert((n % p) / 256 == (n / 256) % p1) by {
            vstd::arithmetic::div_mod::lemma_div_multiples_vanish_fancy(
                ((n / 256) % p1) as int,
                (n % 256) as int,
                256,
            );
        }
        assert(le_bytes(n % p, k1) == seq![(n % 256) as u8] + le_bytes(
            (n % p) / 256,
            (k1 - 1) as nat,
        ));
        assert(le_bytes(n, k1 + k2) =~= le_bytes(n % p, k1) + le_bytes(n / p, k2));
    }
}

proof fn lemma_pow256_positive(k: nat)
    ensures
        pow256(k) >= 1,
    decreases k,
{
    if k > 0 {
        lemma_pow256_positive((k - 1) as nat);
    }
}

/// The signing path of an account: the owner's principal bytes, then the
/// 32-byte subaccount (all zero when absent).
pub fn account_to_derivation_path(account: &Account) -> (r: Vec<Vec<u8>>)
    ensures
        r.deep_view().len() == 2,
        r.deep_view()[0] == account@.owner,
        r.deep_view()[1] == match account@.subaccount {
            Option::Some(s) => s,
            Option::None => Seq::new(32, |i: int| 0u8),
        },
{
    let mut r: Vec<Vec<u8>> = Vec::new();
    r.push(copy_bytes(&account.owner));
    match &account.subaccount {
        Option::Some(s) => {
            r.push(copy_bytes(s));
        },
        Option::None => {
            let mut zeros: Vec<u8> = Vec::new();
            let mut i: usize = 0;
            while i < 32
                invariant
                    i <= 32,
                    zeros@ =~= Seq::new(i as nat, |j: int| 0u8),
                decreases 32 - i,
            {
                zeros.push(0);
                proof {
                    assert(zeros@ =~= Seq::new((i + 1) as nat, |j: int| 0u8));
                }
                i = i + 1;
            }
            r.push(zeros);
        },
    }
    proof {
        assert(r.deep_view().len() == 2);
        assert(r.deep_view()[0] == r@[0]@);
        assert(r.deep_view()[1] == r@[1]@);
    }
    r
}

/// The deposit identities of a principal: the account is the service's
/// principal with the caller-bound subaccount, and the bitcoin address is
/// the pay-to-pubkey-hash encoding of the account's derived public key,
/// which the caller passes in.
pub fn generate_addresses_from_principal(
    canister_id: &Vec<u8>,
    principal: &Vec<u8>,
    derived_public_key: &Vec<u8>,
    network: Network,
) -> (r: Addresses)
    ensures
        r.icrc1@.owner == canister_id@,
        r.icrc1@.subaccount == Option::Some(sha3_256_of(principal@)),
        r.icrc1@.wf(),
        r.bitcoin@ == spec_p2pkh_text(network, derived_public_key@),
{
    let subaccount = principal_to_subaccount(principal);
    let account = Account { owner: copy_bytes(canister_id), subaccount: Some(subaccount) };
    let bitcoin_address = account_to_p2pkh_address(network, derived_public_key);
    Addresses { icrc1: account, bitcoin: bitcoin_address }
}

} // verus!
