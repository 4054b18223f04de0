use vstd::prelude::*;
use vstd::string::StrSliceExecFns;

use crate::digests::{base58_decode, base58_encode, base58_of, ripemd160, ripemd160_of, sha256,
    sha256_of};
use crate::txmodel::p2pkh_script_bytes;
use crate::types::{bytes_eq, copy_bytes, Network, WalletError};

verus! {

/// Ghost mirror of an [`Address`].
#[verifier::ext_equal]
pub struct AddressV {
    pub prefix: u8,
    pub hash: Seq<u8>,
    pub text: Seq<char>,
}

/// A validated pay-to-pubkey-hash address: its network version byte, the
/// 20-byte public key hash, and its base58 text form.
pub struct Address {
    pub prefix: u8,
    pub hash: Vec<u8>,
    pub text: String,
}

impl View for Address {
    type V = AddressV;

    open spec fn view(&self) -> AddressV {
        AddressV { prefix: self.prefix, hash: self.hash@, text: self.text@ }
    }
}

impl AddressV {
    /// A well-formed address carries a full 20-byte public key hash and its
    /// canonical text.
    pub open spec fn wf(self) -> bool {
        &&& self.hash.len() == 20
        &&& self.text == base58_of(addr_payload(self.prefix, self.hash))
    }
}

impl Address {
    /// The pay-to-pubkey-hash script locking an output to this address.
    pub fn script_pubkey(&self) -> (r: Vec<u8>)
        ensures
            r@ == crate::txmodel::p2pkh_script(self@.hash),
    {
        p2pkh_script_bytes(&self.hash)
    }

    /// A copy of this address with the same view.
    pub fn duplicate(&self) -> (r: Address)
        ensures
            r@ == self@,
    {
        let r = Address {
            prefix: self.prefix,
            hash: copy_bytes(&self.hash),
            text: self.text.as_str().to_owned(),
        };
        proof {
            assert(r@ =~= self@);
        }
        r
    }
}

/// The version byte a pay-to-pubkey-hash address carries on this network.
pub open spec fn spec_network_prefix(n: Network) -> u8 {
    match n {
        Network::Mainnet => 0x00,
        Network::Testnet => 0x6f,
        Network::Regtest => 0x6f,
    }
}

/// The version byte a pay-to-pubkey-hash address carries on this network.
pub fn network_prefix(n: Network) -> (r: u8)
    ensures
        r == spec_network_prefix(n),
{
    match n {
        Network::Mainnet => 0x00,
        Network::Testnet => 0x6f,
        Network::Regtest => 0x6f,
    }
}

/// The 25 bytes behind a pay-to-pubkey-hash address: version byte, public
/// key hash, and the first four bytes of the double SHA-256 of the first
/// twenty-one as checksum.
pub open spec fn addr_payload(prefix: u8, hash: Seq<u8>) -> Seq<u8> {
    let body = seq![prefix] + hash;
    body + sha256_of(sha256_of(body)).take(4)
}

/// The 20-byte hash a public key is paid through: RIPEMD-160 of SHA-256.
pub open spec fn hash160_of(pubkey: Seq<u8>) -> Seq<u8> {
    ripemd160_of(sha256_of(pubkey))
}

/// The address text of a public key on a network.
pub open spec fn spec_p2pkh_text(n: Network, pubkey: Seq<u8>) -> Seq<char> {
    base58_of(addr_payload(spec_network_prefix(n), hash160_of(pubkey)))
}

/// Copies `v[from..to]`.
pub fn bytes_range(v: &Vec<u8>, from: usize, to: usize) -> (r: Vec<u8>)
    requires
        from <= to <= v@.len(),
    ensures
        r@ == v@.subrange(from as int, to as int),
{
    let mut r: Vec<u8> = Vec::new();
    let mut i: usize = from;
    while i < to
        invariant
            from <= i <= to <= v@.len(),
            r@ == v@.subrange(from as int, i as int),
        decreases to - i,
    {
        r.push(v[i]);
        proof {
            assert(v@.subrange(from as int, i + 1 as int) =~= v@.subrange(from as int, i as int)
                .push(v@[i as int]));
        }
        i = i + 1;
    }
    r
}

/// Encodes a derived public key as a pay-to-pubkey-hash address on the
/// network: version byte, RIPEMD-160 of SHA-256 of the key, checksum,
/// base58. The result renders a valid payload, so it validates for the
/// network it was made for.
pub fn account_to_p2pkh_address(network: Network, derived_public_key: &Vec<u8>) -> (r: String)
    ensures
        r@ == spec_p2pkh_text(network, derived_public_key@),
        exists|p: Seq<u8>|
            #[trigger] spec_valid_payload(p, spec_network_prefix(network)) && base58_of(p) == r@,
{
    let prefix = network_prefix(network);
    let sha = sha256(derived_public_key);
    let ripemd_pk = ripemd160(&sha);
    let mut raw_address: Vec<u8> = Vec::new();
    raw_address.push(prefix);
    crate::txmodel::push_bytes(&mut raw_address, &ripemd_pk);
    proof {
        assert(raw_address@ =~= seq![spec_network_prefix(network)] + hash160_of(
            derived_public_key@,
        ));
    }
    let check_full = sha256(&sha256(&raw_address));
    let checksum = bytes_range(&check_full, 0, 4);
    let ghost body_view = raw_address@;
    crate::txmodel::push_bytes(&mut raw_address, &checksum);
    proof {
        assert(raw_address@ =~= addr_payload(
            spec_network_prefix(network),
            hash160_of(derived_public_key@),
        ));
        assert(raw_address@.len() == 25);
        assert(raw_address@[0] == spec_network_prefix(network));
        assert(raw_address@.subrange(0, 21) =~= body_view);
        assert(raw_address@.subrange(21, 25) =~= sha256_of(sha256_of(body_view)).take(4));
        assert(spec_valid_payload(raw_address@, spec_network_prefix(network)));
    }
    base58_encode(&raw_address)
}

/// Builds the validated [`Address`] of a derived public key.
pub fn p2pkh_address_of_pubkey(network: Network, derived_public_key: &Vec<u8>) -> (r: Address)
    ensures
        r@.wf(),
        r@.prefix == spec_network_prefix(network),
        r@.hash == hash160_of(derived_public_key@),
        r@.text == spec_p2pkh_text(network, derived_public_key@),
{
    let sha = sha256(derived_public_key);
    let hash = ripemd160(&sha);
    let text = account_to_p2pkh_address(network, derived_public_key);
    Address { prefix: network_prefix(network), hash, text }
}

/// The 25 bytes behind a valid pay-to-pubkey-hash address on a network:
/// the network's version byte, twenty hash bytes, and the first four bytes
/// of the double SHA-256 of the first twenty-one as checksum.
pub open spec fn spec_valid_payload(p: Seq<u8>, prefix: u8) -> bool {
    &&& p.len() == 25
    &&& p[0] == prefix
    &&& p.subrange(21, 25) == sha256_of(sha256_of(p.subrange(0, 21))).take(4)
}

/// A base58 string has one preimage at most, so when that preimage is not
/// a valid payload, no valid payload renders to the string.
proof fn lemma_sole_preimage(s: Seq<char>, v: Seq<u8>, prefix: u8)
    requires
        s == base58_of(v),
        forall|w: Seq<u8>| base58_of(w) == s ==> w == v,
        !spec_valid_payload(v, prefix),
    ensures
        !(exists|p: Seq<u8>| #[trigger] spec_valid_payload(p, prefix) && base58_of(p) == s),
{
    if exists|p: Seq<u8>| #[trigger] spec_valid_payload(p, prefix) && base58_of(p) == s {
        let p = choose|p: Seq<u8>| #[trigger] spec_valid_payload(p, prefix) && base58_of(p) == s;
        assert(p == v);
    }
}

/// Parses and validates a pay-to-pubkey-hash address for the network:
/// base58, 25 bytes, the network's version byte, and a correct checksum.
/// Validation succeeds exactly on the base58 renderings of valid payloads
/// for the network.
pub fn address_validation(addr: &str, network: Network) -> (r: Result<Address, WalletError>)
    ensures
        match r {
            Result::Ok(a) => a@.wf() && a@.prefix == spec_network_prefix(network) && a@.text
                == addr@,
            Result::Err(e) => e is InvalidAddress,
        },
        r is Ok <==> exists|p: Seq<u8>|
            #[trigger] spec_valid_payload(p, spec_network_prefix(network)) && base58_of(p)
                == addr@,
        r matches Result::Ok(a) ==> forall|p: Seq<u8>|
            #[trigger] spec_valid_payload(p, spec_network_prefix(network)) && base58_of(p)
                == addr@ ==> p == addr_payload(a@.prefix, a@.hash),
{
    let expected_prefix = network_prefix(network);
    let payload = match base58_decode(addr) {
        Option::Some(p) => p,
        Option::None => {
            proof {
                if exists|p: Seq<u8>|
                    #[trigger] spec_valid_payload(p, spec_network_prefix(network)) && base58_of(p)
                        == addr@ {
                    let p = choose|p: Seq<u8>|
                        #[trigger] spec_valid_payload(p, spec_network_prefix(network))
                            && base58_of(p) == addr@;
                    assert(base58_of(p) != addr@);
                }
            }
            return Err(WalletError::InvalidAddress);
        },
    };
    if payload.len() != 25 {
        proof {
            lemma_sole_preimage(addr@, payload@, spec_network_prefix(network));
        }
        return Err(WalletError::InvalidAddress);
    }
    let prefix = payload[0];
    if prefix != expected_prefix {
        proof {
            lemma_sole_preimage(addr@, payload@, spec_network_prefix(network));
        }
        return Err(WalletError::InvalidAddress);
    }
    let body = bytes_range(&payload, 0, 21);
    let check_full = sha256(&sha256(&body));
    let expected = bytes_range(&check_full, 0, 4);
    let checksum = bytes_range(&payload, 21, 25);
    if !bytes_eq(&checksum, &expected) {
        proof {
            assert(expected@ =~= sha256_of(sha256_of(payload@.subrange(0, 21))).take(4));
            assert(!spec_valid_payload(payload@, spec_network_prefix(network)));
            lemma_sole_preimage(addr@, payload@, spec_network_prefix(network));
        }
        return Err(WalletError::InvalidAddress);
    }
    let hash = bytes_range(&payload, 1, 21);
    let a = Address { prefix, hash, text: addr.to_owned() };
    proof {
        let body_s = seq![a@.prefix] + a@.hash;
        assert(body_s =~= payload@.subrange(0, 21));
        assert(addr_payload(a@.prefix, a@.hash) =~= payload@);
        assert(a@.text == base58_of(addr_payload(a@.prefix, a@.hash)));
        assert(expected@ =~= sha256_of(sha256_of(payload@.subrange(0, 21))).take(4));
        assert(spec_valid_payload(payload@, spec_network_prefix(network)));
        assert(base58_of(payload@) == addr@);
        // the decoded payload is the string's only preimage
        assert forall|p: Seq<u8>|
            #[trigger] spec_valid_payload(p, spec_network_prefix(network)) && base58_of(p)
                == addr@ implies p == addr_payload(a@.prefix, a@.hash) by {
            assert(p == payload@);
        }
    }
    Ok(a)
}

} // verus!
