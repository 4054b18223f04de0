use vstd::prelude::*;
use vstd::string::StrSliceExecFns;

use crate::types::Network;

verus! {

/// The signing oracle's extended public key: the compressed key and the
/// chain code the per-account keys are derived against.
pub struct EcdsaPublicKey {
    pub public_key: Vec<u8>,
    pub chain_code: Vec<u8>,
}

/// Names the oracle key the service signs with; the curve is always
/// secp256k1.
pub struct EcdsaKeyId {
    pub name: String,
}

/// The service's configuration: the network it runs against, the oracle
/// key's name, and the cached extended public key. Set once at
/// initialization; only the key cache is filled in later.
pub struct Config {
    pub bitcoin_network: Option<Network>,
    pub keyname: Option<String>,
    pub ecdsa_public_key: Option<EcdsaPublicKey>,
}

/// The oracle key name each network uses.
pub fn keyname_for_network(network: Network) -> (r: String)
    ensures
        network is Mainnet ==> r@ == "key_1"@,
        network is Testnet ==> r@ == "test_key_1"@,
        network is Regtest ==> r@ == "dfx_test_key"@,
{
    match network {
        Network::Mainnet => "key_1".to_owned(),
        Network::Testnet => "test_key_1".to_owned(),
        Network::Regtest => "dfx_test_key".to_owned(),
    }
}

impl Config {
    /// An unconfigured service.
    pub fn new() -> (r: Config)
        ensures
            r.bitcoin_network is None,
            r.keyname is None,
            r.ecdsa_public_key is None,
    {
        Config { bitcoin_network: None, keyname: None, ecdsa_public_key: None }
    }

    /// The configured network; the service must be initialized first.
    pub fn bitcoin_network(&self) -> (r: Network)
        requires
            self.bitcoin_network is Some,
        ensures
            self.bitcoin_network == Some(r),
    {
        match self.bitcoin_network {
            Some(n) => n,
            None => {
                proof {
                    assert(false);
                }
                unreached()
            },
        }
    }

    /// The configured key name; the service must be initialized first.
    pub fn keyname(&self) -> (r: String)
        requires
            self.keyname is Some,
        ensures
            r@ == self.keyname->0@,
    {
        match &self.keyname {
            Some(k) => k.as_str().to_owned(),
            None => {
                proof {
                    assert(false);
                }
                unreached()
            },
        }
    }

    /// The cached extended public key; it must have been fetched.
    pub fn ecdsa_public_key(&self) -> (r: EcdsaPublicKey)
        requires
            self.ecdsa_public_key is Some,
        ensures
            r.public_key@ == self.ecdsa_public_key->0.public_key@,
            r.chain_code@ == self.ecdsa_public_key->0.chain_code@,
    {
        match &self.ecdsa_public_key {
            Some(k) => EcdsaPublicKey {
                public_key: crate::types::copy_bytes(&k.public_key),
                chain_code: crate::types::copy_bytes(&k.chain_code),
            },
            None => {
                proof {
                    assert(false);
                }
                unreached()
            },
        }
    }

    /// The oracle key identifier built from the configured name.
    pub fn ecdsakeyid(&self) -> (r: EcdsaKeyId)
        requires
            self.keyname is Some,
        ensures
            r.name@ == self.keyname->0@,
    {
        EcdsaKeyId { name: self.keyname() }
    }
}

} // verus!
