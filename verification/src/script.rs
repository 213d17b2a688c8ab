//! Addresses and the output scripts that pay to them.

use bitcoin::hashes;
use bitcoin::util::address;
use vstd::prelude::*;

use crate::primitives::{KeychainKind, Network};

verus! {

/// What an address commits to.
#[derive(Debug)]
pub enum Payload {
    /// The hash of a public key.
    PubkeyHash([u8; 20]),
    /// The hash of a redeem script.
    ScriptHash([u8; 20]),
    /// A witness program and its version.
    WitnessProgram { version: u8, program: Vec<u8> },
}

impl Payload {
    /// Is this a payload that an address can have? A witness version goes up to
    /// 16, and a witness program has 2 to 40 bytes.
    pub open spec fn valid(self) -> bool {
        match self {
            Payload::WitnessProgram { version, program } => version <= 16 && 2 <= program@.len()
                <= 40,
            _ => true,
        }
    }

    /// The script that pays to this payload.
    pub open spec fn script(self) -> Seq<u8> {
        match self {
            // OP_DUP OP_HASH160 <hash> OP_EQUALVERIFY OP_CHECKSIG
            Payload::PubkeyHash(hash) => seq![0x76u8, 0xa9u8, 0x14u8] + hash@ + seq![
                0x88u8,
                0xacu8,
            ],
            // OP_HASH160 <hash> OP_EQUAL
            Payload::ScriptHash(hash) => seq![0xa9u8, 0x14u8] + hash@ + seq![0x87u8],
            // OP_0 or OP_1 .. OP_16, then <program>
            Payload::WitnessProgram { version, program } => seq![
                if version == 0 {
                    0u8
                } else {
                    (0x50 + version) as u8
                },
                program@.len() as u8,
            ] + program@,
        }
    }
}

/// The output script of `payload`, from `bitcoin`'s `Payload::script_pubkey`.
///
/// The contract claims the bytes of the standard scripts: the three templates
/// that [`Payload::script`] spells out.
#[verifier::external_body]
fn payload_script(payload: &Payload) -> (res: Vec<u8>)
    requires
        payload.valid(),
    ensures
        res@ == payload.script(),
{
    let outside = match payload {
        Payload::PubkeyHash(hash) => address::Payload::PubkeyHash(hashes::Hash::from_inner(*hash)),
        Payload::ScriptHash(hash) => address::Payload::ScriptHash(hashes::Hash::from_inner(*hash)),
        Payload::WitnessProgram { version, program } => address::Payload::WitnessProgram {
            version: address::WitnessVersion::try_from(*version).expect("valid"),
            program: program.clone(),
        },
    };
    outside.script_pubkey().into_bytes()
}

/// An address on a network.
#[derive(Debug)]
pub struct Address {
    network: Network,
    payload: Payload,
}

impl Address {
    #[verifier::type_invariant]
    pub closed spec fn valid(self) -> bool {
        self.payload.valid()
    }

    /// The network that the address is for.
    pub closed spec fn spec_network(self) -> Network {
        self.network
    }

    /// What the address commits to.
    pub closed spec fn spec_payload(self) -> Payload {
        self.payload
    }

    /// The script of an output that pays to the address.
    pub open spec fn script(self) -> Seq<u8> {
        self.spec_payload().script()
    }

    /// The address with the given payload, if there is one.
    pub fn new(network: Network, payload: Payload) -> (res: Option<Self>)
        ensures
            res is Some <==> payload.valid(),
            res matches Some(address) ==> address.spec_network() == network
                && address.spec_payload() == payload,
    {
        let valid = match &payload {
            Payload::WitnessProgram { version, program } => *version <= 16 && 2 <= program.len()
                && program.len() <= 40,
            _ => true,
        };
        if valid {
            Some(Address { network, payload })
        } else {
            None
        }
    }

    /// The network that the address is for.
    pub fn network(&self) -> (res: Network)
        ensures
            res == self.spec_network(),
    {
        self.network
    }

    /// What the address commits to.
    pub fn payload(&self) -> (res: &Payload)
        ensures
            *res == self.spec_payload(),
    {
        &self.payload
    }

    /// The script of an output that pays to the address.
    pub fn script_pubkey(&self) -> (res: Vec<u8>)
        ensures
            res@ == self.script(),
    {
        proof {
            use_type_invariant(self);
        }
        payload_script(&self.payload)
    }
}

/// An address that a wallet derived, and where it stands in the wallet.
#[derive(Debug)]
pub struct AddressInfo {
    pub index: u32,
    pub address: Address,
    pub keychain: KeychainKind,
}

/// Are the two scripts the same?
pub fn same_script(left: &Vec<u8>, right: &Vec<u8>) -> (res: bool)
    ensures
        res == (left@ == right@),
{
    if left.len() != right.len() {
        return false;
    }
    for i in 0..left.len()
        invariant
            left@.len() == right@.len(),
            forall|j: int| 0 <= j < i ==> left@[j] == right@[j],
    {
        if left[i] != right[i] {
            assert(left@[i as int] != right@[i as int]);
            return false;
        }
    }
    assert(left@ =~= right@);
    true
}

/// The same script once more.
pub fn copy_script(script: &Vec<u8>) -> (res: Vec<u8>)
    ensures
        res@ == script@,
{
    let mut res: Vec<u8> = Vec::new();
    for i in 0..script.len()
        invariant
            res@ =~= script@.take(i as int),
    {
        res.push(script[i]);
    }
    res
}

} // verus!
