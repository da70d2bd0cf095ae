//! The values that a room session receives, stores and sends, each with its
//! mathematical view.

use crate::primitives::{be_value, Address, U256};
use rsa::{BigUint, PublicKeyParts};
use vstd::prelude::*;
use vstd::std_specs::cmp::PartialEqSpecImpl;

verus! {

/// One layer-encrypted (or, after the last round, plain) output.
pub type EncodedOutput = Vec<u8>;

/// A 65-byte signature over the outputs of a shuffle, as the contract takes it.
#[derive(Clone, Copy, Debug, Eq)]
pub struct Signature {
    pub bytes: [u8; 65],
}

impl View for Signature {
    type V = Seq<u8>;

    open spec fn view(&self) -> Seq<u8> {
        self.bytes@
    }
}

impl PartialEq for Signature {
    fn eq(&self, other: &Signature) -> (r: bool) {
        let mut i: usize = 0;
        while i < 65
            invariant
                i <= 65,
                forall|j: int| 0 <= j < i ==> self.bytes@[j] == other.bytes@[j],
            decreases 65 - i,
        {
            if self.bytes[i] != other.bytes[i] {
                return false;
            }
            i = i + 1;
        }
        assert(self.bytes =~= other.bytes);
        true
    }
}

impl PartialEqSpecImpl for Signature {
    open spec fn obeys_eq_spec() -> bool {
        true
    }

    open spec fn eq_spec(&self, other: &Signature) -> bool {
        *self == *other
    }
}

impl Signature {
    /// Two signatures are the same exactly when their bytes agree.
    pub proof fn lemma_view_injective(a: Signature, b: Signature)
        ensures
            (a@ == b@) <==> (a == b),
    {
        if a@ == b@ {
            assert(a.bytes =~= b.bytes);
        }
    }

    /// Reads a signature from exactly 65 bytes; `None` for any other length.
    pub fn from_slice(slice: &[u8]) -> (r: Option<Signature>)
        ensures
            r is Some <==> slice@.len() == 65,
            r matches Some(s) ==> s@ == slice@,
    {
        if slice.len() != 65 {
            return None;
        }
        let mut out = [0u8; 65];
        let mut i: usize = 0;
        while i < 65
            invariant
                slice@.len() == 65,
                i <= 65,
                forall|j: int| 0 <= j < i ==> out@[j] == slice@[j],
            decreases 65 - i,
        {
            out[i] = slice[i];
            i = i + 1;
        }
        let s = Signature { bytes: out };
        assert(s@ =~= slice@);
        Some(s)
    }
}

/// An RSA public key as its two big-endian byte strings.
#[derive(Debug, PartialEq, Eq)]
pub struct RsaPublicKey {
    pub modulus: Vec<u8>,
    pub exponent: Vec<u8>,
}

pub struct RsaPublicKeyView {
    pub modulus: Seq<u8>,
    pub exponent: Seq<u8>,
}

impl View for RsaPublicKey {
    type V = RsaPublicKeyView;

    open spec fn view(&self) -> RsaPublicKeyView {
        RsaPublicKeyView { modulus: self.modulus@, exponent: self.exponent@ }
    }
}

impl DeepView for RsaPublicKey {
    type V = RsaPublicKeyView;

    open spec fn deep_view(&self) -> RsaPublicKeyView {
        self@
    }
}

/// `bytes` without its leading zero bytes.
pub open spec fn trimmed(bytes: Seq<u8>) -> Seq<u8>
    decreases bytes.len(),
{
    if bytes.len() > 0 && bytes[0] == 0 {
        trimmed(bytes.skip(1))
    } else {
        bytes
    }
}

/// The shortest big-endian notation of the number that `bytes` is: no
/// leading zero byte, and the single byte zero for zero.
pub open spec fn canonical(bytes: Seq<u8>) -> Seq<u8> {
    if trimmed(bytes).len() == 0 {
        seq![0u8]
    } else {
        trimmed(bytes)
    }
}

/// The bounds that the `rsa` library sets on a public key: a modulus of at
/// most 4096 bits, and an exponent from 2 to 2^33 - 1.
pub open spec fn rsa_key_accepted(modulus: Seq<u8>, exponent: Seq<u8>) -> bool {
    &&& trimmed(modulus).len() <= 512
    &&& 2 <= be_value(exponent) <= 0x1_ffff_ffff
}

/// Calls `RsaPublicKey::new` of the `rsa` library on the two numbers that
/// the byte strings are in big-endian notation. As its source shows, the
/// library accepts the pair exactly within the bounds of
/// [`rsa_key_accepted`]; the key is handed back as the shortest big-endian
/// notation of each number, which is how the library writes them.
#[verifier::external_body]
fn rsa_public_key_new(modulus: &[u8], exponent: &[u8]) -> (r: Option<RsaPublicKey>)
    ensures
        r is Some <==> rsa_key_accepted(modulus@, exponent@),
        r matches Some(key) ==> key.modulus@ == canonical(modulus@) && key.exponent@ == canonical(
            exponent@,
        ),
{
    let n = BigUint::from_bytes_be(modulus);
    let e = BigUint::from_bytes_be(exponent);
    match rsa::RsaPublicKey::new(n, e) {
        Ok(key) => Some(
            RsaPublicKey { modulus: key.n().to_bytes_be(), exponent: key.e().to_bytes_be() },
        ),
        Err(_) => None,
    }
}

impl RsaPublicKey {
    /// The key with this modulus and exponent, both big-endian, if the pair
    /// is within the bounds for a public key.
    pub fn from_components(modulus: &[u8], exponent: &[u8]) -> (r: Option<RsaPublicKey>)
        ensures
            r is Some <==> rsa_key_accepted(modulus@, exponent@),
            r matches Some(key) ==> key@ == (RsaPublicKeyView {
                modulus: canonical(modulus@),
                exponent: canonical(exponent@),
            }),
    {
        rsa_public_key_new(modulus, exponent)
    }
}

impl Clone for RsaPublicKey {
    fn clone(&self) -> (r: RsaPublicKey)
        ensures
            r@ == self@,
    {
        RsaPublicKey { modulus: clone_bytes(&self.modulus), exponent: clone_bytes(&self.exponent) }
    }
}

/// A copy of a byte string.
pub fn clone_bytes(bytes: &Vec<u8>) -> (r: Vec<u8>)
    ensures
        r@ == bytes@,
{
    let mut r: Vec<u8> = Vec::new();
    let mut i: usize = 0;
    while i < bytes.len()
        invariant
            i <= bytes@.len(),
            r@ == bytes@.subrange(0, i as int),
        decreases bytes@.len() - i,
    {
        r.push(bytes[i]);
        assert(r@ =~= bytes@.subrange(0, i + 1));
        i = i + 1;
    }
    assert(r@ =~= bytes@);
    r
}

/// A copy of a list of outputs.
pub fn clone_outputs(outputs: &Vec<EncodedOutput>) -> (r: Vec<EncodedOutput>)
    ensures
        r.deep_view() == outputs.deep_view(),
{
    let mut r: Vec<EncodedOutput> = Vec::new();
    let mut i: usize = 0;
    while i < outputs.len()
        invariant
            i <= outputs@.len(),
            r@.len() == i,
            forall|j: int| 0 <= j < i ==> r@[j]@ == outputs@[j]@,
        decreases outputs@.len() - i,
    {
        r.push(clone_bytes(&outputs[i]));
        i = i + 1;
    }
    assert(r.deep_view() =~= outputs.deep_view());
    r
}

/// What the coordinator pushes into a participant's stream.
#[derive(Debug, PartialEq, Eq)]
pub enum ShuffleEvent {
    /// The keys to layer under, and the token for the calls made inside the room.
    ShuffleInfo { public_keys_list: Vec<RsaPublicKey>, shuffle_access_token: String },
    /// The outputs that the receiver has to peel one layer from.
    EncodedOutputs { outputs: Vec<EncodedOutput> },
    /// The plain outputs, to be signed by every participant.
    TxSigningOutputs { outputs: Vec<EncodedOutput> },
    /// The hash of the submitted transaction.
    ShuffleTxHash { tx_hash: Vec<u8> },
    /// The room has failed.
    Error { error: String },
}

pub enum ShuffleEventView {
    ShuffleInfo { public_keys_list: Seq<RsaPublicKeyView>, shuffle_access_token: Seq<char> },
    EncodedOutputs { outputs: Seq<Seq<u8>> },
    TxSigningOutputs { outputs: Seq<Seq<u8>> },
    ShuffleTxHash { tx_hash: Seq<u8> },
    Error { error: Seq<char> },
}

impl View for ShuffleEvent {
    type V = ShuffleEventView;

    open spec fn view(&self) -> ShuffleEventView {
        match self {
            ShuffleEvent::ShuffleInfo { public_keys_list, shuffle_access_token } => {
                ShuffleEventView::ShuffleInfo {
                    public_keys_list: public_keys_list.deep_view(),
                    shuffle_access_token: shuffle_access_token@,
                }
            },
            ShuffleEvent::EncodedOutputs { outputs } => ShuffleEventView::EncodedOutputs {
                outputs: outputs.deep_view(),
            },
            ShuffleEvent::TxSigningOutputs { outputs } => ShuffleEventView::TxSigningOutputs {
                outputs: outputs.deep_view(),
            },
            ShuffleEvent::ShuffleTxHash { tx_hash } => ShuffleEventView::ShuffleTxHash {
                tx_hash: tx_hash@,
            },
            ShuffleEvent::Error { error } => ShuffleEventView::Error { error: error@ },
        }
    }
}

/// One event on its way to one participant's stream.
#[derive(Debug, PartialEq, Eq)]
pub struct Delivery {
    pub utxo_id: U256,
    pub event: ShuffleEvent,
}

pub struct DeliveryView {
    pub utxo_id: U256,
    pub event: ShuffleEventView,
}

impl View for Delivery {
    type V = DeliveryView;

    open spec fn view(&self) -> DeliveryView {
        DeliveryView { utxo_id: self.utxo_id, event: self.event@ }
    }
}

impl DeepView for Delivery {
    type V = DeliveryView;

    open spec fn deep_view(&self) -> DeliveryView {
        self@
    }
}

/// One input of the transfer: a shuffled UTXO and its owner's signature.
#[derive(Clone, Copy, Debug, PartialEq, Eq)]
pub struct Input {
    pub utxo_id: U256,
    pub signature: Signature,
}

/// The call that the chain connector is asked to make when a shuffle is complete.
#[derive(Debug, PartialEq, Eq)]
pub struct TransferRequest {
    pub inputs: Vec<Input>,
    pub outputs: Vec<EncodedOutput>,
}

pub struct TransferRequestView {
    pub inputs: Seq<Input>,
    pub outputs: Seq<Seq<u8>>,
}

impl View for TransferRequest {
    type V = TransferRequestView;

    open spec fn view(&self) -> TransferRequestView {
        TransferRequestView { inputs: self.inputs@, outputs: self.outputs.deep_view() }
    }
}

/// Whether every output is an address: 20 bytes long.
pub open spec fn outputs_are_addresses(outputs: Seq<Seq<u8>>) -> bool {
    forall|i: int| 0 <= i < outputs.len() ==> (#[trigger] outputs[i]).len() == 20
}

/// The owners that a transfer pays out to: its outputs, read as addresses,
/// in their order. There are none if an output is not 20 bytes long.
pub fn transfer_owners(request: &TransferRequest) -> (r: Option<Vec<Address>>)
    ensures
        r is Some <==> outputs_are_addresses(request@.outputs),
        r matches Some(owners) ==> owners@.len() == request@.outputs.len() && forall|i: int|
            0 <= i < owners@.len() ==> (#[trigger] owners@[i])@ == request@.outputs[i],
{
    let mut owners: Vec<Address> = Vec::new();
    let mut i: usize = 0;
    while i < request.outputs.len()
        invariant
            i <= request.outputs@.len(),
            owners@.len() == i,
            forall|j: int| 0 <= j < i ==> (#[trigger] request@.outputs[j]).len() == 20,
            forall|j: int| 0 <= j < i ==> (#[trigger] owners@[j])@ == request@.outputs[j],
        decreases request.outputs@.len() - i,
    {
        assert(request@.outputs[i as int] == request.outputs@[i as int]@);
        match Address::from_slice(request.outputs[i].as_slice()) {
            None => {
                return None;
            },
            Some(owner) => {
                owners.push(owner);
            },
        }
        i = i + 1;
    }
    Some(owners)
}

} // verus!
