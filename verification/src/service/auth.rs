//! Who may join and who may speak: the signature that proves ownership of a
//! UTXO, and the two bearer tokens that carry a participant's identity.

use crate::primitives::{u64_be_bytes, u64_to_be_bytes, Address, U256};
use ethers_core::types::{Address as EthAddress, Signature as EthSignature, U256 as EthU256};
use jsonwebtoken::{DecodingKey, EncodingKey, Header, Validation};
use open_fastrlp::Decodable;
use serde_json::Value;
use std::time::SystemTime;
use uuid::Uuid;
use vstd::prelude::*;
use vstd::string::*;

verus! {

/// The seconds for which a token is good: a day.
pub const TOKEN_LIFETIME: u64 = 60 * 60 * 24;

/// The seconds by which the token library sets its reading of the clock back
/// before it compares an expiry with it.
pub const VALIDATION_LEEWAY: u64 = 60;

/// An ECDSA signature with its recovery value.
#[derive(Clone, Copy, Debug, PartialEq, Eq)]
pub struct EcdsaSignature {
    pub r: U256,
    pub s: U256,
    pub v: u64,
}

/// What is wrong with the signature of a join request.
#[derive(Clone, Copy, Debug, PartialEq, Eq, Structural)]
pub enum SignatureFault {
    /// The bytes are not the encoding of a signature.
    Undecodable,
    /// No signer can be recovered from the signature.
    Unrecoverable,
    /// The signer is not the owner of the UTXO.
    WrongSigner,
}

/// Why a join request was turned down.
#[derive(Clone, Copy, Debug, PartialEq, Eq, Structural)]
pub enum JoinSignatureError {
    InvalidSignature(SignatureFault),
    /// The request is dated after the present.
    InvalidTimestamp(u64),
}

/// The signature that `open_fastrlp` reads from `bytes`: a recovery value and
/// two 256-bit integers, each with its length prefix; `None` where it reports
/// an error.
pub uninterp spec fn rlp_signature(bytes: Seq<u8>) -> Option<EcdsaSignature>;

/// The address that `ethers_core` recovers from `signature` for `message`,
/// which it hashes as a personal message first; `None` where it reports an
/// error.
pub uninterp spec fn recovered_signer(signature: EcdsaSignature, message: Seq<u8>) -> Option<
    Address,
>;

/// Calls `Signature::decode` of `ethers_core`, by way of `open_fastrlp`, on
/// the bytes. The result is given the name [`rlp_signature`]: the decoder reads
/// nothing but its argument. Bytes left over after the signature are ignored,
/// as the decoder ignores them.
#[verifier::external_body]
fn decode_signature(bytes: &[u8]) -> (r: Option<EcdsaSignature>)
    ensures
        r == rlp_signature(bytes@),
{
    let mut rest = bytes;
    match EthSignature::decode(&mut rest) {
        Ok(sig) => Some(
            EcdsaSignature {
                r: U256 { bytes: sig.r.into() },
                s: U256 { bytes: sig.s.into() },
                v: sig.v,
            },
        ),
        Err(_) => None,
    }
}

/// Calls `Signature::recover` of `ethers_core` with the message as data. The
/// result is given the name [`recovered_signer`]: recovery is a function of
/// the signature and the message.
#[verifier::external_body]
fn recover_signer(signature: &EcdsaSignature, message: &[u8]) -> (r: Option<Address>)
    ensures
        r == recovered_signer(*signature, message@),
{
    let sig = EthSignature {
        r: EthU256::from(signature.r.bytes),
        s: EthU256::from(signature.s.bytes),
        v: signature.v,
    };
    match sig.recover(message) {
        Ok(address) => Some(Address { bytes: address.0 }),
        Err(_) => None,
    }
}

/// Reads the system clock with `SystemTime::now` and gives the whole seconds
/// since 1970, or `None` if the clock stands before 1970. Nothing is promised
/// of the value.
#[verifier::external_body]
pub(crate) fn unix_time() -> (r: Option<u64>) {
    match SystemTime::now().duration_since(SystemTime::UNIX_EPOCH) {
        Ok(elapsed) => Some(elapsed.as_secs()),
        Err(_) => None,
    }
}

/// The 40 bytes that a joiner signs: the UTXO id, then the timestamp, both
/// big-endian.
pub open spec fn join_message(utxo_id: U256, timestamp: u64) -> Seq<u8> {
    utxo_id@ + u64_be_bytes(timestamp)
}

/// Builds the message that a joiner signs.
pub fn join_message_bytes(utxo_id: &U256, timestamp: u64) -> (message: Vec<u8>)
    ensures
        message@ == join_message(*utxo_id, timestamp),
        message@.len() == 40,
{
    let mut message = utxo_id.to_big_endian();
    let stamp = u64_to_be_bytes(timestamp);
    let mut i: usize = 0;
    while i < 8
        invariant
            i <= 8,
            stamp@ == u64_be_bytes(timestamp),
            message@ == utxo_id@ + u64_be_bytes(timestamp).subrange(0, i as int),
        decreases 8 - i,
    {
        message.push(stamp[i]);
        assert(message@ =~= utxo_id@ + u64_be_bytes(timestamp).subrange(0, i + 1));
        i = i + 1;
    }
    assert(message@ =~= join_message(*utxo_id, timestamp));
    message
}

/// The verdict on a join request from what was read and recovered. The
/// signature must have decoded; the timestamp must not lie after `now`, the
/// seconds since 1970 (`None`: the clock stands before 1970, so every
/// timestamp lies ahead); and the signer that was recovered must be the
/// owner. The faults are looked for in this order.
pub open spec fn judged(
    decoded: Option<EcdsaSignature>,
    timestamp: u64,
    now: Option<u64>,
    signer: Option<Address>,
    owner: Address,
) -> Result<(), JoinSignatureError> {
    if decoded is None {
        Err(JoinSignatureError::InvalidSignature(SignatureFault::Undecodable))
    } else if now is None || timestamp > now->0 {
        Err(JoinSignatureError::InvalidTimestamp(timestamp))
    } else {
        match signer {
            None => Err(JoinSignatureError::InvalidSignature(SignatureFault::Unrecoverable)),
            Some(signer) => if signer == owner {
                Ok(())
            } else {
                Err(JoinSignatureError::InvalidSignature(SignatureFault::WrongSigner))
            },
        }
    }
}

/// The signer of a join request: the one recovered from its signature for
/// the join message, if the signature decodes.
pub open spec fn join_signer(utxo_id: U256, timestamp: u64, signature: Seq<u8>) -> Option<Address> {
    match rlp_signature(signature) {
        None => None,
        Some(decoded) => recovered_signer(decoded, join_message(utxo_id, timestamp)),
    }
}

/// The verdict on a join request at the time `now`: that of [`judged`] on
/// the signature as decoded and the signer as recovered for the join
/// message.
pub open spec fn join_verdict(
    utxo_id: U256,
    timestamp: u64,
    signature: Seq<u8>,
    owner: Address,
    now: Option<u64>,
) -> Result<(), JoinSignatureError> {
    judged(
        rlp_signature(signature),
        timestamp,
        now,
        join_signer(utxo_id, timestamp, signature),
        owner,
    )
}

/// Judges a join request from the signature as it was decoded and the
/// signer as it was recovered.
pub fn judge_join(
    decoded: Option<EcdsaSignature>,
    timestamp: u64,
    now: Option<u64>,
    signer: Option<Address>,
    owner: Address,
) -> (r: Result<(), JoinSignatureError>)
    ensures
        r == judged(decoded, timestamp, now, signer, owner),
        r is Ok <==> decoded is Some && now is Some && timestamp <= now->0 && signer == Some(owner),
{
    if decoded.is_none() {
        return Err(JoinSignatureError::InvalidSignature(SignatureFault::Undecodable));
    }
    match now {
        None => {
            return Err(JoinSignatureError::InvalidTimestamp(timestamp));
        },
        Some(now) => {
            if timestamp > now {
                return Err(JoinSignatureError::InvalidTimestamp(timestamp));
            }
        },
    }
    match signer {
        None => Err(JoinSignatureError::InvalidSignature(SignatureFault::Unrecoverable)),
        Some(signer) => {
            if signer == owner {
                Ok(())
            } else {
                Err(JoinSignatureError::InvalidSignature(SignatureFault::WrongSigner))
            }
        },
    }
}

/// Judges a join request as of the time `now`: decodes the signature,
/// recovers its signer for the join message, and judges as [`judge_join`]
/// does.
pub fn verify_join_signature_at(
    utxo_id: &U256,
    timestamp: u64,
    signature: &Vec<u8>,
    owner: Address,
    now: Option<u64>,
) -> (r: Result<(), JoinSignatureError>)
    ensures
        r == join_verdict(*utxo_id, timestamp, signature@, owner, now),
        r is Ok <==> rlp_signature(signature@) is Some && now is Some && timestamp <= now->0
            && join_signer(*utxo_id, timestamp, signature@) == Some(owner),
{
    let decoded = decode_signature(signature.as_slice());
    let signer = match decoded {
        None => None,
        Some(decoded) => {
            let message = join_message_bytes(utxo_id, timestamp);
            recover_signer(&decoded, message.as_slice())
        },
    };
    judge_join(decoded, timestamp, now, signer, owner)
}

/// Judges a join request as of the present: reads the clock, then decides as
/// [`verify_join_signature_at`] does. Whatever the clock says, a request is
/// accepted only if its signer is the owner.
pub fn verify_join_signature(
    utxo_id: &U256,
    timestamp: u64,
    signature: Vec<u8>,
    owner: Address,
) -> (r: Result<(), JoinSignatureError>)
    ensures
        exists|now: Option<u64>|
            r == #[trigger] join_verdict(*utxo_id, timestamp, signature@, owner, now),
        r is Ok ==> join_signer(*utxo_id, timestamp, signature@) == Some(owner),
        rlp_signature(signature@) is None ==> r == Err::<(), JoinSignatureError>(
            JoinSignatureError::InvalidSignature(SignatureFault::Undecodable),
        ),
{
    let now = unix_time();
    let r = verify_join_signature_at(utxo_id, timestamp, &signature, owner, now);
    assert(r == join_verdict(*utxo_id, timestamp, signature@, owner, now));
    r
}

/// What a token says before a room exists: the class and the UTXO.
#[derive(Clone, Copy, Debug, PartialEq, Eq)]
pub struct ShuffleAccessClaim {
    pub token: Address,
    pub amount: U256,
    pub utxo_id: U256,
    pub exp: u64,
}

/// What a token says inside a room: the UTXO and the room.
#[derive(Clone, Copy, Debug, PartialEq, Eq)]
pub struct RoomAccessClaim {
    pub utxo_id: U256,
    pub room_id: u128,
    pub exp: u64,
}

/// Why no token was made or none was accepted.
#[derive(Clone, Copy, Debug, PartialEq, Eq, Structural)]
pub enum TokenError {
    /// The clock stands before 1970, or the expiry would not fit 64 bits.
    Clock,
    /// The token could not be encoded.
    Encoding,
    /// The request has no authorization header.
    MissingHeader,
    /// The authorization header does not start with `Bearer `.
    InvalidHeader,
    /// The token was not signed with this key, has expired, or says something
    /// else than was asked for.
    InvalidToken,
}

/// The token that `jsonwebtoken` makes of a shuffle access claim under the
/// HMAC-SHA256 key `secret`; `None` where it reports an error.
pub uninterp spec fn shuffle_token(
    secret: Seq<char>,
    claim: ShuffleAccessClaim,
) -> Option<Seq<char>>;

/// The token that `jsonwebtoken` makes of a room access claim under the
/// HMAC-SHA256 key `secret`; `None` where it reports an error.
pub uninterp spec fn room_token(secret: Seq<char>, claim: RoomAccessClaim) -> Option<Seq<char>>;

/// Calls `jsonwebtoken::encode` with the default header on the claim, written
/// as the JSON object of its four fields in the forms that `ethers_core` gives
/// addresses and integers. The result is given the name [`shuffle_token`]:
/// the encoding and the HMAC depend on the key and the claim alone.
#[verifier::external_body]
fn encode_shuffle_claim(secret: &str, claim: &ShuffleAccessClaim) -> (r: Option<String>)
    ensures
        match r {
            Some(token) => shuffle_token(secret@, *claim) == Some(token@),
            None => shuffle_token(secret@, *claim) is None,
        },
{
    let mut fields = serde_json::Map::new();
    fields.insert("token".into(), serde_json::to_value(EthAddress::from(claim.token.bytes)).ok()?);
    fields.insert("amount".into(), serde_json::to_value(EthU256::from(claim.amount.bytes)).ok()?);
    fields.insert("utxo_id".into(), serde_json::to_value(EthU256::from(claim.utxo_id.bytes)).ok()?);
    fields.insert("exp".into(), claim.exp.into());
    jsonwebtoken::encode(&Header::default(), &fields, &EncodingKey::from_secret(secret.as_bytes())).ok()
}

/// Calls `jsonwebtoken::encode` with the default header on the claim, written
/// as the JSON object of its three fields, the room id as a UUID. The result
/// is given the name [`room_token`].
#[verifier::external_body]
fn encode_room_claim(secret: &str, claim: &RoomAccessClaim) -> (r: Option<String>)
    ensures
        match r {
            Some(token) => room_token(secret@, *claim) == Some(token@),
            None => room_token(secret@, *claim) is None,
        },
{
    let mut fields = serde_json::Map::new();
    fields.insert("utxo_id".into(), serde_json::to_value(EthU256::from(claim.utxo_id.bytes)).ok()?);
    fields.insert("room_id".into(), serde_json::to_value(Uuid::from_u128(claim.room_id)).ok()?);
    fields.insert("exp".into(), claim.exp.into());
    jsonwebtoken::encode(&Header::default(), &fields, &EncodingKey::from_secret(secret.as_bytes())).ok()
}

/// Calls `jsonwebtoken::decode` with the default validation, which checks the
/// HMAC-SHA256 signature and, against the system clock, the expiry; then
/// reads the four fields of a shuffle access claim. `None` where the library
/// reports an error or a field is missing or of another form. The outcome
/// depends on the clock, so nothing is promised of it. The library reads the
/// clock as seconds since 1970 and does not return if it stands before that;
/// the callers look at the clock first and do not call then.
#[verifier::external_body]
fn decode_shuffle_claim(secret: &str, token: &str) -> (r: Option<ShuffleAccessClaim>) {
    let key = DecodingKey::from_secret(secret.as_bytes());
    let c = jsonwebtoken::decode::<Value>(token, &key, &Validation::default()).ok()?.claims;
    let fields = vec![c["token"].clone(), c["amount"].clone(), c["utxo_id"].clone(), c["exp"].clone()];
    let (token, amount, utxo_id, exp): (EthAddress, EthU256, EthU256, u64) =
        serde_json::from_value(Value::Array(fields)).ok()?;
    Some(
        ShuffleAccessClaim {
            token: Address { bytes: token.0 },
            amount: U256 { bytes: amount.into() },
            utxo_id: U256 { bytes: utxo_id.into() },
            exp,
        },
    )
}

/// Calls `jsonwebtoken::decode` with the default validation, then reads the
/// three fields of a room access claim. `None` where the library reports an
/// error or a field is missing or of another form. The outcome depends on the
/// clock, so nothing is promised of it.
#[verifier::external_body]
fn decode_room_claim(secret: &str, token: &str) -> (r: Option<RoomAccessClaim>) {
    let key = DecodingKey::from_secret(secret.as_bytes());
    let c = jsonwebtoken::decode::<Value>(token, &key, &Validation::default()).ok()?.claims;
    let fields = vec![c["utxo_id"].clone(), c["room_id"].clone(), c["exp"].clone()];
    let (utxo_id, room_id, exp): (EthU256, Uuid, u64) =
        serde_json::from_value(Value::Array(fields)).ok()?;
    Some(RoomAccessClaim { utxo_id: U256 { bytes: utxo_id.into() }, room_id: room_id.as_u128(), exp })
}

/// Whether the clock can be set back by the leeway: it stands at least that
/// many seconds after the start of 1970. Before that the token library
/// cannot validate an expiry, and no token is handed to it.
fn clock_can_validate() -> bool {
    match unix_time() {
        None => false,
        Some(now) => now >= VALIDATION_LEEWAY,
    }
}

/// What follows `Bearer ` in an authorization header, if the header starts
/// with that word.
pub open spec fn bearer_of(header: Seq<char>) -> Option<Seq<char>> {
    if header.len() >= 7 && header.subrange(0, 7) == "Bearer "@ {
        Some(header.skip(7))
    } else {
        None
    }
}

/// Takes the token out of an authorization header.
pub fn bearer_token(header: &str) -> (r: Option<&str>)
    ensures
        match r {
            Some(token) => bearer_of(header@) == Some(token@),
            None => bearer_of(header@) is None,
        },
{
    let prefix = "Bearer ";
    proof {
        reveal_strlit("Bearer ");
    }
    let n = header.unicode_len();
    if n < 7 {
        return None;
    }
    let mut i: usize = 0;
    while i < 7
        invariant
            i <= 7,
            n == header@.len(),
            n >= 7,
            prefix@ == "Bearer "@,
            prefix@.len() == 7,
            forall|j: int| 0 <= j < i ==> header@[j] == prefix@[j],
        decreases 7 - i,
    {
        if header.get_char(i) != prefix.get_char(i) {
            assert(header@.subrange(0, 7)[i as int] != prefix@[i as int]);
            return None;
        }
        i = i + 1;
    }
    assert(header@.subrange(0, 7) =~= prefix@);
    let token = header.substring_char(7, n);
    assert(token@ =~= header@.skip(7));
    Some(token)
}

/// The claim of a shuffle access token made at `now`: it expires a day later.
pub open spec fn shuffle_claim_at(
    token: Address,
    amount: U256,
    utxo_id: U256,
    now: u64,
) -> ShuffleAccessClaim {
    ShuffleAccessClaim { token, amount, utxo_id, exp: (now + TOKEN_LIFETIME) as u64 }
}

/// The claim of a room access token made at `now`: it expires a day later.
pub open spec fn room_claim_at(room_id: u128, utxo_id: U256, now: u64) -> RoomAccessClaim {
    RoomAccessClaim { utxo_id, room_id, exp: (now + TOKEN_LIFETIME) as u64 }
}

/// What minting a token of a claim gives, from the clock's answer `now`.
pub open spec fn minted(
    now: Option<u64>,
    token: Option<Seq<char>>,
) -> Result<Seq<char>, TokenError> {
    if now is None || now->0 + TOKEN_LIFETIME > u64::MAX {
        Err(TokenError::Clock)
    } else {
        match token {
            Some(text) => Ok(text),
            None => Err(TokenError::Encoding),
        }
    }
}

/// The result of minting as a value of the model.
pub open spec fn token_view(r: Result<String, TokenError>) -> Result<Seq<char>, TokenError> {
    match r {
        Ok(text) => Ok(text@),
        Err(e) => Err(e),
    }
}

/// Mints and reads the service's tokens under one secret key.
pub struct TokensGenerator {
    secret_key: String,
}

impl Clone for TokensGenerator {
    fn clone(&self) -> (r: TokensGenerator)
        ensures
            r.secret() == self.secret(),
    {
        TokensGenerator { secret_key: self.secret_key.clone() }
    }
}

impl TokensGenerator {
    /// The key that the tokens are signed with.
    pub closed spec fn secret(&self) -> Seq<char> {
        self.secret_key@
    }

    pub fn new(secret_key: String) -> (r: TokensGenerator)
        ensures
            r.secret() == secret_key@,
    {
        TokensGenerator { secret_key }
    }

    /// The shuffle access token for a UTXO of the class `(token, amount)`,
    /// as minted at `now`.
    pub fn generate_shuffle_token_at(
        &self,
        token: Address,
        amount: U256,
        utxo_id: U256,
        now: Option<u64>,
    ) -> (r: Result<String, TokenError>)
        ensures
            token_view(r) == minted(
                now,
                shuffle_token(self.secret(), shuffle_claim_at(token, amount, utxo_id, now->0)),
            ),
    {
        let now = match now {
            None => {
                return Err(TokenError::Clock);
            },
            Some(now) => now,
        };
        let exp = match now.checked_add(TOKEN_LIFETIME) {
            None => {
                return Err(TokenError::Clock);
            },
            Some(exp) => exp,
        };
        let claim = ShuffleAccessClaim { token, amount, utxo_id, exp };
        match encode_shuffle_claim(self.secret_key.as_str(), &claim) {
            Some(text) => Ok(text),
            None => Err(TokenError::Encoding),
        }
    }

    /// Mints a shuffle access token that expires a day from now. Whatever
    /// the clock says, the token is the one for these three values.
    pub fn generate_shuffle_token(&self, token: Address, amount: U256, utxo_id: U256) -> (r: Result<
        String,
        TokenError,
    >)
        ensures
            exists|now: Option<u64>|
                token_view(r) == minted(
                    now,
                    #[trigger] shuffle_token(
                        self.secret(),
                        shuffle_claim_at(token, amount, utxo_id, now->0),
                    ),
                ),
    {
        let now = unix_time();
        let r = self.generate_shuffle_token_at(token, amount, utxo_id, now);
        assert(token_view(r) == minted(
            now,
            shuffle_token(self.secret(), shuffle_claim_at(token, amount, utxo_id, now->0)),
        ));
        r
    }

    /// The room access token for a participant of a room, as minted at `now`.
    pub fn generate_room_token_at(
        &self,
        room_id: u128,
        utxo_id: U256,
        now: Option<u64>,
    ) -> (r: Result<String, TokenError>)
        ensures
            token_view(r) == minted(
                now,
                room_token(self.secret(), room_claim_at(room_id, utxo_id, now->0)),
            ),
    {
        let now = match now {
            None => {
                return Err(TokenError::Clock);
            },
            Some(now) => now,
        };
        let exp = match now.checked_add(TOKEN_LIFETIME) {
            None => {
                return Err(TokenError::Clock);
            },
            Some(exp) => exp,
        };
        let claim = RoomAccessClaim { utxo_id, room_id, exp };
        match encode_room_claim(self.secret_key.as_str(), &claim) {
            Some(text) => Ok(text),
            None => Err(TokenError::Encoding),
        }
    }

    /// Mints a room access token that expires a day from now.
    pub fn generate_room_token(
        &self,
        room_id: u128,
        utxo_id: U256,
    ) -> (r: Result<String, TokenError>)
        ensures
            exists|now: Option<u64>|
                token_view(r) == minted(
                    now,
                    #[trigger] room_token(self.secret(), room_claim_at(room_id, utxo_id, now->0)),
                ),
    {
        let now = unix_time();
        let r = self.generate_room_token_at(room_id, utxo_id, now);
        assert(token_view(r) == minted(
            now,
            room_token(self.secret(), room_claim_at(room_id, utxo_id, now->0)),
        ));
        r
    }

    /// Reads a shuffle access token from the authorization header of a
    /// request. A missing header and one without `Bearer ` are told apart;
    /// whether the token itself is accepted lies with the token library and
    /// the clock. No token is accepted while the clock stands in the first
    /// minute of 1970 or before it.
    pub fn decode_shuffle_token(&self, authorization: Option<&str>) -> (r: Result<
        ShuffleAccessClaim,
        TokenError,
    >)
        ensures
            authorization is None <==> r == Err::<ShuffleAccessClaim, TokenError>(
                TokenError::MissingHeader,
            ),
            authorization is Some && bearer_of(authorization->0@) is None <==> r == Err::<
                ShuffleAccessClaim,
                TokenError,
            >(TokenError::InvalidHeader),
            authorization is Some && bearer_of(authorization->0@) is Some ==> r is Ok || r == Err::<
                ShuffleAccessClaim,
                TokenError,
            >(TokenError::InvalidToken),
    {
        let header = match authorization {
            None => {
                return Err(TokenError::MissingHeader);
            },
            Some(header) => header,
        };
        let token = match bearer_token(header) {
            None => {
                return Err(TokenError::InvalidHeader);
            },
            Some(token) => token,
        };
        if !clock_can_validate() {
            return Err(TokenError::InvalidToken);
        }
        match decode_shuffle_claim(self.secret_key.as_str(), token) {
            Some(claim) => Ok(claim),
            None => Err(TokenError::InvalidToken),
        }
    }

    /// Reads a room access token from the authorization header of a request.
    pub fn decode_room_token(&self, authorization: Option<&str>) -> (r: Result<
        RoomAccessClaim,
        TokenError,
    >)
        ensures
            authorization is None <==> r == Err::<RoomAccessClaim, TokenError>(
                TokenError::MissingHeader,
            ),
            authorization is Some && bearer_of(authorization->0@) is None <==> r == Err::<
                RoomAccessClaim,
                TokenError,
            >(TokenError::InvalidHeader),
            authorization is Some && bearer_of(authorization->0@) is Some ==> r is Ok || r == Err::<
                RoomAccessClaim,
                TokenError,
            >(TokenError::InvalidToken),
    {
        let header = match authorization {
            None => {
                return Err(TokenError::MissingHeader);
            },
            Some(header) => header,
        };
        let token = match bearer_token(header) {
            None => {
                return Err(TokenError::InvalidHeader);
            },
            Some(token) => token,
        };
        if !clock_can_validate() {
            return Err(TokenError::InvalidToken);
        }
        match decode_room_claim(self.secret_key.as_str(), token) {
            Some(claim) => Ok(claim),
            None => Err(TokenError::InvalidToken),
        }
    }
}

} // verus!
