//! The 32-byte account key and its base58 text form.
use crate::bytes::read_bytes32;
use vstd::prelude::*;

verus! {

/// A 32-byte public key. Equality is byte equality.
#[derive(Clone, Copy, Debug, Eq, Hash)]
pub struct Pubkey(pub [u8; 32]);

/// Bytes that base58 text decodes to (bitcoin alphabet), or `None` where the
/// text holds a character outside that alphabet.
pub uninterp spec fn b58_decoded(s: Seq<char>) -> Option<Seq<u8>>;

/// Base58 text (bitcoin alphabet) of a byte string.
pub uninterp spec fn b58_encoded(b: Seq<u8>) -> Seq<char>;

#[verifier::external_type_specification]
#[verifier::external_body]
pub struct ExB58DecodeError(bs58::decode::Error);

/// Relies on `bs58::decode(..).into_vec()`: the decoded bytes, or an error
/// where the text is not base58. The output grows as needed, so no length fails.
#[verifier::external_body]
fn b58_decode(s: &str) -> (r: Result<Vec<u8>, bs58::decode::Error>)
    ensures
        r is Ok <==> b58_decoded(s@) is Some,
        r is Ok ==> r->Ok_0@ == b58_decoded(s@)->Some_0,
{
    bs58::decode(s).into_vec()
}

/// Relies on `bs58::encode(..).into_string()`: the base58 text of the bytes.
#[verifier::external_body]
pub(crate) fn b58_encode(b: &[u8]) -> (r: String)
    ensures
        r@ == b58_encoded(b@),
{
    bs58::encode(b).into_string()
}

/// Why a text does not name a 32-byte key.
#[derive(Clone, Copy, Debug, PartialEq, Eq)]
pub enum KeyError {
    /// The text holds a character outside the base58 alphabet.
    NotBase58,
    /// The text decodes to `len` bytes instead of 32.
    WrongLength { len: usize },
}

/// What a base58 text means as a 32-byte value.
pub open spec fn key_from_text(s: Seq<char>) -> Result<Seq<u8>, KeyError> {
    match b58_decoded(s) {
        None => Err(KeyError::NotBase58),
        Some(b) => if b.len() == 32 {
            Ok(b)
        } else {
            Err(KeyError::WrongLength { len: b.len() as usize })
        },
    }
}

/// What an optional base58 text means as an optional 32-byte value.
pub open spec fn opt_key_from_text(s: Option<Seq<char>>) -> Result<Option<Seq<u8>>, KeyError> {
    match s {
        None => Ok(None),
        Some(t) => match key_from_text(t) {
            Ok(b) => Ok(Some(b)),
            Err(e) => Err(e),
        },
    }
}

/// Decodes base58 text that must stand for exactly 32 bytes.
pub fn decode_b58_32(s: &str) -> (r: Result<[u8; 32], KeyError>)
    ensures
        r is Ok <==> key_from_text(s@) is Ok,
        r is Ok ==> r->Ok_0@ == key_from_text(s@)->Ok_0,
        r is Err ==> r->Err_0 == key_from_text(s@)->Err_0,
{
    match b58_decode(s) {
        Err(_) => Err(KeyError::NotBase58),
        Ok(v) => {
            if v.len() == 32 {
                let a = read_bytes32(v.as_slice(), 0);
                assert(a@ =~= v@);
                Ok(a)
            } else {
                Err(KeyError::WrongLength { len: v.len() })
            }
        },
    }
}

/// Bytes of the token program's key.
pub open spec fn token_program_key() -> Seq<u8> {
    seq![
        6u8, 221, 246, 225, 215, 101, 161, 147, 217, 203, 225, 70, 206, 235, 121, 172, 28, 180,
        133, 237, 95, 91, 55, 145, 58, 140, 245, 133, 126, 255, 0, 169,
    ]
}

/// The characters of an optional text.
pub open spec fn opt_str_view(s: Option<&str>) -> Option<Seq<char>> {
    match s {
        Some(t) => Some(t@),
        None => None,
    }
}

/// The bytes of an optional key.
pub open spec fn opt_key_view(k: Option<Pubkey>) -> Option<Seq<u8>> {
    match k {
        Some(p) => Some(p@),
        None => None,
    }
}

impl View for Pubkey {
    type V = Seq<u8>;

    open spec fn view(&self) -> Seq<u8> {
        self.0@
    }
}

impl Pubkey {
    /// The token program, owner of mint and token-account records.
    pub fn token_program() -> (r: Pubkey)
        ensures
            r@ == token_program_key(),
    {
        let r = Pubkey(
            [
                6, 221, 246, 225, 215, 101, 161, 147, 217, 203, 225, 70, 206, 235, 121, 172, 28,
                180, 133, 237, 95, 91, 55, 145, 58, 140, 245, 133, 126, 255, 0, 169,
            ],
        );
        assert(r@ =~= token_program_key());
        r
    }

    /// Decodes a base58 key.
    pub fn from_b58(s: &str) -> (r: Result<Pubkey, KeyError>)
        ensures
            r is Ok <==> key_from_text(s@) is Ok,
            r is Ok ==> r->Ok_0@ == key_from_text(s@)->Ok_0,
            r is Err ==> r->Err_0 == key_from_text(s@)->Err_0,
    {
        match decode_b58_32(s) {
            Ok(a) => Ok(Pubkey(a)),
            Err(e) => Err(e),
        }
    }

    /// Decodes an optional base58 key; no text gives `Ok(None)`.
    pub fn try_from_b58(s: Option<&str>) -> (r: Result<Option<Pubkey>, KeyError>)
        ensures
            r is Ok <==> opt_key_from_text(opt_str_view(s)) is Ok,
            r is Ok ==> opt_key_view(r->Ok_0) == opt_key_from_text(opt_str_view(s))->Ok_0,
            r is Err ==> r->Err_0 == opt_key_from_text(opt_str_view(s))->Err_0,
    {
        match s {
            None => Ok(None),
            Some(t) => match Pubkey::from_b58(t) {
                Ok(k) => Ok(Some(k)),
                Err(e) => Err(e),
            },
        }
    }

    /// The key as base58 text.
    pub fn to_string(&self) -> (r: String)
        ensures
            r@ == b58_encoded(self@),
    {
        b58_encode(self.0.as_slice())
    }

    /// The key's bytes.
    pub fn as_bytes(&self) -> (r: &[u8; 32])
        ensures
            r@ == self@,
    {
        &self.0
    }

    /// Whether every byte of the key is zero.
    pub fn is_zero(&self) -> (r: bool)
        ensures
            r == (forall|i: int| 0 <= i < 32 ==> self@[i] == 0),
    {
        let mut i: usize = 0;
        while i < 32
            invariant
                0 <= i <= 32,
                self@.len() == 32,
                forall|j: int| 0 <= j < i ==> self@[j] == 0,
            decreases 32 - i,
        {
            if self.0[i] != 0 {
                return false;
            }
            i = i + 1;
        }
        true
    }
}

/// Byte-wise equality of two 32-byte arrays.
pub fn bytes32_eq(a: &[u8; 32], b: &[u8; 32]) -> (r: bool)
    ensures
        r == (a@ == b@),
{
    let mut i: usize = 0;
    while i < 32
        invariant
            0 <= i <= 32,
            a@.len() == 32,
            b@.len() == 32,
            forall|j: int| 0 <= j < i ==> a@[j] == b@[j],
        decreases 32 - i,
    {
        if a[i] != b[i] {
            return false;
        }
        i = i + 1;
    }
    assert(a@ =~= b@);
    true
}

impl PartialEq for Pubkey {
    fn eq(&self, other: &Pubkey) -> (r: bool) {
        bytes32_eq(&self.0, &other.0)
    }
}

impl vstd::std_specs::cmp::PartialEqSpecImpl for Pubkey {
    open spec fn obeys_eq_spec() -> bool {
        true
    }

    open spec fn eq_spec(&self, other: &Pubkey) -> bool {
        self@ == other@
    }
}

impl From<[u8; 32]> for Pubkey {
    fn from(bytes: [u8; 32]) -> (r: Pubkey) {
        Pubkey(bytes)
    }
}

impl vstd::std_specs::convert::FromSpecImpl<[u8; 32]> for Pubkey {
    open spec fn obeys_from_spec() -> bool {
        true
    }

    open spec fn from_spec(bytes: [u8; 32]) -> Pubkey {
        Pubkey(bytes)
    }
}

impl AsRef<[u8]> for Pubkey {
    fn as_ref(&self) -> &[u8] {
        self.0.as_slice()
    }
}

} // verus!
