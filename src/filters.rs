//! Which account headers go to the accounts table.
use crate::parser::{AccountHeader, HeaderView};
use crate::pubkey::{bytes32_eq, decode_b58_32, opt_key_from_text, opt_key_view, Pubkey};
use vstd::prelude::*;

verus! {

/// Filter settings as given by the user: optional base58 texts.
#[derive(Clone, Debug)]
pub struct Filters {
    pub owner: Option<String>,
    pub hash: Option<String>,
    pub pubkey: Option<String>,
    pub include_dead: bool,
}

/// A filter with its keys decoded. A header matches when it is alive (or dead
/// headers are included) and every present field equals the header's.
#[derive(Clone, Copy, Debug)]
pub struct ResolvedFilters {
    pub owner: Option<Pubkey>,
    pub hash: Option<[u8; 32]>,
    pub pubkey: Option<Pubkey>,
    pub include_dead: bool,
}

/// The characters of an optional owned text.
pub open spec fn opt_string_view(s: Option<String>) -> Option<Seq<char>> {
    match s {
        Some(t) => Some(t@),
        None => None,
    }
}

/// The bytes of an optional 32-byte array.
pub open spec fn opt_bytes_view(h: Option<[u8; 32]>) -> Option<Seq<u8>> {
    match h {
        Some(a) => Some(a@),
        None => None,
    }
}

/// Whether an optional wanted value is absent or equal to the actual one.
pub open spec fn field_ok(want: Option<Seq<u8>>, actual: Seq<u8>) -> bool {
    match want {
        None => true,
        Some(w) => w == actual,
    }
}

impl Filters {
    /// Decodes the three optional keys, the first failure (owner, then hash,
    /// then pubkey) being the error.
    pub fn resolve(&self) -> (r: Result<ResolvedFilters, crate::pubkey::KeyError>)
        ensures
            r is Ok <==> (opt_key_from_text(opt_string_view(self.owner)) is Ok
                && opt_key_from_text(opt_string_view(self.hash)) is Ok
                && opt_key_from_text(opt_string_view(self.pubkey)) is Ok),
            r is Ok ==> {
                &&& opt_key_view(r->Ok_0.owner) == opt_key_from_text(opt_string_view(self.owner))->Ok_0
                &&& opt_bytes_view(r->Ok_0.hash) == opt_key_from_text(opt_string_view(self.hash))->Ok_0
                &&& opt_key_view(r->Ok_0.pubkey) == opt_key_from_text(opt_string_view(self.pubkey))->Ok_0
                &&& r->Ok_0.include_dead == self.include_dead
            },
            opt_key_from_text(opt_string_view(self.owner)) is Err ==> r == Err::<ResolvedFilters, _>(
                opt_key_from_text(opt_string_view(self.owner))->Err_0),
            opt_key_from_text(opt_string_view(self.owner)) is Ok && opt_key_from_text(
                opt_string_view(self.hash),
            ) is Err ==> r == Err::<ResolvedFilters, _>(
                opt_key_from_text(opt_string_view(self.hash))->Err_0),
            opt_key_from_text(opt_string_view(self.owner)) is Ok && opt_key_from_text(
                opt_string_view(self.hash),
            ) is Ok && opt_key_from_text(opt_string_view(self.pubkey)) is Err
                ==> r == Err::<ResolvedFilters, _>(
                opt_key_from_text(opt_string_view(self.pubkey))->Err_0),
    {
        let owner = match &self.owner {
            None => None,
            Some(t) => match Pubkey::from_b58(t.as_str()) {
                Ok(k) => Some(k),
                Err(e) => return Err(e),
            },
        };
        let hash = match decode_opt_b58_32(&self.hash) {
            Ok(h) => h,
            Err(e) => return Err(e),
        };
        let pubkey = match &self.pubkey {
            None => None,
            Some(t) => match Pubkey::from_b58(t.as_str()) {
                Ok(k) => Some(k),
                Err(e) => return Err(e),
            },
        };
        Ok(ResolvedFilters { owner, hash, pubkey, include_dead: self.include_dead })
    }
}

/// Decodes an optional base58 text standing for 32 bytes.
fn decode_opt_b58_32(input: &Option<String>) -> (r: Result<Option<[u8; 32]>, crate::pubkey::KeyError>)
    ensures
        r is Ok <==> opt_key_from_text(opt_string_view(*input)) is Ok,
        r is Ok ==> opt_bytes_view(r->Ok_0) == opt_key_from_text(opt_string_view(*input))->Ok_0,
        r is Err ==> r->Err_0 == opt_key_from_text(opt_string_view(*input))->Err_0,
{
    match input {
        None => Ok(None),
        Some(s) => match decode_b58_32(s.as_str()) {
            Ok(a) => Ok(Some(a)),
            Err(e) => Err(e),
        },
    }
}

impl ResolvedFilters {
    /// Whether a header passes this filter.
    pub open spec fn accepts(self, h: HeaderView) -> bool {
        &&& (self.include_dead || h.lamports != 0)
        &&& field_ok(opt_key_view(self.owner), h.owner)
        &&& field_ok(opt_bytes_view(self.hash), h.hash)
        &&& field_ok(opt_key_view(self.pubkey), h.pubkey)
    }

    /// Whether `header` passes this filter.
    pub fn matches(&self, header: &AccountHeader) -> (r: bool)
        ensures
            r == self.accepts(header@),
    {
        if !self.include_dead && header.lamports == 0 {
            return false;
        }
        let owner = match &self.owner {
            None => true,
            Some(o) => bytes32_eq(&o.0, &header.owner.0),
        };
        let hash = match &self.hash {
            None => true,
            Some(h) => bytes32_eq(h, &header.hash),
        };
        let pubkey = match &self.pubkey {
            None => true,
            Some(pk) => bytes32_eq(&pk.0, &header.pubkey.0),
        };
        owner && hash && pubkey
    }
}

} // verus!
