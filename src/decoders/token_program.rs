//! On-wire record shapes owned by the token program, and the batching rule
//! that its decoders share.
use crate::bytes::{bytes32_at, le_u32_at, le_u64_at, read_bytes32, read_u32_le, read_u64_le};
use crate::pubkey::Pubkey;
use vstd::prelude::*;

pub mod mint;
pub mod token_account;

pub use mint::MintDecoder;
pub use token_account::TokenAccountDecoder;

verus! {

/// Number of buffered rows at which a decoder hands out a batch.
pub const BATCH_THRESHOLD: usize = 8192;

/// The buffered rows after one more row is appended, and the batch handed
/// out: all rows once `BATCH_THRESHOLD` are buffered, which empties the buffer.
pub open spec fn after_append<R>(buffered: Seq<R>, row: R) -> (Seq<R>, Option<Seq<R>>) {
    let all = buffered.push(row);
    if all.len() >= BATCH_THRESHOLD {
        (seq![], Some(all))
    } else {
        (all, None)
    }
}

/// The buffered rows and the batches handed out after `rows` are appended
/// one by one to an empty buffer.
pub open spec fn append_all<R>(rows: Seq<R>) -> (Seq<R>, Seq<Seq<R>>)
    decreases rows.len(),
{
    if rows.len() == 0 {
        (seq![], seq![])
    } else {
        let before = append_all(rows.drop_last());
        let step = after_append(before.0, rows.last());
        (
            step.0,
            match step.1 {
                Some(b) => before.1.push(b),
                None => before.1,
            },
        )
    }
}

/// Starting from an empty buffer, fewer than `BATCH_THRESHOLD` appends hand
/// out nothing and keep every row buffered; exactly `BATCH_THRESHOLD` appends
/// hand out one batch of all the rows and leave the buffer empty.
pub proof fn lemma_batch_threshold<R>(rows: Seq<R>)
    requires
        rows.len() <= BATCH_THRESHOLD,
    ensures
        rows.len() < BATCH_THRESHOLD ==> append_all(rows) == (rows, Seq::<Seq<R>>::empty()),
        rows.len() == BATCH_THRESHOLD ==> append_all(rows) == (Seq::<R>::empty(), seq![rows]),
    decreases rows.len(),
{
    if rows.len() > 0 {
        lemma_batch_threshold(rows.drop_last());
        assert(rows.drop_last().push(rows.last()) =~= rows);
        if rows.len() == BATCH_THRESHOLD {
            assert(seq![] + seq![rows] =~= seq![rows]);
            assert(Seq::<Seq<R>>::empty().push(rows) =~= seq![rows]);
        }
    } else {
        assert(rows =~= Seq::<R>::empty());
    }
}

/// The buffered rows after a flush, and the batch handed out: everything
/// buffered, or nothing when no row is.
pub open spec fn after_flush<R>(buffered: Seq<R>) -> (Seq<R>, Option<Seq<R>>) {
    if buffered.len() == 0 {
        (seq![], None)
    } else {
        (seq![], Some(buffered))
    }
}

/// A 32-byte key behind a 4-byte little-endian tag: present when the tag is 1.
#[derive(Clone, Copy, Debug)]
pub struct COptionPubkey {
    pub tag: u32,
    pub value: Pubkey,
}

/// The optional key stored at `s[at .. at + 36]`.
pub open spec fn coption_key_at(s: Seq<u8>, at: int) -> Option<Seq<u8>> {
    if le_u32_at(s, at) == 1 {
        Some(bytes32_at(s, at + 4))
    } else {
        None
    }
}

impl COptionPubkey {
    /// Size in bytes on the wire.
    pub const SIZE: usize = 36;

    /// Reads the tagged key stored at `buf[at .. at + 36]`.
    pub fn read(buf: &[u8], at: usize) -> (r: COptionPubkey)
        requires
            at + 36 <= buf@.len(),
        ensures
            r.tag == le_u32_at(buf@, at as int),
            r.value@ == bytes32_at(buf@, at + 4),
    {
        let _n = buf.len();
        COptionPubkey { tag: read_u32_le(buf, at), value: Pubkey(read_bytes32(buf, at + 4)) }
    }

    /// The key, present exactly when the tag is 1.
    pub fn get(&self) -> (r: Option<Pubkey>)
        ensures
            r == (if self.tag == 1 {
                Some(self.value)
            } else {
                None
            }),
    {
        if self.tag == 1 {
            Some(self.value)
        } else {
            None
        }
    }
}

/// A `u64` behind a 4-byte little-endian tag: present when the tag is 1.
#[derive(Clone, Copy, Debug)]
pub struct COptionU64 {
    pub tag: u32,
    pub value: u64,
}

/// The optional `u64` stored at `s[at .. at + 12]`.
pub open spec fn coption_u64_at(s: Seq<u8>, at: int) -> Option<u64> {
    if le_u32_at(s, at) == 1 {
        Some(le_u64_at(s, at + 4))
    } else {
        None
    }
}

impl COptionU64 {
    /// Size in bytes on the wire.
    pub const SIZE: usize = 12;

    /// Reads the tagged value stored at `buf[at .. at + 12]`.
    pub fn read(buf: &[u8], at: usize) -> (r: COptionU64)
        requires
            at + 12 <= buf@.len(),
        ensures
            r.tag == le_u32_at(buf@, at as int),
            r.value == le_u64_at(buf@, at + 4),
    {
        let _n = buf.len();
        COptionU64 { tag: read_u32_le(buf, at), value: read_u64_le(buf, at + 4) }
    }

    /// The value, present exactly when the tag is 1.
    pub fn get(&self) -> (r: Option<u64>)
        ensures
            r == (if self.tag == 1 {
                Some(self.value)
            } else {
                None
            }),
    {
        if self.tag == 1 {
            Some(self.value)
        } else {
            None
        }
    }
}

/// A token account record (165 bytes, packed).
#[derive(Clone, Copy, Debug)]
pub struct TokenAccount {
    pub mint: Pubkey,
    pub owner: Pubkey,
    pub amount: u64,
    pub delegate: COptionPubkey,
    pub state: u8,
    pub is_native: COptionU64,
    pub delegated_amount: u64,
    pub close_authority: COptionPubkey,
}

impl TokenAccount {
    /// Size in bytes on the wire.
    pub const SIZE: usize = 165;

    /// Reads a token account record from exactly 165 bytes.
    pub fn from_bytes(data: &[u8]) -> (r: TokenAccount)
        requires
            data@.len() == 165,
        ensures
            r.mint@ == bytes32_at(data@, 0),
            r.owner@ == bytes32_at(data@, 32),
            r.amount == le_u64_at(data@, 64),
            r.delegate.tag == le_u32_at(data@, 72),
            r.delegate.value@ == bytes32_at(data@, 76),
            r.state == data@[108],
            r.is_native.tag == le_u32_at(data@, 109),
            r.is_native.value == le_u64_at(data@, 113),
            r.delegated_amount == le_u64_at(data@, 121),
            r.close_authority.tag == le_u32_at(data@, 129),
            r.close_authority.value@ == bytes32_at(data@, 133),
    {
        TokenAccount {
            mint: Pubkey(read_bytes32(data, 0)),
            owner: Pubkey(read_bytes32(data, 32)),
            amount: read_u64_le(data, 64),
            delegate: COptionPubkey::read(data, 72),
            state: data[108],
            is_native: COptionU64::read(data, 109),
            delegated_amount: read_u64_le(data, 121),
            close_authority: COptionPubkey::read(data, 129),
        }
    }
}

/// A mint record (82 bytes, packed).
#[derive(Clone, Copy, Debug)]
pub struct Mint {
    pub mint_authority: COptionPubkey,
    pub supply: u64,
    pub decimals: u8,
    pub is_initialized: u8,
    pub freeze_authority: COptionPubkey,
}

impl Mint {
    /// Size in bytes on the wire.
    pub const SIZE: usize = 82;

    /// Reads a mint record from exactly 82 bytes.
    pub fn from_bytes(data: &[u8]) -> (r: Mint)
        requires
            data@.len() == 82,
        ensures
            r.mint_authority.tag == le_u32_at(data@, 0),
            r.mint_authority.value@ == bytes32_at(data@, 4),
            r.supply == le_u64_at(data@, 36),
            r.decimals == data@[44],
            r.is_initialized == data@[45],
            r.freeze_authority.tag == le_u32_at(data@, 46),
            r.freeze_authority.value@ == bytes32_at(data@, 50),
    {
        Mint {
            mint_authority: COptionPubkey::read(data, 0),
            supply: read_u64_le(data, 36),
            decimals: data[44],
            is_initialized: data[45],
            freeze_authority: COptionPubkey::read(data, 46),
        }
    }

    /// Whether the mint has a supply of exactly one and no decimals.
    pub fn is_nft(&self) -> (r: bool)
        ensures
            r == (self.supply == 1 && self.decimals == 0),
    {
        self.supply == 1 && self.decimals == 0
    }
}

} // verus!
