//! Rows of the `mints` table, decoded from mint records.
use super::{after_append, after_flush, coption_key_at, Mint, BATCH_THRESHOLD};
use crate::bytes::le_u64_at;
use crate::pubkey::{opt_key_view, token_program_key, Pubkey};
use vstd::prelude::*;

verus! {

/// One row of the `mints` table.
#[derive(Clone, Copy, Debug)]
pub struct MintRow {
    pub pubkey: Pubkey,
    pub mint_authority: Option<Pubkey>,
    pub freeze_authority: Option<Pubkey>,
    pub supply: u64,
    pub decimals: u8,
    pub is_initialized: bool,
}

/// A `mints` row as plain values.
pub struct MintRowView {
    pub pubkey: Seq<u8>,
    pub mint_authority: Option<Seq<u8>>,
    pub freeze_authority: Option<Seq<u8>>,
    pub supply: u64,
    pub decimals: u8,
    pub is_initialized: bool,
}

impl View for MintRow {
    type V = MintRowView;

    open spec fn view(&self) -> MintRowView {
        MintRowView {
            pubkey: self.pubkey@,
            mint_authority: opt_key_view(self.mint_authority),
            freeze_authority: opt_key_view(self.freeze_authority),
            supply: self.supply,
            decimals: self.decimals,
            is_initialized: self.is_initialized,
        }
    }
}

/// The row for account `pubkey` whose payload is the mint record `data`.
pub open spec fn mint_row(pubkey: Seq<u8>, data: Seq<u8>) -> MintRowView {
    MintRowView {
        pubkey,
        mint_authority: coption_key_at(data, 0),
        freeze_authority: coption_key_at(data, 46),
        supply: le_u64_at(data, 36),
        decimals: data[44],
        is_initialized: data[45] != 0,
    }
}

/// The views of a vector of rows.
pub open spec fn mint_rows_view(rows: Seq<MintRow>) -> Seq<MintRowView> {
    rows.map_values(|r: MintRow| r@)
}

/// The views of an optional batch of rows.
pub open spec fn opt_mint_rows_view(b: Option<Vec<MintRow>>) -> Option<Seq<MintRowView>> {
    match b {
        Some(v) => Some(mint_rows_view(v@)),
        None => None,
    }
}

/// Accumulates `mints` rows and hands them out in batches.
pub struct MintDecoder {
    rows: Vec<MintRow>,
}

impl View for MintDecoder {
    type V = Seq<MintRowView>;

    /// The rows buffered and not yet handed out.
    closed spec fn view(&self) -> Seq<MintRowView> {
        mint_rows_view(self.rows@)
    }
}

impl MintDecoder {
    /// Fewer than `BATCH_THRESHOLD` rows are buffered.
    pub open spec fn wf(&self) -> bool {
        self@.len() < BATCH_THRESHOLD
    }

    /// A decoder with no rows buffered.
    pub fn new() -> (r: MintDecoder)
        ensures
            r@ == Seq::<MintRowView>::empty(),
            r.wf(),
    {
        let r = MintDecoder { rows: Vec::new() };
        assert(r@ =~= Seq::<MintRowView>::empty());
        r
    }

    /// Name of the table the rows go to.
    pub fn name(&self) -> (r: &'static str)
        ensures
            r@ == mints_table_name(),
    {
        "mints"
    }

    /// The program that owns mint records.
    pub fn owner(&self) -> (r: Pubkey)
        ensures
            r@ == token_program_key(),
    {
        Pubkey::token_program()
    }

    /// Whether an account with this owner and payload length holds a mint.
    pub fn matches(&self, owner: &Pubkey, data_len: u64) -> (r: bool)
        ensures
            r == (owner@ == token_program_key() && data_len == Mint::SIZE),
    {
        let tp = Pubkey::token_program();
        *owner == tp && data_len == Mint::SIZE as u64
    }

    /// Appends the row for one mint record; hands out the buffered rows
    /// once `BATCH_THRESHOLD` of them are buffered.
    pub fn decode(&mut self, pubkey: Pubkey, data: &[u8]) -> (r: Option<Vec<MintRow>>)
        requires
            old(self).wf(),
            data@.len() == Mint::SIZE,
        ensures
            final(self).wf(),
            (final(self)@, opt_mint_rows_view(r)) == after_append(old(self)@, mint_row(pubkey@, data@)),
    {
        let mint = Mint::from_bytes(data);
        let row = MintRow {
            pubkey,
            mint_authority: mint.mint_authority.get(),
            freeze_authority: mint.freeze_authority.get(),
            supply: mint.supply,
            decimals: mint.decimals,
            is_initialized: mint.is_initialized != 0,
        };
        assert(row@ == mint_row(pubkey@, data@));
        let ghost before = self.rows@;
        self.rows.push(row);
        assert(mint_rows_view(self.rows@) =~= mint_rows_view(before).push(row@));
        if self.rows.len() >= BATCH_THRESHOLD {
            self.take_batch()
        } else {
            None
        }
    }

    /// Hands out whatever rows are buffered, or nothing when none is.
    pub fn flush(&mut self) -> (r: Option<Vec<MintRow>>)
        ensures
            final(self).wf(),
            (final(self)@, opt_mint_rows_view(r)) == after_flush(old(self)@),
    {
        if self.rows.len() == 0 {
            assert(self@ =~= Seq::<MintRowView>::empty());
            None
        } else {
            self.take_batch()
        }
    }

    fn take_batch(&mut self) -> (r: Option<Vec<MintRow>>)
        requires
            old(self)@.len() > 0,
        ensures
            final(self)@ == Seq::<MintRowView>::empty(),
            opt_mint_rows_view(r) == Some(old(self)@),
    {
        let mut batch = Vec::new();
        std::mem::swap(&mut batch, &mut self.rows);
        assert(self@ =~= Seq::<MintRowView>::empty());
        Some(batch)
    }
}

/// Name of the table of mints.
pub open spec fn mints_table_name() -> Seq<char> {
    "mints"@
}

} // verus!
