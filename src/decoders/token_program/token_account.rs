//! Rows of the `token_accounts` table, decoded from token account records.
use super::{
    after_append, after_flush, coption_key_at, coption_u64_at, TokenAccount, BATCH_THRESHOLD,
};
use crate::bytes::{bytes32_at, le_u64_at};
use crate::pubkey::{opt_key_view, token_program_key, Pubkey};
use vstd::prelude::*;

verus! {

/// One row of the `token_accounts` table.
#[derive(Clone, Copy, Debug)]
pub struct TokenAccountRow {
    pub pubkey: Pubkey,
    pub mint: Pubkey,
    pub owner: Pubkey,
    pub amount: u64,
    pub delegate: Option<Pubkey>,
    pub state: u8,
    pub is_native: Option<u64>,
    pub delegated_amount: u64,
    pub close_authority: Option<Pubkey>,
}

/// A `token_accounts` row as plain values.
pub struct TokenAccountRowView {
    pub pubkey: Seq<u8>,
    pub mint: Seq<u8>,
    pub owner: Seq<u8>,
    pub amount: u64,
    pub delegate: Option<Seq<u8>>,
    pub state: u8,
    pub is_native: Option<u64>,
    pub delegated_amount: u64,
    pub close_authority: Option<Seq<u8>>,
}

impl View for TokenAccountRow {
    type V = TokenAccountRowView;

    open spec fn view(&self) -> TokenAccountRowView {
        TokenAccountRowView {
            pubkey: self.pubkey@,
            mint: self.mint@,
            owner: self.owner@,
            amount: self.amount,
            delegate: opt_key_view(self.delegate),
            state: self.state,
            is_native: self.is_native,
            delegated_amount: self.delegated_amount,
            close_authority: opt_key_view(self.close_authority),
        }
    }
}

/// The row for account `pubkey` whose payload is the token account record `data`.
pub open spec fn token_account_row(pubkey: Seq<u8>, data: Seq<u8>) -> TokenAccountRowView {
    TokenAccountRowView {
        pubkey,
        mint: bytes32_at(data, 0),
        owner: bytes32_at(data, 32),
        amount: le_u64_at(data, 64),
        delegate: coption_key_at(data, 72),
        state: data[108],
        is_native: coption_u64_at(data, 109),
        delegated_amount: le_u64_at(data, 121),
        close_authority: coption_key_at(data, 129),
    }
}

/// The views of a vector of rows.
pub open spec fn token_account_rows_view(rows: Seq<TokenAccountRow>) -> Seq<TokenAccountRowView> {
    rows.map_values(|r: TokenAccountRow| r@)
}

/// The views of an optional batch of rows.
pub open spec fn opt_token_account_rows_view(b: Option<Vec<TokenAccountRow>>) -> Option<
    Seq<TokenAccountRowView>,
> {
    match b {
        Some(v) => Some(token_account_rows_view(v@)),
        None => None,
    }
}

/// Accumulates `token_accounts` rows and hands them out in batches.
pub struct TokenAccountDecoder {
    rows: Vec<TokenAccountRow>,
}

impl View for TokenAccountDecoder {
    type V = Seq<TokenAccountRowView>;

    /// The rows buffered and not yet handed out.
    closed spec fn view(&self) -> Seq<TokenAccountRowView> {
        token_account_rows_view(self.rows@)
    }
}

impl TokenAccountDecoder {
    /// Fewer than `BATCH_THRESHOLD` rows are buffered.
    pub open spec fn wf(&self) -> bool {
        self@.len() < BATCH_THRESHOLD
    }

    /// A decoder with no rows buffered.
    pub fn new() -> (r: TokenAccountDecoder)
        ensures
            r@ == Seq::<TokenAccountRowView>::empty(),
            r.wf(),
    {
        let r = TokenAccountDecoder { rows: Vec::new() };
        assert(r@ =~= Seq::<TokenAccountRowView>::empty());
        r
    }

    /// Name of the table the rows go to.
    pub fn name(&self) -> (r: &'static str)
        ensures
            r@ == token_accounts_table_name(),
    {
        "token_accounts"
    }

    /// The program that owns token account records.
    pub fn owner(&self) -> (r: Pubkey)
        ensures
            r@ == token_program_key(),
    {
        Pubkey::token_program()
    }

    /// Whether an account with this owner and payload length holds a token account.
    pub fn matches(&self, owner: &Pubkey, data_len: u64) -> (r: bool)
        ensures
            r == (owner@ == token_program_key() && data_len == TokenAccount::SIZE),
    {
        let tp = Pubkey::token_program();
        *owner == tp && data_len == TokenAccount::SIZE as u64
    }

    /// Appends the row for one token account record; hands out the buffered
    /// rows once `BATCH_THRESHOLD` of them are buffered.
    pub fn decode(&mut self, pubkey: Pubkey, data: &[u8]) -> (r: Option<Vec<TokenAccountRow>>)
        requires
            old(self).wf(),
            data@.len() == TokenAccount::SIZE,
        ensures
            final(self).wf(),
            (final(self)@, opt_token_account_rows_view(r)) == after_append(
                old(self)@,
                token_account_row(pubkey@, data@),
            ),
    {
        let acc = TokenAccount::from_bytes(data);
        let row = TokenAccountRow {
            pubkey,
            mint: acc.mint,
            owner: acc.owner,
            amount: acc.amount,
            delegate: acc.delegate.get(),
            state: acc.state,
            is_native: acc.is_native.get(),
            delegated_amount: acc.delegated_amount,
            close_authority: acc.close_authority.get(),
        };
        assert(row@ == token_account_row(pubkey@, data@));
        let ghost before = self.rows@;
        self.rows.push(row);
        assert(token_account_rows_view(self.rows@) =~= token_account_rows_view(before).push(row@));
        if self.rows.len() >= BATCH_THRESHOLD {
            self.take_batch()
        } else {
            None
        }
    }

    /// Hands out whatever rows are buffered, or nothing when none is.
    pub fn flush(&mut self) -> (r: Option<Vec<TokenAccountRow>>)
        ensures
            final(self).wf(),
            (final(self)@, opt_token_account_rows_view(r)) == after_flush(old(self)@),
    {
        if self.rows.len() == 0 {
            assert(self@ =~= Seq::<TokenAccountRowView>::empty());
            None
        } else {
            self.take_batch()
        }
    }

    fn take_batch(&mut self) -> (r: Option<Vec<TokenAccountRow>>)
        requires
            old(self)@.len() > 0,
        ensures
            final(self)@ == Seq::<TokenAccountRowView>::empty(),
            opt_token_account_rows_view(r) == Some(old(self)@),
    {
        let mut batch = Vec::new();
        std::mem::swap(&mut batch, &mut self.rows);
        assert(self@ =~= Seq::<TokenAccountRowView>::empty());
        Some(batch)
    }
}

/// Name of the table of token accounts.
pub open spec fn token_accounts_table_name() -> Seq<char> {
    "token_accounts"@
}

} // verus!
