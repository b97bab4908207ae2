//! Decoders that project account payloads into table rows, and the registry
//! that routes each account to at most one of them.
use crate::parser::{AccountHeader, HeaderView};
use crate::pubkey::{token_program_key, Pubkey};
use token_program::mint::{
    mint_row, mint_rows_view, mints_table_name, MintDecoder, MintRow, MintRowView,
};
use token_program::token_account::{
    token_account_row, token_account_rows_view, token_accounts_table_name, TokenAccountDecoder,
    TokenAccountRow, TokenAccountRowView,
};
use token_program::{after_append, after_flush, Mint, TokenAccount, BATCH_THRESHOLD};
use vstd::prelude::*;

pub mod token_program;

pub use token_program::COptionPubkey;

verus! {

/// A decoder of one record shape into the rows of one table.
pub enum Decoder {
    Mint(MintDecoder),
    TokenAccount(TokenAccountDecoder),
}

/// A batch of rows handed out by a decoder, tagged by its table.
pub enum DecodedBatch {
    Mints(Vec<MintRow>),
    TokenAccounts(Vec<TokenAccountRow>),
}

/// A decoder as the rows it has buffered.
pub enum DecoderView {
    Mint(Seq<MintRowView>),
    TokenAccount(Seq<TokenAccountRowView>),
}

/// A batch as plain rows.
pub enum BatchView {
    Mints(Seq<MintRowView>),
    TokenAccounts(Seq<TokenAccountRowView>),
}

impl View for Decoder {
    type V = DecoderView;

    open spec fn view(&self) -> DecoderView {
        match self {
            Decoder::Mint(d) => DecoderView::Mint(d@),
            Decoder::TokenAccount(d) => DecoderView::TokenAccount(d@),
        }
    }
}

impl View for DecodedBatch {
    type V = BatchView;

    open spec fn view(&self) -> BatchView {
        match self {
            DecodedBatch::Mints(v) => BatchView::Mints(mint_rows_view(v@)),
            DecodedBatch::TokenAccounts(v) => BatchView::TokenAccounts(token_account_rows_view(v@)),
        }
    }
}

/// The view of an optional batch.
pub open spec fn opt_batch_view(b: Option<DecodedBatch>) -> Option<BatchView> {
    match b {
        Some(x) => Some(x@),
        None => None,
    }
}

/// The mint batch of an optional batch of mint rows.
pub open spec fn mints_batch(b: Option<Seq<MintRowView>>) -> Option<BatchView> {
    match b {
        Some(rows) => Some(BatchView::Mints(rows)),
        None => None,
    }
}

/// The token account batch of an optional batch of token account rows.
pub open spec fn token_accounts_batch(b: Option<Seq<TokenAccountRowView>>) -> Option<BatchView> {
    match b {
        Some(rows) => Some(BatchView::TokenAccounts(rows)),
        None => None,
    }
}

impl DecoderView {
    /// Payload length of the record shape this decoder reads.
    pub open spec fn record_size(self) -> nat {
        match self {
            DecoderView::Mint(_) => Mint::SIZE as nat,
            DecoderView::TokenAccount(_) => TokenAccount::SIZE as nat,
        }
    }

    /// Whether this decoder claims accounts with this owner and payload length.
    pub open spec fn accepts(self, owner: Seq<u8>, data_len: u64) -> bool {
        owner == token_program_key() && data_len == self.record_size()
    }

    /// Fewer than `BATCH_THRESHOLD` rows are buffered.
    pub open spec fn wf(self) -> bool {
        match self {
            DecoderView::Mint(rows) => rows.len() < BATCH_THRESHOLD,
            DecoderView::TokenAccount(rows) => rows.len() < BATCH_THRESHOLD,
        }
    }

    /// The decoder after it reads the payload `data` of account `pubkey`,
    /// and the batch it hands out.
    pub open spec fn decode_step(self, pubkey: Seq<u8>, data: Seq<u8>) -> (DecoderView, Option<BatchView>) {
        match self {
            DecoderView::Mint(rows) => {
                let (rest, out) = after_append(rows, mint_row(pubkey, data));
                (DecoderView::Mint(rest), mints_batch(out))
            },
            DecoderView::TokenAccount(rows) => {
                let (rest, out) = after_append(rows, token_account_row(pubkey, data));
                (DecoderView::TokenAccount(rest), token_accounts_batch(out))
            },
        }
    }

    /// The decoder after a flush, and the batch it hands out.
    pub open spec fn flush_step(self) -> (DecoderView, Option<BatchView>) {
        match self {
            DecoderView::Mint(rows) => {
                let (rest, out) = after_flush(rows);
                (DecoderView::Mint(rest), mints_batch(out))
            },
            DecoderView::TokenAccount(rows) => {
                let (rest, out) = after_flush(rows);
                (DecoderView::TokenAccount(rest), token_accounts_batch(out))
            },
        }
    }
}

impl Decoder {
    /// A fresh mint decoder.
    pub fn mint() -> (r: Decoder)
        ensures
            r@ == DecoderView::Mint(Seq::empty()),
    {
        Decoder::Mint(MintDecoder::new())
    }

    /// A fresh token account decoder.
    pub fn token_account() -> (r: Decoder)
        ensures
            r@ == DecoderView::TokenAccount(Seq::empty()),
    {
        Decoder::TokenAccount(TokenAccountDecoder::new())
    }

    /// Name of the table this decoder fills.
    pub fn name(&self) -> (r: &'static str)
        ensures
            r@ == (match self@ {
                DecoderView::Mint(_) => mints_table_name(),
                DecoderView::TokenAccount(_) => token_accounts_table_name(),
            }),
    {
        match self {
            Decoder::Mint(d) => d.name(),
            Decoder::TokenAccount(d) => d.name(),
        }
    }

    /// The program whose accounts this decoder reads.
    pub fn owner(&self) -> (r: Pubkey)
        ensures
            r@ == token_program_key(),
    {
        match self {
            Decoder::Mint(d) => d.owner(),
            Decoder::TokenAccount(d) => d.owner(),
        }
    }

    /// Whether this decoder claims accounts with this owner and payload length.
    pub fn matches(&self, owner: &Pubkey, data_len: u64) -> (r: bool)
        ensures
            r == self@.accepts(owner@, data_len),
    {
        match self {
            Decoder::Mint(d) => d.matches(owner, data_len),
            Decoder::TokenAccount(d) => d.matches(owner, data_len),
        }
    }

    /// Reads one payload into a row; hands out a batch once enough rows are buffered.
    pub fn decode(&mut self, pubkey: Pubkey, data: &[u8]) -> (r: Option<DecodedBatch>)
        requires
            old(self)@.wf(),
            data@.len() == old(self)@.record_size(),
        ensures
            final(self)@.wf(),
            (final(self)@, opt_batch_view(r)) == old(self)@.decode_step(pubkey@, data@),
    {
        match self {
            Decoder::Mint(d) => match d.decode(pubkey, data) {
                Some(b) => Some(DecodedBatch::Mints(b)),
                None => None,
            },
            Decoder::TokenAccount(d) => match d.decode(pubkey, data) {
                Some(b) => Some(DecodedBatch::TokenAccounts(b)),
                None => None,
            },
        }
    }

    /// Hands out whatever rows are buffered.
    pub fn flush(&mut self) -> (r: Option<DecodedBatch>)
        ensures
            final(self)@.wf(),
            (final(self)@, opt_batch_view(r)) == old(self)@.flush_step(),
    {
        match self {
            Decoder::Mint(d) => match d.flush() {
                Some(b) => Some(DecodedBatch::Mints(b)),
                None => None,
            },
            Decoder::TokenAccount(d) => match d.flush() {
                Some(b) => Some(DecodedBatch::TokenAccounts(b)),
                None => None,
            },
        }
    }
}

impl DecodedBatch {
    /// Name of the table the batch belongs to.
    pub fn table_name(&self) -> (r: &'static str)
        ensures
            r@ == (match self@ {
                BatchView::Mints(_) => mints_table_name(),
                BatchView::TokenAccounts(_) => token_accounts_table_name(),
            }),
    {
        match self {
            DecodedBatch::Mints(_) => "mints",
            DecodedBatch::TokenAccounts(_) => "token_accounts",
        }
    }

    /// Number of rows in the batch.
    pub fn len(&self) -> (r: usize)
        ensures
            r == (match self@ {
                BatchView::Mints(rows) => rows.len(),
                BatchView::TokenAccounts(rows) => rows.len(),
            }),
    {
        match self {
            DecodedBatch::Mints(v) => v.len(),
            DecodedBatch::TokenAccounts(v) => v.len(),
        }
    }
}

/// Index of the first decoder at or after `i` that claims accounts with this
/// owner and payload length.
pub open spec fn first_claim_from(ds: Seq<DecoderView>, owner: Seq<u8>, data_len: u64, i: int) -> Option<int>
    decreases ds.len() - i,
{
    if i < 0 || i >= ds.len() {
        None
    } else if ds[i].accepts(owner, data_len) {
        Some(i)
    } else {
        first_claim_from(ds, owner, data_len, i + 1)
    }
}

/// The decoders after the account `h` with payload `data` is routed to the
/// first decoder that claims it, and the batch handed out.
pub open spec fn dispatch_step(ds: Seq<DecoderView>, h: HeaderView, data: Seq<u8>) -> (Seq<DecoderView>, Option<BatchView>) {
    match first_claim_from(ds, h.owner, h.data_len, 0) {
        None => (ds, None),
        Some(i) => {
            let (d, out) = ds[i].decode_step(h.pubkey, data);
            (ds.update(i, d), out)
        },
    }
}

proof fn lemma_first_claim_range(ds: Seq<DecoderView>, owner: Seq<u8>, data_len: u64, i: int)
    requires
        0 <= i,
    ensures
        first_claim_from(ds, owner, data_len, i) matches Some(k) ==> i <= k < ds.len(),
    decreases ds.len() - i,
{
    if i < ds.len() && !ds[i].accepts(owner, data_len) {
        lemma_first_claim_range(ds, owner, data_len, i + 1);
    }
}

/// Routing one account changes at most one decoder: any two decoders whose
/// state changes are the same one, and the number of decoders stays.
pub proof fn lemma_dispatch_uniqueness(ds: Seq<DecoderView>, h: HeaderView, data: Seq<u8>)
    ensures
        dispatch_step(ds, h, data).0.len() == ds.len(),
        forall|i: int, j: int|
            0 <= i < ds.len() && 0 <= j < ds.len() && #[trigger] dispatch_step(ds, h, data).0[i]
                != ds[i] && #[trigger] dispatch_step(ds, h, data).0[j] != ds[j] ==> i == j,
        dispatch_step(ds, h, data).1 is Some ==> first_claim_from(ds, h.owner, h.data_len, 0) is Some,
{
    lemma_first_claim_range(ds, h.owner, h.data_len, 0);
}

/// Every decoder has fewer than `BATCH_THRESHOLD` rows buffered.
pub open spec fn all_wf(ds: Seq<DecoderView>) -> bool {
    forall|i: int| 0 <= i < ds.len() ==> (#[trigger] ds[i]).wf()
}

/// The decoders of one parser, in registration order.
pub struct DecoderRegistry {
    decoders: Vec<Decoder>,
}

impl View for DecoderRegistry {
    type V = Seq<DecoderView>;

    closed spec fn view(&self) -> Seq<DecoderView> {
        self.decoders@.map_values(|d: Decoder| d@)
    }
}

impl DecoderRegistry {
    /// A registry of the given decoders; earlier ones take precedence.
    pub fn new(decoders: Vec<Decoder>) -> (r: DecoderRegistry)
        ensures
            r@ == decoders@.map_values(|d: Decoder| d@),
    {
        DecoderRegistry { decoders }
    }

    /// The built-in decoders: mints, then token accounts, none with rows buffered.
    pub fn token_program() -> (r: DecoderRegistry)
        ensures
            r@ == seq![
                DecoderView::Mint(Seq::empty()),
                DecoderView::TokenAccount(Seq::empty()),
            ],
            all_wf(r@),
    {
        let mut v: Vec<Decoder> = Vec::new();
        v.push(Decoder::mint());
        v.push(Decoder::token_account());
        let r = DecoderRegistry { decoders: v };
        assert(r@ =~= seq![
            DecoderView::Mint(Seq::empty()),
            DecoderView::TokenAccount(Seq::empty()),
        ]);
        r
    }

    /// Number of decoders.
    pub fn len(&self) -> (r: usize)
        ensures
            r == self@.len(),
    {
        self.decoders.len()
    }

    /// Routes one account to the first decoder that claims its owner and
    /// payload length, if any; at most one decoder reads it.
    pub fn dispatch(&mut self, header: &AccountHeader, data: &[u8]) -> (r: Option<DecodedBatch>)
        requires
            all_wf(old(self)@),
            data@.len() == header.data_len,
        ensures
            all_wf(final(self)@),
            (final(self)@, opt_batch_view(r)) == dispatch_step(old(self)@, header@, data@),
    {
        let n = self.decoders.len();
        let mut i: usize = 0;
        while i < n
            invariant
                n == self@.len(),
                0 <= i <= n,
                self@ == old(self)@,
                all_wf(self@),
                data@.len() == header.data_len,
                first_claim_from(self@, header.owner@, header.data_len, 0) == first_claim_from(
                    self@,
                    header.owner@,
                    header.data_len,
                    i as int,
                ),
            decreases n - i,
        {
            if self.decoders[i].matches(&header.owner, header.data_len) {
                assert(self@[i as int] == self.decoders@[i as int]@);
                let ghost ds = self@;
                let r = self.decoders[i].decode(header.pubkey, data);
                assert(self@ =~= ds.update(i as int, self.decoders@[i as int]@));
                return r;
            }
            i = i + 1;
        }
        None
    }

    /// Flushes every decoder in order and returns the batches they hand out.
    pub fn flush_all(&mut self) -> (r: Vec<DecodedBatch>)
        ensures
            all_wf(final(self)@),
            final(self)@.len() == old(self)@.len(),
            forall|i: int| 0 <= i < old(self)@.len() ==> final(self)@[i] == (#[trigger] old(self)@[i]).flush_step().0,
            r@.map_values(|b: DecodedBatch| b@) == flushed_batches(old(self)@),
    {
        let n = self.decoders.len();
        let mut out: Vec<DecodedBatch> = Vec::new();
        let mut i: usize = 0;
        while i < n
            invariant
                n == self@.len(),
                n == old(self)@.len(),
                0 <= i <= n,
                forall|j: int| 0 <= j < i ==> (#[trigger] self@[j]) == old(self)@[j].flush_step().0,
                forall|j: int| i <= j < n ==> (#[trigger] self@[j]) == old(self)@[j],
                out@.map_values(|b: DecodedBatch| b@) == flushed_batches(old(self)@.take(i as int)),
            decreases n - i,
        {
            let ghost ds = self@;
            assert(ds[i as int] == old(self)@[i as int]);
            let b = self.decoders[i].flush();
            assert(self@ =~= ds.update(i as int, self.decoders@[i as int]@));
            let ghost before = out@;
            assert(old(self)@.take(i as int + 1).drop_last() =~= old(self)@.take(i as int));
            assert(old(self)@.take(i as int + 1).last() == old(self)@[i as int]);
            match b {
                Some(x) => {
                    out.push(x);
                    assert(out@.map_values(|b: DecodedBatch| b@) =~= before.map_values(
                        |b: DecodedBatch| b@,
                    ).push(x@));
                },
                None => {},
            }
            i = i + 1;
        }
        assert(old(self)@.take(n as int) =~= old(self)@);
        proof {
            assert forall|j: int| 0 <= j < self@.len() implies (#[trigger] self@[j]).wf() by {
                let rows_fresh = self@[j];
                assert(rows_fresh == old(self)@[j].flush_step().0);
            }
        }
        out
    }
}

/// The batches that flushing each decoder in order hands out.
pub open spec fn flushed_batches(ds: Seq<DecoderView>) -> Seq<BatchView>
    decreases ds.len(),
{
    if ds.len() == 0 {
        seq![]
    } else {
        let before = flushed_batches(ds.drop_last());
        match ds.last().flush_step().1 {
            Some(b) => before.push(b),
            None => before,
        }
    }
}

} // verus!
