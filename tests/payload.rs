use ssp::decoders::token_program::{Mint, TokenAccount, BATCH_THRESHOLD};
use ssp::decoders::{DecodedBatch, Decoder, DecoderRegistry};
use ssp::filters::ResolvedFilters;
use ssp::parser::{AccountHeader, PayloadError, HEADER_SIZE};
use ssp::Pubkey;

fn tp() -> [u8; 32] {
    *Pubkey::token_program().as_bytes()
}

struct Rec {
    write_version: u64,
    pubkey: [u8; 32],
    lamports: u64,
    rent_epoch: u64,
    owner: [u8; 32],
    executable: u8,
    hash: [u8; 32],
    data: Vec<u8>,
}

fn rec(pubkey: [u8; 32], lamports: u64, owner: [u8; 32], data: Vec<u8>) -> Rec {
    Rec { write_version: 9, pubkey, lamports, rent_epoch: 361, owner, executable: 0, hash: [5; 32], data }
}

fn encode(recs: &[Rec]) -> Vec<u8> {
    let mut out = Vec::new();
    for r in recs {
        out.extend_from_slice(&r.write_version.to_le_bytes());
        out.extend_from_slice(&(r.data.len() as u64).to_le_bytes());
        out.extend_from_slice(&r.pubkey);
        out.extend_from_slice(&r.lamports.to_le_bytes());
        out.extend_from_slice(&r.rent_epoch.to_le_bytes());
        out.extend_from_slice(&r.owner);
        out.push(r.executable);
        out.extend_from_slice(&[0u8; 7]);
        out.extend_from_slice(&r.hash);
        out.extend_from_slice(&r.data);
        while out.len() % 8 != 0 {
            out.push(0);
        }
    }
    out
}

fn coption_key(key: Option<[u8; 32]>) -> Vec<u8> {
    let mut v = Vec::new();
    match key {
        Some(k) => {
            v.extend_from_slice(&1u32.to_le_bytes());
            v.extend_from_slice(&k);
        }
        None => {
            v.extend_from_slice(&0u32.to_le_bytes());
            v.extend_from_slice(&[0xaa; 32]);
        }
    }
    v
}

fn mint_data(authority: Option<[u8; 32]>, supply: u64, decimals: u8, freeze: Option<[u8; 32]>) -> Vec<u8> {
    let mut v = coption_key(authority);
    v.extend_from_slice(&supply.to_le_bytes());
    v.push(decimals);
    v.push(1);
    v.extend(coption_key(freeze));
    assert_eq!(v.len(), Mint::SIZE);
    v
}

fn token_account_data(mint: [u8; 32], owner: [u8; 32], amount: u64, native: Option<u64>) -> Vec<u8> {
    let mut v = Vec::new();
    v.extend_from_slice(&mint);
    v.extend_from_slice(&owner);
    v.extend_from_slice(&amount.to_le_bytes());
    v.extend(coption_key(None));
    v.push(1);
    match native {
        Some(n) => {
            v.extend_from_slice(&1u32.to_le_bytes());
            v.extend_from_slice(&n.to_le_bytes());
        }
        None => v.extend_from_slice(&[0u8; 12]),
    }
    v.extend_from_slice(&77u64.to_le_bytes());
    v.extend(coption_key(Some([8; 32])));
    assert_eq!(v.len(), TokenAccount::SIZE);
    v
}

fn no_filter() -> ResolvedFilters {
    ResolvedFilters { owner: None, hash: None, pubkey: None, include_dead: false }
}

#[test]
fn single_header_without_payload() {
    let buf = encode(&[rec([1; 32], 500, [2; 32], vec![])]);
    assert_eq!(buf.len(), HEADER_SIZE);
    let mut reg = DecoderRegistry::token_program();
    let out = AccountHeader::parse_accounts(&buf, &no_filter(), &mut reg).unwrap();
    assert_eq!(out.accounts.len(), 1);
    let h = &out.accounts[0];
    assert_eq!(h.write_version, 9);
    assert_eq!(h.data_len, 0);
    assert_eq!(h.pubkey, Pubkey::from([1; 32]));
    assert_eq!(h.lamports, 500);
    assert_eq!(h.rent_epoch, 361);
    assert_eq!(h.owner, Pubkey::from([2; 32]));
    assert_eq!(h.executable, 0);
    assert_eq!(h.hash, [5; 32]);
    assert!(out.decoded.is_empty());
    assert!(reg.flush_all().is_empty());
}

#[test]
fn two_token_accounts_under_token_program() {
    let buf = encode(&[
        rec([1; 32], 10, tp(), token_account_data([3; 32], [4; 32], 1000, Some(5))),
        rec([2; 32], 20, tp(), token_account_data([6; 32], [7; 32], 2000, None)),
    ]);
    let mut reg = DecoderRegistry::token_program();
    let out = AccountHeader::parse_accounts(&buf, &no_filter(), &mut reg).unwrap();
    assert_eq!(out.accounts.len(), 2);
    assert!(out.decoded.is_empty());
    let batches = reg.flush_all();
    assert_eq!(batches.len(), 1);
    assert_eq!(batches[0].table_name(), "token_accounts");
    match &batches[0] {
        DecodedBatch::TokenAccounts(rows) => {
            assert_eq!(rows.len(), 2);
            assert_eq!(rows[0].pubkey, Pubkey::from([1; 32]));
            assert_eq!(rows[0].mint, Pubkey::from([3; 32]));
            assert_eq!(rows[0].owner, Pubkey::from([4; 32]));
            assert_eq!(rows[0].amount, 1000);
            assert_eq!(rows[0].delegate, None);
            assert_eq!(rows[0].state, 1);
            assert_eq!(rows[0].is_native, Some(5));
            assert_eq!(rows[0].delegated_amount, 77);
            assert_eq!(rows[0].close_authority, Some(Pubkey::from([8; 32])));
            assert_eq!(rows[1].amount, 2000);
            assert_eq!(rows[1].is_native, None);
        }
        DecodedBatch::Mints(_) => panic!("expected token accounts"),
    }
}

#[test]
fn three_mints_middle_without_authority() {
    let buf = encode(&[
        rec([1; 32], 10, tp(), mint_data(Some([11; 32]), 1, 0, None)),
        rec([2; 32], 10, tp(), mint_data(None, 50, 6, Some([12; 32]))),
        rec([3; 32], 10, tp(), mint_data(Some([13; 32]), 7, 2, None)),
    ]);
    let mut reg = DecoderRegistry::token_program();
    let out = AccountHeader::parse_accounts(&buf, &no_filter(), &mut reg).unwrap();
    assert_eq!(out.accounts.len(), 3);
    let batches = reg.flush_all();
    assert_eq!(batches.len(), 1);
    assert_eq!(batches[0].table_name(), "mints");
    assert_eq!(batches[0].len(), 3);
    match &batches[0] {
        DecodedBatch::Mints(rows) => {
            assert_eq!(rows[0].mint_authority, Some(Pubkey::from([11; 32])));
            assert_eq!(rows[1].mint_authority, None);
            assert_eq!(rows[1].freeze_authority, Some(Pubkey::from([12; 32])));
            assert_eq!(rows[1].supply, 50);
            assert_eq!(rows[1].decimals, 6);
            assert!(rows[1].is_initialized);
            assert_eq!(rows[2].mint_authority, Some(Pubkey::from([13; 32])));
        }
        DecodedBatch::TokenAccounts(_) => panic!("expected mints"),
    }
}

#[test]
fn pubkey_filter_keeps_two_of_five() {
    let p = [42u8; 32];
    let buf = encode(&[
        rec([1; 32], 10, tp(), mint_data(None, 1, 0, None)),
        rec(p, 10, [2; 32], vec![1, 2, 3]),
        rec([3; 32], 10, [2; 32], vec![]),
        rec(p, 30, tp(), mint_data(None, 2, 0, None)),
        rec([5; 32], 10, tp(), mint_data(None, 3, 0, None)),
    ]);
    let f = ResolvedFilters { pubkey: Some(Pubkey::from(p)), ..no_filter() };
    let mut reg = DecoderRegistry::token_program();
    let out = AccountHeader::parse_accounts(&buf, &f, &mut reg).unwrap();
    assert_eq!(out.accounts.len(), 2);
    assert!(out.accounts.iter().all(|h| h.pubkey == Pubkey::from(p)));
    assert_eq!(out.accounts[0].lamports, 10);
    assert_eq!(out.accounts[1].lamports, 30);
    let batches = reg.flush_all();
    assert_eq!(batches.len(), 1);
    assert_eq!(batches[0].len(), 3);
}

#[test]
fn dead_accounts_dropped_unless_included() {
    let buf = encode(&[rec([1; 32], 0, [2; 32], vec![]), rec([2; 32], 1, [2; 32], vec![9])]);
    let mut reg = DecoderRegistry::token_program();
    let out = AccountHeader::parse_accounts(&buf, &no_filter(), &mut reg).unwrap();
    assert_eq!(out.accounts.len(), 1);
    assert_eq!(out.accounts[0].lamports, 1);
    let all = ResolvedFilters { include_dead: true, ..no_filter() };
    let out = AccountHeader::parse_accounts(&buf, &all, &mut reg).unwrap();
    assert_eq!(out.accounts.len(), 2);
}

#[test]
fn records_tile_with_alignment_and_order() {
    let recs: Vec<Rec> = (0..6u8).map(|i| rec([i; 32], 1 + i as u64, [2; 32], vec![i; i as usize * 3])).collect();
    let mut buf = encode(&recs);
    assert_eq!(buf.len() % 8, 0);
    buf.extend_from_slice(&[0xee; HEADER_SIZE - 1]);
    let all = ResolvedFilters { include_dead: true, ..no_filter() };
    let mut reg = DecoderRegistry::token_program();
    let out = AccountHeader::parse_accounts(&buf, &all, &mut reg).unwrap();
    let got: Vec<(u64, u64)> = out.accounts.iter().map(|h| (h.lamports, h.data_len)).collect();
    let want: Vec<(u64, u64)> = (0..6u64).map(|i| (1 + i, i * 3)).collect();
    assert_eq!(got, want);
}

#[test]
fn payload_past_end_is_an_error() {
    let mut buf = encode(&[rec([1; 32], 1, [2; 32], vec![]), rec([2; 32], 1, [2; 32], vec![0; 40])]);
    buf.truncate(HEADER_SIZE + HEADER_SIZE + 20);
    let mut reg = DecoderRegistry::token_program();
    let r = AccountHeader::parse_accounts(&buf, &no_filter(), &mut reg);
    assert_eq!(r.err(), Some(PayloadError::RecordOverrun { offset: HEADER_SIZE }));
}

#[test]
fn wrong_length_under_token_program_is_not_decoded() {
    let buf = encode(&[rec([1; 32], 10, tp(), vec![0; 100])]);
    let mut reg = DecoderRegistry::token_program();
    let out = AccountHeader::parse_accounts(&buf, &no_filter(), &mut reg).unwrap();
    assert_eq!(out.accounts.len(), 1);
    assert!(out.decoded.is_empty());
    assert!(reg.flush_all().is_empty());
}

#[test]
fn full_batch_is_handed_out_while_parsing() {
    let recs: Vec<Rec> = (0..BATCH_THRESHOLD as u32)
        .map(|i| {
            let mut k = [0u8; 32];
            k[..4].copy_from_slice(&i.to_le_bytes());
            rec(k, 1, tp(), mint_data(None, i as u64, 0, None))
        })
        .collect();
    let buf = encode(&recs);
    let mut reg = DecoderRegistry::new(vec![Decoder::mint(), Decoder::token_account()]);
    let out = AccountHeader::parse_accounts(&buf, &no_filter(), &mut reg).unwrap();
    assert_eq!(out.decoded.len(), 1);
    assert_eq!(out.decoded[0].len(), BATCH_THRESHOLD);
    assert!(reg.flush_all().is_empty());
}
