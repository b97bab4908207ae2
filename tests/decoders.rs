use ssp::decoders::token_program::mint::MintDecoder;
use ssp::decoders::token_program::token_account::TokenAccountDecoder;
use ssp::decoders::token_program::{COptionU64, Mint, TokenAccount, BATCH_THRESHOLD};
use ssp::decoders::{COptionPubkey, Decoder};
use ssp::Pubkey;

fn mint_bytes(tag: u32, key: [u8; 32], supply: u64, decimals: u8) -> Vec<u8> {
    let mut v = tag.to_le_bytes().to_vec();
    v.extend_from_slice(&key);
    v.extend_from_slice(&supply.to_le_bytes());
    v.push(decimals);
    v.push(0);
    v.extend_from_slice(&1u32.to_le_bytes());
    v.extend_from_slice(&[4; 32]);
    v
}

#[test]
fn coption_pubkey_absent_for_tag_zero() {
    let mut bytes = vec![0u8, 0, 0, 0];
    bytes.extend_from_slice(&[9; 32]);
    let c = COptionPubkey::read(&bytes, 0);
    assert_eq!(c.get(), None);
}

#[test]
fn coption_pubkey_present_for_tag_one() {
    let mut bytes = vec![1u8, 0, 0, 0];
    let key: [u8; 32] = core::array::from_fn(|i| i as u8);
    bytes.extend_from_slice(&key);
    let c = COptionPubkey::read(&bytes, 0);
    assert_eq!(c.get(), Some(Pubkey::from(key)));
}

#[test]
fn coption_tag_other_than_one_is_absent() {
    let mut bytes = vec![2u8, 0, 0, 0];
    bytes.extend_from_slice(&[9; 32]);
    assert_eq!(COptionPubkey::read(&bytes, 0).get(), None);
    let mut bytes = vec![0u8, 1, 0, 0];
    bytes.extend_from_slice(&[9; 32]);
    assert_eq!(COptionPubkey::read(&bytes, 0).get(), None);
}

#[test]
fn coption_u64_reads_tag_and_value() {
    let mut bytes = 1u32.to_le_bytes().to_vec();
    bytes.extend_from_slice(&0x0102030405060708u64.to_le_bytes());
    assert_eq!(COptionU64::read(&bytes, 0).get(), Some(0x0102030405060708));
    bytes[0] = 0;
    assert_eq!(COptionU64::read(&bytes, 0).get(), None);
}

#[test]
fn mint_fields_and_nft() {
    let m = Mint::from_bytes(&mint_bytes(1, [3; 32], 1, 0));
    assert_eq!(m.supply, 1);
    assert_eq!(m.decimals, 0);
    assert!(m.is_nft());
    assert_eq!(m.freeze_authority.get(), Some(Pubkey::from([4; 32])));
    assert!(!Mint::from_bytes(&mint_bytes(1, [3; 32], 2, 0)).is_nft());
    assert!(!Mint::from_bytes(&mint_bytes(1, [3; 32], 1, 9)).is_nft());
}

#[test]
fn token_account_fields() {
    let mut v = vec![1u8; 32];
    v.extend_from_slice(&[2; 32]);
    v.extend_from_slice(&300u64.to_le_bytes());
    v.extend_from_slice(&1u32.to_le_bytes());
    v.extend_from_slice(&[3; 32]);
    v.push(2);
    v.extend_from_slice(&[0; 12]);
    v.extend_from_slice(&5u64.to_le_bytes());
    v.extend_from_slice(&[0; 36]);
    let a = TokenAccount::from_bytes(&v);
    assert_eq!(a.mint, Pubkey::from([1; 32]));
    assert_eq!(a.owner, Pubkey::from([2; 32]));
    assert_eq!(a.amount, 300);
    assert_eq!(a.delegate.get(), Some(Pubkey::from([3; 32])));
    assert_eq!(a.state, 2);
    assert_eq!(a.is_native.get(), None);
    assert_eq!(a.delegated_amount, 5);
    assert_eq!(a.close_authority.get(), None);
}

#[test]
fn mint_decoder_matches_only_token_program_and_82() {
    let d = MintDecoder::new();
    let tp = Pubkey::token_program();
    assert!(d.matches(&tp, 82));
    assert!(!d.matches(&tp, 165));
    assert!(!d.matches(&tp, 81));
    assert!(!d.matches(&Pubkey::from([0; 32]), 82));
    assert_eq!(d.name(), "mints");
    assert_eq!(d.owner(), tp);
}

#[test]
fn token_account_decoder_matches_only_token_program_and_165() {
    let d = TokenAccountDecoder::new();
    let tp = Pubkey::token_program();
    assert!(d.matches(&tp, 165));
    assert!(!d.matches(&tp, 82));
    assert!(!d.matches(&Pubkey::from([1; 32]), 165));
    assert_eq!(d.name(), "token_accounts");
    assert_eq!(d.owner(), tp);
}

#[test]
fn length_selects_exactly_one_builtin_decoder() {
    let tp = Pubkey::token_program();
    for len in [0u64, 81, 82, 83, 164, 165, 166] {
        let hits = [Decoder::mint(), Decoder::token_account()]
            .iter()
            .filter(|d| d.matches(&tp, len))
            .count();
        assert_eq!(hits, usize::from(len == 82 || len == 165));
    }
}

#[test]
fn batch_emitted_exactly_at_threshold() {
    let mut d = MintDecoder::new();
    let data = mint_bytes(0, [0; 32], 5, 1);
    for i in 0..BATCH_THRESHOLD - 1 {
        assert!(d.decode(Pubkey::from([(i % 251) as u8; 32]), &data).is_none());
    }
    let batch = d.decode(Pubkey::from([1; 32]), &data).expect("batch at threshold");
    assert_eq!(batch.len(), BATCH_THRESHOLD);
    assert_eq!(batch[0].pubkey, Pubkey::from([0; 32]));
    assert_eq!(batch[BATCH_THRESHOLD - 1].pubkey, Pubkey::from([1; 32]));
    assert!(d.flush().is_none());
}

#[test]
fn fewer_rows_wait_for_flush() {
    let mut d = Decoder::mint();
    let data = mint_bytes(1, [6; 32], 5, 1);
    for _ in 0..3 {
        assert!(d.decode(Pubkey::from([2; 32]), &data).is_none());
    }
    let batch = d.flush().expect("flush hands out buffered rows");
    assert_eq!(batch.len(), 3);
    assert_eq!(batch.table_name(), "mints");
    assert!(d.flush().is_none());
}

#[test]
fn decoded_mint_row_values() {
    let mut d = MintDecoder::new();
    d.decode(Pubkey::from([2; 32]), &mint_bytes(1, [6; 32], 123, 4));
    let rows = d.flush().unwrap();
    assert_eq!(rows.len(), 1);
    assert_eq!(rows[0].pubkey, Pubkey::from([2; 32]));
    assert_eq!(rows[0].mint_authority, Some(Pubkey::from([6; 32])));
    assert_eq!(rows[0].freeze_authority, Some(Pubkey::from([4; 32])));
    assert_eq!(rows[0].supply, 123);
    assert_eq!(rows[0].decimals, 4);
    assert!(!rows[0].is_initialized);
}
