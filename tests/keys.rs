use ssp::filters::{Filters, ResolvedFilters};
use ssp::parser::AccountHeader;
use ssp::pubkey::KeyError;
use ssp::Pubkey;

const TOKEN_PROGRAM_B58: &str = "TokenkegQfeZyiNwAJbNbGKPFXCWuBvf9Ss623VQ5DA";

fn token_program_bytes() -> [u8; 32] {
    [
        6, 221, 246, 225, 215, 101, 161, 147, 217, 203, 225, 70, 206, 235, 121, 172, 28, 180, 133,
        237, 95, 91, 55, 145, 58, 140, 245, 133, 126, 255, 0, 169,
    ]
}

fn header(pubkey: [u8; 32], owner: [u8; 32], lamports: u64, hash: [u8; 32]) -> AccountHeader {
    AccountHeader {
        write_version: 1,
        data_len: 0,
        pubkey: Pubkey::from(pubkey),
        lamports,
        rent_epoch: 0,
        owner: Pubkey::from(owner),
        executable: 0,
        padding: [0; 7],
        hash,
    }
}

#[test]
fn from_b58_decodes_token_program() {
    let k = Pubkey::from_b58(TOKEN_PROGRAM_B58).unwrap();
    assert_eq!(k.as_bytes(), &token_program_bytes());
    assert_eq!(k, Pubkey::token_program());
}

#[test]
fn to_string_encodes_base58() {
    assert_eq!(Pubkey::token_program().to_string(), TOKEN_PROGRAM_B58);
    assert_eq!(Pubkey::from([0u8; 32]).to_string(), "11111111111111111111111111111111");
}

#[test]
fn from_b58_rejects_non_alphabet_character() {
    assert_eq!(Pubkey::from_b58("0OIl"), Err(KeyError::NotBase58));
}

#[test]
fn from_b58_rejects_wrong_length() {
    assert_eq!(Pubkey::from_b58("1111"), Err(KeyError::WrongLength { len: 4 }));
    assert_eq!(Pubkey::from_b58(""), Err(KeyError::WrongLength { len: 0 }));
}

#[test]
fn try_from_b58_handles_absence() {
    assert_eq!(Pubkey::try_from_b58(None), Ok(None));
    assert_eq!(
        Pubkey::try_from_b58(Some(TOKEN_PROGRAM_B58)),
        Ok(Some(Pubkey::token_program()))
    );
    assert_eq!(Pubkey::try_from_b58(Some("x0")), Err(KeyError::NotBase58));
}

#[test]
fn is_zero_only_for_all_zero_key() {
    assert!(Pubkey::from([0u8; 32]).is_zero());
    let mut b = [0u8; 32];
    b[31] = 1;
    assert!(!Pubkey::from(b).is_zero());
    assert!(!Pubkey::token_program().is_zero());
}

#[test]
fn key_equality_is_byte_equality() {
    let mut b = token_program_bytes();
    assert_eq!(Pubkey::from(b), Pubkey::token_program());
    b[0] = 7;
    assert_ne!(Pubkey::from(b), Pubkey::token_program());
    assert_eq!(Pubkey::token_program().as_ref(), &token_program_bytes()[..]);
}

#[test]
fn resolve_decodes_all_fields() {
    let f = Filters {
        owner: Some(TOKEN_PROGRAM_B58.to_string()),
        hash: Some("11111111111111111111111111111111".to_string()),
        pubkey: None,
        include_dead: true,
    };
    let r = f.resolve().unwrap();
    assert_eq!(r.owner, Some(Pubkey::token_program()));
    assert_eq!(r.hash, Some([0u8; 32]));
    assert_eq!(r.pubkey, None);
    assert!(r.include_dead);
}

#[test]
fn resolve_reports_first_bad_field() {
    let f = Filters {
        owner: None,
        hash: Some("abc".to_string()),
        pubkey: Some("0".to_string()),
        include_dead: false,
    };
    assert_eq!(f.resolve().err(), Some(KeyError::WrongLength { len: 3 }));
    let g = Filters { owner: Some("l".to_string()), ..f };
    assert_eq!(g.resolve().err(), Some(KeyError::NotBase58));
}

#[test]
fn empty_filter_drops_only_dead_accounts() {
    let f = ResolvedFilters { owner: None, hash: None, pubkey: None, include_dead: false };
    assert!(f.matches(&header([1; 32], [2; 32], 5, [3; 32])));
    assert!(!f.matches(&header([1; 32], [2; 32], 0, [3; 32])));
    let all = ResolvedFilters { include_dead: true, ..f };
    assert!(all.matches(&header([1; 32], [2; 32], 0, [3; 32])));
}

#[test]
fn filter_fields_must_all_match() {
    let f = ResolvedFilters {
        owner: Some(Pubkey::from([2; 32])),
        hash: Some([3; 32]),
        pubkey: Some(Pubkey::from([1; 32])),
        include_dead: false,
    };
    assert!(f.matches(&header([1; 32], [2; 32], 5, [3; 32])));
    assert!(!f.matches(&header([9; 32], [2; 32], 5, [3; 32])));
    assert!(!f.matches(&header([1; 32], [9; 32], 5, [3; 32])));
    assert!(!f.matches(&header([1; 32], [2; 32], 5, [9; 32])));
}
