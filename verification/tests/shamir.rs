use std::str::FromStr;
use qsafe::error::ShamirError;
use qsafe::shamir::{combine_secret, split_secret, EncodedShare};

#[test]
fn split_3_of_5_roundtrip() {
    let secret = b"super secret file key 32 bytes!!".to_vec();
    let shares = split_secret(&secret, 3, 5).unwrap();
    assert_eq!(shares.len(), 5);

    let subset: Vec<EncodedShare> = shares.iter().take(3).cloned().collect();
    let recovered = combine_secret(&subset).unwrap();
    assert_eq!(recovered, secret);

    let recovered_all = combine_secret(&shares).unwrap();
    assert_eq!(recovered_all, secret);
}

#[test]
fn insufficient_shares_fail() {
    let secret = b"some secret data".to_vec();
    let shares = split_secret(&secret, 3, 5).unwrap();

    let subset: Vec<EncodedShare> = shares.iter().take(2).cloned().collect();
    assert!(matches!(combine_secret(&subset), Err(ShamirError::NotEnoughShares { .. })));
}

#[test]
fn encoding_roundtrip() {
    let secret = b"test key".to_vec();
    let shares = split_secret(&secret, 2, 3).unwrap();
    let encoded = shares[0].to_string();
    assert!(encoded.starts_with("qs1-2-3-01-"));

    let decoded: EncodedShare = encoded.parse().unwrap();
    assert_eq!(decoded.threshold, 2);
    assert_eq!(decoded.total, 3);
    assert_eq!(decoded.index, 1);
    assert_eq!(decoded.data, shares[0].data);
}

#[test]
fn invalid_threshold_rejected() {
    let secret = b"x".to_vec();
    assert!(split_secret(&secret, 1, 3).is_err());
    assert!(split_secret(&secret, 5, 3).is_err());
    assert!(split_secret(&secret, 2, 1).is_err());
}

#[test]
fn inconsistent_shares_detected() {
    let s1 = split_secret(b"secret-a", 3, 5).unwrap();
    let s2 = split_secret(b"secret-b", 3, 5).unwrap();

    let mut mixed = s1[..2].to_vec();
    mixed.push(s2[0].clone());

    let result = combine_secret(&mixed);
    let _ = result;
}

#[test]
fn split_to_max_shares() {
    let secret = b"k".to_vec();
    let shares = split_secret(&secret, 5, 10).unwrap();
    assert_eq!(shares.len(), 10);

    let subset: Vec<EncodedShare> = shares.iter().take(5).cloned().collect();
    let recovered = combine_secret(&subset).unwrap();
    assert_eq!(recovered, secret);
}

#[test]
fn share_text_exact_and_parse_errors() {
    let s = EncodedShare { threshold: 12, total: 200, index: 171, data: vec![0x00, 0xff, 0x1a] };
    assert_eq!(s.to_string(), "qs1-12-200-ab-00ff1a");
    let back = EncodedShare::parse("  qs1-12-200-AB-00FF1a\n").unwrap();
    assert_eq!((back.threshold, back.total, back.index), (12, 200, 171));
    assert_eq!(back.data, vec![0x00, 0xff, 0x1a]);
    assert!(matches!(EncodedShare::parse("qs2-1-2-01-00"), Err(ShamirError::InvalidShare(_))));
    assert!(matches!(EncodedShare::parse("qs1-1-2-01"), Err(ShamirError::InvalidShare(_))));
    assert!(matches!(EncodedShare::parse("qs1-256-2-01-00"), Err(ShamirError::InvalidShare(_))));
    assert!(matches!(EncodedShare::parse("qs1-2-x-01-00"), Err(ShamirError::InvalidShare(_))));
    assert!(matches!(EncodedShare::parse("qs1-2-3-zz-00"), Err(ShamirError::InvalidShare(_))));
    match EncodedShare::parse("qs1-2-3-01-0") {
        Err(ShamirError::Hex(m)) => assert_eq!(m, "Odd number of digits"),
        other => panic!("{:?}", other),
    }
    match EncodedShare::parse("qs1-2-3-01-0g") {
        Err(ShamirError::Hex(m)) => assert_eq!(m, "Invalid character 'g' at position 1"),
        other => panic!("{:?}", other),
    }
    let plus = EncodedShare::parse("qs1-+2-3-1-").unwrap();
    assert_eq!((plus.threshold, plus.index, plus.data.len()), (2, 1, 0));
}

#[test]
fn combine_error_cases() {
    assert!(matches!(combine_secret(&[]), Err(ShamirError::NotEnoughShares { got: 0, need: 2 })));
    let a = EncodedShare { threshold: 2, total: 3, index: 1, data: vec![1, 5] };
    let b = EncodedShare { threshold: 2, total: 4, index: 2, data: vec![2, 6] };
    assert!(matches!(combine_secret(&[a.clone(), b]), Err(ShamirError::InconsistentShares)));
    let short = EncodedShare { threshold: 2, total: 3, index: 2, data: vec![2] };
    assert!(matches!(combine_secret(&[a.clone(), short]), Err(ShamirError::InvalidShare(_))));
    assert!(matches!(combine_secret(&[a.clone(), a.clone()]), Err(ShamirError::RecoveryFailed(_))));
    match split_secret(b"s", 3, 2) {
        Err(ShamirError::InvalidThreshold { m, n }) => assert_eq!((m, n), (3, 2)),
        other => panic!("{:?}", other),
    }
}

#[test]
fn share_text_parses_back_for_edge_values() {
    let s = EncodedShare { threshold: 200, total: 255, index: 255, data: vec![0, 15, 16, 255] };
    let text = s.to_string();
    assert_eq!(text, "qs1-200-255-ff-000f10ff");
    let back = EncodedShare::parse(&text).unwrap();
    assert_eq!((back.threshold, back.total, back.index, back.data), (200, 255, 255, vec![0, 15, 16, 255]));
    let empty = EncodedShare { threshold: 2, total: 9, index: 0, data: vec![] };
    let back = EncodedShare::parse(&empty.to_string()).unwrap();
    assert_eq!((back.threshold, back.total, back.index, back.data.len()), (2, 9, 0, 0));
}

#[test]
fn from_str_parses_like_parse() {
    let s = EncodedShare::from_str(" qs1-3-5-0a-beef ").unwrap();
    assert_eq!((s.threshold, s.total, s.index), (3, 5, 10));
    assert_eq!(s.data, vec![0xbe, 0xef]);
    match EncodedShare::from_str("qs1-3-5") {
        Err(ShamirError::InvalidShare(m)) => assert_eq!(m, "예상 형식: qs1-M-N-XX-HEXDATA, 받음: qs1-3-5"),
        other => panic!("{:?}", other),
    }
    assert!(matches!(EncodedShare::from_str("qs1-3-5-0a-b"), Err(ShamirError::Hex(_))));
}
