use qsafe::envelope::FileKey;
use qsafe::error::PaperError;
use qsafe::format::Recipient;
use qsafe::paper::{display_words, unwrap_bip39, Bip39Wrapper, GeneratedMnemonic};

#[test]
fn generate_24_words() {
    let m = GeneratedMnemonic::random_24().unwrap();
    let words = m.words();
    assert_eq!(words.len(), 24);
    for w in words {
        assert!(!w.is_empty());
    }
}

#[test]
fn recipient_wrap_unwrap_roundtrip() {
    let wrapper = Bip39Wrapper::generate().unwrap();
    let words = wrapper.words().join(" ");

    let file_key = FileKey::random();
    let original = *file_key.as_bytes();

    let r = wrapper.wrap(&file_key).unwrap();
    let br = match r {
        Recipient::Bip39(b) => b,
        _ => panic!(),
    };

    let recovered = unwrap_bip39(&words, &br).unwrap();
    assert_eq!(recovered.as_bytes(), &original);
}

#[test]
fn wrong_words_fail() {
    let wrapper = Bip39Wrapper::generate().unwrap();
    let file_key = FileKey::random();
    let r = wrapper.wrap(&file_key).unwrap();
    let br = match r {
        Recipient::Bip39(b) => b,
        _ => panic!(),
    };

    let other = Bip39Wrapper::generate().unwrap();
    let other_words = other.words().join(" ");
    assert!(unwrap_bip39(&other_words, &br).is_err());
}

#[test]
fn invalid_checksum_rejected() {
    let wrapper = Bip39Wrapper::generate().unwrap();
    let file_key = FileKey::random();
    let r = wrapper.wrap(&file_key).unwrap();
    let br = match r {
        Recipient::Bip39(b) => b,
        _ => panic!(),
    };

    let mut words: Vec<String> = wrapper.words();
    words[0] = "zoo".to_string();
    let bad = words.join(" ");
    let err = unwrap_bip39(&bad, &br);
    assert!(err.is_err());
}

#[test]
fn one_word_typo_rejected_by_checksum() {
    let valid = Bip39Wrapper::generate().unwrap();
    let words = valid.words();
    let file_key = FileKey::random();
    let r = valid.wrap(&file_key).unwrap();
    let br = match r {
        Recipient::Bip39(b) => b,
        _ => panic!(),
    };

    let mut tampered: Vec<String> = words.iter().map(|s| s.to_string()).collect();
    tampered[5] = if tampered[5] == "abandon" { "ability".to_string() } else { "abandon".to_string() };
    let bad = tampered.join(" ");
    assert!(unwrap_bip39(&bad, &br).is_err());
}

#[test]
fn paper_tampered_ciphertext_rejected() {
    let wrapper = Bip39Wrapper::generate().unwrap();
    let words = wrapper.words().join(" ");
    let file_key = FileKey::random();
    let r = wrapper.wrap(&file_key).unwrap();
    let mut br = match r {
        Recipient::Bip39(b) => b,
        _ => panic!(),
    };
    br.encrypted_file_key[0] ^= 1;
    assert!(unwrap_bip39(&words, &br).is_err());
}

#[test]
fn display_words_format_correct() {
    let words = vec!["one", "two", "three", "four", "five", "six", "seven", "eight"];
    let formatted = display_words(&words);
    assert!(formatted.contains('\n'));
    assert!(formatted.contains("1."));
    assert!(formatted.contains("8."));
}

#[test]
fn display_words_exact_layout() {
    let words = vec!["alpha", "beta", "gamma", "delta", "epsilon"];
    let expected = format!(
        "{:>3}. {:<10} {:>3}. {:<10} {:>3}. {:<10} {:>3}. {:<10} \n{:>3}. {:<10} ",
        1, "alpha", 2, "beta", 3, "gamma", 4, "delta", 5, "epsilon"
    );
    assert_eq!(display_words(&words), expected);
    assert_eq!(display_words(&["averyveryverylongword"]), "  1. averyveryverylongword ");
    assert_eq!(display_words(&[]), "");
}

#[test]
fn word_count_and_recipient_checks() {
    assert!(matches!(GeneratedMnemonic::random(13), Err(PaperError::InvalidWordCount(13))));
    let m = GeneratedMnemonic::random(12).unwrap();
    assert_eq!(m.word_count(), 12);
    let w = Bip39Wrapper::generate_words(12).unwrap().with_label("paper");
    let fk = FileKey::random();
    let mut br = match w.wrap(&fk).unwrap() {
        Recipient::Bip39(b) => b,
        _ => panic!(),
    };
    assert_eq!(br.word_count, 12);
    assert_eq!(br.language, "english");
    assert_eq!(br.label.as_deref(), Some("paper"));
    let words = w.words().join(" ");
    br.language = "korean".to_string();
    assert!(matches!(unwrap_bip39(&words, &br), Err(PaperError::UnsupportedLanguage(_))));
    br.language = "english".to_string();
    br.word_count = 24;
    assert!(matches!(unwrap_bip39(&words, &br), Err(PaperError::InvalidMnemonic(_))));
    br.salt = vec![0; 15];
    assert!(matches!(unwrap_bip39(&words, &br), Err(PaperError::InvalidSalt)));
}

#[test]
fn word_count_mismatch_message_names_both_counts() {
    let w = Bip39Wrapper::generate_words(12).unwrap();
    let fk = FileKey::random();
    let mut br = match w.wrap(&fk).unwrap() {
        Recipient::Bip39(b) => b,
        _ => panic!(),
    };
    br.word_count = 24;
    let words = w.words().join(" ");
    match unwrap_bip39(&words, &br) {
        Err(PaperError::InvalidMnemonic(m)) => assert_eq!(m, "expected 24 words, got 12"),
        _ => panic!("expected InvalidMnemonic"),
    }
}
