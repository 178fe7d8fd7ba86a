use qsafe::error::SfxError;
use qsafe::sfx::{assemble_sfx, extract_payload, SFX_FOOTER_LEN, SFX_MAGIC};

#[test]
fn assemble_then_extract_roundtrip() {
    let stub = vec![0xCAu8; 256];
    let payload = b"PRETEND THIS IS A REAL .qs FILE".to_vec();
    let sfx = assemble_sfx(&stub, &payload);

    assert_eq!(&sfx[sfx.len() - 8..], SFX_MAGIC);
    let recovered_len = u64::from_le_bytes(sfx[sfx.len() - 16..sfx.len() - 8].try_into().unwrap());
    assert_eq!(recovered_len as usize, payload.len());

    let extracted = extract_payload(&sfx).unwrap();
    assert_eq!(extracted, payload);
}

#[test]
fn extract_rejects_non_sfx() {
    let bytes = b"not an sfx file at all".to_vec();
    assert!(matches!(extract_payload(&bytes), Err(SfxError::NotSfx)));
}

#[test]
fn extract_rejects_truncated_payload() {
    let stub = vec![0u8; 32];
    let bogus_payload_len: u64 = 9999;
    let mut bytes = Vec::new();
    bytes.extend_from_slice(&stub);
    bytes.extend_from_slice(&bogus_payload_len.to_le_bytes());
    bytes.extend_from_slice(&SFX_MAGIC);
    assert!(matches!(extract_payload(&bytes), Err(SfxError::InvalidFooter { .. })));
}

#[test]
fn footer_layout_is_exactly_16_bytes() {
    assert_eq!(SFX_FOOTER_LEN, 16);
    assert_eq!(SFX_MAGIC.len(), 8);
}

#[test]
fn sfx_edge_cases() {
    assert!(matches!(extract_payload(b"QSAFESFX"), Err(SfxError::NotSfx)));
    let empty = assemble_sfx(&[], &[]);
    assert_eq!(empty.len(), 16);
    assert_eq!(extract_payload(&empty).unwrap(), Vec::<u8>::new());
    match extract_payload(&assemble_sfx(&[], b"abc")[3..]) {
        Err(SfxError::InvalidFooter { payload, file }) => assert_eq!((payload, file), (3, 16)),
        other => panic!("{:?}", other),
    }
}
