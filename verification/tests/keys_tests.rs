use freetalk::keys::{check_key_length, parse_owner_key, OwnerKeyError};

#[test]
fn parses_a_base58_owner_key() {
    let vk = ed25519_dalek::SigningKey::from_bytes(&[1u8; 32]).verifying_key().to_bytes();
    let text = bs58::encode(vk).into_string();
    assert_eq!(parse_owner_key(&text), Ok(vk));
}

#[test]
fn refuses_bad_owner_keys() {
    assert_eq!(parse_owner_key("0OIl"), Err(OwnerKeyError::Decode));
    assert_eq!(OwnerKeyError::Decode.message(), "Failed to decode board owner key");
    let short = bs58::encode([1u8, 2, 3]).into_string();
    assert_eq!(parse_owner_key(&short), Err(OwnerKeyError::Length(3)));
    assert_eq!(
        OwnerKeyError::Length(3).message(),
        "Invalid board owner key length: expected 32 bytes, got 3"
    );
}

#[test]
fn key_length_check() {
    assert_eq!(check_key_length(vec![5u8; 32]), Ok([5u8; 32]));
    assert_eq!(check_key_length(vec![5u8; 31]), Err(OwnerKeyError::Length(31)));
}

#[test]
fn refuses_bytes_that_are_no_key() {
    // Find 32 bytes that ed25519-dalek does not accept as a verifying key.
    let mut found = None;
    for k in 0u8..=255 {
        let mut b = [k; 32];
        b[31] = 0x7f;
        if ed25519_dalek::VerifyingKey::from_bytes(&b).is_err() {
            found = Some(b);
            break;
        }
    }
    let bytes = found.unwrap();
    let text = bs58::encode(bytes).into_string();
    assert_eq!(parse_owner_key(&text), Err(OwnerKeyError::InvalidKey));
    assert_eq!(OwnerKeyError::InvalidKey.message(), "Invalid verifying key");
}
