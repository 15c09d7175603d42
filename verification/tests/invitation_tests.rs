use ciborium::value::Value;
use freetalk::ids::{FastHash, MemberId};
use freetalk::invitation::{Invitation, InvitationError};
use freetalk::state::{AuthorizedMember, Member};

fn vk(seed: u8) -> [u8; 32] {
    ed25519_dalek::SigningKey::from_bytes(&[seed; 32]).verifying_key().to_bytes()
}

fn invitation() -> Invitation {
    Invitation {
        board: vk(1),
        invitee_signing_key: [2; 32],
        invitee: AuthorizedMember {
            member: Member {
                owner_member_id: MemberId(FastHash(-5)),
                invited_by: MemberId(FastHash(1234567)),
                member_vk: vk(2),
            },
            signature: [200; 64],
        },
    }
}

#[test]
fn invitation_code_roundtrip() {
    let x = invitation();
    let code = x.to_encoded_string();
    assert_eq!(Invitation::from_encoded_string(&code), Ok(x));
}

#[test]
fn invitation_bytes_agree_with_ciborium() {
    let x = invitation();
    let value = Value::Map(vec![
        (Value::Text("board".into()), Value::Bytes(x.board.to_vec())),
        (Value::Text("invitee_signing_key".into()), Value::Bytes(x.invitee_signing_key.to_vec())),
        (
            Value::Text("invitee".into()),
            Value::Map(vec![
                (
                    Value::Text("member".into()),
                    Value::Map(vec![
                        (Value::Text("owner_member_id".into()), Value::Integer((-5i64).into())),
                        (Value::Text("invited_by".into()), Value::Integer(1234567i64.into())),
                        (Value::Text("member_vk".into()), Value::Bytes(x.invitee.member.member_vk.to_vec())),
                    ]),
                ),
                (
                    Value::Text("signature".into()),
                    Value::Array(x.invitee.signature.iter().map(|b| Value::Integer((*b).into())).collect()),
                ),
            ]),
        ),
    ]);
    let mut bytes = Vec::new();
    ciborium::ser::into_writer(&value, &mut bytes).unwrap();
    assert_eq!(x.to_bytes(), bytes);
    assert_eq!(Invitation::from_bytes(&bytes), Some(x));
}

#[test]
fn invitation_refusals() {
    assert_eq!(Invitation::from_encoded_string("0OIl"), Err(InvitationError::Base58));
    let not_cbor = bs58::encode([0xffu8, 0x00]).into_string();
    assert_eq!(Invitation::from_encoded_string(&not_cbor), Err(InvitationError::Deserialization));
    // A signature of the wrong length.
    let mut bytes = invitation().to_bytes();
    let short = {
        let value: Value = ciborium::de::from_reader(&bytes[..]).unwrap();
        let mut v = value;
        if let Value::Map(ref mut top) = v {
            if let Value::Map(ref mut inv) = top[2].1 {
                inv[1].1 = Value::Array(vec![Value::Integer(1.into())]);
            }
        }
        let mut out = Vec::new();
        ciborium::ser::into_writer(&v, &mut out).unwrap();
        out
    };
    assert_eq!(Invitation::from_bytes(&short), None);
    bytes.truncate(10);
    assert_eq!(Invitation::from_bytes(&bytes), None);
}
