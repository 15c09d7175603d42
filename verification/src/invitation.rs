//! Invitations to a board, passed around as base58 text: the board's key,
//! the invitee's new secret key and the invitee's signed membership, as a
//! CBOR record.
use vstd::prelude::*;

use crate::cbor::{
    decode, decode_bytes, encode, encode_term, lemma_all_pairs_well_formed, lemma_decode_encode,
    lemma_pair_terms_of_len, pair_terms_of, well_formed, CborTerm, CborValue, MAX_DEPTH,
};
use crate::ids::{FastHash, MemberId};
use crate::keys::{bs58_decode, spec_bs58_decode, spec_valid_verifying_key, verifying_key_is_valid};
use crate::state::{AuthorizedMember, Member};
use crate::wire::{
    bytes_term, bytes_value, field_bytes, field_i64, find_field, get_bytes, get_i64, i64_term,
    int_value, lemma_lookup_unique, lemma_read_bytes, lemma_read_i64, lemma_short_text_fits,
    lookup, text_value, Field, Lookup,
};

verus! {

/// The base58 text of bytes (Bitcoin alphabet).
pub uninterp spec fn spec_bs58_encode(b: Seq<u8>) -> Seq<char>;

/// `bs58::encode(b).into_string()`. Base58 decoding gives back the bytes
/// that were encoded; that is stated, and the text is left to the name.
#[verifier::external_body]
pub(crate) fn bs58_encode(b: &[u8]) -> (r: String)
    ensures
        r@ == spec_bs58_encode(b@),
        spec_bs58_decode(r@) == Some(b@),
{
    bs58::encode(b).into_string()
}

/// An invitation to a board.
#[derive(Clone, Copy, PartialEq, Eq, Debug)]
pub struct Invitation {
    /// The board: its owner's verifying key.
    pub board: [u8; 32],
    /// The secret key made for the invitee.
    pub invitee_signing_key: [u8; 32],
    /// The invitee's membership, signed by the inviter.
    pub invitee: AuthorizedMember,
}

pub struct InvitationView {
    pub board: Seq<u8>,
    pub invitee_signing_key: Seq<u8>,
    pub owner_member_id: MemberId,
    pub invited_by: MemberId,
    pub member_vk: Seq<u8>,
    pub signature: Seq<u8>,
}

impl View for Invitation {
    type V = InvitationView;

    open spec fn view(&self) -> InvitationView {
        InvitationView {
            board: self.board@,
            invitee_signing_key: self.invitee_signing_key@,
            owner_member_id: self.invitee.member.owner_member_id,
            invited_by: self.invitee.member.invited_by,
            member_vk: self.invitee.member.member_vk@,
            signature: self.invitee.signature@,
        }
    }
}

/// A member as CBOR: ids as integers, the key as a byte string.
pub open spec fn member_term(v: InvitationView) -> CborTerm {
    CborTerm::Dict(
        seq![
            (CborTerm::Text("owner_member_id"@), i64_term(v.owner_member_id.0.0)),
            (CborTerm::Text("invited_by"@), i64_term(v.invited_by.0.0)),
            (CborTerm::Text("member_vk"@), CborTerm::Bytes(v.member_vk)),
        ],
    )
}

/// A signed member as CBOR: the signature as an array of its bytes.
pub open spec fn authorized_member_term(v: InvitationView) -> CborTerm {
    CborTerm::Dict(
        seq![
            (CborTerm::Text("member"@), member_term(v)),
            (CborTerm::Text("signature"@), bytes_term(v.signature)),
        ],
    )
}

/// An invitation as CBOR: the keys as byte strings.
pub open spec fn invitation_term(v: InvitationView) -> CborTerm {
    CborTerm::Dict(
        seq![
            (CborTerm::Text("board"@), CborTerm::Bytes(v.board)),
            (CborTerm::Text("invitee_signing_key"@), CborTerm::Bytes(v.invitee_signing_key)),
            (CborTerm::Text("invitee"@), authorized_member_term(v)),
        ],
    )
}

/// The bytes of an invitation.
pub open spec fn invitation_bytes(v: InvitationView) -> Seq<u8> {
    encode_term(invitation_term(v))
}

/// A 32-byte key under `name`, as a byte string.
pub open spec fn field_key(p: Seq<(CborTerm, CborTerm)>, name: Seq<char>) -> Option<Seq<u8>> {
    match lookup(p, name) {
        Lookup::Found(CborTerm::Bytes(b)) => if b.len() == 32 {
            Some(b)
        } else {
            None
        },
        _ => None,
    }
}

/// The record under `name`.
pub open spec fn field_record(p: Seq<(CborTerm, CborTerm)>, name: Seq<char>) -> Option<
    Seq<(CborTerm, CborTerm)>,
> {
    match lookup(p, name) {
        Lookup::Found(CborTerm::Dict(q)) => Some(q),
        _ => None,
    }
}

/// The invitation that a CBOR item holds: the board key must be a valid
/// verifying key, the invitee's key too, and the signature 64 bytes.
pub open spec fn invitation_of(t: CborTerm) -> Option<InvitationView> {
    match t {
        CborTerm::Dict(p) => match (
            field_key(p, "board"@),
            field_key(p, "invitee_signing_key"@),
            field_record(p, "invitee"@),
        ) {
            (Some(board), Some(sk), Some(inv)) => match (
                field_record(inv, "member"@),
                field_bytes(inv, "signature"@),
            ) {
                (Some(m), Some(sig)) => match (
                    field_i64(m, "owner_member_id"@),
                    field_i64(m, "invited_by"@),
                    field_key(m, "member_vk"@),
                ) {
                    (Some(o), Some(by), Some(vk)) => if spec_valid_verifying_key(board)
                        && spec_valid_verifying_key(vk) && sig.len() == 64 {
                        Some(
                            InvitationView {
                                board,
                                invitee_signing_key: sk,
                                owner_member_id: MemberId(FastHash(o)),
                                invited_by: MemberId(FastHash(by)),
                                member_vk: vk,
                                signature: sig,
                            },
                        )
                    } else {
                        None
                    },
                    _ => None,
                },
                _ => None,
            },
            _ => None,
        },
        _ => None,
    }
}

/// The invitation that bytes decode to.
pub open spec fn invitation_from_bytes(b: Seq<u8>) -> Option<InvitationView> {
    match decode_bytes(b) {
        Some(t) => invitation_of(t),
        None => None,
    }
}

/// Why invitation text is refused.
#[derive(Clone, Copy, PartialEq, Eq, Structural, Debug)]
pub enum InvitationError {
    /// The text is not base58.
    Base58,
    /// The bytes are not an invitation.
    Deserialization,
}

/// The invitation that base58 text holds.
pub open spec fn invitation_from_code(s: Seq<char>) -> Result<InvitationView, InvitationError> {
    match spec_bs58_decode(s) {
        None => Err(InvitationError::Base58),
        Some(b) => match invitation_from_bytes(b) {
            Some(v) => Ok(v),
            None => Err(InvitationError::Deserialization),
        },
    }
}

fn key_value(k: &[u8; 32]) -> (r: CborValue)
    ensures
        r@ == CborTerm::Bytes(k@),
{
    let mut b: Vec<u8> = Vec::new();
    let mut i: usize = 0;
    while i < 32
        invariant
            i <= 32,
            k@.len() == 32,
            b@ == k@.subrange(0, i as int),
        decreases 32 - i,
    {
        b.push(k[i]);
        i = i + 1;
        assert(b@ =~= k@.subrange(0, i as int));
    }
    assert(k@.subrange(0, 32) =~= k@);
    CborValue::Bytes(b)
}

fn array32(b: &Vec<u8>) -> (r: [u8; 32])
    requires
        b@.len() == 32,
    ensures
        r@ == b@,
{
    let mut out = [0u8; 32];
    let mut i: usize = 0;
    while i < 32
        invariant
            i <= 32,
            b@.len() == 32,
            out@.len() == 32,
            forall|j: int| 0 <= j < i ==> out@[j] == b@[j],
        decreases 32 - i,
    {
        out.set(i, b[i]);
        i = i + 1;
    }
    assert(out@ =~= b@);
    out
}

fn array64(b: &Vec<u8>) -> (r: [u8; 64])
    requires
        b@.len() == 64,
    ensures
        r@ == b@,
{
    let mut out = [0u8; 64];
    let mut i: usize = 0;
    while i < 64
        invariant
            i <= 64,
            b@.len() == 64,
            out@.len() == 64,
            forall|j: int| 0 <= j < i ==> out@[j] == b@[j],
        decreases 64 - i,
    {
        out.set(i, b[i]);
        i = i + 1;
    }
    assert(out@ =~= b@);
    out
}

fn get_key(pairs: &Vec<(CborValue, CborValue)>, name: &str) -> (r: Option<[u8; 32]>)
    ensures
        match r {
            Some(k) => field_key(pair_terms_of(pairs@), name@) == Some(k@),
            None => field_key(pair_terms_of(pairs@), name@) is None,
        },
{
    match find_field(pairs, name) {
        Field::Found(CborValue::Bytes(b)) => if b.len() == 32 {
            Some(array32(b))
        } else {
            None
        },
        _ => None,
    }
}

fn get_record<'a>(pairs: &'a Vec<(CborValue, CborValue)>, name: &str) -> (r: Option<
    &'a Vec<(CborValue, CborValue)>,
>)
    ensures
        match r {
            Some(q) => field_record(pair_terms_of(pairs@), name@) == Some(pair_terms_of(q@)),
            None => field_record(pair_terms_of(pairs@), name@) is None,
        },
{
    match find_field(pairs, name) {
        Field::Found(CborValue::Dict(q)) => Some(q),
        _ => None,
    }
}

impl Invitation {
    /// The invitation as CBOR bytes.
    pub fn to_bytes(&self) -> (r: Vec<u8>)
        ensures
            r@ == invitation_bytes(self@),
    {
        let m = &self.invitee.member;
        let member_fields = vec![
            (text_value("owner_member_id"), int_value(m.owner_member_id.0.0)),
            (text_value("invited_by"), int_value(m.invited_by.0.0)),
            (text_value("member_vk"), key_value(&m.member_vk)),
        ];
        proof {
            lemma_pair_terms_of_len(member_fields@);
            assert(pair_terms_of(member_fields@) =~= member_term(self@)->Dict_0);
        }
        let inv_fields = vec![
            (text_value("member"), CborValue::Dict(member_fields)),
            (text_value("signature"), bytes_value(self.invitee.signature.as_slice())),
        ];
        proof {
            lemma_pair_terms_of_len(inv_fields@);
            assert(pair_terms_of(inv_fields@) =~= authorized_member_term(self@)->Dict_0);
        }
        let fields = vec![
            (text_value("board"), key_value(&self.board)),
            (text_value("invitee_signing_key"), key_value(&self.invitee_signing_key)),
            (text_value("invitee"), CborValue::Dict(inv_fields)),
        ];
        proof {
            lemma_pair_terms_of_len(fields@);
            assert(pair_terms_of(fields@) =~= invitation_term(self@)->Dict_0);
        }
        encode(&CborValue::Dict(fields))
    }

    /// The invitation that CBOR bytes hold, if they hold one.
    pub fn from_bytes(data: &[u8]) -> (r: Option<Invitation>)
        ensures
            match r {
                Some(x) => invitation_from_bytes(data@) == Some(x@),
                None => invitation_from_bytes(data@) is None,
            },
    {
        let pairs = match decode(data) {
            Some(CborValue::Dict(pairs)) => pairs,
            _ => {
                return None;
            },
        };
        let board = match get_key(&pairs, "board") {
            Some(k) => k,
            None => {
                return None;
            },
        };
        let sk = match get_key(&pairs, "invitee_signing_key") {
            Some(k) => k,
            None => {
                return None;
            },
        };
        let inv = match get_record(&pairs, "invitee") {
            Some(q) => q,
            None => {
                return None;
            },
        };
        let m = match get_record(inv, "member") {
            Some(q) => q,
            None => {
                return None;
            },
        };
        let sig = match get_bytes(inv, "signature") {
            Some(s) => s,
            None => {
                return None;
            },
        };
        let owner = match get_i64(m, "owner_member_id") {
            Some(x) => x,
            None => {
                return None;
            },
        };
        let by = match get_i64(m, "invited_by") {
            Some(x) => x,
            None => {
                return None;
            },
        };
        let vk = match get_key(m, "member_vk") {
            Some(k) => k,
            None => {
                return None;
            },
        };
        if !verifying_key_is_valid(&board) || !verifying_key_is_valid(&vk) || sig.len() != 64 {
            return None;
        }
        let signature = array64(&sig);
        Some(
            Invitation {
                board,
                invitee_signing_key: sk,
                invitee: AuthorizedMember {
                    member: Member {
                        owner_member_id: MemberId(FastHash(owner)),
                        invited_by: MemberId(FastHash(by)),
                        member_vk: vk,
                    },
                    signature,
                },
            },
        )
    }

    /// The invitation as base58 text; decoding the text gives back the
    /// invitation's bytes.
    pub fn to_encoded_string(&self) -> (r: String)
        ensures
            r@ == spec_bs58_encode(invitation_bytes(self@)),
            spec_bs58_decode(r@) == Some(invitation_bytes(self@)),
    {
        let data = self.to_bytes();
        bs58_encode(data.as_slice())
    }

    /// The invitation that base58 text holds: refused where the text is not
    /// base58, or where its bytes are not an invitation.
    pub fn from_encoded_string(s: &str) -> (r: Result<Invitation, InvitationError>)
        ensures
            match invitation_from_code(s@) {
                Ok(v) => r matches Ok(x) && x@ == v,
                Err(e) => r == Err::<Invitation, InvitationError>(e),
            },
    {
        let decoded = match bs58_decode(s) {
            Some(d) => d,
            None => {
                return Err(InvitationError::Base58);
            },
        };
        match Invitation::from_bytes(decoded.as_slice()) {
            Some(x) => Ok(x),
            None => Err(InvitationError::Deserialization),
        }
    }
}

/// Law: the bytes of an invitation read back as the invitation, where its
/// keys are valid verifying keys and its key and signature lengths right.
pub proof fn lemma_invitation_roundtrip(x: InvitationView)
    requires
        x.board.len() == 32,
        x.invitee_signing_key.len() == 32,
        x.member_vk.len() == 32,
        x.signature.len() == 64,
        spec_valid_verifying_key(x.board),
        spec_valid_verifying_key(x.member_vk),
    ensures
        invitation_from_bytes(invitation_bytes(x)) == Some(x),
{
    reveal_strlit("board");
    reveal_strlit("invitee_signing_key");
    reveal_strlit("invitee");
    reveal_strlit("member");
    reveal_strlit("signature");
    reveal_strlit("owner_member_id");
    reveal_strlit("invited_by");
    reveal_strlit("member_vk");
    lemma_short_text_fits("board"@);
    lemma_short_text_fits("invitee_signing_key"@);
    lemma_short_text_fits("invitee"@);
    lemma_short_text_fits("member"@);
    lemma_short_text_fits("signature"@);
    lemma_short_text_fits("owner_member_id"@);
    lemma_short_text_fits("invited_by"@);
    lemma_short_text_fits("member_vk"@);
    let mt = member_term(x);
    let mp = mt->Dict_0;
    lemma_read_i64(x.owner_member_id.0.0);
    lemma_read_i64(x.invited_by.0.0);
    lemma_all_pairs_well_formed(mp, (MAX_DEPTH - 3) as nat);
    let at = authorized_member_term(x);
    let ap = at->Dict_0;
    lemma_read_bytes(x.signature, (MAX_DEPTH - 2) as nat);
    assert(well_formed(mt, (MAX_DEPTH - 2) as nat));
    lemma_all_pairs_well_formed(ap, (MAX_DEPTH - 2) as nat);
    let t = invitation_term(x);
    let p = t->Dict_0;
    assert(well_formed(at, (MAX_DEPTH - 1) as nat));
    lemma_all_pairs_well_formed(p, (MAX_DEPTH - 1) as nat);
    assert(well_formed(t, MAX_DEPTH as nat));
    lemma_decode_encode(t, Seq::empty());
    assert(encode_term(t) + Seq::<u8>::empty() =~= encode_term(t));
    lemma_lookup_unique(p, "board"@, 0);
    lemma_lookup_unique(p, "invitee_signing_key"@, 1);
    lemma_lookup_unique(p, "invitee"@, 2);
    lemma_lookup_unique(ap, "member"@, 0);
    lemma_lookup_unique(ap, "signature"@, 1);
    lemma_lookup_unique(mp, "owner_member_id"@, 0);
    lemma_lookup_unique(mp, "invited_by"@, 1);
    lemma_lookup_unique(mp, "member_vk"@, 2);
}

/// Law: the base58 text of an invitation (text that base58-decodes to the
/// invitation's bytes, as `to_encoded_string` gives) reads back as the
/// invitation, where its keys are valid verifying keys.
pub proof fn lemma_invitation_code_roundtrip(x: InvitationView, s: Seq<char>)
    requires
        spec_bs58_decode(s) == Some(invitation_bytes(x)),
        x.board.len() == 32,
        x.invitee_signing_key.len() == 32,
        x.member_vk.len() == 32,
        x.signature.len() == 64,
        spec_valid_verifying_key(x.board),
        spec_valid_verifying_key(x.member_vk),
    ensures
        invitation_from_code(s) == Ok::<InvitationView, InvitationError>(x),
{
    lemma_invitation_roundtrip(x);
}

} // verus!
