//! Messages: their bodies (public or encrypted content tagged with a type and
//! a version), their authors and times, and their signatures.
use vstd::prelude::*;

use crate::cbor::{encode, encode_term, lemma_pair_terms_of_len, pair_terms_of, CborTerm, CborValue};
use crate::content::{
    action_content_from_bytes, action_content_bytes, category_content_bytes,
    category_content_from_bytes, decoded_text, display_string, normalized_icon,
    reply_content_bytes, reply_content_from_bytes, text_content_bytes, text_content_from_bytes,
    ActionContentV1, ActionContentView, CategoryContentV1, CategoryContentView,
    CategoryEditPayloadView, DecodedContent, DecodedView, EditPayloadView, ReactionPayloadView,
    ReplyContentV1, ReplyContentView, TextContentV1, TextContentView, ACTION_CONTENT_VERSION,
    CATEGORY_CONTENT_VERSION, CONTENT_TYPE_ACTION, CONTENT_TYPE_CATEGORY, CONTENT_TYPE_REPLY,
    CONTENT_TYPE_TEXT, REPLY_CONTENT_VERSION, TEXT_CONTENT_VERSION, category_edit_payload_bytes,
    edit_payload_bytes, reaction_payload_bytes,
};
use crate::crypto::{ed25519_sign, ed25519_verify, spec_ed25519_public, spec_ed25519_sign, spec_ed25519_verify};
use crate::ids::{message_id_of_signature, FastHash, MemberId, MessageId};
use crate::text::{concat, decimal, int_to_string};
use crate::wire::{bytes_term, bytes_value, copy_bytes, i64_term, int_value, opt_view, text_value};

verus! {

/// Version number of a board secret.
pub type SecretVersion = u32;

/// Message body: public content, or content encrypted with a board secret.
///
/// The content is opaque to the board; clients interpret it by its
/// `content_type` (see the `content` module).
#[derive(PartialEq, Debug)]
pub enum BoardMessageBody {
    /// Public (unencrypted) message.
    Public {
        /// Content type identifier.
        content_type: u32,
        /// Version of the content format.
        content_version: u32,
        /// CBOR-encoded content.
        data: Vec<u8>,
    },
    /// Private (encrypted) message.
    Private {
        /// Content type identifier.
        content_type: u32,
        /// Version of the content format.
        content_version: u32,
        /// Encrypted CBOR-encoded content.
        ciphertext: Vec<u8>,
        /// Nonce used for encryption.
        nonce: [u8; 12],
        /// Version of the board secret used for encryption.
        secret_version: SecretVersion,
    },
}

pub enum BodyView {
    Public { content_type: u32, content_version: u32, data: Seq<u8> },
    Private {
        content_type: u32,
        content_version: u32,
        ciphertext: Seq<u8>,
        nonce: Seq<u8>,
        secret_version: u32,
    },
}

impl View for BoardMessageBody {
    type V = BodyView;

    open spec fn view(&self) -> BodyView {
        match self {
            BoardMessageBody::Public { content_type, content_version, data } => BodyView::Public {
                content_type: *content_type,
                content_version: *content_version,
                data: data@,
            },
            BoardMessageBody::Private {
                content_type,
                content_version,
                ciphertext,
                nonce,
                secret_version,
            } => BodyView::Private {
                content_type: *content_type,
                content_version: *content_version,
                ciphertext: ciphertext@,
                nonce: nonce@,
                secret_version: *secret_version,
            },
        }
    }
}

pub open spec fn body_content_type(b: BodyView) -> u32 {
    match b {
        BodyView::Public { content_type, .. } => content_type,
        BodyView::Private { content_type, .. } => content_type,
    }
}

pub open spec fn body_content_version(b: BodyView) -> u32 {
    match b {
        BodyView::Public { content_version, .. } => content_version,
        BodyView::Private { content_version, .. } => content_version,
    }
}

/// Whether the body is an action on another message.
pub open spec fn body_is_action(b: BodyView) -> bool {
    body_content_type(b) == CONTENT_TYPE_ACTION
}

/// Whether the body is a category.
pub open spec fn body_is_category(b: BodyView) -> bool {
    body_content_type(b) == CONTENT_TYPE_CATEGORY
}

/// The length of the content bytes, which the size limit applies to.
pub open spec fn body_len(b: BodyView) -> nat {
    match b {
        BodyView::Public { data, .. } => data.len(),
        BodyView::Private { ciphertext, .. } => ciphertext.len(),
    }
}

/// The decoded content of a public body; `None` for private bodies and for
/// public bodies of a known type whose bytes do not decode.
pub open spec fn decode_body(b: BodyView) -> Option<DecodedView> {
    match b {
        BodyView::Public { content_type, content_version, data } => {
            if content_type == CONTENT_TYPE_TEXT {
                match text_content_from_bytes(data) {
                    Some(t) => Some(DecodedView::Text(t)),
                    None => None,
                }
            } else if content_type == CONTENT_TYPE_ACTION {
                match action_content_from_bytes(data) {
                    Some(a) => Some(DecodedView::Action(a)),
                    None => None,
                }
            } else if content_type == CONTENT_TYPE_REPLY {
                match reply_content_from_bytes(data) {
                    Some(r) => Some(DecodedView::Reply(r)),
                    None => None,
                }
            } else if content_type == CONTENT_TYPE_CATEGORY {
                match category_content_from_bytes(data) {
                    Some(c) => Some(DecodedView::Category(c)),
                    None => None,
                }
            } else {
                Some(DecodedView::Unknown { content_type, content_version })
            }
        },
        BodyView::Private { .. } => None,
    }
}

/// The target of a public action body.
pub open spec fn body_target(b: BodyView) -> Option<MessageId> {
    match b {
        BodyView::Public { content_type, data, .. } => if content_type == CONTENT_TYPE_ACTION {
            match action_content_from_bytes(data) {
                Some(a) => Some(a.target),
                None => None,
            }
        } else {
            None
        },
        _ => None,
    }
}

/// The title of a public text or reply body, or the name of a public category.
pub open spec fn body_title(b: BodyView) -> Option<Seq<char>> {
    match b {
        BodyView::Public { content_type, data, .. } => {
            if content_type == CONTENT_TYPE_TEXT {
                match text_content_from_bytes(data) {
                    Some(t) => Some(t.title),
                    None => None,
                }
            } else if content_type == CONTENT_TYPE_REPLY {
                match reply_content_from_bytes(data) {
                    Some(r) => Some(r.title),
                    None => None,
                }
            } else if content_type == CONTENT_TYPE_CATEGORY {
                match category_content_from_bytes(data) {
                    Some(c) => Some(c.name),
                    None => None,
                }
            } else {
                None
            }
        },
        BodyView::Private { .. } => None,
    }
}

/// The public text of a body, where it has one.
pub open spec fn body_public_string(b: BodyView) -> Option<Seq<char>> {
    match decode_body(b) {
        Some(d) => decoded_text(d),
        None => None,
    }
}

/// How a body is shown.
pub open spec fn body_lossy_string(b: BodyView) -> Seq<char> {
    match b {
        BodyView::Public { .. } => match decode_body(b) {
            Some(d) => display_string(d),
            None => "[Failed to decode message]"@,
        },
        BodyView::Private { ciphertext, secret_version, .. } => "[Encrypted message: "@ + decimal(
            ciphertext.len() as int,
        ) + " bytes, v"@ + decimal(secret_version as int) + "]"@,
    }
}

pub open spec fn public_body(content_type: u32, content_version: u32, data: Seq<u8>) -> BodyView {
    BodyView::Public { content_type, content_version, data }
}

impl BoardMessageBody {
    /// A public text message.
    pub fn public(title: String, content: String) -> (r: Self)
        ensures
            r@ == public_body(
                CONTENT_TYPE_TEXT,
                TEXT_CONTENT_VERSION,
                text_content_bytes(TextContentView { title: title@, content: content@ }),
            ),
            text_content_from_bytes(r@->Public_data) == Some(TextContentView { title: title@, content: content@ }),
            body_title(r@) == Some(title@),
            body_public_string(r@) == Some(content@),
    {
        let text_content = TextContentV1::new(title, content);
        BoardMessageBody::Public {
            content_type: CONTENT_TYPE_TEXT,
            content_version: TEXT_CONTENT_VERSION,
            data: text_content.encode(),
        }
    }

    /// A public message with raw content.
    pub fn public_raw(content_type: u32, content_version: u32, data: Vec<u8>) -> (r: Self)
        ensures
            r@ == public_body(content_type, content_version, data@),
    {
        BoardMessageBody::Public { content_type, content_version, data }
    }

    /// A private message.
    pub fn private(
        content_type: u32,
        content_version: u32,
        ciphertext: Vec<u8>,
        nonce: [u8; 12],
        secret_version: SecretVersion,
    ) -> (r: Self)
        ensures
            r@ == (BodyView::Private {
                content_type,
                content_version,
                ciphertext: ciphertext@,
                nonce: nonce@,
                secret_version,
            }),
    {
        BoardMessageBody::Private { content_type, content_version, ciphertext, nonce, secret_version }
    }

    /// A private text message.
    pub fn private_text(ciphertext: Vec<u8>, nonce: [u8; 12], secret_version: SecretVersion) -> (r:
        Self)
        ensures
            r@ == (BodyView::Private {
                content_type: CONTENT_TYPE_TEXT,
                content_version: TEXT_CONTENT_VERSION,
                ciphertext: ciphertext@,
                nonce: nonce@,
                secret_version,
            }),
    {
        BoardMessageBody::Private {
            content_type: CONTENT_TYPE_TEXT,
            content_version: TEXT_CONTENT_VERSION,
            ciphertext,
            nonce,
            secret_version,
        }
    }

    /// A private action message: the encrypted encoding of an action.
    pub fn private_action(ciphertext: Vec<u8>, nonce: [u8; 12], secret_version: SecretVersion) -> (r:
        Self)
        ensures
            r@ == (BodyView::Private {
                content_type: CONTENT_TYPE_ACTION,
                content_version: ACTION_CONTENT_VERSION,
                ciphertext: ciphertext@,
                nonce: nonce@,
                secret_version,
            }),
    {
        BoardMessageBody::Private {
            content_type: CONTENT_TYPE_ACTION,
            content_version: ACTION_CONTENT_VERSION,
            ciphertext,
            nonce,
            secret_version,
        }
    }

    /// A public edit action.
    pub fn edit(target: MessageId, new_title: String, new_text: String) -> (r: Self)
        ensures
            r@ == public_body(
                CONTENT_TYPE_ACTION,
                ACTION_CONTENT_VERSION,
                action_content_bytes(
                    ActionContentView {
                        action_type: crate::content::ACTION_TYPE_EDIT,
                        target,
                        payload: edit_payload_bytes(
                            EditPayloadView { new_title: new_title@, new_text: new_text@ },
                        ),
                    },
                ),
            ),
    {
        let action = ActionContentV1::edit(target, new_title, new_text);
        BoardMessageBody::Public {
            content_type: CONTENT_TYPE_ACTION,
            content_version: ACTION_CONTENT_VERSION,
            data: action.encode(),
        }
    }

    /// A public delete action.
    pub fn delete(target: MessageId) -> (r: Self)
        ensures
            r@ == public_body(
                CONTENT_TYPE_ACTION,
                ACTION_CONTENT_VERSION,
                action_content_bytes(
                    ActionContentView {
                        action_type: crate::content::ACTION_TYPE_DELETE,
                        target,
                        payload: Seq::empty(),
                    },
                ),
            ),
    {
        let action = ActionContentV1::delete(target);
        BoardMessageBody::Public {
            content_type: CONTENT_TYPE_ACTION,
            content_version: ACTION_CONTENT_VERSION,
            data: action.encode(),
        }
    }

    /// A public reaction action.
    pub fn reaction(target: MessageId, emoji: String) -> (r: Self)
        ensures
            r@ == public_body(
                CONTENT_TYPE_ACTION,
                ACTION_CONTENT_VERSION,
                action_content_bytes(
                    ActionContentView {
                        action_type: crate::content::ACTION_TYPE_REACTION,
                        target,
                        payload: reaction_payload_bytes(ReactionPayloadView { emoji: emoji@ }),
                    },
                ),
            ),
    {
        let action = ActionContentV1::reaction(target, emoji);
        BoardMessageBody::Public {
            content_type: CONTENT_TYPE_ACTION,
            content_version: ACTION_CONTENT_VERSION,
            data: action.encode(),
        }
    }

    /// A public remove-reaction action.
    pub fn remove_reaction(target: MessageId, emoji: String) -> (r: Self)
        ensures
            r@ == public_body(
                CONTENT_TYPE_ACTION,
                ACTION_CONTENT_VERSION,
                action_content_bytes(
                    ActionContentView {
                        action_type: crate::content::ACTION_TYPE_REMOVE_REACTION,
                        target,
                        payload: reaction_payload_bytes(ReactionPayloadView { emoji: emoji@ }),
                    },
                ),
            ),
    {
        let action = ActionContentV1::remove_reaction(target, emoji);
        BoardMessageBody::Public {
            content_type: CONTENT_TYPE_ACTION,
            content_version: ACTION_CONTENT_VERSION,
            data: action.encode(),
        }
    }

    /// A public category edit action.
    pub fn edit_category(
        target: MessageId,
        new_name: String,
        new_description: Option<String>,
        new_icon: Option<String>,
        new_color: String,
    ) -> (r: Self)
        ensures
            r@ == public_body(
                CONTENT_TYPE_ACTION,
                ACTION_CONTENT_VERSION,
                action_content_bytes(
                    ActionContentView {
                        action_type: crate::content::ACTION_TYPE_EDIT_CATEGORY,
                        target,
                        payload: category_edit_payload_bytes(
                            CategoryEditPayloadView {
                                new_name: new_name@,
                                new_description: opt_view(new_description),
                                new_icon: opt_view(new_icon),
                                new_color: new_color@,
                            },
                        ),
                    },
                ),
            ),
    {
        let action = ActionContentV1::edit_category(
            target,
            new_name,
            new_description,
            new_icon,
            new_color,
        );
        BoardMessageBody::Public {
            content_type: CONTENT_TYPE_ACTION,
            content_version: ACTION_CONTENT_VERSION,
            data: action.encode(),
        }
    }

    /// A public reply.
    pub fn reply(
        title: String,
        content: String,
        target_message_id: MessageId,
        target_author_name: String,
        target_content_preview: String,
    ) -> (r: Self)
        ensures
            r@ == public_body(
                CONTENT_TYPE_REPLY,
                REPLY_CONTENT_VERSION,
                reply_content_bytes(
                    ReplyContentView {
                        title: title@,
                        content: content@,
                        target_message_id,
                        target_author_name: target_author_name@,
                        target_content_preview: target_content_preview@,
                    },
                ),
            ),
    {
        let reply = ReplyContentV1::new(
            title,
            content,
            target_message_id,
            target_author_name,
            target_content_preview,
        );
        BoardMessageBody::Public {
            content_type: CONTENT_TYPE_REPLY,
            content_version: REPLY_CONTENT_VERSION,
            data: reply.encode(),
        }
    }

    /// A public category. Only owners and admins should create categories;
    /// the caller checks that.
    pub fn category(
        name: String,
        description: Option<String>,
        icon: Option<String>,
        color: String,
        parent_category_id: Option<MessageId>,
    ) -> (r: Self)
        ensures
            r@ == public_body(
                CONTENT_TYPE_CATEGORY,
                CATEGORY_CONTENT_VERSION,
                category_content_bytes(
                    CategoryContentView {
                        name: name@,
                        description: opt_view(description),
                        icon: match icon {
                            Some(i) => normalized_icon(i@),
                            None => None,
                        },
                        color: color@,
                        parent_category_id,
                    },
                ),
            ),
    {
        let mut cat = CategoryContentV1::new(name, description, color);
        match icon {
            Some(i) => {
                cat = cat.with_icon(i);
            },
            None => {},
        }
        match parent_category_id {
            Some(p) => {
                cat = cat.with_parent(p);
            },
            None => {},
        }
        BoardMessageBody::Public {
            content_type: CONTENT_TYPE_CATEGORY,
            content_version: CATEGORY_CONTENT_VERSION,
            data: cat.encode(),
        }
    }

    /// Whether the message is public.
    pub fn is_public(&self) -> (r: bool)
        ensures
            r == (self@ is Public),
    {
        match self {
            BoardMessageBody::Public { .. } => true,
            _ => false,
        }
    }

    /// Whether the message is private.
    pub fn is_private(&self) -> (r: bool)
        ensures
            r == (self@ is Private),
    {
        match self {
            BoardMessageBody::Private { .. } => true,
            _ => false,
        }
    }

    /// The content type.
    pub fn content_type(&self) -> (r: u32)
        ensures
            r == body_content_type(self@),
    {
        match self {
            BoardMessageBody::Public { content_type, .. } => *content_type,
            BoardMessageBody::Private { content_type, .. } => *content_type,
        }
    }

    /// The content version.
    pub fn content_version(&self) -> (r: u32)
        ensures
            r == body_content_version(self@),
    {
        match self {
            BoardMessageBody::Public { content_version, .. } => *content_version,
            BoardMessageBody::Private { content_version, .. } => *content_version,
        }
    }

    /// Whether this is an action message.
    pub fn is_action(&self) -> (r: bool)
        ensures
            r == body_is_action(self@),
    {
        self.content_type() == CONTENT_TYPE_ACTION
    }

    /// Whether this is a category message.
    pub fn is_category(&self) -> (r: bool)
        ensures
            r == body_is_category(self@),
    {
        self.content_type() == CONTENT_TYPE_CATEGORY
    }

    /// The decoded content of a public message; `None` for private messages
    /// (decrypt them first) and for public content that does not decode.
    pub fn decode_content(&self) -> (r: Option<DecodedContent>)
        ensures
            match r {
                Some(d) => decode_body(self@) == Some(d@),
                None => decode_body(self@) is None,
            },
    {
        match self {
            BoardMessageBody::Public { content_type, content_version, data } => {
                if *content_type == CONTENT_TYPE_TEXT {
                    match TextContentV1::decode(data.as_slice()) {
                        Ok(t) => Some(DecodedContent::Text(t)),
                        Err(_) => None,
                    }
                } else if *content_type == CONTENT_TYPE_ACTION {
                    match ActionContentV1::decode(data.as_slice()) {
                        Ok(a) => Some(DecodedContent::Action(a)),
                        Err(_) => None,
                    }
                } else if *content_type == CONTENT_TYPE_REPLY {
                    match ReplyContentV1::decode(data.as_slice()) {
                        Ok(r) => Some(DecodedContent::Reply(r)),
                        Err(_) => None,
                    }
                } else if *content_type == CONTENT_TYPE_CATEGORY {
                    match CategoryContentV1::decode(data.as_slice()) {
                        Ok(c) => Some(DecodedContent::Category(c)),
                        Err(_) => None,
                    }
                } else {
                    Some(
                        DecodedContent::Unknown {
                            content_type: *content_type,
                            content_version: *content_version,
                        },
                    )
                }
            },
            BoardMessageBody::Private { .. } => None,
        }
    }

    /// The target of a public action message.
    pub fn target_id(&self) -> (r: Option<MessageId>)
        ensures
            r == body_target(self@),
    {
        match self {
            BoardMessageBody::Public { content_type, data, .. } => {
                if *content_type == CONTENT_TYPE_ACTION {
                    match ActionContentV1::decode(data.as_slice()) {
                        Ok(a) => Some(a.target),
                        Err(_) => None,
                    }
                } else {
                    None
                }
            },
            _ => None,
        }
    }

    /// The length of the content bytes.
    pub fn content_len(&self) -> (r: usize)
        ensures
            r == body_len(self@),
    {
        match self {
            BoardMessageBody::Public { data, .. } => data.len(),
            BoardMessageBody::Private { ciphertext, .. } => ciphertext.len(),
        }
    }

    /// The secret version of a private message.
    pub fn secret_version(&self) -> (r: Option<SecretVersion>)
        ensures
            r == match self@ {
                BodyView::Private { secret_version, .. } => Some(secret_version),
                _ => None::<u32>,
            },
    {
        match self {
            BoardMessageBody::Public { .. } => None,
            BoardMessageBody::Private { secret_version, .. } => Some(*secret_version),
        }
    }

    /// A string for display.
    pub fn to_string_lossy(&self) -> (r: String)
        ensures
            r@ == body_lossy_string(self@),
    {
        match self {
            BoardMessageBody::Public { .. } => match self.decode_content() {
                Some(decoded) => decoded.to_display_string(),
                None => "[Failed to decode message]".to_owned(),
            },
            BoardMessageBody::Private { ciphertext, secret_version, .. } => {
                let n = int_to_string(ciphertext.len() as i128);
                let v = int_to_string(*secret_version as i128);
                let a = concat("[Encrypted message: ", n.as_str());
                let b = concat(a.as_str(), " bytes, v");
                let c = concat(b.as_str(), v.as_str());
                concat(c.as_str(), "]")
            },
        }
    }

    /// The public text, if this is a public text, reply or described category.
    pub fn as_public_string(&self) -> (r: Option<String>)
        ensures
            opt_view(r) == body_public_string(self@),
    {
        match self.decode_content() {
            Some(c) => match c.as_text() {
                Some(s) => Some(s.to_owned()),
                None => None,
            },
            None => None,
        }
    }

    /// The title of a public text or reply message, or the name of a public
    /// category.
    pub fn title(&self) -> (r: Option<String>)
        ensures
            opt_view(r) == body_title(self@),
    {
        match self {
            BoardMessageBody::Public { content_type, data, .. } => {
                if *content_type == CONTENT_TYPE_TEXT {
                    match TextContentV1::decode(data.as_slice()) {
                        Ok(t) => Some(t.title),
                        Err(_) => None,
                    }
                } else if *content_type == CONTENT_TYPE_REPLY {
                    match ReplyContentV1::decode(data.as_slice()) {
                        Ok(r) => Some(r.title),
                        Err(_) => None,
                    }
                } else if *content_type == CONTENT_TYPE_CATEGORY {
                    match CategoryContentV1::decode(data.as_slice()) {
                        Ok(c) => Some(c.name),
                        Err(_) => None,
                    }
                } else {
                    None
                }
            },
            BoardMessageBody::Private { .. } => None,
        }
    }
}

impl Clone for BoardMessageBody {
    fn clone(&self) -> (r: Self)
        ensures
            r@ == self@,
    {
        match self {
            BoardMessageBody::Public { content_type, content_version, data } => {
                BoardMessageBody::Public {
                    content_type: *content_type,
                    content_version: *content_version,
                    data: copy_bytes(data.as_slice()),
                }
            },
            BoardMessageBody::Private {
                content_type,
                content_version,
                ciphertext,
                nonce,
                secret_version,
            } => BoardMessageBody::Private {
                content_type: *content_type,
                content_version: *content_version,
                ciphertext: copy_bytes(ciphertext.as_slice()),
                nonce: *nonce,
                secret_version: *secret_version,
            },
        }
    }
}

// ---------------------------------------------------------------------------
// Messages
// ---------------------------------------------------------------------------

/// A point in time as a duration since the Unix epoch.
#[derive(Clone, Copy, PartialEq, Eq, Structural, Debug, Hash)]
pub struct Timestamp {
    pub secs_since_epoch: u64,
    pub nanos_since_epoch: u32,
}

/// Whether `a` is earlier than `b`.
pub open spec fn time_lt(a: Timestamp, b: Timestamp) -> bool {
    a.secs_since_epoch < b.secs_since_epoch || (a.secs_since_epoch == b.secs_since_epoch
        && a.nanos_since_epoch < b.nanos_since_epoch)
}

impl Timestamp {
    /// The Unix epoch.
    pub fn unix_epoch() -> (r: Timestamp)
        ensures
            r.secs_since_epoch == 0 && r.nanos_since_epoch == 0,
    {
        Timestamp { secs_since_epoch: 0, nanos_since_epoch: 0 }
    }

    /// Whether `self` is earlier than `other`.
    pub fn is_before(&self, other: &Timestamp) -> (r: bool)
        ensures
            r == time_lt(*self, *other),
    {
        self.secs_since_epoch < other.secs_since_epoch || (self.secs_since_epoch
            == other.secs_since_epoch && self.nanos_since_epoch < other.nanos_since_epoch)
    }
}

/// A message: who wrote it for which board, when, and what it says.
#[derive(PartialEq, Debug)]
pub struct MessageV1 {
    pub board_owner: MemberId,
    pub author: MemberId,
    pub time: Timestamp,
    pub content: BoardMessageBody,
}

pub struct MessageView {
    pub board_owner: MemberId,
    pub author: MemberId,
    pub time: Timestamp,
    pub content: BodyView,
}

impl View for MessageV1 {
    type V = MessageView;

    open spec fn view(&self) -> MessageView {
        MessageView {
            board_owner: self.board_owner,
            author: self.author,
            time: self.time,
            content: self.content@,
        }
    }
}

impl Clone for MessageV1 {
    fn clone(&self) -> (r: Self)
        ensures
            r@ == self@,
    {
        MessageV1 {
            board_owner: self.board_owner,
            author: self.author,
            time: self.time,
            content: self.content.clone(),
        }
    }
}

impl Default for MessageV1 {
    fn default() -> (r: Self)
        ensures
            r.board_owner == MemberId(FastHash(0)),
            r.author == MemberId(FastHash(0)),
            r.time == (Timestamp { secs_since_epoch: 0, nanos_since_epoch: 0 }),
            r.content@ == public_body(
                CONTENT_TYPE_TEXT,
                TEXT_CONTENT_VERSION,
                text_content_bytes(TextContentView { title: Seq::empty(), content: Seq::empty() }),
            ),
    {
        MessageV1 {
            board_owner: MemberId(FastHash(0)),
            author: MemberId(FastHash(0)),
            time: Timestamp::unix_epoch(),
            content: BoardMessageBody::public(String::new(), String::new()),
        }
    }
}

pub open spec fn time_term(t: Timestamp) -> CborTerm {
    CborTerm::Dict(
        seq![
            (CborTerm::Text("secs_since_epoch"@), CborTerm::Unsigned(t.secs_since_epoch)),
            (CborTerm::Text("nanos_since_epoch"@), CborTerm::Unsigned(t.nanos_since_epoch as u64)),
        ],
    )
}

pub open spec fn body_term(b: BodyView) -> CborTerm {
    match b {
        BodyView::Public { content_type, content_version, data } => CborTerm::Dict(
            seq![
                (
                    CborTerm::Text("Public"@),
                    CborTerm::Dict(
                        seq![
                            (CborTerm::Text("content_type"@), CborTerm::Unsigned(content_type as u64)),
                            (
                                CborTerm::Text("content_version"@),
                                CborTerm::Unsigned(content_version as u64),
                            ),
                            (CborTerm::Text("data"@), bytes_term(data)),
                        ],
                    ),
                ),
            ],
        ),
        BodyView::Private { content_type, content_version, ciphertext, nonce, secret_version } => {
            CborTerm::Dict(
                seq![
                    (
                        CborTerm::Text("Private"@),
                        CborTerm::Dict(
                            seq![
                                (
                                    CborTerm::Text("content_type"@),
                                    CborTerm::Unsigned(content_type as u64),
                                ),
                                (
                                    CborTerm::Text("content_version"@),
                                    CborTerm::Unsigned(content_version as u64),
                                ),
                                (CborTerm::Text("ciphertext"@), bytes_term(ciphertext)),
                                (CborTerm::Text("nonce"@), bytes_term(nonce)),
                                (
                                    CborTerm::Text("secret_version"@),
                                    CborTerm::Unsigned(secret_version as u64),
                                ),
                            ],
                        ),
                    ),
                ],
            )
        },
    }
}

/// The CBOR form of a message: a record of its fields, the time as seconds
/// and nanoseconds since the epoch, the body as a one-entry map from its
/// variant name to a record of the variant's fields.
pub open spec fn message_term(m: MessageView) -> CborTerm {
    CborTerm::Dict(
        seq![
            (CborTerm::Text("board_owner"@), i64_term(m.board_owner.0.0)),
            (CborTerm::Text("author"@), i64_term(m.author.0.0)),
            (CborTerm::Text("time"@), time_term(m.time)),
            (CborTerm::Text("content"@), body_term(m.content)),
        ],
    )
}

/// The bytes that a message's signature is made over.
pub open spec fn message_bytes(m: MessageView) -> Seq<u8> {
    encode_term(message_term(m))
}

impl BoardMessageBody {
    fn to_value(&self) -> (r: CborValue)
        ensures
            r@ == body_term(self@),
    {
        match self {
            BoardMessageBody::Public { content_type, content_version, data } => {
                let fields = vec![
                    (text_value("content_type"), CborValue::Unsigned(*content_type as u64)),
                    (text_value("content_version"), CborValue::Unsigned(*content_version as u64)),
                    (text_value("data"), bytes_value(data.as_slice())),
                ];
                proof {
                    lemma_pair_terms_of_len(fields@);
                }
                let inner = CborValue::Dict(fields);
                assert(inner@ == body_term(self@)->Dict_0[0].1) by {
                    assert(pair_terms_of(fields@) =~= body_term(self@)->Dict_0[0].1->Dict_0);
                }
                let outer = vec![(text_value("Public"), inner)];
                proof {
                    lemma_pair_terms_of_len(outer@);
                    assert(pair_terms_of(outer@) =~= body_term(self@)->Dict_0);
                }
                CborValue::Dict(outer)
            },
            BoardMessageBody::Private {
                content_type,
                content_version,
                ciphertext,
                nonce,
                secret_version,
            } => {
                let fields = vec![
                    (text_value("content_type"), CborValue::Unsigned(*content_type as u64)),
                    (text_value("content_version"), CborValue::Unsigned(*content_version as u64)),
                    (text_value("ciphertext"), bytes_value(ciphertext.as_slice())),
                    (text_value("nonce"), bytes_value(nonce.as_slice())),
                    (text_value("secret_version"), CborValue::Unsigned(*secret_version as u64)),
                ];
                proof {
                    lemma_pair_terms_of_len(fields@);
                }
                let inner = CborValue::Dict(fields);
                assert(inner@ == body_term(self@)->Dict_0[0].1) by {
                    assert(pair_terms_of(fields@) =~= body_term(self@)->Dict_0[0].1->Dict_0);
                }
                let outer = vec![(text_value("Private"), inner)];
                proof {
                    lemma_pair_terms_of_len(outer@);
                    assert(pair_terms_of(outer@) =~= body_term(self@)->Dict_0);
                }
                CborValue::Dict(outer)
            },
        }
    }
}

impl MessageV1 {
    /// The CBOR bytes that a signature of this message is made over.
    pub fn encode(&self) -> (r: Vec<u8>)
        ensures
            r@ == message_bytes(self@),
    {
        let time_fields = vec![
            (text_value("secs_since_epoch"), CborValue::Unsigned(self.time.secs_since_epoch)),
            (
                text_value("nanos_since_epoch"),
                CborValue::Unsigned(self.time.nanos_since_epoch as u64),
            ),
        ];
        proof {
            lemma_pair_terms_of_len(time_fields@);
            assert(pair_terms_of(time_fields@) =~= time_term(self.time)->Dict_0);
        }
        let time = CborValue::Dict(time_fields);
        let fields = vec![
            (text_value("board_owner"), int_value(self.board_owner.0.0)),
            (text_value("author"), int_value(self.author.0.0)),
            (text_value("time"), time),
            (text_value("content"), self.content.to_value()),
        ];
        proof {
            lemma_pair_terms_of_len(fields@);
            assert(pair_terms_of(fields@) =~= message_term(self@)->Dict_0);
        }
        encode(&CborValue::Dict(fields))
    }
}

/// An error in checking a signature.
#[derive(Clone, Copy, PartialEq, Eq, Structural, Debug)]
pub struct SignatureError;

/// A message and the signature of its author.
#[derive(PartialEq, Debug)]
pub struct AuthorizedMessageV1 {
    pub message: MessageV1,
    pub signature: [u8; 64],
}

pub struct AuthorizedMessageView {
    pub message: MessageView,
    pub signature: Seq<u8>,
}

impl View for AuthorizedMessageV1 {
    type V = AuthorizedMessageView;

    open spec fn view(&self) -> AuthorizedMessageView {
        AuthorizedMessageView { message: self.message@, signature: self.signature@ }
    }
}

impl Clone for AuthorizedMessageV1 {
    fn clone(&self) -> (r: Self)
        ensures
            r@ == self@,
    {
        AuthorizedMessageV1 { message: self.message.clone(), signature: self.signature }
    }
}

/// The id of a signed message: the hash of its signature.
pub open spec fn message_id(m: AuthorizedMessageView) -> MessageId {
    message_id_of_signature(m.signature)
}

/// Whether the signature of `m` verifies under the verifying key `vk`.
pub open spec fn signature_valid(m: AuthorizedMessageView, vk: Seq<u8>) -> bool {
    spec_ed25519_verify(vk, message_bytes(m.message), m.signature)
}

impl AuthorizedMessageV1 {
    /// Signs `message` with the secret key `signing_key`. The signature
    /// verifies under that key's verifying key.
    pub fn new(message: MessageV1, signing_key: &[u8; 32]) -> (r: Self)
        ensures
            r.message@ == message@,
            r.signature@ == spec_ed25519_sign(signing_key@, message_bytes(message@)),
            signature_valid(r@, spec_ed25519_public(signing_key@)),
    {
        let bytes = message.encode();
        let signature = ed25519_sign(signing_key, bytes.as_slice());
        AuthorizedMessageV1 { message, signature }
    }

    /// A message with a signature made elsewhere.
    pub fn with_signature(message: MessageV1, signature: [u8; 64]) -> (r: Self)
        ensures
            r.message@ == message@,
            r.signature == signature,
    {
        AuthorizedMessageV1 { message, signature }
    }

    /// Checks the signature against the verifying key `verifying_key`.
    pub fn validate(&self, verifying_key: &[u8; 32]) -> (r: Result<(), SignatureError>)
        ensures
            r is Ok <==> signature_valid(self@, verifying_key@),
    {
        let bytes = self.message.encode();
        if ed25519_verify(verifying_key, bytes.as_slice(), &self.signature) {
            Ok(())
        } else {
            Err(SignatureError)
        }
    }

    /// The message id: the hash of the signature.
    pub fn id(&self) -> (r: MessageId)
        ensures
            r == message_id(self@),
    {
        MessageId::from_signature(&self.signature)
    }
}

} // verus!
