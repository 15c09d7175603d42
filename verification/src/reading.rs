//! How a message reads: its title, its text and what it replies to. A
//! private body reads through the bytes that decrypting it gave.
use vstd::prelude::*;
use vstd::utf8::{decode_utf8, valid_utf8};

use crate::content::{
    reply_content_from_bytes, text_content_from_bytes, ReplyContentV1, TextContentV1,
    CONTENT_TYPE_ACTION, CONTENT_TYPE_REPLY, CONTENT_TYPE_TEXT,
};
use crate::ids::MessageId;
use crate::message::{body_lossy_string, BoardMessageBody, BodyView};
use crate::text::{concat, decimal, int_to_string};
use crate::wire::opt_view;

verus! {

/// What decrypting a private body gave.
pub enum Decryption {
    /// The user holds no secret of the body's version.
    NoSecret,
    /// Decrypting with the secret failed.
    Failed,
    /// The decrypted bytes.
    Plain(Vec<u8>),
}

pub enum DecryptionView {
    NoSecret,
    Failed,
    Plain(Seq<u8>),
}

impl View for Decryption {
    type V = DecryptionView;

    open spec fn view(&self) -> DecryptionView {
        match self {
            Decryption::NoSecret => DecryptionView::NoSecret,
            Decryption::Failed => DecryptionView::Failed,
            Decryption::Plain(b) => DecryptionView::Plain(b@),
        }
    }
}

/// The text that `String::from_utf8_lossy` makes of bytes.
pub uninterp spec fn spec_utf8_lossy(b: Seq<u8>) -> Seq<char>;

/// `String::from_utf8_lossy(b).into_owned()`: invalid sequences become
/// U+FFFD. As its documentation says, valid UTF-8 is decoded as it is; what
/// the replacement gives otherwise is left to the name.
#[verifier::external_body]
fn utf8_lossy(b: &[u8]) -> (r: String)
    ensures
        r@ == spec_utf8_lossy(b@),
        valid_utf8(b@) ==> r@ == decode_utf8(b@),
{
    String::from_utf8_lossy(b).into_owned()
}

/// The title in content bytes of `content_type`: a text's or a reply's.
pub open spec fn bytes_title(content_type: u32, bytes: Seq<u8>) -> Option<Seq<char>> {
    if content_type == CONTENT_TYPE_TEXT {
        match text_content_from_bytes(bytes) {
            Some(t) => Some(t.title),
            None => None,
        }
    } else if content_type == CONTENT_TYPE_REPLY {
        match reply_content_from_bytes(bytes) {
            Some(r) => Some(r.title),
            None => None,
        }
    } else {
        None
    }
}

/// The text in content bytes of `content_type`: a text's or a reply's.
pub open spec fn bytes_text(content_type: u32, bytes: Seq<u8>) -> Option<Seq<char>> {
    if content_type == CONTENT_TYPE_TEXT {
        match text_content_from_bytes(bytes) {
            Some(t) => Some(t.content),
            None => None,
        }
    } else if content_type == CONTENT_TYPE_REPLY {
        match reply_content_from_bytes(bytes) {
            Some(r) => Some(r.content),
            None => None,
        }
    } else {
        None
    }
}

/// The title shown for a body: that of its text or reply content (read
/// from the decrypted bytes of a private body); empty where there is none.
pub open spec fn shown_title(b: BodyView, d: DecryptionView) -> Seq<char> {
    let t = match b {
        BodyView::Public { content_type, data, .. } => bytes_title(content_type, data),
        BodyView::Private { content_type, .. } => match d {
            DecryptionView::Plain(p) => bytes_title(content_type, p),
            _ => None,
        },
    };
    match t {
        Some(x) => x,
        None => Seq::empty(),
    }
}

/// The versions held, as a list is written for debugging: `[1, 2]`.
pub open spec fn version_list(v: Seq<u32>) -> Seq<char> {
    "["@ + joined(v) + "]"@
}

/// The versions in decimal, separated by ", ".
pub open spec fn joined(v: Seq<u32>) -> Seq<char>
    decreases v.len(),
{
    if v.len() == 0 {
        Seq::empty()
    } else if v.len() == 1 {
        decimal(v[0] as int)
    } else {
        joined(v.drop_last()) + ", "@ + decimal(v.last() as int)
    }
}

/// The text shown for a body. A public action is shown as the body is; a
/// public text or reply by its text, other public content as the body is.
/// A private body's decrypted bytes are read as text or reply content, or
/// else as UTF-8 text; where decryption failed the body is shown as it is;
/// where no secret of its version is held, a note names the version and
/// the versions held.
pub open spec fn shown_text(b: BodyView, d: DecryptionView, held: Seq<u32>) -> Seq<char> {
    match b {
        BodyView::Public { content_type, data, .. } => if content_type == CONTENT_TYPE_ACTION {
            body_lossy_string(b)
        } else {
            match bytes_text(content_type, data) {
                Some(t) => t,
                None => body_lossy_string(b),
            }
        },
        BodyView::Private { content_type, secret_version, .. } => match d {
            DecryptionView::Plain(p) => match bytes_text(content_type, p) {
                Some(t) => t,
                None => spec_utf8_lossy(p),
            },
            DecryptionView::Failed => body_lossy_string(b),
            DecryptionView::NoSecret => "[Encrypted message - secret v"@ + decimal(
                secret_version as int,
            ) + " not available (have: "@ + version_list(held) + ")]"@,
        },
    }
}

/// The reply context in content bytes: the target's author name, its
/// preview and its id, where the bytes are reply content.
pub open spec fn bytes_reply_context(bytes: Seq<u8>) -> (
    Option<Seq<char>>,
    Option<Seq<char>>,
    Option<MessageId>,
) {
    match reply_content_from_bytes(bytes) {
        Some(r) => (Some(r.target_author_name), Some(r.target_content_preview), Some(r.target_message_id)),
        None => (None, None, None),
    }
}

/// The reply context of a body: of a reply, public or decrypted; none for
/// other bodies.
pub open spec fn reply_context(b: BodyView, d: DecryptionView) -> (
    Option<Seq<char>>,
    Option<Seq<char>>,
    Option<MessageId>,
) {
    match b {
        BodyView::Public { content_type, data, .. } => if content_type == CONTENT_TYPE_REPLY {
            bytes_reply_context(data)
        } else {
            (None, None, None)
        },
        BodyView::Private { content_type, .. } => if content_type == CONTENT_TYPE_REPLY {
            match d {
                DecryptionView::Plain(p) => bytes_reply_context(p),
                _ => (None, None, None),
            }
        } else {
            (None, None, None)
        },
    }
}

fn title_of_bytes(content_type: u32, bytes: &[u8]) -> (r: Option<String>)
    ensures
        opt_view(r) == bytes_title(content_type, bytes@),
{
    if content_type == CONTENT_TYPE_TEXT {
        match TextContentV1::decode(bytes) {
            Ok(t) => Some(t.title),
            Err(_) => None,
        }
    } else if content_type == CONTENT_TYPE_REPLY {
        match ReplyContentV1::decode(bytes) {
            Ok(r) => Some(r.title),
            Err(_) => None,
        }
    } else {
        None
    }
}

fn text_of_bytes(content_type: u32, bytes: &[u8]) -> (r: Option<String>)
    ensures
        opt_view(r) == bytes_text(content_type, bytes@),
{
    if content_type == CONTENT_TYPE_TEXT {
        match TextContentV1::decode(bytes) {
            Ok(t) => Some(t.content),
            Err(_) => None,
        }
    } else if content_type == CONTENT_TYPE_REPLY {
        match ReplyContentV1::decode(bytes) {
            Ok(r) => Some(r.content),
            Err(_) => None,
        }
    } else {
        None
    }
}

fn reply_context_of_bytes(bytes: &[u8]) -> (r: (Option<String>, Option<String>, Option<MessageId>))
    ensures
        (opt_view(r.0), opt_view(r.1), r.2) == bytes_reply_context(bytes@),
{
    match ReplyContentV1::decode(bytes) {
        Ok(reply) => (
            Some(reply.target_author_name),
            Some(reply.target_content_preview),
            Some(reply.target_message_id),
        ),
        Err(_) => (None, None, None),
    }
}

/// The title shown for a message body: that of its text or reply content,
/// read from the decrypted bytes for a private body; empty where there is
/// none.
pub fn decrypt_message_title(content: &BoardMessageBody, decrypted: &Decryption) -> (r: String)
    ensures
        r@ == shown_title(content@, decrypted@),
{
    let t = match content {
        BoardMessageBody::Public { content_type, data, .. } => title_of_bytes(
            *content_type,
            data.as_slice(),
        ),
        BoardMessageBody::Private { content_type, .. } => match decrypted {
            Decryption::Plain(p) => title_of_bytes(*content_type, p.as_slice()),
            _ => None,
        },
    };
    match t {
        Some(x) => x,
        None => String::new(),
    }
}

fn version_list_text(held: &[u32]) -> (r: String)
    ensures
        r@ == version_list(held@),
{
    let mut s = String::new();
    let mut i: usize = 0;
    assert(held@.subrange(0, 0) =~= Seq::<u32>::empty());
    while i < held.len()
        invariant
            i <= held@.len(),
            s@ == joined(held@.subrange(0, i as int)),
        decreases held.len() - i,
    {
        let n = int_to_string(held[i] as i128);
        let ghost pre = held@.subrange(0, i + 1);
        assert(pre.drop_last() =~= held@.subrange(0, i as int));
        if i == 0 {
            s = n;
            assert(pre.len() == 1 && pre[0] == held@[0]);
        } else {
            let with_comma = concat(s.as_str(), ", ");
            s = concat(with_comma.as_str(), n.as_str());
        }
        i = i + 1;
    }
    assert(held@.subrange(0, i as int) =~= held@);
    let a = concat("[", s.as_str());
    concat(a.as_str(), "]")
}

/// The text shown for a message body; `held_versions` are the versions of
/// the secrets the user holds, in the order to name them.
pub fn decrypt_message_content(
    content: &BoardMessageBody,
    decrypted: &Decryption,
    held_versions: &[u32],
) -> (r: String)
    ensures
        r@ == shown_text(content@, decrypted@, held_versions@),
{
    match content {
        BoardMessageBody::Public { content_type, data, .. } => {
            if *content_type == CONTENT_TYPE_ACTION {
                return content.to_string_lossy();
            }
            match text_of_bytes(*content_type, data.as_slice()) {
                Some(t) => t,
                None => content.to_string_lossy(),
            }
        },
        BoardMessageBody::Private { content_type, secret_version, .. } => match decrypted {
            Decryption::Plain(p) => match text_of_bytes(*content_type, p.as_slice()) {
                Some(t) => t,
                None => utf8_lossy(p.as_slice()),
            },
            Decryption::Failed => content.to_string_lossy(),
            Decryption::NoSecret => {
                let v = int_to_string(*secret_version as i128);
                let list = version_list_text(held_versions);
                let a = concat("[Encrypted message - secret v", v.as_str());
                let b = concat(a.as_str(), " not available (have: ");
                let c = concat(b.as_str(), list.as_str());
                concat(c.as_str(), ")]")
            },
        },
    }
}

/// The reply context of a message body: for a reply (public, or private
/// and decrypted), the target's author name, its preview and its id.
pub fn extract_reply_context(content: &BoardMessageBody, decrypted: &Decryption) -> (r: (
    Option<String>,
    Option<String>,
    Option<MessageId>,
))
    ensures
        (opt_view(r.0), opt_view(r.1), r.2) == reply_context(content@, decrypted@),
{
    match content {
        BoardMessageBody::Public { content_type, data, .. } => if *content_type
            == CONTENT_TYPE_REPLY {
            reply_context_of_bytes(data.as_slice())
        } else {
            (None, None, None)
        },
        BoardMessageBody::Private { content_type, .. } => if *content_type == CONTENT_TYPE_REPLY {
            match decrypted {
                Decryption::Plain(p) => reply_context_of_bytes(p.as_slice()),
                _ => (None, None, None),
            }
        } else {
            (None, None, None)
        },
    }
}

} // verus!
