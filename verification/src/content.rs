//! Message content types for client-side interpretation.
//!
//! A board treats message content as opaque bytes tagged with a type and a
//! version. This module defines the content types that are encoded into those
//! bytes, each a CBOR record (see `wire`).
use vstd::prelude::*;

use crate::cbor::{
    decode, decode_bytes, encode, encode_term, lemma_decode_encode, lemma_pair_terms_of_len, pair_terms_of,
    well_formed, lemma_all_pairs_well_formed, CborTerm, CborValue, MAX_DEPTH,
};
use crate::ids::{FastHash, MessageId};
use crate::text::{
    concat, decimal, graphemes, int_to_string, lemma_clusters_empty, lemma_single_cluster, spec_graphemes, trim,
    trim_str,
};
use crate::wire::{
    bytes_term, bytes_value, field_bytes, field_i64, field_opt_i64, field_opt_text, field_text,
    field_u32, get_bytes, get_i64, get_opt_i64, get_opt_text, get_text, get_u32, i64_term,
    int_value, lemma_lookup_unique, lemma_short_text_fits, lemma_read_bytes, lemma_read_i64, opt_text_fits,
    opt_text_term, opt_text_value, opt_string_fits, opt_view, string_fits, text_fits, text_value,
};

verus! {

/// Content type of text messages.
pub const CONTENT_TYPE_TEXT: u32 = 1;

/// Content type of actions on other messages.
pub const CONTENT_TYPE_ACTION: u32 = 2;

/// Content type of replies.
pub const CONTENT_TYPE_REPLY: u32 = 3;

/// Content type of categories.
pub const CONTENT_TYPE_CATEGORY: u32 = 4;

/// Current version of text content.
pub const TEXT_CONTENT_VERSION: u32 = 1;

/// Current version of action content.
pub const ACTION_CONTENT_VERSION: u32 = 1;

/// Current version of reply content.
pub const REPLY_CONTENT_VERSION: u32 = 1;

/// Current version of category content.
pub const CATEGORY_CONTENT_VERSION: u32 = 1;

/// Action type: edit a message.
pub const ACTION_TYPE_EDIT: u32 = 1;

/// Action type: delete a message.
pub const ACTION_TYPE_DELETE: u32 = 2;

/// Action type: add a reaction.
pub const ACTION_TYPE_REACTION: u32 = 3;

/// Action type: remove a reaction.
pub const ACTION_TYPE_REMOVE_REACTION: u32 = 4;

/// Action type: edit a category.
pub const ACTION_TYPE_EDIT_CATEGORY: u32 = 5;

/// Colour given to categories that name none.
pub const DEFAULT_CATEGORY_COLOR: &'static str = "#6366f1";

/// The decoded bytes, read as a record by `of`.
pub open spec fn from_bytes<T>(b: Seq<u8>, of: spec_fn(CborTerm) -> Option<T>) -> Option<T> {
    match decode_bytes(b) {
        Some(t) => of(t),
        None => None,
    }
}

proof fn lemma_record_roundtrip(t: CborTerm)
    requires
        well_formed(t, MAX_DEPTH as nat),
    ensures
        decode_bytes(encode_term(t)) == Some(t),
{
    lemma_decode_encode(t, Seq::empty());
    assert(encode_term(t) + Seq::<u8>::empty() =~= encode_term(t));
}

// ---------------------------------------------------------------------------
// Text
// ---------------------------------------------------------------------------

/// Text message content (content type 1).
#[derive(Clone, PartialEq, Debug)]
pub struct TextContentV1 {
    pub title: String,
    pub content: String,
}

pub struct TextContentView {
    pub title: Seq<char>,
    pub content: Seq<char>,
}

impl View for TextContentV1 {
    type V = TextContentView;

    open spec fn view(&self) -> TextContentView {
        TextContentView { title: self.title@, content: self.content@ }
    }
}

pub open spec fn text_content_term(v: TextContentView) -> CborTerm {
    CborTerm::Dict(
        seq![
            (CborTerm::Text("title"@), CborTerm::Text(v.title)),
            (CborTerm::Text("content"@), CborTerm::Text(v.content)),
        ],
    )
}

pub open spec fn text_content_of(t: CborTerm) -> Option<TextContentView> {
    match t {
        CborTerm::Dict(p) => match (field_text(p, "title"@), field_text(p, "content"@)) {
            (Some(title), Some(content)) => Some(TextContentView { title, content }),
            _ => None,
        },
        _ => None,
    }
}

/// The text content that `b` decodes to.
pub open spec fn text_content_from_bytes(b: Seq<u8>) -> Option<TextContentView> {
    from_bytes(b, |t: CborTerm| text_content_of(t))
}

/// The bytes that `v` encodes to.
pub open spec fn text_content_bytes(v: TextContentView) -> Seq<u8> {
    encode_term(text_content_term(v))
}

impl TextContentV1 {
    pub fn new(title: String, content: String) -> (r: Self)
        ensures
            r.title == title,
            r.content == content,
    {
        Self { title, content }
    }

    /// Encode to CBOR bytes.
    pub fn encode(&self) -> (r: Vec<u8>)
        ensures
            r@ == text_content_bytes(self@),
            text_content_from_bytes(r@) == Some(self@),
    {
        string_fits(self.title.as_str());
        string_fits(self.content.as_str());
        proof {
            lemma_text_content_roundtrip(self@);
        }
        let k1 = text_value("title");
        let k2 = text_value("content");
        let pairs = vec![
            (k1, CborValue::Text(self.title.clone())),
            (k2, CborValue::Text(self.content.clone())),
        ];
        proof {
            assert(pairs@[0].0@ == CborTerm::Text("title"@));
            assert(pairs@[1].0@ == CborTerm::Text("content"@));
            assert(pairs@[0].1@ == CborTerm::Text(self.title@));
            lemma_pair_terms_of_len(pairs@);
            assert(pair_terms_of(pairs@) =~= text_content_term(self@)->Dict_0);
        }
        let v = CborValue::Dict(pairs);
        assert(v@ == text_content_term(self@));
        encode(&v)
    }

    /// Decode from CBOR bytes.
    pub fn decode(data: &[u8]) -> (r: Result<Self, String>)
        ensures
            match r {
                Ok(x) => text_content_from_bytes(data@) == Some(x@),
                Err(_) => text_content_from_bytes(data@) is None,
            },
    {
        match decode(data) {
            Some(CborValue::Dict(pairs)) => {
                let title = get_text(&pairs, "title");
                let content = get_text(&pairs, "content");
                match (title, content) {
                    (Some(title), Some(content)) => Ok(Self { title, content }),
                    _ => Err("Failed to decode TextContentV1".to_owned()),
                }
            },
            _ => Err("Failed to decode TextContentV1".to_owned()),
        }
    }
}

/// Law: decoding the encoding of text content gives it back.
pub proof fn lemma_text_content_roundtrip(x: TextContentView)
    requires
        text_fits(x.title),
        text_fits(x.content),
    ensures
        text_content_from_bytes(text_content_bytes(x)) == Some(x),
{
    reveal_strlit("title");
    reveal_strlit("content");
    let t = text_content_term(x);
    let p = t->Dict_0;
    lemma_short_text_fits("title"@);
    lemma_short_text_fits("content"@);
    lemma_all_pairs_well_formed(p, (MAX_DEPTH - 1) as nat);
    lemma_record_roundtrip(t);
    lemma_lookup_unique(p, "title"@, 0);
    lemma_lookup_unique(p, "content"@, 1);
}

// ---------------------------------------------------------------------------
// Payloads
// ---------------------------------------------------------------------------

/// Payload of edit actions.
#[derive(Clone, PartialEq, Debug)]
pub struct EditPayload {
    pub new_title: String,
    pub new_text: String,
}

pub struct EditPayloadView {
    pub new_title: Seq<char>,
    pub new_text: Seq<char>,
}

impl View for EditPayload {
    type V = EditPayloadView;

    open spec fn view(&self) -> EditPayloadView {
        EditPayloadView { new_title: self.new_title@, new_text: self.new_text@ }
    }
}

pub open spec fn edit_payload_term(v: EditPayloadView) -> CborTerm {
    CborTerm::Dict(
        seq![
            (CborTerm::Text("new_title"@), CborTerm::Text(v.new_title)),
            (CborTerm::Text("new_text"@), CborTerm::Text(v.new_text)),
        ],
    )
}

pub open spec fn edit_payload_of(t: CborTerm) -> Option<EditPayloadView> {
    match t {
        CborTerm::Dict(p) => match (field_text(p, "new_title"@), field_text(p, "new_text"@)) {
            (Some(new_title), Some(new_text)) => Some(EditPayloadView { new_title, new_text }),
            _ => None,
        },
        _ => None,
    }
}

pub open spec fn edit_payload_from_bytes(b: Seq<u8>) -> Option<EditPayloadView> {
    from_bytes(b, |t: CborTerm| edit_payload_of(t))
}

pub open spec fn edit_payload_bytes(v: EditPayloadView) -> Seq<u8> {
    encode_term(edit_payload_term(v))
}

impl EditPayload {
    /// Encode to CBOR bytes.
    pub fn encode(&self) -> (r: Vec<u8>)
        ensures
            r@ == edit_payload_bytes(self@),
            edit_payload_from_bytes(r@) == Some(self@),
    {
        string_fits(self.new_title.as_str());
        string_fits(self.new_text.as_str());
        proof {
            lemma_edit_payload_roundtrip(self@);
        }
        let k1 = text_value("new_title");
        let k2 = text_value("new_text");
        let pairs = vec![
            (k1, CborValue::Text(self.new_title.clone())),
            (k2, CborValue::Text(self.new_text.clone())),
        ];
        proof {
            lemma_pair_terms_of_len(pairs@);
            assert(pair_terms_of(pairs@) =~= edit_payload_term(self@)->Dict_0);
        }
        encode(&CborValue::Dict(pairs))
    }

    /// Decode from CBOR bytes.
    pub fn decode(data: &[u8]) -> (r: Option<Self>)
        ensures
            match r {
                Some(x) => edit_payload_from_bytes(data@) == Some(x@),
                None => edit_payload_from_bytes(data@) is None,
            },
    {
        match decode(data) {
            Some(CborValue::Dict(pairs)) => {
                match (get_text(&pairs, "new_title"), get_text(&pairs, "new_text")) {
                    (Some(new_title), Some(new_text)) => Some(Self { new_title, new_text }),
                    _ => None,
                }
            },
            _ => None,
        }
    }
}

/// Law: decoding the encoding of an edit payload gives it back.
pub proof fn lemma_edit_payload_roundtrip(x: EditPayloadView)
    requires
        text_fits(x.new_title),
        text_fits(x.new_text),
    ensures
        edit_payload_from_bytes(edit_payload_bytes(x)) == Some(x),
{
    reveal_strlit("new_title");
    reveal_strlit("new_text");
    let t = edit_payload_term(x);
    let p = t->Dict_0;
    lemma_short_text_fits("new_title"@);
    lemma_short_text_fits("new_text"@);
    lemma_all_pairs_well_formed(p, (MAX_DEPTH - 1) as nat);
    lemma_record_roundtrip(t);
    lemma_lookup_unique(p, "new_title"@, 0);
    lemma_lookup_unique(p, "new_text"@, 1);
}

/// Payload of reaction and remove-reaction actions.
#[derive(Clone, PartialEq, Debug)]
pub struct ReactionPayload {
    pub emoji: String,
}

pub struct ReactionPayloadView {
    pub emoji: Seq<char>,
}

impl View for ReactionPayload {
    type V = ReactionPayloadView;

    open spec fn view(&self) -> ReactionPayloadView {
        ReactionPayloadView { emoji: self.emoji@ }
    }
}

pub open spec fn reaction_payload_term(v: ReactionPayloadView) -> CborTerm {
    CborTerm::Dict(seq![(CborTerm::Text("emoji"@), CborTerm::Text(v.emoji))])
}

pub open spec fn reaction_payload_of(t: CborTerm) -> Option<ReactionPayloadView> {
    match t {
        CborTerm::Dict(p) => match field_text(p, "emoji"@) {
            Some(emoji) => Some(ReactionPayloadView { emoji }),
            _ => None,
        },
        _ => None,
    }
}

pub open spec fn reaction_payload_from_bytes(b: Seq<u8>) -> Option<ReactionPayloadView> {
    from_bytes(b, |t: CborTerm| reaction_payload_of(t))
}

pub open spec fn reaction_payload_bytes(v: ReactionPayloadView) -> Seq<u8> {
    encode_term(reaction_payload_term(v))
}

impl ReactionPayload {
    /// Encode to CBOR bytes.
    pub fn encode(&self) -> (r: Vec<u8>)
        ensures
            r@ == reaction_payload_bytes(self@),
            reaction_payload_from_bytes(r@) == Some(self@),
    {
        string_fits(self.emoji.as_str());
        proof {
            lemma_reaction_payload_roundtrip(self@);
        }
        let k1 = text_value("emoji");
        let pairs = vec![(k1, CborValue::Text(self.emoji.clone()))];
        proof {
            lemma_pair_terms_of_len(pairs@);
            assert(pair_terms_of(pairs@) =~= reaction_payload_term(self@)->Dict_0);
        }
        encode(&CborValue::Dict(pairs))
    }

    /// Decode from CBOR bytes.
    pub fn decode(data: &[u8]) -> (r: Option<Self>)
        ensures
            match r {
                Some(x) => reaction_payload_from_bytes(data@) == Some(x@),
                None => reaction_payload_from_bytes(data@) is None,
            },
    {
        match decode(data) {
            Some(CborValue::Dict(pairs)) => match get_text(&pairs, "emoji") {
                Some(emoji) => Some(Self { emoji }),
                None => None,
            },
            _ => None,
        }
    }
}

/// Law: decoding the encoding of a reaction payload gives it back.
pub proof fn lemma_reaction_payload_roundtrip(x: ReactionPayloadView)
    requires
        text_fits(x.emoji),
    ensures
        reaction_payload_from_bytes(reaction_payload_bytes(x)) == Some(x),
{
    reveal_strlit("emoji");
    let t = reaction_payload_term(x);
    let p = t->Dict_0;
    lemma_short_text_fits("emoji"@);
    lemma_all_pairs_well_formed(p, (MAX_DEPTH - 1) as nat);
    lemma_record_roundtrip(t);
    lemma_lookup_unique(p, "emoji"@, 0);
}

/// Payload of category edit actions.
#[derive(Clone, PartialEq, Debug)]
pub struct CategoryEditPayload {
    pub new_name: String,
    pub new_description: Option<String>,
    pub new_icon: Option<String>,
    pub new_color: String,
}

pub struct CategoryEditPayloadView {
    pub new_name: Seq<char>,
    pub new_description: Option<Seq<char>>,
    pub new_icon: Option<Seq<char>>,
    pub new_color: Seq<char>,
}

impl View for CategoryEditPayload {
    type V = CategoryEditPayloadView;

    open spec fn view(&self) -> CategoryEditPayloadView {
        CategoryEditPayloadView {
            new_name: self.new_name@,
            new_description: opt_view(self.new_description),
            new_icon: opt_view(self.new_icon),
            new_color: self.new_color@,
        }
    }
}

pub open spec fn category_edit_payload_term(v: CategoryEditPayloadView) -> CborTerm {
    CborTerm::Dict(
        seq![
            (CborTerm::Text("new_name"@), CborTerm::Text(v.new_name)),
            (CborTerm::Text("new_description"@), opt_text_term(v.new_description)),
            (CborTerm::Text("new_icon"@), opt_text_term(v.new_icon)),
            (CborTerm::Text("new_color"@), CborTerm::Text(v.new_color)),
        ],
    )
}

pub open spec fn category_edit_payload_of(t: CborTerm) -> Option<CategoryEditPayloadView> {
    match t {
        CborTerm::Dict(p) => match (
            field_text(p, "new_name"@),
            field_opt_text(p, "new_description"@),
            field_opt_text(p, "new_icon"@),
            field_text(p, "new_color"@),
        ) {
            (Some(new_name), Some(new_description), Some(new_icon), Some(new_color)) => Some(
                CategoryEditPayloadView { new_name, new_description, new_icon, new_color },
            ),
            _ => None,
        },
        _ => None,
    }
}

pub open spec fn category_edit_payload_from_bytes(b: Seq<u8>) -> Option<CategoryEditPayloadView> {
    from_bytes(b, |t: CborTerm| category_edit_payload_of(t))
}

pub open spec fn category_edit_payload_bytes(v: CategoryEditPayloadView) -> Seq<u8> {
    encode_term(category_edit_payload_term(v))
}

impl CategoryEditPayload {
    /// Encode to CBOR bytes.
    pub fn encode(&self) -> (r: Vec<u8>)
        ensures
            r@ == category_edit_payload_bytes(self@),
            category_edit_payload_from_bytes(r@) == Some(self@),
    {
        string_fits(self.new_name.as_str());
        string_fits(self.new_color.as_str());
        opt_string_fits(&self.new_description);
        opt_string_fits(&self.new_icon);
        proof {
            lemma_category_edit_payload_roundtrip(self@);
        }
        let k1 = text_value("new_name");
        let k2 = text_value("new_description");
        let k3 = text_value("new_icon");
        let k4 = text_value("new_color");
        let pairs = vec![
            (k1, CborValue::Text(self.new_name.clone())),
            (k2, opt_text_value(&self.new_description)),
            (k3, opt_text_value(&self.new_icon)),
            (k4, CborValue::Text(self.new_color.clone())),
        ];
        proof {
            lemma_pair_terms_of_len(pairs@);
            assert(pair_terms_of(pairs@) =~= category_edit_payload_term(self@)->Dict_0);
        }
        encode(&CborValue::Dict(pairs))
    }

    /// Decode from CBOR bytes.
    pub fn decode(data: &[u8]) -> (r: Option<Self>)
        ensures
            match r {
                Some(x) => category_edit_payload_from_bytes(data@) == Some(x@),
                None => category_edit_payload_from_bytes(data@) is None,
            },
    {
        match decode(data) {
            Some(CborValue::Dict(pairs)) => {
                match (
                    get_text(&pairs, "new_name"),
                    get_opt_text(&pairs, "new_description"),
                    get_opt_text(&pairs, "new_icon"),
                    get_text(&pairs, "new_color"),
                ) {
                    (Some(new_name), Some(new_description), Some(new_icon), Some(new_color)) => {
                        Some(Self { new_name, new_description, new_icon, new_color })
                    },
                    _ => None,
                }
            },
            _ => None,
        }
    }
}

/// Law: decoding the encoding of a category edit payload gives it back.
pub proof fn lemma_category_edit_payload_roundtrip(x: CategoryEditPayloadView)
    requires
        text_fits(x.new_name),
        opt_text_fits(x.new_description),
        opt_text_fits(x.new_icon),
        text_fits(x.new_color),
    ensures
        category_edit_payload_from_bytes(category_edit_payload_bytes(x)) == Some(x),
{
    reveal_strlit("new_name");
    reveal_strlit("new_description");
    reveal_strlit("new_icon");
    reveal_strlit("new_color");
    let t = category_edit_payload_term(x);
    let p = t->Dict_0;
    lemma_short_text_fits("new_name"@);
    lemma_short_text_fits("new_description"@);
    lemma_short_text_fits("new_icon"@);
    lemma_short_text_fits("new_color"@);
    lemma_all_pairs_well_formed(p, (MAX_DEPTH - 1) as nat);
    lemma_record_roundtrip(t);
    assert("new_name"@[4] != "new_icon"@[4]);
    assert("new_name"@.len() != "new_description"@.len());
    assert("new_name"@.len() != "new_color"@.len());
    assert("new_icon"@.len() != "new_color"@.len());
    assert("new_icon"@.len() != "new_description"@.len());
    lemma_lookup_unique(p, "new_name"@, 0);
    lemma_lookup_unique(p, "new_description"@, 1);
    lemma_lookup_unique(p, "new_icon"@, 2);
    lemma_lookup_unique(p, "new_color"@, 3);
}

// ---------------------------------------------------------------------------
// Actions
// ---------------------------------------------------------------------------

/// Action message content (content type 2).
#[derive(Clone, PartialEq, Debug)]
pub struct ActionContentV1 {
    /// One of the `ACTION_TYPE_*` constants.
    pub action_type: u32,
    /// The message that the action applies to.
    pub target: MessageId,
    /// Action-specific payload, CBOR-encoded.
    pub payload: Vec<u8>,
}

pub struct ActionContentView {
    pub action_type: u32,
    pub target: MessageId,
    pub payload: Seq<u8>,
}

impl View for ActionContentV1 {
    type V = ActionContentView;

    open spec fn view(&self) -> ActionContentView {
        ActionContentView {
            action_type: self.action_type,
            target: self.target,
            payload: self.payload@,
        }
    }
}

pub open spec fn action_content_term(v: ActionContentView) -> CborTerm {
    CborTerm::Dict(
        seq![
            (CborTerm::Text("action_type"@), CborTerm::Unsigned(v.action_type as u64)),
            (CborTerm::Text("target"@), i64_term(v.target.0.0)),
            (CborTerm::Text("payload"@), bytes_term(v.payload)),
        ],
    )
}

pub open spec fn action_content_of(t: CborTerm) -> Option<ActionContentView> {
    match t {
        CborTerm::Dict(p) => match (
            field_u32(p, "action_type"@),
            field_i64(p, "target"@),
            field_bytes(p, "payload"@),
        ) {
            (Some(action_type), Some(target), Some(payload)) => Some(
                ActionContentView { action_type, target: MessageId(FastHash(target)), payload },
            ),
            _ => None,
        },
        _ => None,
    }
}

pub open spec fn action_content_from_bytes(b: Seq<u8>) -> Option<ActionContentView> {
    from_bytes(b, |t: CborTerm| action_content_of(t))
}

pub open spec fn action_content_bytes(v: ActionContentView) -> Seq<u8> {
    encode_term(action_content_term(v))
}

/// The edit payload of an action, if it is an edit whose payload decodes.
pub open spec fn action_edit_payload(a: ActionContentView) -> Option<EditPayloadView> {
    if a.action_type == ACTION_TYPE_EDIT {
        edit_payload_from_bytes(a.payload)
    } else {
        None
    }
}

/// The reaction payload of an action, if it adds or removes a reaction and
/// its payload decodes.
pub open spec fn action_reaction_payload(a: ActionContentView) -> Option<ReactionPayloadView> {
    if a.action_type == ACTION_TYPE_REACTION || a.action_type == ACTION_TYPE_REMOVE_REACTION {
        reaction_payload_from_bytes(a.payload)
    } else {
        None
    }
}

/// The category edit payload of an action, if it edits a category and its
/// payload decodes.
pub open spec fn action_category_edit_payload(a: ActionContentView) -> Option<
    CategoryEditPayloadView,
> {
    if a.action_type == ACTION_TYPE_EDIT_CATEGORY {
        category_edit_payload_from_bytes(a.payload)
    } else {
        None
    }
}

impl ActionContentV1 {
    /// An edit action.
    pub fn edit(target: MessageId, new_title: String, new_text: String) -> (r: Self)
        ensures
            r@ == (ActionContentView {
                action_type: ACTION_TYPE_EDIT,
                target,
                payload: edit_payload_bytes(
                    EditPayloadView { new_title: new_title@, new_text: new_text@ },
                ),
            }),
    {
        let payload = EditPayload { new_title, new_text }.encode();
        Self { action_type: ACTION_TYPE_EDIT, target, payload }
    }

    /// A delete action.
    pub fn delete(target: MessageId) -> (r: Self)
        ensures
            r@ == (ActionContentView {
                action_type: ACTION_TYPE_DELETE,
                target,
                payload: Seq::empty(),
            }),
    {
        Self { action_type: ACTION_TYPE_DELETE, target, payload: Vec::new() }
    }

    /// A reaction action.
    pub fn reaction(target: MessageId, emoji: String) -> (r: Self)
        ensures
            r@ == (ActionContentView {
                action_type: ACTION_TYPE_REACTION,
                target,
                payload: reaction_payload_bytes(ReactionPayloadView { emoji: emoji@ }),
            }),
    {
        let payload = ReactionPayload { emoji }.encode();
        Self { action_type: ACTION_TYPE_REACTION, target, payload }
    }

    /// A remove-reaction action.
    pub fn remove_reaction(target: MessageId, emoji: String) -> (r: Self)
        ensures
            r@ == (ActionContentView {
                action_type: ACTION_TYPE_REMOVE_REACTION,
                target,
                payload: reaction_payload_bytes(ReactionPayloadView { emoji: emoji@ }),
            }),
    {
        let payload = ReactionPayload { emoji }.encode();
        Self { action_type: ACTION_TYPE_REMOVE_REACTION, target, payload }
    }

    /// A category edit action.
    pub fn edit_category(
        target: MessageId,
        new_name: String,
        new_description: Option<String>,
        new_icon: Option<String>,
        new_color: String,
    ) -> (r: Self)
        ensures
            r@ == (ActionContentView {
                action_type: ACTION_TYPE_EDIT_CATEGORY,
                target,
                payload: category_edit_payload_bytes(
                    CategoryEditPayloadView {
                        new_name: new_name@,
                        new_description: opt_view(new_description),
                        new_icon: opt_view(new_icon),
                        new_color: new_color@,
                    },
                ),
            }),
    {
        let payload = CategoryEditPayload { new_name, new_description, new_icon, new_color }.encode();
        Self { action_type: ACTION_TYPE_EDIT_CATEGORY, target, payload }
    }

    /// Encode to CBOR bytes.
    pub fn encode(&self) -> (r: Vec<u8>)
        ensures
            r@ == action_content_bytes(self@),
            action_content_from_bytes(r@) == Some(self@),
    {
        let _n = self.payload.len();
        proof {
            lemma_action_content_roundtrip(self@);
        }
        let k1 = text_value("action_type");
        let k2 = text_value("target");
        let k3 = text_value("payload");
        let pairs = vec![
            (k1, CborValue::Unsigned(self.action_type as u64)),
            (k2, int_value(self.target.0.0)),
            (k3, bytes_value(self.payload.as_slice())),
        ];
        proof {
            lemma_pair_terms_of_len(pairs@);
            assert(pair_terms_of(pairs@) =~= action_content_term(self@)->Dict_0);
        }
        encode(&CborValue::Dict(pairs))
    }

    /// Decode from CBOR bytes.
    pub fn decode(data: &[u8]) -> (r: Result<Self, String>)
        ensures
            match r {
                Ok(x) => action_content_from_bytes(data@) == Some(x@),
                Err(_) => action_content_from_bytes(data@) is None,
            },
    {
        match decode(data) {
            Some(CborValue::Dict(pairs)) => {
                match (
                    get_u32(&pairs, "action_type"),
                    get_i64(&pairs, "target"),
                    get_bytes(&pairs, "payload"),
                ) {
                    (Some(action_type), Some(target), Some(payload)) => Ok(
                        Self { action_type, target: MessageId(FastHash(target)), payload },
                    ),
                    _ => Err("Failed to decode ActionContentV1".to_owned()),
                }
            },
            _ => Err("Failed to decode ActionContentV1".to_owned()),
        }
    }

    /// The edit payload, if this is an edit action.
    pub fn edit_payload(&self) -> (r: Option<EditPayload>)
        ensures
            match r {
                Some(p) => action_edit_payload(self@) == Some(p@),
                None => action_edit_payload(self@) is None,
            },
    {
        if self.action_type == ACTION_TYPE_EDIT {
            EditPayload::decode(self.payload.as_slice())
        } else {
            None
        }
    }

    /// The reaction payload, if this is a reaction or remove-reaction action.
    pub fn reaction_payload(&self) -> (r: Option<ReactionPayload>)
        ensures
            match r {
                Some(p) => action_reaction_payload(self@) == Some(p@),
                None => action_reaction_payload(self@) is None,
            },
    {
        if self.action_type == ACTION_TYPE_REACTION || self.action_type
            == ACTION_TYPE_REMOVE_REACTION {
            ReactionPayload::decode(self.payload.as_slice())
        } else {
            None
        }
    }

    /// The category edit payload, if this is a category edit action.
    pub fn category_edit_payload(&self) -> (r: Option<CategoryEditPayload>)
        ensures
            match r {
                Some(p) => action_category_edit_payload(self@) == Some(p@),
                None => action_category_edit_payload(self@) is None,
            },
    {
        if self.action_type == ACTION_TYPE_EDIT_CATEGORY {
            CategoryEditPayload::decode(self.payload.as_slice())
        } else {
            None
        }
    }
}

/// Law: decoding the encoding of an action gives it back.
pub proof fn lemma_action_content_roundtrip(x: ActionContentView)
    requires
        x.payload.len() <= u64::MAX,
    ensures
        action_content_from_bytes(action_content_bytes(x)) == Some(x),
{
    reveal_strlit("action_type");
    reveal_strlit("target");
    reveal_strlit("payload");
    let t = action_content_term(x);
    let p = t->Dict_0;
    lemma_short_text_fits("action_type"@);
    lemma_short_text_fits("target"@);
    lemma_short_text_fits("payload"@);
    lemma_read_i64(x.target.0.0);
    lemma_read_bytes(x.payload, (MAX_DEPTH - 1) as nat);
    lemma_all_pairs_well_formed(p, (MAX_DEPTH - 1) as nat);
    lemma_record_roundtrip(t);
    assert("target"@.len() != "payload"@.len());
    lemma_lookup_unique(p, "action_type"@, 0);
    lemma_lookup_unique(p, "target"@, 1);
    lemma_lookup_unique(p, "payload"@, 2);
}

// ---------------------------------------------------------------------------
// Replies
// ---------------------------------------------------------------------------

/// Reply message content (content type 3). A reply keeps a snapshot of the
/// target's author name and a preview of its content, so that it stays
/// meaningful after the target is deleted.
#[derive(Clone, PartialEq, Debug)]
pub struct ReplyContentV1 {
    pub title: String,
    pub content: String,
    pub target_message_id: MessageId,
    pub target_author_name: String,
    /// Snapshot of the target message content.
    pub target_content_preview: String,
}

pub struct ReplyContentView {
    pub title: Seq<char>,
    pub content: Seq<char>,
    pub target_message_id: MessageId,
    pub target_author_name: Seq<char>,
    pub target_content_preview: Seq<char>,
}

impl View for ReplyContentV1 {
    type V = ReplyContentView;

    open spec fn view(&self) -> ReplyContentView {
        ReplyContentView {
            title: self.title@,
            content: self.content@,
            target_message_id: self.target_message_id,
            target_author_name: self.target_author_name@,
            target_content_preview: self.target_content_preview@,
        }
    }
}

pub open spec fn reply_content_term(v: ReplyContentView) -> CborTerm {
    CborTerm::Dict(
        seq![
            (CborTerm::Text("title"@), CborTerm::Text(v.title)),
            (CborTerm::Text("content"@), CborTerm::Text(v.content)),
            (CborTerm::Text("target_message_id"@), i64_term(v.target_message_id.0.0)),
            (CborTerm::Text("target_author_name"@), CborTerm::Text(v.target_author_name)),
            (CborTerm::Text("target_content_preview"@), CborTerm::Text(v.target_content_preview)),
        ],
    )
}

pub open spec fn reply_content_of(t: CborTerm) -> Option<ReplyContentView> {
    match t {
        CborTerm::Dict(p) => match (
            field_text(p, "title"@),
            field_text(p, "content"@),
            field_i64(p, "target_message_id"@),
            field_text(p, "target_author_name"@),
            field_text(p, "target_content_preview"@),
        ) {
            (Some(title), Some(content), Some(id), Some(author), Some(preview)) => Some(
                ReplyContentView {
                    title,
                    content,
                    target_message_id: MessageId(FastHash(id)),
                    target_author_name: author,
                    target_content_preview: preview,
                },
            ),
            _ => None,
        },
        _ => None,
    }
}

pub open spec fn reply_content_from_bytes(b: Seq<u8>) -> Option<ReplyContentView> {
    from_bytes(b, |t: CborTerm| reply_content_of(t))
}

pub open spec fn reply_content_bytes(v: ReplyContentView) -> Seq<u8> {
    encode_term(reply_content_term(v))
}

impl ReplyContentV1 {
    pub fn new(
        title: String,
        content: String,
        target_message_id: MessageId,
        target_author_name: String,
        target_content_preview: String,
    ) -> (r: Self)
        ensures
            r.title == title,
            r.content == content,
            r.target_message_id == target_message_id,
            r.target_author_name == target_author_name,
            r.target_content_preview == target_content_preview,
    {
        Self { title, content, target_message_id, target_author_name, target_content_preview }
    }

    /// Encode to CBOR bytes.
    pub fn encode(&self) -> (r: Vec<u8>)
        ensures
            r@ == reply_content_bytes(self@),
            reply_content_from_bytes(r@) == Some(self@),
    {
        string_fits(self.title.as_str());
        string_fits(self.content.as_str());
        string_fits(self.target_author_name.as_str());
        string_fits(self.target_content_preview.as_str());
        proof {
            lemma_reply_content_roundtrip(self@);
        }
        let k1 = text_value("title");
        let k2 = text_value("content");
        let k3 = text_value("target_message_id");
        let k4 = text_value("target_author_name");
        let k5 = text_value("target_content_preview");
        let pairs = vec![
            (k1, CborValue::Text(self.title.clone())),
            (k2, CborValue::Text(self.content.clone())),
            (k3, int_value(self.target_message_id.0.0)),
            (k4, CborValue::Text(self.target_author_name.clone())),
            (k5, CborValue::Text(self.target_content_preview.clone())),
        ];
        proof {
            lemma_pair_terms_of_len(pairs@);
            assert(pair_terms_of(pairs@) =~= reply_content_term(self@)->Dict_0);
        }
        encode(&CborValue::Dict(pairs))
    }

    /// Decode from CBOR bytes.
    pub fn decode(data: &[u8]) -> (r: Result<Self, String>)
        ensures
            match r {
                Ok(x) => reply_content_from_bytes(data@) == Some(x@),
                Err(_) => reply_content_from_bytes(data@) is None,
            },
    {
        match decode(data) {
            Some(CborValue::Dict(pairs)) => {
                match (
                    get_text(&pairs, "title"),
                    get_text(&pairs, "content"),
                    get_i64(&pairs, "target_message_id"),
                    get_text(&pairs, "target_author_name"),
                    get_text(&pairs, "target_content_preview"),
                ) {
                    (Some(title), Some(content), Some(id), Some(author), Some(preview)) => Ok(
                        Self {
                            title,
                            content,
                            target_message_id: MessageId(FastHash(id)),
                            target_author_name: author,
                            target_content_preview: preview,
                        },
                    ),
                    _ => Err("Failed to decode ReplyContentV1".to_owned()),
                }
            },
            _ => Err("Failed to decode ReplyContentV1".to_owned()),
        }
    }
}

/// Law: decoding the encoding of reply content gives it back.
pub proof fn lemma_reply_content_roundtrip(x: ReplyContentView)
    requires
        text_fits(x.title),
        text_fits(x.content),
        text_fits(x.target_author_name),
        text_fits(x.target_content_preview),
    ensures
        reply_content_from_bytes(reply_content_bytes(x)) == Some(x),
{
    reveal_strlit("title");
    reveal_strlit("content");
    reveal_strlit("target_message_id");
    reveal_strlit("target_author_name");
    reveal_strlit("target_content_preview");
    let t = reply_content_term(x);
    let p = t->Dict_0;
    lemma_short_text_fits("title"@);
    lemma_short_text_fits("content"@);
    lemma_short_text_fits("target_message_id"@);
    lemma_short_text_fits("target_author_name"@);
    lemma_short_text_fits("target_content_preview"@);
    lemma_read_i64(x.target_message_id.0.0);
    lemma_all_pairs_well_formed(p, (MAX_DEPTH - 1) as nat);
    lemma_record_roundtrip(t);
    assert("target_message_id"@[7] != "target_author_name"@[7]);
    lemma_lookup_unique(p, "title"@, 0);
    lemma_lookup_unique(p, "content"@, 1);
    lemma_lookup_unique(p, "target_message_id"@, 2);
    lemma_lookup_unique(p, "target_author_name"@, 3);
    lemma_lookup_unique(p, "target_content_preview"@, 4);
}

// ---------------------------------------------------------------------------
// Categories
// ---------------------------------------------------------------------------

/// Category content (content type 4). Categories organise posts into a
/// hierarchy.
#[derive(Clone, PartialEq, Debug)]
pub struct CategoryContentV1 {
    /// Category name.
    pub name: String,
    /// Optional description.
    pub description: Option<String>,
    /// Optional icon: one grapheme cluster.
    pub icon: Option<String>,
    /// Colour for display, such as "#6366f1".
    pub color: String,
    /// Parent category, `None` for top-level categories.
    pub parent_category_id: Option<MessageId>,
}

pub struct CategoryContentView {
    pub name: Seq<char>,
    pub description: Option<Seq<char>>,
    pub icon: Option<Seq<char>>,
    pub color: Seq<char>,
    pub parent_category_id: Option<MessageId>,
}

impl View for CategoryContentV1 {
    type V = CategoryContentView;

    open spec fn view(&self) -> CategoryContentView {
        CategoryContentView {
            name: self.name@,
            description: opt_view(self.description),
            icon: opt_view(self.icon),
            color: self.color@,
            parent_category_id: self.parent_category_id,
        }
    }
}

pub open spec fn opt_id_term(id: Option<MessageId>) -> CborTerm {
    match id {
        Some(m) => i64_term(m.0.0),
        None => CborTerm::Null,
    }
}

pub open spec fn opt_id_of(x: Option<i64>) -> Option<MessageId> {
    match x {
        Some(v) => Some(MessageId(FastHash(v))),
        None => None,
    }
}

pub open spec fn category_content_term(v: CategoryContentView) -> CborTerm {
    CborTerm::Dict(
        seq![
            (CborTerm::Text("name"@), CborTerm::Text(v.name)),
            (CborTerm::Text("description"@), opt_text_term(v.description)),
            (CborTerm::Text("icon"@), opt_text_term(v.icon)),
            (CborTerm::Text("color"@), CborTerm::Text(v.color)),
            (CborTerm::Text("parent_category_id"@), opt_id_term(v.parent_category_id)),
        ],
    )
}

pub open spec fn category_content_of(t: CborTerm) -> Option<CategoryContentView> {
    match t {
        CborTerm::Dict(p) => match (
            field_text(p, "name"@),
            field_opt_text(p, "description"@),
            field_opt_text(p, "icon"@),
            field_text(p, "color"@),
            field_opt_i64(p, "parent_category_id"@),
        ) {
            (Some(name), Some(description), Some(icon), Some(color), Some(parent)) => Some(
                CategoryContentView {
                    name,
                    description,
                    icon,
                    color,
                    parent_category_id: opt_id_of(parent),
                },
            ),
            _ => None,
        },
        _ => None,
    }
}

pub open spec fn category_content_from_bytes(b: Seq<u8>) -> Option<CategoryContentView> {
    from_bytes(b, |t: CborTerm| category_content_of(t))
}

pub open spec fn category_content_bytes(v: CategoryContentView) -> Seq<u8> {
    encode_term(category_content_term(v))
}

impl CategoryContentV1 {
    /// A new top-level category without an icon.
    pub fn new(name: String, description: Option<String>, color: String) -> (r: Self)
        ensures
            r.name == name,
            r.description == description,
            r.icon is None,
            r.color == color,
            r.parent_category_id is None,
    {
        Self { name, description, icon: None, color, parent_category_id: None }
    }

    /// Sets the icon to the first grapheme cluster of `icon` once trimmed, or
    /// to none where nothing is left.
    pub fn with_icon(self, icon: String) -> (r: Self)
        ensures
            r.name == self.name,
            r.description == self.description,
            opt_view(r.icon) == normalized_icon(icon@),
            r.color == self.color,
            r.parent_category_id == self.parent_category_id,
    {
        let mut c = self;
        c.icon = normalize_icon(icon.as_str());
        c
    }

    /// Sets the parent category.
    pub fn with_parent(self, parent_id: MessageId) -> (r: Self)
        ensures
            r.name == self.name,
            r.description == self.description,
            r.icon == self.icon,
            r.color == self.color,
            r.parent_category_id == Some(parent_id),
    {
        let mut c = self;
        c.parent_category_id = Some(parent_id);
        c
    }

    /// Encode to CBOR bytes.
    pub fn encode(&self) -> (r: Vec<u8>)
        ensures
            r@ == category_content_bytes(self@),
            category_content_from_bytes(r@) == Some(self@),
    {
        string_fits(self.name.as_str());
        string_fits(self.color.as_str());
        opt_string_fits(&self.description);
        opt_string_fits(&self.icon);
        proof {
            lemma_category_content_roundtrip(self@);
        }
        let k1 = text_value("name");
        let k2 = text_value("description");
        let k3 = text_value("icon");
        let k4 = text_value("color");
        let k5 = text_value("parent_category_id");
        let parent = match self.parent_category_id {
            Some(m) => int_value(m.0.0),
            None => CborValue::Null,
        };
        let pairs = vec![
            (k1, CborValue::Text(self.name.clone())),
            (k2, opt_text_value(&self.description)),
            (k3, opt_text_value(&self.icon)),
            (k4, CborValue::Text(self.color.clone())),
            (k5, parent),
        ];
        proof {
            lemma_pair_terms_of_len(pairs@);
            assert(pair_terms_of(pairs@) =~= category_content_term(self@)->Dict_0);
        }
        encode(&CborValue::Dict(pairs))
    }

    /// Decode from CBOR bytes.
    pub fn decode(data: &[u8]) -> (r: Result<Self, String>)
        ensures
            match r {
                Ok(x) => category_content_from_bytes(data@) == Some(x@),
                Err(_) => category_content_from_bytes(data@) is None,
            },
    {
        match decode(data) {
            Some(CborValue::Dict(pairs)) => {
                match (
                    get_text(&pairs, "name"),
                    get_opt_text(&pairs, "description"),
                    get_opt_text(&pairs, "icon"),
                    get_text(&pairs, "color"),
                    get_opt_i64(&pairs, "parent_category_id"),
                ) {
                    (Some(name), Some(description), Some(icon), Some(color), Some(parent)) => {
                        let parent_category_id = match parent {
                            Some(v) => Some(MessageId(FastHash(v))),
                            None => None,
                        };
                        Ok(Self { name, description, icon, color, parent_category_id })
                    },
                    _ => Err("Failed to decode CategoryContentV1".to_owned()),
                }
            },
            _ => Err("Failed to decode CategoryContentV1".to_owned()),
        }
    }
}

/// Law: decoding the encoding of category content gives it back.
pub proof fn lemma_category_content_roundtrip(x: CategoryContentView)
    requires
        text_fits(x.name),
        opt_text_fits(x.description),
        opt_text_fits(x.icon),
        text_fits(x.color),
    ensures
        category_content_from_bytes(category_content_bytes(x)) == Some(x),
{
    reveal_strlit("name");
    reveal_strlit("description");
    reveal_strlit("icon");
    reveal_strlit("color");
    reveal_strlit("parent_category_id");
    let t = category_content_term(x);
    let p = t->Dict_0;
    lemma_short_text_fits("name"@);
    lemma_short_text_fits("description"@);
    lemma_short_text_fits("icon"@);
    lemma_short_text_fits("color"@);
    lemma_short_text_fits("parent_category_id"@);
    match x.parent_category_id {
        Some(m) => lemma_read_i64(m.0.0),
        None => {},
    }
    lemma_all_pairs_well_formed(p, (MAX_DEPTH - 1) as nat);
    lemma_record_roundtrip(t);
    assert("name"@[0] != "icon"@[0]);
    lemma_lookup_unique(p, "name"@, 0);
    lemma_lookup_unique(p, "description"@, 1);
    lemma_lookup_unique(p, "icon"@, 2);
    lemma_lookup_unique(p, "color"@, 3);
    lemma_lookup_unique(p, "parent_category_id"@, 4);
}

// ---------------------------------------------------------------------------
// Icons
// ---------------------------------------------------------------------------

/// The icon that `icon` stands for: its first grapheme cluster once trimmed,
/// or none where trimming leaves nothing.
pub open spec fn normalized_icon(icon: Seq<char>) -> Option<Seq<char>> {
    if trim(icon).len() == 0 {
        None
    } else {
        Some(spec_graphemes(trim(icon))[0])
    }
}

/// Whether `icon` is acceptable: empty once trimmed, or one grapheme cluster.
pub open spec fn icon_is_valid(icon: Seq<char>) -> bool {
    trim(icon).len() == 0 || spec_graphemes(trim(icon)).len() == 1
}

/// Normalises an icon string to one grapheme cluster: `None` if it is
/// empty once trimmed, else its first grapheme cluster.
pub fn normalize_icon(icon: &str) -> (r: Option<String>)
    ensures
        opt_view(r) == normalized_icon(icon@),
{
    let trimmed = trim_str(icon);
    if trimmed.is_empty() {
        return None;
    }
    let clusters = graphemes(trimmed);
    proof {
        let g = clusters@.map_values(|c: String| c@);
        assert forall|i: int| 0 <= i < g.len() implies (#[trigger] g[i]).len() > 0 by {
            assert(g[i] == clusters@[i]@);
        }
        lemma_clusters_empty(g, trimmed@);
    }
    let first = clusters[0].clone();
    assert(first@ == spec_graphemes(trim(icon@))[0]) by {
        assert(clusters@.map_values(|c: String| c@)[0] == clusters@[0]@);
    }
    Some(first)
}

/// Checks that an icon string is empty once trimmed or one grapheme cluster.
pub fn validate_icon(icon: &str) -> (r: Result<(), String>)
    ensures
        r is Ok <==> icon_is_valid(icon@),
        r is Ok <==> (normalized_icon(icon@) is None || normalized_icon(icon@) == Some(trim(icon@))),
        r matches Err(msg) ==> msg@ == "Icon must be exactly 1 character (emoji), got "@ + decimal(
            spec_graphemes(trim(icon@)).len() as int,
        ) + " characters"@,
{
    let trimmed = trim_str(icon);
    if trimmed.is_empty() {
        return Ok(());
    }
    let clusters = graphemes(trimmed);
    let count = clusters.len();
    assert(count == spec_graphemes(trim(icon@)).len()) by {
        assert(clusters@.map_values(|c: String| c@).len() == clusters@.len());
    }
    proof {
        let g = clusters@.map_values(|c: String| c@);
        assert forall|i: int| 0 <= i < g.len() implies (#[trigger] g[i]).len() > 0 by {
            assert(g[i] == clusters@[i]@);
        }
        lemma_clusters_empty(g, trimmed@);
        lemma_single_cluster(g, trimmed@);
    }
    if count != 1 {
        let n = int_to_string(count as i128);
        let head = concat("Icon must be exactly 1 character (emoji), got ", n.as_str());
        return Err(concat(head.as_str(), " characters"));
    }
    Ok(())
}

// ---------------------------------------------------------------------------
// Decoded content
// ---------------------------------------------------------------------------

/// Decoded message content.
#[derive(Clone, PartialEq, Debug)]
pub enum DecodedContent {
    Text(TextContentV1),
    Action(ActionContentV1),
    Reply(ReplyContentV1),
    Category(CategoryContentV1),
    /// A content type this version does not know, shown as a placeholder.
    Unknown { content_type: u32, content_version: u32 },
}

pub enum DecodedView {
    Text(TextContentView),
    Action(ActionContentView),
    Reply(ReplyContentView),
    Category(CategoryContentView),
    Unknown { content_type: u32, content_version: u32 },
}

impl View for DecodedContent {
    type V = DecodedView;

    open spec fn view(&self) -> DecodedView {
        match self {
            DecodedContent::Text(t) => DecodedView::Text(t@),
            DecodedContent::Action(a) => DecodedView::Action(a@),
            DecodedContent::Reply(r) => DecodedView::Reply(r@),
            DecodedContent::Category(c) => DecodedView::Category(c@),
            DecodedContent::Unknown { content_type, content_version } => DecodedView::Unknown {
                content_type: *content_type,
                content_version: *content_version,
            },
        }
    }
}

/// The text of text, reply and category content (a category's description).
pub open spec fn decoded_text(d: DecodedView) -> Option<Seq<char>> {
    match d {
        DecodedView::Text(t) => Some(t.content),
        DecodedView::Reply(r) => Some(r.content),
        DecodedView::Category(c) => c.description,
        _ => None,
    }
}

/// How a message id is shown: as the hash value it wraps.
pub open spec fn message_id_display(m: MessageId) -> Seq<char> {
    "FastHash("@ + decimal(m.0.0 as int) + ")"@
}

/// The emoji of a reaction action, or "?" where its payload does not decode.
pub open spec fn reaction_emoji(a: ActionContentView) -> Seq<char> {
    match action_reaction_payload(a) {
        Some(p) => p.emoji,
        None => "?"@,
    }
}

/// How decoded content is shown.
pub open spec fn display_string(d: DecodedView) -> Seq<char> {
    match d {
        DecodedView::Text(t) => t.content,
        DecodedView::Reply(r) => r.content,
        DecodedView::Action(a) => {
            let id = message_id_display(a.target);
            if a.action_type == ACTION_TYPE_EDIT {
                "[Edit of message "@ + id + "]"@
            } else if a.action_type == ACTION_TYPE_DELETE {
                "[Delete of message "@ + id + "]"@
            } else if a.action_type == ACTION_TYPE_REACTION {
                "[Reaction "@ + reaction_emoji(a) + " to "@ + id + "]"@
            } else if a.action_type == ACTION_TYPE_REMOVE_REACTION {
                "[Remove reaction "@ + reaction_emoji(a) + " from "@ + id + "]"@
            } else {
                "[Unknown action type "@ + decimal(a.action_type as int) + " on "@ + id + "]"@
            }
        },
        DecodedView::Category(c) => {
            let icon = match c.icon {
                Some(i) => i,
                None => "📁"@,
            };
            icon + " "@ + c.name
        },
        DecodedView::Unknown { content_type, content_version } => "[Unsupported message type "@
            + decimal(content_type as int) + "."@ + decimal(content_version as int)
            + " - please upgrade]"@,
    }
}

impl MessageId {
    /// How the id is shown in texts.
    pub fn to_display_string(&self) -> (r: String)
        ensures
            r@ == message_id_display(*self),
    {
        let n = int_to_string(self.0.0 as i128);
        let a = concat("FastHash(", n.as_str());
        concat(a.as_str(), ")")
    }
}

impl DecodedContent {
    /// Whether this is an action.
    pub fn is_action(&self) -> (r: bool)
        ensures
            r == (self@ is Action),
    {
        match self {
            DecodedContent::Action(_) => true,
            _ => false,
        }
    }

    /// The target of an action.
    pub fn target_id(&self) -> (r: Option<&MessageId>)
        ensures
            match r {
                Some(t) => self@ is Action && *t == self@->Action_0.target,
                None => !(self@ is Action),
            },
    {
        match self {
            DecodedContent::Action(action) => Some(&action.target),
            _ => None,
        }
    }

    /// The text of a text, reply or category message.
    pub fn as_text(&self) -> (r: Option<&str>)
        ensures
            match r {
                Some(s) => decoded_text(self@) == Some(s@),
                None => decoded_text(self@) is None,
            },
    {
        match self {
            DecodedContent::Text(text) => Some(text.content.as_str()),
            DecodedContent::Reply(reply) => Some(reply.content.as_str()),
            DecodedContent::Category(cat) => match &cat.description {
                Some(d) => Some(d.as_str()),
                None => None,
            },
            _ => None,
        }
    }

    /// Whether this is a category.
    pub fn is_category(&self) -> (r: bool)
        ensures
            r == (self@ is Category),
    {
        match self {
            DecodedContent::Category(_) => true,
            _ => false,
        }
    }

    /// The category content, if this is a category.
    pub fn as_category(&self) -> (r: Option<&CategoryContentV1>)
        ensures
            match r {
                Some(c) => self@ == DecodedView::Category(c@),
                None => !(self@ is Category),
            },
    {
        match self {
            DecodedContent::Category(cat) => Some(cat),
            _ => None,
        }
    }

    /// How this content is shown.
    pub fn to_display_string(&self) -> (r: String)
        ensures
            r@ == display_string(self@),
    {
        match self {
            DecodedContent::Text(text) => text.content.clone(),
            DecodedContent::Reply(reply) => reply.content.clone(),
            DecodedContent::Action(action) => {
                let id = action.target.to_display_string();
                if action.action_type == ACTION_TYPE_EDIT {
                    let a = concat("[Edit of message ", id.as_str());
                    concat(a.as_str(), "]")
                } else if action.action_type == ACTION_TYPE_DELETE {
                    let a = concat("[Delete of message ", id.as_str());
                    concat(a.as_str(), "]")
                } else if action.action_type == ACTION_TYPE_REACTION || action.action_type
                    == ACTION_TYPE_REMOVE_REACTION {
                    let emoji = match action.reaction_payload() {
                        Some(p) => p.emoji,
                        None => "?".to_owned(),
                    };
                    let (lead, mid) = if action.action_type == ACTION_TYPE_REACTION {
                        ("[Reaction ", " to ")
                    } else {
                        ("[Remove reaction ", " from ")
                    };
                    let a = concat(lead, emoji.as_str());
                    let b = concat(a.as_str(), mid);
                    let c = concat(b.as_str(), id.as_str());
                    concat(c.as_str(), "]")
                } else {
                    let n = int_to_string(action.action_type as i128);
                    let a = concat("[Unknown action type ", n.as_str());
                    let b = concat(a.as_str(), " on ");
                    let c = concat(b.as_str(), id.as_str());
                    concat(c.as_str(), "]")
                }
            },
            DecodedContent::Category(cat) => {
                let icon: &str = match &cat.icon {
                    Some(i) => i.as_str(),
                    None => "📁",
                };
                let a = concat(icon, " ");
                concat(a.as_str(), cat.name.as_str())
            },
            DecodedContent::Unknown { content_type, content_version } => {
                let t = int_to_string(*content_type as i128);
                let v = int_to_string(*content_version as i128);
                let a = concat("[Unsupported message type ", t.as_str());
                let b = concat(a.as_str(), ".");
                let c = concat(b.as_str(), v.as_str());
                concat(c.as_str(), " - please upgrade]")
            },
        }
    }
}

} // verus!
