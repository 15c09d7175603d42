//! The messages of a board: a replicated, append-only set of signed
//! messages, kept in time order, and the state their actions build.
use vstd::prelude::*;
use vstd::utf8::encode_utf8;

use crate::actions::{
    apply_action, authority_view, empty_actions, reactions_view, ActionAuthority, ActionContext,
    ActionsView, MessageActionsState, ReactionList,
};
use crate::convergence::merge_delta;
use crate::content::{
    action_content_from_bytes, ActionContentV1, ActionContentView, CategoryEditPayload,
};
use crate::ids::{member_id_of_key, MemberId, MessageId};
use crate::message::{
    body_is_action, body_is_category, body_len, body_public_string, body_title, message_id,
    signature_valid, time_lt, AuthorizedMessageV1, AuthorizedMessageView, BodyView,
    BoardMessageBody,
};
use crate::state::{
    complete_distribution, has_member, member_key, ChatBoardParametersV1, ChatBoardStateV1,
    Configuration, PrivacyMode,
};
use crate::text::{concat, decimal, int_to_string};
use crate::wire::opt_view;

verus! {

broadcast use vstd::std_specs::hash::group_hash_axioms;

pub open spec fn messages_view(v: Seq<AuthorizedMessageV1>) -> Seq<AuthorizedMessageView> {
    v.map_values(|m: AuthorizedMessageV1| m@)
}

/// The messages of a board and the state their actions build.
pub struct MessagesV1 {
    pub messages: Vec<AuthorizedMessageV1>,
    /// Computed from the action messages; rebuilt after each change.
    pub actions_state: MessageActionsState,
}

// ---------------------------------------------------------------------------
// What the actions build
// ---------------------------------------------------------------------------

/// The author of each non-action message, by id (a later message with the
/// same id wins).
pub open spec fn authors_of(msgs: Seq<AuthorizedMessageView>) -> Map<i64, MemberId>
    decreases msgs.len(),
{
    if msgs.len() == 0 {
        Map::empty()
    } else {
        let m = msgs.last();
        let before = authors_of(msgs.drop_last());
        if !body_is_action(m.message.content) {
            before.insert(message_id(m).0.0, m.message.author)
        } else {
            before
        }
    }
}

/// The ids of the category messages.
pub open spec fn category_ids_of(msgs: Seq<AuthorizedMessageView>) -> Set<i64>
    decreases msgs.len(),
{
    if msgs.len() == 0 {
        Set::empty()
    } else {
        let m = msgs.last();
        let before = category_ids_of(msgs.drop_last());
        if body_is_category(m.message.content) {
            before.insert(message_id(m).0.0)
        } else {
            before
        }
    }
}

/// The action a message carries: decoded from a public body, or from the
/// decrypted bytes given for a private one.
pub open spec fn message_action(m: AuthorizedMessageView, decrypted: Map<i64, Seq<u8>>) -> Option<
    ActionContentView,
> {
    if !body_is_action(m.message.content) {
        None
    } else {
        match m.message.content {
            BodyView::Public { data, .. } => action_content_from_bytes(data),
            BodyView::Private { .. } => {
                let k = message_id(m).0.0;
                if decrypted.contains_key(k) {
                    action_content_from_bytes(decrypted[k])
                } else {
                    None
                }
            },
        }
    }
}

/// The state after the actions of `msgs`, in order.
pub open spec fn actions_over(
    msgs: Seq<AuthorizedMessageView>,
    ctx: ActionContext,
    decrypted: Map<i64, Seq<u8>>,
) -> ActionsView
    decreases msgs.len(),
{
    if msgs.len() == 0 {
        empty_actions()
    } else {
        let st = actions_over(msgs.drop_last(), ctx, decrypted);
        let m = msgs.last();
        match message_action(m, decrypted) {
            Some(a) => apply_action(st, ctx, m.message.author, a),
            None => st,
        }
    }
}

/// Who may act on the messages `msgs`.
pub open spec fn context_of(
    msgs: Seq<AuthorizedMessageView>,
    owner: Option<MemberId>,
    admins: Option<Seq<MemberId>>,
) -> ActionContext {
    ActionContext {
        authors: authors_of(msgs),
        categories: category_ids_of(msgs),
        owner,
        admins,
    }
}

/// The state that the actions of `msgs` build.
pub open spec fn actions_state_of(
    msgs: Seq<AuthorizedMessageView>,
    decrypted: Map<i64, Seq<u8>>,
    owner: Option<MemberId>,
    admins: Option<Seq<MemberId>>,
) -> ActionsView {
    actions_over(msgs, context_of(msgs, owner, admins), decrypted)
}

pub open spec fn decrypted_view(d: std::collections::HashMap<i64, Vec<u8>>) -> Map<i64, Seq<u8>> {
    d@.map_values(|v: Vec<u8>| v@)
}

pub open spec fn admins_view(a: Option<&Vec<MemberId>>) -> Option<Seq<MemberId>> {
    match a {
        Some(v) => Some(v@),
        None => None,
    }
}

// ---------------------------------------------------------------------------
// Errors
// ---------------------------------------------------------------------------

/// Why a set of messages or a delta is refused.
#[derive(Clone, Copy, PartialEq, Eq, Structural, Debug)]
pub enum MessagesError {
    /// The author is neither the owner nor a member.
    AuthorNotFound(MemberId),
    /// The signature does not verify under the author's key.
    InvalidSignature(MessageId),
    /// The title is longer (in bytes) than the board allows.
    TitleTooLong { len: usize, max: usize },
    /// The title holds a line break.
    TitleHasNewline,
    /// A private message of another secret version than the current one.
    SecretVersionMismatch { got: u32, current: u32 },
    /// Not every member holds the current secret.
    IncompleteSecretDistribution,
    /// A public message on a private board.
    PublicMessageInPrivateBoard,
}

/// The text of an error.
pub open spec fn error_text(e: MessagesError) -> Seq<char> {
    match e {
        MessagesError::AuthorNotFound(a) => "Message author not found: MemberId(FastHash("@
            + decimal(a.0.0 as int) + "))"@,
        MessagesError::InvalidSignature(id) => "Invalid message signature: id:MessageId(FastHash("@
            + decimal(id.0.0 as int) + "))"@,
        MessagesError::TitleTooLong { len, max } => "Title length "@ + decimal(len as int)
            + " exceeds maximum "@ + decimal(max as int),
        MessagesError::TitleHasNewline => "Title cannot contain newlines"@,
        MessagesError::SecretVersionMismatch { got, current } =>
            "Private message secret version "@ + decimal(got as int)
            + " does not match current version "@ + decimal(current as int),
        MessagesError::IncompleteSecretDistribution =>
            "Cannot accept private messages: incomplete secret distribution"@,
        MessagesError::PublicMessageInPrivateBoard =>
            "Cannot send public messages in private board"@,
    }
}

impl MessagesError {
    /// The text of the error.
    pub fn message(&self) -> (r: String)
        ensures
            r@ == error_text(*self),
    {
        match self {
            MessagesError::AuthorNotFound(a) => {
                let n = int_to_string(a.0.0 as i128);
                let x = concat("Message author not found: MemberId(FastHash(", n.as_str());
                concat(x.as_str(), "))")
            },
            MessagesError::InvalidSignature(id) => {
                let n = int_to_string(id.0.0 as i128);
                let x = concat("Invalid message signature: id:MessageId(FastHash(", n.as_str());
                concat(x.as_str(), "))")
            },
            MessagesError::TitleTooLong { len, max } => {
                let a = int_to_string(*len as i128);
                let b = int_to_string(*max as i128);
                let x = concat("Title length ", a.as_str());
                let y = concat(x.as_str(), " exceeds maximum ");
                concat(y.as_str(), b.as_str())
            },
            MessagesError::TitleHasNewline => "Title cannot contain newlines".to_owned(),
            MessagesError::SecretVersionMismatch { got, current } => {
                let a = int_to_string(*got as i128);
                let b = int_to_string(*current as i128);
                let x = concat("Private message secret version ", a.as_str());
                let y = concat(x.as_str(), " does not match current version ");
                concat(y.as_str(), b.as_str())
            },
            MessagesError::IncompleteSecretDistribution => {
                "Cannot accept private messages: incomplete secret distribution".to_owned()
            },
            MessagesError::PublicMessageInPrivateBoard => {
                "Cannot send public messages in private board".to_owned()
            },
        }
    }
}

// ---------------------------------------------------------------------------
// Verification of signatures
// ---------------------------------------------------------------------------

/// The key that a message of `author` must verify under: the owner's key
/// for the owner, else the key of the member with that id.
pub open spec fn author_key(members: Seq<crate::state::AuthorizedMember>, owner_vk: Seq<u8>, author: MemberId) -> Option<Seq<u8>> {
    if author == member_id_of_key(owner_vk) {
        Some(owner_vk)
    } else {
        member_key(members, author)
    }
}

/// What is wrong with one message, if anything.
pub open spec fn message_problem(
    m: AuthorizedMessageView,
    members: Seq<crate::state::AuthorizedMember>,
    owner_vk: Seq<u8>,
) -> Option<MessagesError> {
    match author_key(members, owner_vk, m.message.author) {
        None => Some(MessagesError::AuthorNotFound(m.message.author)),
        Some(k) => if signature_valid(m, k) {
            None
        } else {
            Some(MessagesError::InvalidSignature(message_id(m)))
        },
    }
}

/// The problem of the first message that has one.
pub open spec fn first_problem(
    msgs: Seq<AuthorizedMessageView>,
    members: Seq<crate::state::AuthorizedMember>,
    owner_vk: Seq<u8>,
) -> Option<MessagesError>
    decreases msgs.len(),
{
    if msgs.len() == 0 {
        None
    } else {
        match message_problem(msgs[0], members, owner_vk) {
            Some(e) => Some(e),
            None => first_problem(msgs.subrange(1, msgs.len() as int), members, owner_vk),
        }
    }
}

// ---------------------------------------------------------------------------
// Deltas
// ---------------------------------------------------------------------------

/// The messages of `msgs` whose ids are not among `seen`, in order.
pub open spec fn unseen(msgs: Seq<AuthorizedMessageView>, seen: Seq<MessageId>) -> Seq<
    AuthorizedMessageView,
>
    decreases msgs.len(),
{
    if msgs.len() == 0 {
        msgs
    } else if seen.contains(message_id(msgs.last())) {
        unseen(msgs.drop_last(), seen)
    } else {
        unseen(msgs.drop_last(), seen).push(msgs.last())
    }
}

pub open spec fn ids_of(msgs: Seq<AuthorizedMessageView>) -> Seq<MessageId> {
    msgs.map_values(|m: AuthorizedMessageView| message_id(m))
}

/// Whether the title of a body is acceptable, and if not why.
pub open spec fn title_problem(b: BodyView, cfg: Configuration) -> Option<MessagesError> {
    match body_title(b) {
        Some(t) => if encode_utf8(t).len() > cfg.max_title_size {
            Some(
                MessagesError::TitleTooLong {
                    len: encode_utf8(t).len() as usize,
                    max: cfg.max_title_size,
                },
            )
        } else if t.contains('\n') || t.contains('\r') {
            Some(MessagesError::TitleHasNewline)
        } else {
            None
        },
        None => None,
    }
}

/// Why a message of a delta is refused, if it is: its title; then, for a
/// private message, a secret version other than the current one on a
/// private board, or a secret that not every member holds; for a public
/// message, a private board.
pub open spec fn delta_problem(
    m: AuthorizedMessageView,
    cfg: Configuration,
    current_version: u32,
    distribution_complete: bool,
) -> Option<MessagesError> {
    match title_problem(m.message.content, cfg) {
        Some(e) => Some(e),
        None => match m.message.content {
            BodyView::Private { secret_version, .. } => {
                if cfg.privacy_mode == PrivacyMode::Private && secret_version != current_version {
                    Some(
                        MessagesError::SecretVersionMismatch {
                            got: secret_version,
                            current: current_version,
                        },
                    )
                } else if !distribution_complete {
                    Some(MessagesError::IncompleteSecretDistribution)
                } else {
                    None
                }
            },
            BodyView::Public { .. } => if cfg.privacy_mode == PrivacyMode::Private {
                Some(MessagesError::PublicMessageInPrivateBoard)
            } else {
                None
            },
        },
    }
}

/// The refusal of the first message of the delta that is refused.
pub open spec fn first_delta_problem(
    delta: Seq<AuthorizedMessageView>,
    cfg: Configuration,
    current_version: u32,
    distribution_complete: bool,
) -> Option<MessagesError>
    decreases delta.len(),
{
    if delta.len() == 0 {
        None
    } else {
        match delta_problem(delta[0], cfg, current_version, distribution_complete) {
            Some(e) => Some(e),
            None => first_delta_problem(
                delta.subrange(1, delta.len() as int),
                cfg,
                current_version,
                distribution_complete,
            ),
        }
    }
}

/// Whether a message may stay: within the size limit, and written by a
/// member or the owner.
pub open spec fn may_stay(
    m: AuthorizedMessageView,
    max_size: usize,
    members: Seq<crate::state::AuthorizedMember>,
    owner_id: MemberId,
) -> bool {
    body_len(m.message.content) <= max_size && (has_member(members, m.message.author)
        || m.message.author == owner_id)
}

/// The messages of `msgs` that may stay, in order.
pub open spec fn kept(
    msgs: Seq<AuthorizedMessageView>,
    max_size: usize,
    members: Seq<crate::state::AuthorizedMember>,
    owner_id: MemberId,
) -> Seq<AuthorizedMessageView>
    decreases msgs.len(),
{
    if msgs.len() == 0 {
        msgs
    } else if may_stay(msgs.last(), max_size, members, owner_id) {
        kept(msgs.drop_last(), max_size, members, owner_id).push(msgs.last())
    } else {
        kept(msgs.drop_last(), max_size, members, owner_id)
    }
}

// ---------------------------------------------------------------------------
// Order
// ---------------------------------------------------------------------------

/// Messages are ordered by time, then by id.
pub open spec fn before(a: AuthorizedMessageView, b: AuthorizedMessageView) -> bool {
    time_lt(a.message.time, b.message.time) || (a.message.time == b.message.time && message_id(
        a,
    ).0.0 < message_id(b).0.0)
}

/// `x` inserted into `s` after every message that it is not before.
pub open spec fn insert_in_order(s: Seq<AuthorizedMessageView>, x: AuthorizedMessageView) -> Seq<
    AuthorizedMessageView,
>
    decreases s.len(),
{
    if s.len() == 0 {
        seq![x]
    } else if before(x, s.last()) {
        insert_in_order(s.drop_last(), x).push(s.last())
    } else {
        s.push(x)
    }
}

/// `s` in order, stably: messages that neither is before the other keep
/// their relative order.
pub open spec fn in_order(s: Seq<AuthorizedMessageView>) -> Seq<AuthorizedMessageView>
    decreases s.len(),
{
    if s.len() == 0 {
        s
    } else {
        insert_in_order(in_order(s.drop_last()), s.last())
    }
}

pub open spec fn is_ordered(s: Seq<AuthorizedMessageView>) -> bool {
    forall|i: int, j: int| 0 <= i < j < s.len() ==> !before(#[trigger] s[j], #[trigger] s[i])
}

/// The messages after a delta: the old ones and the delta's unseen ones,
/// those that may stay, in order.
pub open spec fn merged_messages(
    old: Seq<AuthorizedMessageView>,
    delta: Option<Seq<AuthorizedMessageView>>,
    max_size: usize,
    members: Seq<crate::state::AuthorizedMember>,
    owner_id: MemberId,
) -> Seq<AuthorizedMessageView> {
    let all = match delta {
        Some(d) => old + unseen(d, ids_of(old)),
        None => old,
    };
    in_order(kept(all, max_size, members, owner_id))
}

// ---------------------------------------------------------------------------
// Executable
// ---------------------------------------------------------------------------

/// The action that a message carries, if any.
fn action_of(m: &AuthorizedMessageV1, decrypted: &std::collections::HashMap<i64, Vec<u8>>) -> (r:
    Option<ActionContentV1>)
    ensures
        match r {
            Some(a) => message_action(m@, decrypted_view(*decrypted)) == Some(a@),
            None => message_action(m@, decrypted_view(*decrypted)) is None,
        },
{
    if !m.message.content.is_action() {
        return None;
    }
    match &m.message.content {
        BoardMessageBody::Public { data, .. } => match ActionContentV1::decode(data.as_slice()) {
            Ok(a) => Some(a),
            Err(_) => None,
        },
        BoardMessageBody::Private { .. } => {
            let k = m.id().0.0;
            match decrypted.get(&k) {
                Some(plaintext) => match ActionContentV1::decode(plaintext.as_slice()) {
                    Ok(a) => Some(a),
                    Err(_) => None,
                },
                None => None,
            }
        },
    }
}

fn contains_message_id(ids: &Vec<MessageId>, id: MessageId) -> (r: bool)
    ensures
        r == ids@.contains(id),
{
    let mut i: usize = 0;
    while i < ids.len()
        invariant
            i <= ids@.len(),
            forall|j: int| 0 <= j < i ==> ids@[j] != id,
        decreases ids.len() - i,
    {
        if ids[i] == id {
            return true;
        }
        i = i + 1;
    }
    false
}

fn is_before(a: &AuthorizedMessageV1, b: &AuthorizedMessageV1) -> (r: bool)
    ensures
        r == before(a@, b@),
{
    a.message.time.is_before(&b.message.time) || (a.message.time == b.message.time && a.id().0.0
        < b.id().0.0)
}

proof fn lemma_insert_at(s: Seq<AuthorizedMessageView>, x: AuthorizedMessageView, j: int)
    requires
        0 <= j <= s.len(),
        forall|k: int| j <= k < s.len() ==> before(x, #[trigger] s[k]),
        j == 0 || !before(x, s[j - 1]),
    ensures
        insert_in_order(s, x) == s.insert(j, x),
    decreases s.len(),
{
    if s.len() == j {
        assert(s.insert(j, x) =~= s.push(x));
    } else {
        let init = s.drop_last();
        assert forall|k: int| j <= k < init.len() implies before(x, #[trigger] init[k]) by {
            assert(init[k] == s[k]);
        }
        if j > 0 {
            assert(init[j - 1] == s[j - 1]);
        }
        assert(before(x, s[s.len() - 1]));
        lemma_insert_at(init, x, j);
        assert(init.insert(j, x).push(s.last()) =~= s.insert(j, x));
    }
}

proof fn lemma_view_push(v: Seq<AuthorizedMessageV1>, m: AuthorizedMessageV1)
    ensures
        messages_view(v.push(m)) == messages_view(v).push(m@),
{
    assert(messages_view(v.push(m)) =~= messages_view(v).push(m@));
}

impl Default for MessagesV1 {
    /// No messages.
    fn default() -> (r: Self)
        ensures
            r.messages@.len() == 0,
            r.actions_state@ == empty_actions(),
    {
        MessagesV1::new()
    }
}

impl MessagesV1 {
    /// No messages.
    pub fn new() -> (r: Self)
        ensures
            r.messages@.len() == 0,
            r.actions_state@ == empty_actions(),
    {
        MessagesV1 { messages: Vec::new(), actions_state: MessageActionsState::new() }
    }

    /// Rebuilds the actions state from the messages. Private action
    /// messages are read from `decrypted_content` (keyed by the hash value of
    /// their id) and skipped where absent; category edits are allowed for
    /// `owner_id`, for `admin_ids` and for the category's author.
    pub fn rebuild_actions_state_with_permissions(
        &mut self,
        decrypted_content: &std::collections::HashMap<i64, Vec<u8>>,
        owner_id: Option<MemberId>,
        admin_ids: Option<&Vec<MemberId>>,
    )
        ensures
            final(self).messages@ == old(self).messages@,
            final(self).actions_state@ == actions_state_of(
                messages_view(old(self).messages@),
                decrypted_view(*decrypted_content),
                owner_id,
                admins_view(admin_ids),
            ),
    {
        let ghost ms = messages_view(self.messages@);
        let mut authors: std::collections::HashMap<i64, MemberId> = std::collections::HashMap::new();
        let mut categories: std::collections::HashSet<i64> = std::collections::HashSet::new();
        let mut i: usize = 0;
        while i < self.messages.len()
            invariant
                ms == messages_view(self.messages@),
                i <= self.messages@.len(),
                authors@ == authors_of(ms.subrange(0, i as int)),
                categories@ == category_ids_of(ms.subrange(0, i as int)),
            decreases self.messages.len() - i,
        {
            let m = &self.messages[i];
            let id = m.id().0.0;
            proof {
                let pre = ms.subrange(0, i + 1);
                assert(pre.drop_last() =~= ms.subrange(0, i as int));
                assert(pre.last() == m@);
            }
            if !m.message.content.is_action() {
                authors.insert(id, m.message.author);
            }
            if m.message.content.is_category() {
                categories.insert(id);
            }
            i = i + 1;
        }
        assert(ms.subrange(0, i as int) =~= ms);
        let auth = ActionAuthority {
            authors: &authors,
            categories: &categories,
            owner: owner_id,
            admins: admin_ids,
        };
        let ghost ctx = authority_view(auth);
        assert(ctx == context_of(ms, owner_id, admins_view(admin_ids)));
        let mut state = MessageActionsState::new();
        let mut i: usize = 0;
        while i < self.messages.len()
            invariant
                ms == messages_view(self.messages@),
                i <= self.messages@.len(),
                ctx == authority_view(auth),
                state@ == actions_over(ms.subrange(0, i as int), ctx, decrypted_view(*decrypted_content)),
            decreases self.messages.len() - i,
        {
            let m = &self.messages[i];
            proof {
                let pre = ms.subrange(0, i + 1);
                assert(pre.drop_last() =~= ms.subrange(0, i as int));
                assert(pre.last() == m@);
            }
            match action_of(m, decrypted_content) {
                Some(action) => state.apply(&auth, m.message.author, &action),
                None => {},
            }
            i = i + 1;
        }
        assert(ms.subrange(0, i as int) =~= ms);
        self.actions_state = state;
    }

    /// Rebuilds the actions state from the public action messages.
    pub fn rebuild_actions_state(&mut self)
        ensures
            final(self).messages@ == old(self).messages@,
            final(self).actions_state@ == actions_state_of(
                messages_view(old(self).messages@),
                Map::empty(),
                None,
                None,
            ),
    {
        let empty: std::collections::HashMap<i64, Vec<u8>> = std::collections::HashMap::new();
        assert(decrypted_view(empty) =~= Map::<i64, Seq<u8>>::empty());
        self.rebuild_actions_state_with_permissions(&empty, None, None);
    }

    /// Rebuilds the actions state, reading private actions from
    /// `decrypted_content`.
    pub fn rebuild_actions_state_with_decrypted(
        &mut self,
        decrypted_content: &std::collections::HashMap<i64, Vec<u8>>,
    )
        ensures
            final(self).messages@ == old(self).messages@,
            final(self).actions_state@ == actions_state_of(
                messages_view(old(self).messages@),
                decrypted_view(*decrypted_content),
                None,
                None,
            ),
    {
        self.rebuild_actions_state_with_permissions(decrypted_content, None, None);
    }

    /// Whether the message has been edited.
    pub fn is_edited(&self, message_id: &MessageId) -> (r: bool)
        ensures
            r == self.actions_state@.edited.contains_key(message_id.0.0),
    {
        self.actions_state.edited_content.contains_key(&message_id.0.0)
    }

    /// Whether the category has been edited.
    pub fn is_category_edited(&self, message_id: &MessageId) -> (r: bool)
        ensures
            r == self.actions_state@.categories.contains_key(message_id.0.0),
    {
        self.actions_state.edited_categories.contains_key(&message_id.0.0)
    }

    /// The latest edit of a category.
    pub fn edited_category(&self, message_id: &MessageId) -> (r: Option<&CategoryEditPayload>)
        ensures
            match r {
                Some(p) => self.actions_state@.categories.contains_key(message_id.0.0)
                    && self.actions_state@.categories[message_id.0.0] == p@,
                None => !self.actions_state@.categories.contains_key(message_id.0.0),
            },
    {
        self.actions_state.edited_categories.get(&message_id.0.0)
    }

    /// Whether the message has been deleted.
    pub fn is_deleted(&self, message_id: &MessageId) -> (r: bool)
        ensures
            r == self.actions_state@.deleted.contains(message_id.0.0),
    {
        self.actions_state.deleted.contains(&message_id.0.0)
    }

    /// The text to show for a message: the latest edit, else its own public
    /// text.
    pub fn effective_text(&self, message: &AuthorizedMessageV1) -> (r: Option<String>)
        ensures
            opt_view(r) == if self.actions_state@.edited.contains_key(message_id(message@).0.0) {
                Some(self.actions_state@.edited[message_id(message@).0.0])
            } else {
                body_public_string(message@.message.content)
            },
    {
        let id = message.id();
        match self.actions_state.edited_content.get(&id.0.0) {
            Some(text) => Some(text.clone()),
            None => message.message.content.as_public_string(),
        }
    }

    /// The reactions on a message.
    pub fn reactions(&self, message_id: &MessageId) -> (r: Option<&ReactionList>)
        ensures
            match r {
                Some(l) => self.actions_state@.reactions.contains_key(message_id.0.0)
                    && self.actions_state@.reactions[message_id.0.0] == reactions_view(l@),
                None => !self.actions_state@.reactions.contains_key(message_id.0.0),
            },
    {
        self.actions_state.reactions.get(&message_id.0.0)
    }

    /// The messages to show: neither actions nor deleted, in order.
    pub fn display_messages(&self) -> (r: Vec<&AuthorizedMessageV1>)
        ensures
            r@.map_values(|m: &AuthorizedMessageV1| m@) == shown(
                messages_view(self.messages@),
                self.actions_state@.deleted,
            ),
    {
        let ghost ms = messages_view(self.messages@);
        let mut out: Vec<&AuthorizedMessageV1> = Vec::new();
        let mut i: usize = 0;
        while i < self.messages.len()
            invariant
                ms == messages_view(self.messages@),
                i <= self.messages@.len(),
                out@.map_values(|m: &AuthorizedMessageV1| m@) == shown(
                    ms.subrange(0, i as int),
                    self.actions_state@.deleted,
                ),
            decreases self.messages.len() - i,
        {
            let m = &self.messages[i];
            let ghost before_out = out@;
            proof {
                let pre = ms.subrange(0, i + 1);
                assert(pre.drop_last() =~= ms.subrange(0, i as int));
                assert(pre.last() == m@);
            }
            if !m.message.content.is_action() && !self.is_deleted(&m.id()) {
                out.push(m);
                assert(out@.map_values(|m: &AuthorizedMessageV1| m@) =~= before_out.map_values(
                    |m: &AuthorizedMessageV1| m@,
                ).push(m@));
            }
            i = i + 1;
        }
        assert(ms.subrange(0, i as int) =~= ms);
        out
    }

    /// The ids of the messages, in order.
    pub fn summarize(&self) -> (r: Vec<MessageId>)
        ensures
            r@ == ids_of(messages_view(self.messages@)),
    {
        let ghost ms = messages_view(self.messages@);
        let mut out: Vec<MessageId> = Vec::new();
        let mut i: usize = 0;
        while i < self.messages.len()
            invariant
                ms == messages_view(self.messages@),
                i <= self.messages@.len(),
                out@ == ids_of(ms.subrange(0, i as int)),
            decreases self.messages.len() - i,
        {
            out.push(self.messages[i].id());
            i = i + 1;
            assert(out@ =~= ids_of(ms.subrange(0, i as int)));
        }
        assert(ms.subrange(0, i as int) =~= ms);
        out
    }

    /// The messages whose ids `old_state_summary` does not hold; `None`
    /// where there are none.
    pub fn delta(&self, old_state_summary: &Vec<MessageId>) -> (r: Option<Vec<AuthorizedMessageV1>>)
        ensures
            match r {
                Some(d) => messages_view(d@) == unseen(
                    messages_view(self.messages@),
                    old_state_summary@,
                ) && d@.len() > 0,
                None => unseen(messages_view(self.messages@), old_state_summary@).len() == 0,
            },
    {
        let ghost ms = messages_view(self.messages@);
        let mut out: Vec<AuthorizedMessageV1> = Vec::new();
        let mut i: usize = 0;
        while i < self.messages.len()
            invariant
                ms == messages_view(self.messages@),
                i <= self.messages@.len(),
                messages_view(out@) == unseen(ms.subrange(0, i as int), old_state_summary@),
            decreases self.messages.len() - i,
        {
            let m = &self.messages[i];
            proof {
                let pre = ms.subrange(0, i + 1);
                assert(pre.drop_last() =~= ms.subrange(0, i as int));
                assert(pre.last() == m@);
            }
            if !contains_message_id(old_state_summary, m.id()) {
                let ghost before_out = out@;
                out.push(m.clone());
                proof {
                    lemma_view_push(before_out, out@.last());
                    assert(out@ =~= before_out.push(out@.last()));
                }
            }
            i = i + 1;
        }
        assert(ms.subrange(0, i as int) =~= ms);
        if out.len() == 0 {
            None
        } else {
            Some(out)
        }
    }

    /// Checks that every message is by the owner or a member and carries a
    /// valid signature of its author; the first message that fails gives
    /// the error.
    pub fn verify(&self, parent_state: &ChatBoardStateV1, parameters: &ChatBoardParametersV1) -> (r:
        Result<(), MessagesError>)
        ensures
            match r {
                Ok(()) => first_problem(
                    messages_view(self.messages@),
                    parent_state.members.members@,
                    parameters.owner@,
                ) is None,
                Err(e) => first_problem(
                    messages_view(self.messages@),
                    parent_state.members.members@,
                    parameters.owner@,
                ) == Some(e),
            },
    {
        let ghost ms = messages_view(self.messages@);
        let ghost members = parent_state.members.members@;
        let owner_id = parameters.owner_id();
        let mut i: usize = 0;
        assert(ms.subrange(0, ms.len() as int) =~= ms);
        while i < self.messages.len()
            invariant
                ms == messages_view(self.messages@),
                members == parent_state.members.members@,
                owner_id == member_id_of_key(parameters.owner@),
                i <= self.messages@.len(),
                first_problem(ms, members, parameters.owner@) == first_problem(
                    ms.subrange(i as int, ms.len() as int),
                    members,
                    parameters.owner@,
                ),
            decreases self.messages.len() - i,
        {
            let m = &self.messages[i];
            let ghost rest = ms.subrange(i as int, ms.len() as int);
            assert(rest[0] == m@);
            assert(rest.subrange(1, rest.len() as int) =~= ms.subrange(i + 1, ms.len() as int));
            let key = if m.message.author == owner_id {
                parameters.owner
            } else {
                match parent_state.members.key_of(m.message.author) {
                    Some(k) => k,
                    None => {
                        return Err(MessagesError::AuthorNotFound(m.message.author));
                    },
                }
            };
            if m.validate(&key).is_err() {
                return Err(MessagesError::InvalidSignature(m.id()));
            }
            i = i + 1;
        }
        Ok(())
    }
}

/// The messages to show: neither actions nor deleted.
pub open spec fn shown(msgs: Seq<AuthorizedMessageView>, deleted: Set<i64>) -> Seq<
    AuthorizedMessageView,
>
    decreases msgs.len(),
{
    if msgs.len() == 0 {
        msgs
    } else {
        let m = msgs.last();
        let before = shown(msgs.drop_last(), deleted);
        if !body_is_action(m.message.content) && !deleted.contains(message_id(m).0.0) {
            before.push(m)
        } else {
            before
        }
    }
}

pub open spec fn delta_view(d: Option<Vec<AuthorizedMessageV1>>) -> Option<Seq<AuthorizedMessageView>> {
    match d {
        Some(v) => Some(messages_view(v@)),
        None => None,
    }
}

/// Whether `s` holds a line break.
fn has_line_break(s: &str) -> (r: bool)
    ensures
        r == (s@.contains('\n') || s@.contains('\r')),
{
    let n = s.unicode_len();
    let mut i: usize = 0;
    while i < n
        invariant
            n == s@.len(),
            i <= n,
            forall|j: int| 0 <= j < i ==> s@[j] != '\n' && s@[j] != '\r',
        decreases n - i,
    {
        let c = s.get_char(i);
        if c == '\n' || c == '\r' {
            return true;
        }
        i = i + 1;
    }
    false
}

fn delta_problem_of(
    m: &AuthorizedMessageV1,
    cfg: &Configuration,
    current_version: u32,
    distribution_complete: bool,
) -> (r: Option<MessagesError>)
    ensures
        r == delta_problem(m@, *cfg, current_version, distribution_complete),
{
    match m.message.content.title() {
        Some(t) => {
            let len = t.as_str().as_bytes().len();
            if len > cfg.max_title_size {
                return Some(MessagesError::TitleTooLong { len, max: cfg.max_title_size });
            }
            if has_line_break(t.as_str()) {
                return Some(MessagesError::TitleHasNewline);
            }
        },
        None => {},
    }
    match &m.message.content {
        BoardMessageBody::Private { secret_version, .. } => {
            if cfg.privacy_mode == PrivacyMode::Private && *secret_version != current_version {
                Some(
                    MessagesError::SecretVersionMismatch {
                        got: *secret_version,
                        current: current_version,
                    },
                )
            } else if !distribution_complete {
                Some(MessagesError::IncompleteSecretDistribution)
            } else {
                None
            }
        },
        BoardMessageBody::Public { .. } => if cfg.privacy_mode == PrivacyMode::Private {
            Some(MessagesError::PublicMessageInPrivateBoard)
        } else {
            None
        },
    }
}

fn may_stay_exec(
    m: &AuthorizedMessageV1,
    max_size: usize,
    members: &crate::state::MembersV1,
    owner_id: MemberId,
) -> (r: bool)
    ensures
        r == may_stay(m@, max_size, members.members@, owner_id),
{
    m.message.content.content_len() <= max_size && (members.contains_id(m.message.author)
        || m.message.author == owner_id)
}

impl MessagesV1 {
    /// Applies a delta. Each message of the delta is checked first (title,
    /// then privacy); the first refusal is returned and nothing changes.
    /// Otherwise the delta's messages whose ids are new are appended, the
    /// messages over the size limit or by neither a member nor the owner are
    /// dropped, the rest are put in order of time and id, and the actions
    /// state is rebuilt from the public actions.
    pub fn apply_delta(
        &mut self,
        parent_state: &ChatBoardStateV1,
        parameters: &ChatBoardParametersV1,
        delta: &Option<Vec<AuthorizedMessageV1>>,
    ) -> (r: Result<(), MessagesError>)
        ensures
            ({
                let cfg = parent_state.configuration;
                let dist = complete_distribution(
                    parent_state.secrets.encrypted_secrets@,
                    parent_state.secrets.current_version,
                    parent_state.members.members@,
                );
                match r {
                    Err(e) => delta is Some && first_delta_problem(
                        messages_view(delta->0@),
                        cfg,
                        parent_state.secrets.current_version,
                        dist,
                    ) == Some(e) && final(self).messages@ == old(self).messages@
                        && final(self).actions_state@ == old(self).actions_state@,
                    Ok(()) => (match delta {
                        Some(d) => first_delta_problem(
                            messages_view(d@),
                            cfg,
                            parent_state.secrets.current_version,
                            dist,
                        ) is None,
                        None => true,
                    }) && messages_view(final(self).messages@) == merged_messages(
                        messages_view(old(self).messages@),
                        delta_view(*delta),
                        cfg.max_message_size,
                        parent_state.members.members@,
                        member_id_of_key(parameters.owner@),
                    ) && final(self).actions_state@ == actions_state_of(
                        messages_view(final(self).messages@),
                        Map::empty(),
                        None,
                        None,
                    ),
                }
            }),
    {
        let cfg = &parent_state.configuration;
        let current_version = parent_state.secrets.current_version;
        let dist = parent_state.secrets.has_complete_distribution(&parent_state.members);
        let ghost old_ms = messages_view(self.messages@);
        match delta {
            Some(d) => {
                let ghost dv = messages_view(d@);
                let mut i: usize = 0;
                assert(dv.subrange(0, dv.len() as int) =~= dv);
                while i < d.len()
                    invariant
                        dv == messages_view(d@),
                        *delta == Some(*d),
                        dist == complete_distribution(
                            parent_state.secrets.encrypted_secrets@,
                            parent_state.secrets.current_version,
                            parent_state.members.members@,
                        ),
                        current_version == parent_state.secrets.current_version,
                        *cfg == parent_state.configuration,
                        self.messages@ == old(self).messages@,
                        self.actions_state@ == old(self).actions_state@,
                        i <= d@.len(),
                        first_delta_problem(dv, *cfg, current_version, dist) == first_delta_problem(
                            dv.subrange(i as int, dv.len() as int),
                            *cfg,
                            current_version,
                            dist,
                        ),
                    decreases d.len() - i,
                {
                    let ghost rest = dv.subrange(i as int, dv.len() as int);
                    assert(rest[0] == d@[i as int]@);
                    assert(rest.subrange(1, rest.len() as int) =~= dv.subrange(
                        i + 1,
                        dv.len() as int,
                    ));
                    match delta_problem_of(&d[i], cfg, current_version, dist) {
                        Some(e) => {
                            assert(first_delta_problem(rest, *cfg, current_version, dist) == Some(e));
                            assert(*d == delta->0);
                            return Err(e);
                        },
                        None => {},
                    }
                    i = i + 1;
                }
                let existing = self.summarize();
                let mut i: usize = 0;
                while i < d.len()
                    invariant
                        dv == messages_view(d@),
                        i <= d@.len(),
                        existing@ == ids_of(old_ms),
                        messages_view(self.messages@) == old_ms + unseen(
                            dv.subrange(0, i as int),
                            ids_of(old_ms),
                        ),
                    decreases d.len() - i,
                {
                    let m = &d[i];
                    proof {
                        let pre = dv.subrange(0, i + 1);
                        assert(pre.drop_last() =~= dv.subrange(0, i as int));
                        assert(pre.last() == m@);
                    }
                    if !contains_message_id(&existing, m.id()) {
                        let ghost before_v = self.messages@;
                        self.messages.push(m.clone());
                        proof {
                            lemma_view_push(before_v, self.messages@.last());
                            assert(self.messages@ =~= before_v.push(self.messages@.last()));
                        }
                    }
                    i = i + 1;
                }
                assert(dv.subrange(0, i as int) =~= dv);
            },
            None => {},
        }
        let ghost all = messages_view(self.messages@);
        let owner_id = parameters.owner_id();
        let max_size = cfg.max_message_size;
        let mut keep: Vec<AuthorizedMessageV1> = Vec::new();
        let mut i: usize = 0;
        while i < self.messages.len()
            invariant
                all == messages_view(self.messages@),
                i <= self.messages@.len(),
                owner_id == member_id_of_key(parameters.owner@),
                messages_view(keep@) == kept(
                    all.subrange(0, i as int),
                    max_size,
                    parent_state.members.members@,
                    owner_id,
                ),
            decreases self.messages.len() - i,
        {
            let m = &self.messages[i];
            proof {
                let pre = all.subrange(0, i + 1);
                assert(pre.drop_last() =~= all.subrange(0, i as int));
                assert(pre.last() == m@);
            }
            if may_stay_exec(m, max_size, &parent_state.members, owner_id) {
                let ghost before_v = keep@;
                keep.push(m.clone());
                proof {
                    lemma_view_push(before_v, keep@.last());
                    assert(keep@ =~= before_v.push(keep@.last()));
                }
            }
            i = i + 1;
        }
        assert(all.subrange(0, i as int) =~= all);
        let ghost kv = messages_view(keep@);
        let mut sorted: Vec<AuthorizedMessageV1> = Vec::new();
        let mut i: usize = 0;
        while i < keep.len()
            invariant
                kv == messages_view(keep@),
                i <= keep@.len(),
                messages_view(sorted@) == in_order(kv.subrange(0, i as int)),
            decreases keep.len() - i,
        {
            let x = keep[i].clone();
            let ghost sv = messages_view(sorted@);
            let mut j = sorted.len();
            while j > 0 && is_before(&x, &sorted[j - 1])
                invariant
                    sv == messages_view(sorted@),
                    j <= sorted@.len(),
                    forall|k: int| j <= k < sv.len() ==> before(x@, #[trigger] sv[k]),
                decreases j,
            {
                j = j - 1;
            }
            proof {
                if j > 0 {
                    assert(!before(x@, sv[j - 1]));
                }
                lemma_insert_at(sv, x@, j as int);
                let pre = kv.subrange(0, i + 1);
                assert(pre.drop_last() =~= kv.subrange(0, i as int));
                assert(pre.last() == x@);
            }
            let ghost before_v = sorted@;
            sorted.insert(j, x);
            assert(messages_view(sorted@) =~= sv.insert(j as int, x@));
            i = i + 1;
        }
        assert(kv.subrange(0, i as int) =~= kv);
        self.messages = sorted;
        self.rebuild_actions_state();
        Ok(())
    }

    /// Merges another message set into this one: its messages that this
    /// one lacks are applied as a delta.
    pub fn merge(
        &mut self,
        parent_state: &ChatBoardStateV1,
        parameters: &ChatBoardParametersV1,
        other_state: &MessagesV1,
    ) -> (r: Result<(), MessagesError>)
        ensures
            ({
                let cfg = parent_state.configuration;
                let dist = complete_distribution(
                    parent_state.secrets.encrypted_secrets@,
                    parent_state.secrets.current_version,
                    parent_state.members.members@,
                );
                let dopt = merge_delta(
                    messages_view(old(self).messages@),
                    messages_view(other_state.messages@),
                );
                match r {
                    Err(e) => dopt is Some && first_delta_problem(
                        dopt->0,
                        cfg,
                        parent_state.secrets.current_version,
                        dist,
                    ) == Some(e) && final(self).messages@ == old(self).messages@,
                    Ok(()) => messages_view(final(self).messages@) == merged_messages(
                        messages_view(old(self).messages@),
                        dopt,
                        cfg.max_message_size,
                        parent_state.members.members@,
                        member_id_of_key(parameters.owner@),
                    ),
                }
            }),
    {
        let summary = self.summarize();
        let delta = other_state.delta(&summary);
        self.apply_delta(parent_state, parameters, &delta)
    }
}

} // verus!
