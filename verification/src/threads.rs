//! Messages as they are shown: posts, and the trees of replies under them.
use vstd::prelude::*;

use crate::actions::{reactions_view, ReactionList, ReactionsView};
use crate::content::message_id_display;
use crate::ids::{MemberId, MessageId};
use crate::message::{time_lt, Timestamp};
use crate::wire::opt_view;

verus! {

/// A message ready to be shown.
pub struct MessageData {
    pub message_id: MessageId,
    pub author_id: MemberId,
    pub author_name: String,
    pub is_self: bool,
    pub title_text: String,
    pub content_text: String,
    pub content_html: String,
    /// When it was written, no later than when it was read.
    pub time: Timestamp,
    /// Whether the written time lay in the future and was moved to now.
    pub time_clamped: bool,
    pub edited: bool,
    /// For each emoji, the members who reacted with it.
    pub reactions: ReactionList,
    pub reply_to_message_id: Option<MessageId>,
    pub reply_to_author: Option<String>,
    pub reply_to_preview: Option<String>,
    pub receive_delay_secs: Option<i64>,
}

pub struct MessageDataView {
    pub message_id: MessageId,
    pub author_id: MemberId,
    pub author_name: Seq<char>,
    pub is_self: bool,
    pub title_text: Seq<char>,
    pub content_text: Seq<char>,
    pub content_html: Seq<char>,
    pub time: Timestamp,
    pub time_clamped: bool,
    pub edited: bool,
    pub reactions: ReactionsView,
    pub reply_to_message_id: Option<MessageId>,
    pub reply_to_author: Option<Seq<char>>,
    pub reply_to_preview: Option<Seq<char>>,
    pub receive_delay_secs: Option<i64>,
}

impl View for MessageData {
    type V = MessageDataView;

    open spec fn view(&self) -> MessageDataView {
        MessageDataView {
            message_id: self.message_id,
            author_id: self.author_id,
            author_name: self.author_name@,
            is_self: self.is_self,
            title_text: self.title_text@,
            content_text: self.content_text@,
            content_html: self.content_html@,
            time: self.time,
            time_clamped: self.time_clamped,
            edited: self.edited,
            reactions: reactions_view(self.reactions@),
            reply_to_message_id: self.reply_to_message_id,
            reply_to_author: opt_view(self.reply_to_author),
            reply_to_preview: opt_view(self.reply_to_preview),
            receive_delay_secs: self.receive_delay_secs,
        }
    }
}

fn clone_opt_string(s: &Option<String>) -> (r: Option<String>)
    ensures
        opt_view(r) == opt_view(*s),
{
    match s {
        Some(x) => Some(x.clone()),
        None => None,
    }
}

fn clone_reactions(l: &ReactionList) -> (r: ReactionList)
    ensures
        reactions_view(r@) == reactions_view(l@),
{
    let mut out: ReactionList = Vec::new();
    let mut i: usize = 0;
    while i < l.len()
        invariant
            i <= l@.len(),
            reactions_view(out@) == reactions_view(l@.subrange(0, i as int)),
        decreases l.len() - i,
    {
        let e = l[i].0.clone();
        let mut rs: Vec<MemberId> = Vec::new();
        let mut j: usize = 0;
        while j < l[i].1.len()
            invariant
                i < l@.len(),
                j <= l@[i as int].1@.len(),
                rs@ == l@[i as int].1@.subrange(0, j as int),
            decreases l@[i as int].1@.len() - j,
        {
            rs.push(l[i].1[j]);
            j = j + 1;
            assert(rs@ =~= l@[i as int].1@.subrange(0, j as int));
        }
        assert(rs@ =~= l@[i as int].1@);
        let ghost before = out@;
        let ghost entry = (e@, rs@);
        assert(entry == (l@[i as int].0@, l@[i as int].1@));
        out.push((e, rs));
        proof {
            assert(reactions_view(out@) =~= reactions_view(before).push(entry));
            let pre = l@.subrange(0, i + 1);
            assert(reactions_view(pre) =~= reactions_view(l@.subrange(0, i as int)).push(entry));
        }
        i = i + 1;
    }
    assert(l@.subrange(0, i as int) =~= l@);
    out
}

impl Clone for MessageData {
    fn clone(&self) -> (r: Self)
        ensures
            r@ == self@,
    {
        MessageData {
            message_id: self.message_id,
            author_id: self.author_id,
            author_name: self.author_name.clone(),
            is_self: self.is_self,
            title_text: self.title_text.clone(),
            content_text: self.content_text.clone(),
            content_html: self.content_html.clone(),
            time: self.time,
            time_clamped: self.time_clamped,
            edited: self.edited,
            reactions: clone_reactions(&self.reactions),
            reply_to_message_id: self.reply_to_message_id,
            reply_to_author: clone_opt_string(&self.reply_to_author),
            reply_to_preview: clone_opt_string(&self.reply_to_preview),
            receive_delay_secs: self.receive_delay_secs,
        }
    }
}

impl MessageData {
    /// Whether the message is a post of its own, not a reply.
    pub fn is_top_level_post(&self) -> (r: bool)
        ensures
            r == (self.reply_to_message_id is None),
    {
        self.reply_to_message_id.is_none()
    }

    /// The message id as text, for links.
    pub fn id_string(&self) -> (r: String)
        ensures
            r@ == message_id_display(self.message_id),
    {
        self.message_id.to_display_string()
    }
}

/// A message with the replies to it, each with theirs.
pub struct MessageWithReplies {
    pub message: MessageData,
    pub replies: Vec<MessageWithReplies>,
}

pub open spec fn data_views(s: Seq<MessageData>) -> Seq<MessageDataView> {
    s.map_values(|m: MessageData| m@)
}

/// Whether `a` goes before `b`: earlier first, or, with `newest_first`,
/// later first.
pub open spec fn goes_before(a: MessageDataView, b: MessageDataView, newest_first: bool) -> bool {
    if newest_first {
        time_lt(b.time, a.time)
    } else {
        time_lt(a.time, b.time)
    }
}

/// `x` inserted into `s` after every message that it does not go before.
pub open spec fn insert_by_time(s: Seq<MessageDataView>, x: MessageDataView, newest_first: bool) -> Seq<
    MessageDataView,
>
    decreases s.len(),
{
    if s.len() == 0 {
        seq![x]
    } else if goes_before(x, s.last(), newest_first) {
        insert_by_time(s.drop_last(), x, newest_first).push(s.last())
    } else {
        s.push(x)
    }
}

/// `s` sorted by time, stably: messages of the same time keep their order.
pub open spec fn sorted_by_time(s: Seq<MessageDataView>, newest_first: bool) -> Seq<MessageDataView>
    decreases s.len(),
{
    if s.len() == 0 {
        s
    } else {
        insert_by_time(sorted_by_time(s.drop_last(), newest_first), s.last(), newest_first)
    }
}

/// The messages of `all` that reply to `parent` (with `None`, the posts),
/// in order.
pub open spec fn replies_to(all: Seq<MessageDataView>, parent: Option<MessageId>) -> Seq<
    MessageDataView,
>
    decreases all.len(),
{
    if all.len() == 0 {
        all
    } else if all.last().reply_to_message_id == parent {
        replies_to(all.drop_last(), parent).push(all.last())
    } else {
        replies_to(all.drop_last(), parent)
    }
}

/// Whether the replies under `parent` end within `depth` levels.
pub open spec fn replies_within(all: Seq<MessageDataView>, parent: Option<MessageId>, depth: nat) -> bool
    decreases depth,
{
    let kids = sorted_by_time(replies_to(all, parent), false);
    if depth == 0 {
        kids.len() == 0
    } else {
        forall|i: int|
            0 <= i < kids.len() ==> replies_within(
                all,
                Some(#[trigger] kids[i].message_id),
                (depth - 1) as nat,
            )
    }
}

/// Whether `ts` is the reply tree under `parent`: the replies to it,
/// earliest first, each with the tree under it.
pub open spec fn is_reply_forest(
    ts: Seq<MessageWithReplies>,
    all: Seq<MessageDataView>,
    parent: Option<MessageId>,
    depth: nat,
) -> bool
    decreases depth,
{
    let kids = sorted_by_time(replies_to(all, parent), false);
    if depth == 0 {
        ts.len() == 0
    } else {
        &&& ts.len() == kids.len()
        &&& forall|i: int|
            0 <= i < ts.len() ==> (#[trigger] ts[i]).message@ == kids[i] && is_reply_forest(
                ts[i].replies@,
                all,
                Some(kids[i].message_id),
                (depth - 1) as nat,
            )
    }
}

fn goes_before_exec(a: &MessageData, b: &MessageData, newest_first: bool) -> (r: bool)
    ensures
        r == goes_before(a@, b@, newest_first),
{
    if newest_first {
        b.time.is_before(&a.time)
    } else {
        a.time.is_before(&b.time)
    }
}

proof fn lemma_insert_by_time_at(s: Seq<MessageDataView>, x: MessageDataView, newest_first: bool, j: int)
    requires
        0 <= j <= s.len(),
        forall|k: int| j <= k < s.len() ==> goes_before(x, #[trigger] s[k], newest_first),
        j == 0 || !goes_before(x, s[j - 1], newest_first),
    ensures
        insert_by_time(s, x, newest_first) == s.insert(j, x),
    decreases s.len(),
{
    if s.len() == j {
        assert(s.insert(j, x) =~= s.push(x));
    } else {
        let init = s.drop_last();
        assert forall|k: int| j <= k < init.len() implies goes_before(
            x,
            #[trigger] init[k],
            newest_first,
        ) by {
            assert(init[k] == s[k]);
        }
        if j > 0 {
            assert(init[j - 1] == s[j - 1]);
        }
        assert(goes_before(x, s[s.len() - 1], newest_first));
        lemma_insert_by_time_at(init, x, newest_first, j);
        assert(init.insert(j, x).push(s.last()) =~= s.insert(j, x));
    }
}

proof fn lemma_data_views_push(s: Seq<MessageData>, m: MessageData)
    ensures
        data_views(s.push(m)) == data_views(s).push(m@),
{
    assert(data_views(s.push(m)) =~= data_views(s).push(m@));
}

/// `v` sorted by time, stably.
fn sort_by_time(v: Vec<MessageData>, newest_first: bool) -> (r: Vec<MessageData>)
    ensures
        data_views(r@) == sorted_by_time(data_views(v@), newest_first),
{
    let ghost vv = data_views(v@);
    let mut sorted: Vec<MessageData> = Vec::new();
    let mut i: usize = 0;
    while i < v.len()
        invariant
            vv == data_views(v@),
            i <= v@.len(),
            data_views(sorted@) == sorted_by_time(vv.subrange(0, i as int), newest_first),
        decreases v.len() - i,
    {
        let x = v[i].clone();
        let ghost sv = data_views(sorted@);
        let mut j = sorted.len();
        while j > 0 && goes_before_exec(&x, &sorted[j - 1], newest_first)
            invariant
                sv == data_views(sorted@),
                j <= sorted@.len(),
                forall|k: int| j <= k < sv.len() ==> goes_before(x@, #[trigger] sv[k], newest_first),
            decreases j,
        {
            j = j - 1;
        }
        proof {
            if j > 0 {
                assert(sv[j - 1] == sorted@[j - 1]@);
            }
            lemma_insert_by_time_at(sv, x@, newest_first, j as int);
            let pre = vv.subrange(0, i + 1);
            assert(pre.drop_last() =~= vv.subrange(0, i as int));
            assert(pre.last() == x@);
        }
        sorted.insert(j, x);
        assert(data_views(sorted@) =~= sv.insert(j as int, x@));
        i = i + 1;
    }
    assert(vv.subrange(0, i as int) =~= vv);
    sorted
}

fn same_parent(m: &MessageData, parent: Option<MessageId>) -> (r: bool)
    ensures
        r == (m.reply_to_message_id == parent),
{
    match (m.reply_to_message_id, parent) {
        (Some(a), Some(b)) => a == b,
        (None, None) => true,
        _ => false,
    }
}

/// Copies of the messages of `all` that reply to `parent`, in order.
fn collect_replies(all: &[MessageData], parent: Option<MessageId>) -> (r: Vec<MessageData>)
    ensures
        data_views(r@) == replies_to(data_views(all@), parent),
{
    let ghost av = data_views(all@);
    let mut out: Vec<MessageData> = Vec::new();
    let mut i: usize = 0;
    while i < all.len()
        invariant
            av == data_views(all@),
            i <= all@.len(),
            data_views(out@) == replies_to(av.subrange(0, i as int), parent),
        decreases all.len() - i,
    {
        let ghost pre = av.subrange(0, i + 1);
        assert(pre.drop_last() =~= av.subrange(0, i as int));
        assert(pre.last() == all@[i as int]@);
        if same_parent(&all[i], parent) {
            let m = all[i].clone();
            let ghost before = out@;
            out.push(m);
            proof {
                lemma_data_views_push(before, out@.last());
                assert(out@ =~= before.push(out@.last()));
            }
        }
        i = i + 1;
    }
    assert(av.subrange(0, i as int) =~= av);
    out
}

fn reply_forest(all: &[MessageData], parent: Option<MessageId>, depth: usize) -> (r: Vec<
    MessageWithReplies,
>)
    requires
        replies_within(data_views(all@), parent, depth as nat),
    ensures
        is_reply_forest(r@, data_views(all@), parent, depth as nat),
    decreases depth,
{
    let ghost av = data_views(all@);
    let mut out: Vec<MessageWithReplies> = Vec::new();
    if depth == 0 {
        return out;
    }
    let direct = collect_replies(all, parent);
    let kids = sort_by_time(direct, false);
    let ghost kv = sorted_by_time(replies_to(av, parent), false);
    let mut i: usize = 0;
    while i < kids.len()
        invariant
            av == data_views(all@),
            depth > 0,
            replies_within(av, parent, depth as nat),
            data_views(kids@) == kv,
            kv == sorted_by_time(replies_to(av, parent), false),
            i <= kids@.len(),
            out@.len() == i,
            forall|k: int|
                0 <= k < i ==> (#[trigger] out@[k]).message@ == kv[k] && is_reply_forest(
                    out@[k].replies@,
                    av,
                    Some(kv[k].message_id),
                    (depth - 1) as nat,
                ),
        decreases kids.len() - i,
    {
        let m = kids[i].clone();
        assert(kv[i as int] == kids@[i as int]@);
        assert(replies_within(av, Some(kv[i as int].message_id), (depth - 1) as nat));
        let replies = reply_forest(all, Some(m.message_id), depth - 1);
        out.push(MessageWithReplies { message: m, replies });
        i = i + 1;
    }
    proof {
        lemma_sorted_by_time_len(replies_to(av, parent), false);
    }
    out
}

proof fn lemma_sorted_by_time_len(s: Seq<MessageDataView>, newest_first: bool)
    ensures
        sorted_by_time(s, newest_first).len() == s.len(),
    decreases s.len(),
{
    if s.len() > 0 {
        lemma_sorted_by_time_len(s.drop_last(), newest_first);
        lemma_insert_by_time_len(sorted_by_time(s.drop_last(), newest_first), s.last(), newest_first);
    }
}

proof fn lemma_insert_by_time_len(s: Seq<MessageDataView>, x: MessageDataView, newest_first: bool)
    ensures
        insert_by_time(s, x, newest_first).len() == s.len() + 1,
    decreases s.len(),
{
    if s.len() > 0 {
        lemma_insert_by_time_len(s.drop_last(), x, newest_first);
    }
}

fn replies_end(all: &[MessageData], parent: Option<MessageId>, depth: usize) -> (r: bool)
    ensures
        r == replies_within(data_views(all@), parent, depth as nat),
    decreases depth,
{
    let ghost av = data_views(all@);
    let direct = collect_replies(all, parent);
    let kids = sort_by_time(direct, false);
    let ghost kv = sorted_by_time(replies_to(av, parent), false);
    proof {
        lemma_sorted_by_time_len(replies_to(av, parent), false);
    }
    if depth == 0 {
        return kids.len() == 0;
    }
    let mut i: usize = 0;
    while i < kids.len()
        invariant
            av == data_views(all@),
            depth > 0,
            data_views(kids@) == kv,
            kv == sorted_by_time(replies_to(av, parent), false),
            i <= kids@.len(),
            forall|k: int|
                0 <= k < i ==> replies_within(
                    av,
                    Some(#[trigger] kv[k].message_id),
                    (depth - 1) as nat,
                ),
        decreases kids.len() - i,
    {
        assert(kv[i as int] == kids@[i as int]@);
        if !replies_end(all, Some(kids[i].message_id), depth - 1) {
            assert(!replies_within(av, Some(kv[i as int].message_id), (depth - 1) as nat));
            return false;
        }
        i = i + 1;
    }
    true
}

pub open spec fn opt_id(p: Option<&MessageId>) -> Option<MessageId> {
    match p {
        Some(id) => Some(*id),
        None => None,
    }
}

/// Whether the replies under `parent_id` end, so that their tree can be
/// built: false where a chain of replies is longer than the list of
/// messages, which means that it returns to a message it has passed.
pub fn replies_end_under(all_messages: &[MessageData], parent_id: Option<&MessageId>) -> (r: bool)
    ensures
        r == replies_within(data_views(all_messages@), opt_id(parent_id), all_messages@.len()),
{
    let parent = match parent_id {
        Some(id) => Some(*id),
        None => None,
    };
    replies_end(all_messages, parent, all_messages.len())
}

/// The tree of replies under `parent_id` (with `None`, under no message:
/// the posts): the messages that reply to it, earliest first (messages of
/// the same time in their order), each with the tree under it.
pub fn build_reply_tree(all_messages: &[MessageData], parent_id: Option<&MessageId>) -> (r: Vec<
    MessageWithReplies,
>)
    requires
        replies_within(data_views(all_messages@), opt_id(parent_id), all_messages@.len()),
    ensures
        is_reply_forest(r@, data_views(all_messages@), opt_id(parent_id), all_messages@.len()),
{
    let parent = match parent_id {
        Some(id) => Some(*id),
        None => None,
    };
    reply_forest(all_messages, parent, all_messages.len())
}

/// The posts (the messages that reply to none), newest first; posts of
/// the same time keep their order.
pub fn get_top_level_posts(all_messages: &[MessageData]) -> (r: Vec<MessageData>)
    ensures
        data_views(r@) == sorted_by_time(replies_to(data_views(all_messages@), None), true),
{
    let posts = collect_replies(all_messages, None);
    sort_by_time(posts, true)
}

/// Whether no message of `s` goes before an earlier one.
pub open spec fn in_time_order(s: Seq<MessageDataView>, newest_first: bool) -> bool {
    forall|i: int, j: int|
        0 <= i < j < s.len() ==> !goes_before(#[trigger] s[j], #[trigger] s[i], newest_first)
}

/// Where `insert_by_time` puts `x`: after the messages it does not go
/// before.
proof fn lemma_insert_by_time_shape(s: Seq<MessageDataView>, x: MessageDataView, newest_first: bool) -> (j: int)
    ensures
        0 <= j <= s.len(),
        insert_by_time(s, x, newest_first) == s.insert(j, x),
        forall|k: int| j <= k < s.len() ==> goes_before(x, #[trigger] s[k], newest_first),
        j == 0 || !goes_before(x, s[j - 1], newest_first),
    decreases s.len(),
{
    if s.len() == 0 {
        assert(s.insert(0, x) =~= seq![x]);
        0
    } else if goes_before(x, s.last(), newest_first) {
        let init = s.drop_last();
        let j = lemma_insert_by_time_shape(init, x, newest_first);
        assert(init.insert(j, x).push(s.last()) =~= s.insert(j, x));
        assert forall|k: int| j <= k < s.len() implies goes_before(x, #[trigger] s[k], newest_first) by {
            if k < init.len() {
                assert(init[k] == s[k]);
            }
        }
        if j > 0 {
            assert(init[j - 1] == s[j - 1]);
        }
        j
    } else {
        assert(s.insert(s.len() as int, x) =~= s.push(x));
        s.len() as int
    }
}

/// Law: sorting by time puts the messages in order (earliest first, or
/// newest first) and keeps every message, as often as it occurs.
pub proof fn lemma_sorted_by_time(s: Seq<MessageDataView>, newest_first: bool)
    ensures
        in_time_order(sorted_by_time(s, newest_first), newest_first),
        sorted_by_time(s, newest_first).to_multiset() == s.to_multiset(),
    decreases s.len(),
{
    broadcast use vstd::seq_lib::to_multiset_build, vstd::seq_lib::to_multiset_insert;

    if s.len() > 0 {
        let init = s.drop_last();
        let x = s.last();
        lemma_sorted_by_time(init, newest_first);
        let r0 = sorted_by_time(init, newest_first);
        let j = lemma_insert_by_time_shape(r0, x, newest_first);
        let r = r0.insert(j, x);
        assert forall|a: int, b: int| 0 <= a < b < r.len() implies !goes_before(
            #[trigger] r[b],
            #[trigger] r[a],
            newest_first,
        ) by {
            if b == j {
                assert(r[a] == r0[a]);
                assert(!goes_before(x, r0[j - 1], newest_first));
                if a < j - 1 {
                    assert(!goes_before(r0[j - 1], r0[a], newest_first));
                }
            } else if a == j {
                assert(r[b] == r0[b - 1]);
                assert(goes_before(x, r0[b - 1], newest_first));
            } else {
                let sa = if a < j {
                    a
                } else {
                    a - 1
                };
                let sb = if b < j {
                    b
                } else {
                    b - 1
                };
                assert(r[a] == r0[sa] && r[b] == r0[sb]);
            }
        }
        assert(init.push(x) =~= s);
    }
}

/// Law: the posts come newest first, and every post (every message that
/// replies to none) is among them, as often as it occurs.
pub proof fn lemma_top_level_posts(all: Seq<MessageDataView>)
    ensures
        in_time_order(sorted_by_time(replies_to(all, None), true), true),
        sorted_by_time(replies_to(all, None), true).to_multiset() == replies_to(
            all,
            None,
        ).to_multiset(),
        forall|i: int|
            0 <= i < sorted_by_time(replies_to(all, None), true).len() ==> (#[trigger] sorted_by_time(
                replies_to(all, None),
                true,
            )[i]).reply_to_message_id is None,
{
    broadcast use vstd::seq_lib::to_multiset_contains;

    lemma_sorted_by_time(replies_to(all, None), true);
    lemma_replies_to_parent(all, None);
    let r = sorted_by_time(replies_to(all, None), true);
    let p = replies_to(all, None);
    assert forall|i: int| 0 <= i < r.len() implies (#[trigger] r[i]).reply_to_message_id is None by {
        assert(r.contains(r[i]));
        assert(r.to_multiset().count(r[i]) > 0);
        assert(p.to_multiset().count(r[i]) > 0);
        assert(p.contains(r[i]));
        let k = choose|k: int| 0 <= k < p.len() && p[k] == r[i];
        assert(p[k].reply_to_message_id is None);
    }
}

proof fn lemma_replies_to_parent(all: Seq<MessageDataView>, parent: Option<MessageId>)
    ensures
        forall|i: int|
            0 <= i < replies_to(all, parent).len() ==> (#[trigger] replies_to(all, parent)[i]).reply_to_message_id
                == parent,
    decreases all.len(),
{
    if all.len() > 0 {
        lemma_replies_to_parent(all.drop_last(), parent);
    }
}

} // verus!
