//! The state that action messages build up: edits, category edits,
//! deletions and reactions. It is computed from the messages, in order, and
//! never stored.
use vstd::prelude::*;

use crate::content::{
    action_category_edit_payload, action_edit_payload, action_reaction_payload, ActionContentV1,
    ActionContentView, CategoryEditPayload, CategoryEditPayloadView, ACTION_TYPE_DELETE,
    ACTION_TYPE_EDIT, ACTION_TYPE_EDIT_CATEGORY, ACTION_TYPE_REACTION, ACTION_TYPE_REMOVE_REACTION,
};
use crate::ids::MemberId;

verus! {

broadcast use vstd::std_specs::hash::group_hash_axioms;

/// The reactions on one message: for each emoji, in the order the emojis
/// first arrived, the members who reacted with it.
pub type ReactionList = Vec<(String, Vec<MemberId>)>;

pub type ReactionsView = Seq<(Seq<char>, Seq<MemberId>)>;

pub open spec fn reactions_view(l: Seq<(String, Vec<MemberId>)>) -> ReactionsView {
    l.map_values(|e: (String, Vec<MemberId>)| (e.0@, e.1@))
}

/// State computed from action messages. Maps are keyed by the hash value of
/// the target message's id.
pub struct MessageActionsState {
    /// Edited messages: the new text.
    pub edited_content: std::collections::HashMap<i64, String>,
    /// Edited categories: the edit payload.
    pub edited_categories: std::collections::HashMap<i64, CategoryEditPayload>,
    /// Deleted messages.
    pub deleted: std::collections::HashSet<i64>,
    /// Reactions on messages.
    pub reactions: std::collections::HashMap<i64, ReactionList>,
}

pub struct ActionsView {
    pub edited: Map<i64, Seq<char>>,
    pub categories: Map<i64, CategoryEditPayloadView>,
    pub deleted: Set<i64>,
    pub reactions: Map<i64, ReactionsView>,
}

impl View for MessageActionsState {
    type V = ActionsView;

    open spec fn view(&self) -> ActionsView {
        ActionsView {
            edited: self.edited_content@.map_values(|s: String| s@),
            categories: self.edited_categories@.map_values(|p: CategoryEditPayload| p@),
            deleted: self.deleted@,
            reactions: self.reactions@.map_values(|l: ReactionList| reactions_view(l@)),
        }
    }
}

pub open spec fn empty_actions() -> ActionsView {
    ActionsView {
        edited: Map::empty(),
        categories: Map::empty(),
        deleted: Set::empty(),
        reactions: Map::empty(),
    }
}

// ---------------------------------------------------------------------------
// Reaction lists
// ---------------------------------------------------------------------------

/// The first position of `emoji` in the list.
pub open spec fn first_emoji(l: ReactionsView, emoji: Seq<char>) -> Option<int>
    decreases l.len(),
{
    if l.len() == 0 {
        None
    } else {
        match first_emoji(l.drop_last(), emoji) {
            Some(i) => Some(i),
            None => if l.last().0 == emoji {
                Some(l.len() - 1)
            } else {
                None
            },
        }
    }
}

/// `s` without any occurrence of `a`.
pub open spec fn without(s: Seq<MemberId>, a: MemberId) -> Seq<MemberId>
    decreases s.len(),
{
    if s.len() == 0 {
        s
    } else if s.last() == a {
        without(s.drop_last(), a)
    } else {
        without(s.drop_last(), a).push(s.last())
    }
}

/// `actor` reacts with `emoji`: added to the emoji's reactors unless there
/// already; a new emoji is appended with `actor` as its one reactor.
pub open spec fn add_reactor(l: ReactionsView, emoji: Seq<char>, actor: MemberId) -> ReactionsView {
    match first_emoji(l, emoji) {
        Some(i) => if l[i].1.contains(actor) {
            l
        } else {
            l.update(i, (emoji, l[i].1.push(actor)))
        },
        None => l.push((emoji, seq![actor])),
    }
}

/// `actor` withdraws the reaction `emoji`; an emoji left without reactors
/// is dropped.
pub open spec fn remove_reactor(l: ReactionsView, emoji: Seq<char>, actor: MemberId) -> ReactionsView {
    match first_emoji(l, emoji) {
        Some(i) => {
            let rest = without(l[i].1, actor);
            if rest.len() == 0 {
                l.remove(i)
            } else {
                l.update(i, (emoji, rest))
            }
        },
        None => l,
    }
}

// ---------------------------------------------------------------------------
// One action
// ---------------------------------------------------------------------------

/// Who may act: the author of each non-action message, the set of category
/// messages, the board owner and the admins.
pub struct ActionContext {
    pub authors: Map<i64, MemberId>,
    pub categories: Set<i64>,
    pub owner: Option<MemberId>,
    pub admins: Option<Seq<MemberId>>,
}

pub open spec fn is_author(ctx: ActionContext, target: i64, actor: MemberId) -> bool {
    ctx.authors.contains_key(target) && ctx.authors[target] == actor
}

/// Whether `actor` may edit the category `target`: the owner, an admin, or
/// its author.
pub open spec fn may_edit_category(ctx: ActionContext, target: i64, actor: MemberId) -> bool {
    ctx.owner == Some(actor) || (match ctx.admins {
        Some(a) => a.contains(actor),
        None => false,
    }) || is_author(ctx, target, actor)
}

/// The state after `actor` performs `action`.
/// - An edit applies to a non-category message, by its author, not deleted.
/// - A delete applies by the author and drops the target's edits.
/// - Anyone may react to a known message that is not deleted.
/// - A member may withdraw only their own reaction.
/// - A category edit applies to a category, by the owner, an admin or its
///   author, not deleted.
/// - Other action types are ignored.
pub open spec fn apply_action(
    st: ActionsView,
    ctx: ActionContext,
    actor: MemberId,
    action: ActionContentView,
) -> ActionsView {
    let t = action.target.0.0;
    if action.action_type == ACTION_TYPE_EDIT {
        if ctx.categories.contains(t) || !is_author(ctx, t, actor) || st.deleted.contains(t) {
            st
        } else {
            match action_edit_payload(action) {
                Some(p) => ActionsView { edited: st.edited.insert(t, p.new_text), ..st },
                None => st,
            }
        }
    } else if action.action_type == ACTION_TYPE_DELETE {
        if is_author(ctx, t, actor) {
            ActionsView {
                deleted: st.deleted.insert(t),
                edited: st.edited.remove(t),
                categories: st.categories.remove(t),
                ..st
            }
        } else {
            st
        }
    } else if action.action_type == ACTION_TYPE_REACTION {
        if ctx.authors.contains_key(t) && !st.deleted.contains(t) {
            match action_reaction_payload(action) {
                Some(p) => {
                    let l = if st.reactions.contains_key(t) {
                        st.reactions[t]
                    } else {
                        Seq::empty()
                    };
                    ActionsView {
                        reactions: st.reactions.insert(t, add_reactor(l, p.emoji, actor)),
                        ..st
                    }
                },
                None => st,
            }
        } else {
            st
        }
    } else if action.action_type == ACTION_TYPE_REMOVE_REACTION {
        match action_reaction_payload(action) {
            Some(p) => if st.reactions.contains_key(t) {
                let l = remove_reactor(st.reactions[t], p.emoji, actor);
                if l.len() == 0 {
                    ActionsView { reactions: st.reactions.remove(t), ..st }
                } else {
                    ActionsView { reactions: st.reactions.insert(t, l), ..st }
                }
            } else {
                st
            },
            None => st,
        }
    } else if action.action_type == ACTION_TYPE_EDIT_CATEGORY {
        if !ctx.categories.contains(t) || !may_edit_category(ctx, t, actor) || st.deleted.contains(
            t,
        ) {
            st
        } else {
            match action_category_edit_payload(action) {
                Some(p) => ActionsView { categories: st.categories.insert(t, p), ..st },
                None => st,
            }
        }
    } else {
        st
    }
}

// ---------------------------------------------------------------------------
// Executable steps
// ---------------------------------------------------------------------------

proof fn lemma_first_emoji_prefix(l: ReactionsView, emoji: Seq<char>, k: int)
    requires
        0 <= k <= l.len(),
        first_emoji(l.subrange(0, k), emoji) is Some,
    ensures
        first_emoji(l, emoji) == first_emoji(l.subrange(0, k), emoji),
    decreases l.len() - k,
{
    if k < l.len() {
        let next = l.subrange(0, k + 1);
        assert(next.drop_last() =~= l.subrange(0, k));
        lemma_first_emoji_prefix(l, emoji, k + 1);
    } else {
        assert(l.subrange(0, k) =~= l);
    }
}

pub(crate) proof fn lemma_first_emoji_bounds(l: ReactionsView, emoji: Seq<char>)
    ensures
        first_emoji(l, emoji) matches Some(i) ==> 0 <= i < l.len() && l[i].0 == emoji,
    decreases l.len(),
{
    if l.len() > 0 {
        lemma_first_emoji_bounds(l.drop_last(), emoji);
    }
}

/// The position of `emoji` in the list, if it is there.
fn find_emoji(l: &ReactionList, emoji: &String) -> (r: Option<usize>)
    ensures
        match r {
            Some(i) => first_emoji(reactions_view(l@), emoji@) == Some(i as int),
            None => first_emoji(reactions_view(l@), emoji@) is None,
        },
{
    let ghost v = reactions_view(l@);
    let mut i: usize = 0;
    while i < l.len()
        invariant
            i <= l@.len(),
            v == reactions_view(l@),
            first_emoji(v.subrange(0, i as int), emoji@) is None,
        decreases l.len() - i,
    {
        let ghost pre = v.subrange(0, i + 1);
        assert(pre.drop_last() =~= v.subrange(0, i as int));
        if l[i].0 == *emoji {
            proof {
                assert(pre.last() == v[i as int]);
                lemma_first_emoji_prefix(v, emoji@, i + 1);
            }
            return Some(i);
        }
        i = i + 1;
    }
    assert(v.subrange(0, i as int) =~= v);
    None
}

fn contains_member(s: &Vec<MemberId>, a: MemberId) -> (r: bool)
    ensures
        r == s@.contains(a),
{
    let mut i: usize = 0;
    while i < s.len()
        invariant
            i <= s@.len(),
            forall|j: int| 0 <= j < i ==> s@[j] != a,
        decreases s.len() - i,
    {
        if s[i] == a {
            return true;
        }
        i = i + 1;
    }
    false
}

fn without_member(s: &Vec<MemberId>, a: MemberId) -> (r: Vec<MemberId>)
    ensures
        r@ == without(s@, a),
{
    let mut out: Vec<MemberId> = Vec::new();
    let mut i: usize = 0;
    while i < s.len()
        invariant
            i <= s@.len(),
            out@ == without(s@.subrange(0, i as int), a),
        decreases s.len() - i,
    {
        let ghost pre = s@.subrange(0, i + 1);
        assert(pre.drop_last() =~= s@.subrange(0, i as int));
        if s[i] != a {
            out.push(s[i]);
        }
        i = i + 1;
    }
    assert(s@.subrange(0, i as int) =~= s@);
    out
}

fn add_reactor_exec(l: &mut ReactionList, emoji: String, actor: MemberId)
    ensures
        reactions_view(final(l)@) == add_reactor(reactions_view(old(l)@), emoji@, actor),
{
    let ghost v = reactions_view(l@);
    match find_emoji(l, &emoji) {
        Some(i) => {
            proof {
                lemma_first_emoji_bounds(v, emoji@);
            }
            if !contains_member(&l[i].1, actor) {
                let (e, mut rs) = l.remove(i);
                let ghost before = rs@;
                rs.push(actor);
                l.insert(i, (e, rs));
                proof {
                    assert(reactions_view(l@) =~= v.update(i as int, (emoji@, before.push(actor))));
                }
            }
        },
        None => {
            let mut rs: Vec<MemberId> = Vec::new();
            rs.push(actor);
            l.push((emoji, rs));
            proof {
                assert(reactions_view(l@) =~= v.push((emoji@, seq![actor])));
            }
        },
    }
}

fn remove_reactor_exec(l: &mut ReactionList, emoji: &String, actor: MemberId)
    ensures
        reactions_view(final(l)@) == remove_reactor(reactions_view(old(l)@), emoji@, actor),
{
    let ghost v = reactions_view(l@);
    match find_emoji(l, emoji) {
        Some(i) => {
            proof {
                lemma_first_emoji_bounds(v, emoji@);
            }
            let rest = without_member(&l[i].1, actor);
            let (e, _) = l.remove(i);
            if rest.len() == 0 {
                proof {
                    assert(reactions_view(l@) =~= v.remove(i as int));
                }
            } else {
                let ghost r = rest@;
                l.insert(i, (e, rest));
                proof {
                    assert(reactions_view(l@) =~= v.update(i as int, (emoji@, r)));
                }
            }
        },
        None => {},
    }
}

/// Who may act, in executable form.
pub struct ActionAuthority<'a> {
    pub authors: &'a std::collections::HashMap<i64, MemberId>,
    pub categories: &'a std::collections::HashSet<i64>,
    pub owner: Option<MemberId>,
    pub admins: Option<&'a Vec<MemberId>>,
}

pub open spec fn authority_view(a: ActionAuthority) -> ActionContext {
    ActionContext {
        authors: a.authors@,
        categories: a.categories@,
        owner: a.owner,
        admins: match a.admins {
            Some(v) => Some(v@),
            None => None,
        },
    }
}

impl MessageActionsState {
    /// The state before any action.
    pub fn new() -> (r: Self)
        ensures
            r@ == empty_actions(),
    {
        let r = MessageActionsState {
            edited_content: std::collections::HashMap::new(),
            edited_categories: std::collections::HashMap::new(),
            deleted: std::collections::HashSet::new(),
            reactions: std::collections::HashMap::new(),
        };
        assert(r@.edited =~= Map::<i64, Seq<char>>::empty());
        assert(r@.categories =~= Map::<i64, CategoryEditPayloadView>::empty());
        assert(r@.reactions =~= Map::<i64, ReactionsView>::empty());
        r
    }

    /// Performs `action` for `actor`.
    pub fn apply(&mut self, auth: &ActionAuthority, actor: MemberId, action: &ActionContentV1)
        ensures
            final(self)@ == apply_action(old(self)@, authority_view(*auth), actor, action@),
    {
        let ghost st = self@;
        let ghost ctx = authority_view(*auth);
        let t = action.target.0.0;
        let is_author = match auth.authors.get(&t) {
            Some(a) => *a == actor,
            None => false,
        };
        assert(is_author == crate::actions::is_author(ctx, t, actor));
        if action.action_type == ACTION_TYPE_EDIT {
            if auth.categories.contains(&t) || !is_author || self.deleted.contains(&t) {
                return ;
            }
            match action.edit_payload() {
                Some(p) => {
                    self.edited_content.insert(t, p.new_text);
                    assert(self@.edited =~= st.edited.insert(t, p@.new_text));
                },
                None => {},
            }
        } else if action.action_type == ACTION_TYPE_DELETE {
            if is_author {
                self.deleted.insert(t);
                self.edited_content.remove(&t);
                self.edited_categories.remove(&t);
                assert(self@.edited =~= st.edited.remove(t));
                assert(self@.categories =~= st.categories.remove(t));
            }
        } else if action.action_type == ACTION_TYPE_REACTION {
            if auth.authors.contains_key(&t) && !self.deleted.contains(&t) {
                match action.reaction_payload() {
                    Some(p) => {
                        let mut l = match self.reactions.remove(&t) {
                            Some(l) => l,
                            None => Vec::new(),
                        };
                        assert(reactions_view(l@) == if st.reactions.contains_key(t) {
                            st.reactions[t]
                        } else {
                            Seq::empty()
                        });
                        let ghost e = p.emoji@;
                        add_reactor_exec(&mut l, p.emoji, actor);
                        let ghost lv = reactions_view(l@);
                        self.reactions.insert(t, l);
                        assert(self@.reactions =~= st.reactions.insert(t, lv));
                    },
                    None => {},
                }
            }
        } else if action.action_type == ACTION_TYPE_REMOVE_REACTION {
            match action.reaction_payload() {
                Some(p) => {
                    match self.reactions.remove(&t) {
                        Some(l) => {
                            let mut l = l;
                            remove_reactor_exec(&mut l, &p.emoji, actor);
                            if l.len() == 0 {
                                assert(self@.reactions =~= st.reactions.remove(t));
                            } else {
                                let ghost lv = reactions_view(l@);
                                self.reactions.insert(t, l);
                                assert(self@.reactions =~= st.reactions.insert(t, lv));
                            }
                        },
                        None => {
                            assert(self@.reactions =~= st.reactions);
                        },
                    }
                },
                None => {},
            }
        } else if action.action_type == ACTION_TYPE_EDIT_CATEGORY {
            if !auth.categories.contains(&t) {
                return ;
            }
            let is_owner = match auth.owner {
                Some(o) => o == actor,
                None => false,
            };
            let is_admin = match auth.admins {
                Some(ids) => contains_member(ids, actor),
                None => false,
            };
            if !(is_owner || is_admin || is_author) || self.deleted.contains(&t) {
                return ;
            }
            match action.category_edit_payload() {
                Some(p) => {
                    let ghost pv = p@;
                    self.edited_categories.insert(t, p);
                    assert(self@.categories =~= st.categories.insert(t, pv));
                },
                None => {},
            }
        }
    }
}

} // verus!
