//! Laws of the actions state: who may change what, that a deletion lasts,
//! that a deleted message carries no edit, and that reacting twice is
//! reacting once.
use vstd::prelude::*;

use crate::actions::{
    add_reactor, apply_action, empty_actions, first_emoji, is_author, lemma_first_emoji_bounds,
    may_edit_category, remove_reactor, without, ActionContext, ActionsView, ReactionsView,
};
use crate::content::{
    action_category_edit_payload, ActionContentView, ACTION_TYPE_DELETE, ACTION_TYPE_EDIT,
    ACTION_TYPE_EDIT_CATEGORY, ACTION_TYPE_REACTION,
};
use crate::ids::MemberId;
use crate::message::{body_is_action, message_id, AuthorizedMessageView};
use crate::messages::{actions_over, actions_state_of, authors_of, category_ids_of, context_of};

verus! {

/// Law: an edit changes nothing where the actor is not the author of the
/// target, where the target is a category, or where it is deleted.
pub proof fn lemma_edit_ignored(
    st: ActionsView,
    ctx: ActionContext,
    actor: MemberId,
    action: ActionContentView,
)
    requires
        action.action_type == ACTION_TYPE_EDIT,
        !is_author(ctx, action.target.0.0, actor) || ctx.categories.contains(action.target.0.0)
            || st.deleted.contains(action.target.0.0),
    ensures
        apply_action(st, ctx, actor, action) == st,
{
}

/// Law: a category edit changes nothing where the target is not a
/// category, where the actor is neither the owner, an admin nor the
/// category's author, or where the category is deleted.
pub proof fn lemma_category_edit_ignored(
    st: ActionsView,
    ctx: ActionContext,
    actor: MemberId,
    action: ActionContentView,
)
    requires
        action.action_type == ACTION_TYPE_EDIT_CATEGORY,
        !ctx.categories.contains(action.target.0.0) || !may_edit_category(
            ctx,
            action.target.0.0,
            actor,
        ) || st.deleted.contains(action.target.0.0),
    ensures
        apply_action(st, ctx, actor, action) == st,
{
}

/// Law: the author of a category, the board's owner and each admin may
/// edit it: a category edit by any of them, on a category that is not
/// deleted, with a payload that decodes, sets the category's edit to that
/// payload and changes nothing else.
pub proof fn lemma_category_edit_by_author_owner_or_admin(
    st: ActionsView,
    ctx: ActionContext,
    actor: MemberId,
    action: ActionContentView,
)
    requires
        action.action_type == ACTION_TYPE_EDIT_CATEGORY,
        ctx.categories.contains(action.target.0.0),
        !st.deleted.contains(action.target.0.0),
        action_category_edit_payload(action) is Some,
        (ctx.authors.contains_key(action.target.0.0) && ctx.authors[action.target.0.0] == actor)
            || ctx.owner == Some(actor) || (ctx.admins matches Some(a) && a.contains(actor)),
    ensures
        ({
            let r = apply_action(st, ctx, actor, action);
            let t = action.target.0.0;
            &&& r.categories == st.categories.insert(t, action_category_edit_payload(action)->0)
            &&& r.edited == st.edited
            &&& r.deleted == st.deleted
            &&& r.reactions == st.reactions
        }),
{
}

/// Law: nobody reacts to a deleted message: a reaction whose target is
/// deleted changes nothing, whoever makes it and whatever it carries.
pub proof fn lemma_reaction_on_deleted_ignored(
    st: ActionsView,
    ctx: ActionContext,
    actor: MemberId,
    action: ActionContentView,
)
    requires
        action.action_type == ACTION_TYPE_REACTION,
        st.deleted.contains(action.target.0.0),
    ensures
        apply_action(st, ctx, actor, action) == st,
{
}

/// Law: a delete by the target's author marks it deleted and drops its
/// edits and category edit; a delete by anyone else changes nothing.
pub proof fn lemma_delete(st: ActionsView, ctx: ActionContext, actor: MemberId, action: ActionContentView)
    requires
        action.action_type == ACTION_TYPE_DELETE,
    ensures
        ({
            let r = apply_action(st, ctx, actor, action);
            let t = action.target.0.0;
            if is_author(ctx, t, actor) {
                r.deleted.contains(t) && !r.edited.contains_key(t) && !r.categories.contains_key(t)
                    && r.reactions == st.reactions
            } else {
                r == st
            }
        }),
{
}

/// Law: no action undoes a deletion.
pub proof fn lemma_deleted_stays(
    st: ActionsView,
    ctx: ActionContext,
    actor: MemberId,
    action: ActionContentView,
)
    ensures
        st.deleted.subset_of(apply_action(st, ctx, actor, action).deleted),
{
}

/// Whether no deleted message carries an edit or a category edit.
pub open spec fn deleted_unedited(st: ActionsView) -> bool {
    forall|t: i64|
        #[trigger] st.deleted.contains(t) ==> !st.edited.contains_key(t)
            && !st.categories.contains_key(t)
}

/// Law: every action keeps deleted messages free of edits.
pub proof fn lemma_action_keeps_deleted_unedited(
    st: ActionsView,
    ctx: ActionContext,
    actor: MemberId,
    action: ActionContentView,
)
    requires
        deleted_unedited(st),
    ensures
        deleted_unedited(apply_action(st, ctx, actor, action)),
{
    let r = apply_action(st, ctx, actor, action);
    assert forall|t: i64| #[trigger] r.deleted.contains(t) implies !r.edited.contains_key(t)
        && !r.categories.contains_key(t) by {
        if t != action.target.0.0 {
            assert(st.deleted.contains(t));
        }
    }
}

/// Law: in the state that the actions of any messages build, no deleted
/// message carries an edit or a category edit.
pub proof fn lemma_actions_deleted_unedited(
    msgs: Seq<AuthorizedMessageView>,
    ctx: ActionContext,
    decrypted: Map<i64, Seq<u8>>,
)
    ensures
        deleted_unedited(actions_over(msgs, ctx, decrypted)),
    decreases msgs.len(),
{
    if msgs.len() == 0 {
        assert(deleted_unedited(empty_actions()));
    } else {
        lemma_actions_deleted_unedited(msgs.drop_last(), ctx, decrypted);
        let st = actions_over(msgs.drop_last(), ctx, decrypted);
        let m = msgs.last();
        match crate::messages::message_action(m, decrypted) {
            Some(a) => lemma_action_keeps_deleted_unedited(st, ctx, m.message.author, a),
            None => {},
        }
    }
}

proof fn lemma_first_emoji_update(l: ReactionsView, emoji: Seq<char>, i: int, rs: Seq<MemberId>)
    requires
        first_emoji(l, emoji) == Some(i),
    ensures
        first_emoji(l.update(i, (emoji, rs)), emoji) == Some(i),
    decreases l.len(),
{
    lemma_first_emoji_bounds(l, emoji);
    let u = l.update(i, (emoji, rs));
    let init = l.drop_last();
    lemma_first_emoji_bounds(init, emoji);
    if i == l.len() - 1 {
        assert(u.drop_last() =~= init);
    } else {
        assert(u.drop_last() =~= init.update(i, (emoji, rs)));
        lemma_first_emoji_update(init, emoji, i, rs);
    }
}

/// Law: reacting twice with the same emoji leaves the reactions as
/// reacting once does.
pub proof fn lemma_add_reactor_idempotent(l: ReactionsView, emoji: Seq<char>, actor: MemberId)
    ensures
        add_reactor(add_reactor(l, emoji, actor), emoji, actor) == add_reactor(l, emoji, actor),
{
    lemma_first_emoji_bounds(l, emoji);
    match first_emoji(l, emoji) {
        Some(i) => {
            if !l[i].1.contains(actor) {
                let rs = l[i].1.push(actor);
                lemma_first_emoji_update(l, emoji, i, rs);
                assert(rs[rs.len() - 1] == actor);
            }
        },
        None => {
            let l2 = l.push((emoji, seq![actor]));
            assert(l2.drop_last() =~= l);
            assert(seq![actor][0] == actor);
        },
    }
}

/// Law: the same reaction by the same member, applied twice, changes the
/// state as applying it once does.
pub proof fn lemma_reaction_idempotent(
    st: ActionsView,
    ctx: ActionContext,
    actor: MemberId,
    action: ActionContentView,
)
    requires
        action.action_type == ACTION_TYPE_REACTION,
    ensures
        apply_action(apply_action(st, ctx, actor, action), ctx, actor, action) == apply_action(
            st,
            ctx,
            actor,
            action,
        ),
{
    let t = action.target.0.0;
    let once = apply_action(st, ctx, actor, action);
    if ctx.authors.contains_key(t) && !st.deleted.contains(t) {
        match crate::content::action_reaction_payload(action) {
            Some(p) => {
                let l = if st.reactions.contains_key(t) {
                    st.reactions[t]
                } else {
                    Seq::empty()
                };
                lemma_add_reactor_idempotent(l, p.emoji, actor);
                assert(once.reactions.contains_key(t));
                assert(once.reactions.insert(t, add_reactor(once.reactions[t], p.emoji, actor))
                    =~= once.reactions);
            },
            None => {},
        }
    }
}

/// The members who reacted with `emoji`, as the list holds them.
pub open spec fn reactors(l: ReactionsView, emoji: Seq<char>) -> Seq<MemberId> {
    match first_emoji(l, emoji) {
        Some(i) => l[i].1,
        None => Seq::empty(),
    }
}

/// Whether no emoji has two entries in the list.
pub open spec fn emojis_distinct(l: ReactionsView) -> bool {
    forall|i: int, j: int| 0 <= i < j < l.len() ==> (#[trigger] l[i]).0 != (#[trigger] l[j]).0
}

proof fn lemma_first_emoji_none(l: ReactionsView, emoji: Seq<char>)
    ensures
        first_emoji(l, emoji) is None <==> forall|k: int| 0 <= k < l.len() ==> (#[trigger] l[k]).0
            != emoji,
    decreases l.len(),
{
    lemma_first_emoji_bounds(l, emoji);
    if l.len() > 0 {
        let init = l.drop_last();
        lemma_first_emoji_none(init, emoji);
        if first_emoji(l, emoji) is None {
            assert forall|k: int| 0 <= k < l.len() implies (#[trigger] l[k]).0 != emoji by {
                if k < init.len() {
                    assert(init[k] == l[k]);
                }
            }
        } else {
            if first_emoji(init, emoji) is None {
                assert(l[l.len() - 1].0 == emoji);
            } else {
                lemma_first_emoji_bounds(init, emoji);
                let i = first_emoji(init, emoji)->0;
                assert(l[i] == init[i]);
            }
        }
    }
}

proof fn lemma_without_contains(s: Seq<MemberId>, a: MemberId, b: MemberId)
    ensures
        without(s, a).contains(b) <==> (s.contains(b) && b != a),
    decreases s.len(),
{
    if s.len() > 0 {
        let init = s.drop_last();
        lemma_without_contains(init, a, b);
        let w = without(init, a);
        assert(init.push(s.last()) =~= s);
        if s.contains(b) && !init.contains(b) {
            let k = choose|k: int| 0 <= k < s.len() && s[k] == b;
            if k < init.len() {
                assert(init[k] == s[k]);
            }
        }
        if init.contains(b) {
            let k = choose|k: int| 0 <= k < init.len() && init[k] == b;
            assert(s[k] == b);
        }
        if s.last() != a {
            let ww = w.push(s.last());
            if w.contains(b) {
                let k = choose|k: int| 0 <= k < w.len() && w[k] == b;
                assert(ww[k] == b);
            }
            if ww.contains(b) && !w.contains(b) {
                let k = choose|k: int| 0 <= k < ww.len() && ww[k] == b;
                if k < w.len() {
                    assert(ww[k] == w[k]);
                }
            }
            if b == s.last() {
                assert(ww[w.len() as int] == b);
            }
        }
    }
}

/// Law: withdrawing a reaction leaves, among the members who reacted with
/// that emoji, every member but the one who withdrew (where no emoji has
/// two entries, as in every list that actions build).
pub proof fn lemma_remove_reactor(l: ReactionsView, emoji: Seq<char>, actor: MemberId)
    requires
        emojis_distinct(l),
    ensures
        reactors(remove_reactor(l, emoji, actor), emoji) == without(reactors(l, emoji), actor),
        emojis_distinct(remove_reactor(l, emoji, actor)),
        forall|b: MemberId|
            #[trigger] reactors(remove_reactor(l, emoji, actor), emoji).contains(b) <==> (
            reactors(l, emoji).contains(b) && b != actor),
{
    lemma_first_emoji_bounds(l, emoji);
    match first_emoji(l, emoji) {
        Some(i) => {
            let rest = without(l[i].1, actor);
            if rest.len() == 0 {
                let r = l.remove(i);
                assert forall|k: int| 0 <= k < r.len() implies (#[trigger] r[k]).0 != emoji by {
                    if k < i {
                        assert(r[k] == l[k]);
                    } else {
                        assert(r[k] == l[k + 1]);
                    }
                }
                lemma_first_emoji_none(r, emoji);
                assert(rest =~= Seq::<MemberId>::empty());
                assert forall|a: int, b: int| 0 <= a < b < r.len() implies (#[trigger] r[a]).0
                    != (#[trigger] r[b]).0 by {
                    let sa = if a < i {
                        a
                    } else {
                        a + 1
                    };
                    let sb = if b < i {
                        b
                    } else {
                        b + 1
                    };
                    assert(r[a] == l[sa] && r[b] == l[sb]);
                }
            } else {
                lemma_first_emoji_update(l, emoji, i, rest);
                let r = l.update(i, (emoji, rest));
                assert forall|a: int, b: int| 0 <= a < b < r.len() implies (#[trigger] r[a]).0
                    != (#[trigger] r[b]).0 by {
                    assert(r[a].0 == l[a].0 && r[b].0 == l[b].0);
                }
            }
        },
        None => {
            assert(without(Seq::<MemberId>::empty(), actor) =~= Seq::<MemberId>::empty());
        },
    }
    assert forall|b: MemberId| #[trigger] reactors(remove_reactor(l, emoji, actor), emoji).contains(b)
        <==> (reactors(l, emoji).contains(b) && b != actor) by {
        lemma_without_contains(reactors(l, emoji), actor, b);
    }
}

/// Law: reacting adds the member to those who reacted with that emoji and
/// keeps the others, and keeps emojis from having two entries.
pub proof fn lemma_add_reactor(l: ReactionsView, emoji: Seq<char>, actor: MemberId)
    requires
        emojis_distinct(l),
    ensures
        emojis_distinct(add_reactor(l, emoji, actor)),
        forall|b: MemberId|
            #[trigger] reactors(add_reactor(l, emoji, actor), emoji).contains(b) <==> (
            reactors(l, emoji).contains(b) || b == actor),
{
    lemma_first_emoji_bounds(l, emoji);
    match first_emoji(l, emoji) {
        Some(i) => {
            if !l[i].1.contains(actor) {
                let rs = l[i].1.push(actor);
                lemma_first_emoji_update(l, emoji, i, rs);
                let r = l.update(i, (emoji, rs));
                assert forall|a: int, b: int| 0 <= a < b < r.len() implies (#[trigger] r[a]).0
                    != (#[trigger] r[b]).0 by {
                    assert(r[a].0 == l[a].0 && r[b].0 == l[b].0);
                }
                assert forall|b: MemberId| #[trigger] rs.contains(b) <==> (l[i].1.contains(b)
                    || b == actor) by {
                    if l[i].1.contains(b) {
                        let k = choose|k: int| 0 <= k < l[i].1.len() && l[i].1[k] == b;
                        assert(rs[k] == b);
                    }
                    if rs.contains(b) && b != actor {
                        let k = choose|k: int| 0 <= k < rs.len() && rs[k] == b;
                        if k < l[i].1.len() {
                            assert(rs[k] == l[i].1[k]);
                        }
                    }
                    assert(rs[rs.len() - 1] == actor);
                }
            }
        },
        None => {
            lemma_first_emoji_none(l, emoji);
            let r = l.push((emoji, seq![actor]));
            assert(r.drop_last() =~= l);
            assert forall|a: int, b: int| 0 <= a < b < r.len() implies (#[trigger] r[a]).0
                != (#[trigger] r[b]).0 by {
                if b == l.len() {
                    assert(r[a] == l[a]);
                } else {
                    assert(r[a] == l[a] && r[b] == l[b]);
                }
            }
            assert forall|b: MemberId| #[trigger] seq![actor].contains(b) <==> b == actor by {
                if b == actor {
                    assert(seq![actor][0] == actor);
                }
            }
        },
    }
}

/// Whether no reaction list of the state has an emoji twice.
pub open spec fn reactions_distinct(st: ActionsView) -> bool {
    forall|t: i64| #[trigger] st.reactions.contains_key(t) ==> emojis_distinct(st.reactions[t])
}

/// Law: every action keeps each reaction list free of repeated emojis.
pub proof fn lemma_action_keeps_reactions_distinct(
    st: ActionsView,
    ctx: ActionContext,
    actor: MemberId,
    action: ActionContentView,
)
    requires
        reactions_distinct(st),
    ensures
        reactions_distinct(apply_action(st, ctx, actor, action)),
{
    let t = action.target.0.0;
    let r = apply_action(st, ctx, actor, action);
    match crate::content::action_reaction_payload(action) {
        Some(p) => {
            if st.reactions.contains_key(t) {
                lemma_add_reactor(st.reactions[t], p.emoji, actor);
                lemma_remove_reactor(st.reactions[t], p.emoji, actor);
            } else {
                lemma_add_reactor(Seq::empty(), p.emoji, actor);
            }
        },
        None => {},
    }
    assert forall|k: i64| #[trigger] r.reactions.contains_key(k) implies emojis_distinct(
        r.reactions[k],
    ) by {
        if k != t {
            assert(st.reactions.contains_key(k));
        }
    }
}

/// Law: in the state that the actions of any messages build, no reaction
/// list has an emoji twice; so withdrawing a reaction always leaves the
/// other members' reactions with that emoji and drops the member's own.
pub proof fn lemma_actions_reactions_distinct(
    msgs: Seq<AuthorizedMessageView>,
    ctx: ActionContext,
    decrypted: Map<i64, Seq<u8>>,
)
    ensures
        reactions_distinct(actions_over(msgs, ctx, decrypted)),
    decreases msgs.len(),
{
    if msgs.len() == 0 {
        assert(reactions_distinct(empty_actions()));
    } else {
        lemma_actions_reactions_distinct(msgs.drop_last(), ctx, decrypted);
        let st = actions_over(msgs.drop_last(), ctx, decrypted);
        let m = msgs.last();
        match crate::messages::message_action(m, decrypted) {
            Some(a) => lemma_action_keeps_reactions_distinct(st, ctx, m.message.author, a),
            None => {},
        }
    }
}

/// Whether every reaction list of the state is non-empty, and every
/// emoji in it has at least one reactor and no reactor twice.
pub open spec fn reactors_well_formed(st: ActionsView) -> bool {
    forall|t: i64|
        #[trigger] st.reactions.contains_key(t) ==> st.reactions[t].len() > 0 && forall|j: int|
            0 <= j < st.reactions[t].len() ==> (#[trigger] st.reactions[t][j]).1.len() > 0
                && st.reactions[t][j].1.no_duplicates()
}

/// Whether every message that the state speaks of (edited, category
/// edited, deleted or reacted to) is in `known`.
pub open spec fn keys_known(st: ActionsView, known: Set<i64>) -> bool {
    &&& forall|t: i64| #[trigger] st.edited.contains_key(t) ==> known.contains(t)
    &&& forall|t: i64| #[trigger] st.categories.contains_key(t) ==> known.contains(t)
    &&& forall|t: i64| #[trigger] st.deleted.contains(t) ==> known.contains(t)
    &&& forall|t: i64| #[trigger] st.reactions.contains_key(t) ==> known.contains(t)
}

proof fn lemma_without_subset(s: Seq<MemberId>, a: MemberId)
    ensures
        forall|x: MemberId| #[trigger] without(s, a).contains(x) ==> s.contains(x) && x != a,
        s.no_duplicates() ==> without(s, a).no_duplicates(),
    decreases s.len(),
{
    if s.len() > 0 {
        let init = s.drop_last();
        lemma_without_subset(init, a);
        let w = without(init, a);
        assert forall|x: MemberId| #[trigger] without(s, a).contains(x) implies s.contains(x) && x != a by {
            if w.contains(x) {
                let k = choose|k: int| 0 <= k < w.len() && w[k] == x;
                assert(init.contains(x));
                let j = choose|j: int| 0 <= j < init.len() && init[j] == x;
                assert(s[j] == x);
            } else {
                assert(s.last() == x);
                assert(s[s.len() - 1] == x);
            }
        }
        if s.no_duplicates() {
            assert(init.no_duplicates()) by {
                assert forall|i: int, j: int| 0 <= i < init.len() && 0 <= j < init.len() && i != j implies init[i]
                    != init[j] by {
                    assert(init[i] == s[i] && init[j] == s[j]);
                }
            }
            if s.last() != a {
                assert(!w.contains(s.last())) by {
                    if w.contains(s.last()) {
                        let j = choose|j: int| 0 <= j < init.len() && init[j] == s.last();
                        assert(s[j] == s[s.len() - 1]);
                    }
                }
                let p = w.push(s.last());
                assert forall|i: int, j: int| 0 <= i < p.len() && 0 <= j < p.len() && i != j implies p[i]
                    != p[j] by {
                    if i < w.len() && j < w.len() {
                    } else if i == w.len() {
                        assert(w.contains(w[j]));
                    } else {
                        assert(w.contains(w[i]));
                    }
                }
            }
        }
    }
}

proof fn lemma_add_reactor_well_formed(l: ReactionsView, emoji: Seq<char>, actor: MemberId)
    requires
        forall|j: int| 0 <= j < l.len() ==> (#[trigger] l[j]).1.len() > 0 && l[j].1.no_duplicates(),
    ensures
        ({
            let r = add_reactor(l, emoji, actor);
            &&& r.len() > 0
            &&& forall|j: int| 0 <= j < r.len() ==> (#[trigger] r[j]).1.len() > 0 && r[j].1.no_duplicates()
        }),
{
    lemma_first_emoji_bounds(l, emoji);
    let r = add_reactor(l, emoji, actor);
    match first_emoji(l, emoji) {
        Some(i) => {
            if !l[i].1.contains(actor) {
                let p = l[i].1.push(actor);
                assert forall|a: int, b: int| 0 <= a < p.len() && 0 <= b < p.len() && a != b implies p[a]
                    != p[b] by {
                    if a < l[i].1.len() && b < l[i].1.len() {
                    } else if a == l[i].1.len() {
                        assert(l[i].1.contains(l[i].1[b]));
                    } else {
                        assert(l[i].1.contains(l[i].1[a]));
                    }
                }
                assert forall|j: int| 0 <= j < r.len() implies (#[trigger] r[j]).1.len() > 0
                    && r[j].1.no_duplicates() by {
                    if j != i {
                        assert(r[j] == l[j]);
                    }
                }
            }
        },
        None => {
            assert forall|j: int| 0 <= j < r.len() implies (#[trigger] r[j]).1.len() > 0
                && r[j].1.no_duplicates() by {
                if j < l.len() {
                    assert(r[j] == l[j]);
                } else {
                    assert(r[j].1 == seq![actor]);
                }
            }
        },
    }
}

proof fn lemma_remove_reactor_well_formed(l: ReactionsView, emoji: Seq<char>, actor: MemberId)
    requires
        forall|j: int| 0 <= j < l.len() ==> (#[trigger] l[j]).1.len() > 0 && l[j].1.no_duplicates(),
    ensures
        ({
            let r = remove_reactor(l, emoji, actor);
            forall|j: int| 0 <= j < r.len() ==> (#[trigger] r[j]).1.len() > 0 && r[j].1.no_duplicates()
        }),
{
    lemma_first_emoji_bounds(l, emoji);
    let r = remove_reactor(l, emoji, actor);
    match first_emoji(l, emoji) {
        Some(i) => {
            let rest = without(l[i].1, actor);
            lemma_without_subset(l[i].1, actor);
            if rest.len() == 0 {
                assert forall|j: int| 0 <= j < r.len() implies (#[trigger] r[j]).1.len() > 0
                    && r[j].1.no_duplicates() by {
                    if j < i {
                        assert(r[j] == l[j]);
                    } else {
                        assert(r[j] == l[j + 1]);
                    }
                }
            } else {
                assert forall|j: int| 0 <= j < r.len() implies (#[trigger] r[j]).1.len() > 0
                    && r[j].1.no_duplicates() by {
                    if j != i {
                        assert(r[j] == l[j]);
                    }
                }
            }
        },
        None => {},
    }
}

/// Law: every action keeps the reaction lists non-empty, with at least one
/// reactor per emoji and no reactor twice.
pub proof fn lemma_action_keeps_reactors_well_formed(
    st: ActionsView,
    ctx: ActionContext,
    actor: MemberId,
    action: ActionContentView,
)
    requires
        reactors_well_formed(st),
    ensures
        reactors_well_formed(apply_action(st, ctx, actor, action)),
{
    let t = action.target.0.0;
    let r = apply_action(st, ctx, actor, action);
    match crate::content::action_reaction_payload(action) {
        Some(p) => {
            if st.reactions.contains_key(t) {
                lemma_add_reactor_well_formed(st.reactions[t], p.emoji, actor);
                lemma_remove_reactor_well_formed(st.reactions[t], p.emoji, actor);
            } else {
                lemma_add_reactor_well_formed(Seq::empty(), p.emoji, actor);
            }
        },
        None => {},
    }
    assert forall|k: i64| #[trigger] r.reactions.contains_key(k) implies r.reactions[k].len() > 0
        && forall|j: int|
        0 <= j < r.reactions[k].len() ==> (#[trigger] r.reactions[k][j]).1.len() > 0
            && r.reactions[k][j].1.no_duplicates() by {
        if k != t {
            assert(st.reactions.contains_key(k));
        }
    }
}

/// Law: every action keeps the state speaking only of messages that have
/// an author, where every category message has one.
pub proof fn lemma_action_keeps_keys_known(
    st: ActionsView,
    ctx: ActionContext,
    actor: MemberId,
    action: ActionContentView,
)
    requires
        keys_known(st, ctx.authors.dom()),
        ctx.categories.subset_of(ctx.authors.dom()),
    ensures
        keys_known(apply_action(st, ctx, actor, action), ctx.authors.dom()),
{
    let t = action.target.0.0;
    let r = apply_action(st, ctx, actor, action);
    assert forall|k: i64| #[trigger] r.edited.contains_key(k) implies ctx.authors.dom().contains(k) by {
        if k != t {
            assert(st.edited.contains_key(k));
        }
    }
    assert forall|k: i64| #[trigger] r.categories.contains_key(k) implies ctx.authors.dom().contains(k) by {
        if k != t {
            assert(st.categories.contains_key(k));
        } else if !st.categories.contains_key(k) {
            assert(ctx.categories.contains(k));
        }
    }
    assert forall|k: i64| #[trigger] r.deleted.contains(k) implies ctx.authors.dom().contains(k) by {
        if k != t {
            assert(st.deleted.contains(k));
        }
    }
    assert forall|k: i64| #[trigger] r.reactions.contains_key(k) implies ctx.authors.dom().contains(k) by {
        if k != t {
            assert(st.reactions.contains_key(k));
        }
    }
}

proof fn lemma_actions_invariants(msgs: Seq<AuthorizedMessageView>, ctx: ActionContext, decrypted: Map<i64, Seq<u8>>)
    requires
        ctx.categories.subset_of(ctx.authors.dom()),
    ensures
        reactors_well_formed(actions_over(msgs, ctx, decrypted)),
        keys_known(actions_over(msgs, ctx, decrypted), ctx.authors.dom()),
    decreases msgs.len(),
{
    if msgs.len() == 0 {
        assert(reactors_well_formed(empty_actions()));
        assert(keys_known(empty_actions(), ctx.authors.dom()));
    } else {
        lemma_actions_invariants(msgs.drop_last(), ctx, decrypted);
        let st = actions_over(msgs.drop_last(), ctx, decrypted);
        let m = msgs.last();
        match crate::messages::message_action(m, decrypted) {
            Some(a) => {
                lemma_action_keeps_reactors_well_formed(st, ctx, m.message.author, a);
                lemma_action_keeps_keys_known(st, ctx, m.message.author, a);
            },
            None => {},
        }
    }
}

/// Whether `t` is the id of a message of `msgs` that is not an action.
pub open spec fn is_message_id(msgs: Seq<AuthorizedMessageView>, t: i64) -> bool {
    exists|i: int|
        0 <= i < msgs.len() && !body_is_action(msgs[i].message.content) && #[trigger] message_id(msgs[i]).0.0 == t
}

proof fn lemma_authors_of_dom(msgs: Seq<AuthorizedMessageView>)
    ensures
        forall|t: i64| #[trigger] authors_of(msgs).contains_key(t) ==> is_message_id(msgs, t),
        category_ids_of(msgs).subset_of(authors_of(msgs).dom()),
    decreases msgs.len(),
{
    if msgs.len() > 0 {
        let init = msgs.drop_last();
        lemma_authors_of_dom(init);
        assert forall|t: i64| #[trigger] authors_of(msgs).contains_key(t) implies is_message_id(msgs, t) by {
            if authors_of(init).contains_key(t) {
                let i = choose|i: int|
                    0 <= i < init.len() && !body_is_action(init[i].message.content) && #[trigger] message_id(
                        init[i],
                    ).0.0 == t;
                assert(msgs[i] == init[i]);
            } else {
                assert(message_id(msgs[msgs.len() - 1]).0.0 == t);
            }
        }
    }
}

/// Law: the actions state built from any messages speaks only of messages
/// that are there and are not actions: every edited, category-edited,
/// deleted or reacted-to id is the id of such a message. Every reaction
/// list is non-empty, every emoji in it has a reactor, and none twice; no
/// emoji repeats; no deleted message carries an edit.
pub proof fn lemma_actions_state_well_formed(
    msgs: Seq<AuthorizedMessageView>,
    decrypted: Map<i64, Seq<u8>>,
    owner: Option<MemberId>,
    admins: Option<Seq<MemberId>>,
)
    ensures
        ({
            let st = actions_state_of(msgs, decrypted, owner, admins);
            &&& forall|t: i64| #[trigger] st.edited.contains_key(t) ==> is_message_id(msgs, t)
            &&& forall|t: i64| #[trigger] st.categories.contains_key(t) ==> is_message_id(msgs, t)
            &&& forall|t: i64| #[trigger] st.deleted.contains(t) ==> is_message_id(msgs, t)
            &&& forall|t: i64| #[trigger] st.reactions.contains_key(t) ==> is_message_id(msgs, t)
            &&& reactors_well_formed(st)
            &&& reactions_distinct(st)
            &&& deleted_unedited(st)
        }),
{
    let ctx = context_of(msgs, owner, admins);
    lemma_authors_of_dom(msgs);
    lemma_actions_invariants(msgs, ctx, decrypted);
    lemma_actions_reactions_distinct(msgs, ctx, decrypted);
    lemma_actions_deleted_unedited(msgs, ctx, decrypted);
    let st = actions_state_of(msgs, decrypted, owner, admins);
    assert forall|t: i64| #[trigger] st.edited.contains_key(t) implies is_message_id(msgs, t) by {
        assert(authors_of(msgs).contains_key(t));
    }
    assert forall|t: i64| #[trigger] st.categories.contains_key(t) implies is_message_id(msgs, t) by {
        assert(authors_of(msgs).contains_key(t));
    }
    assert forall|t: i64| #[trigger] st.deleted.contains(t) implies is_message_id(msgs, t) by {
        assert(authors_of(msgs).contains_key(t));
    }
    assert forall|t: i64| #[trigger] st.reactions.contains_key(t) implies is_message_id(msgs, t) by {
        assert(authors_of(msgs).contains_key(t));
    }
}

} // verus!
