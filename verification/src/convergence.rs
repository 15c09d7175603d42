//! Laws of the message set: the order it is kept in, and what applying a
//! delta twice does.
use vstd::prelude::*;

use crate::ids::{MemberId, MessageId};
use crate::message::{message_id, AuthorizedMessageView, BodyView};
use crate::messages::{
    before, first_delta_problem, ids_of, in_order, insert_in_order, is_ordered, kept, may_stay,
    merged_messages, title_problem, unseen, MessagesError,
};
use crate::state::{Configuration, PrivacyMode};

verus! {

broadcast use vstd::seq_lib::to_multiset_build, vstd::seq_lib::to_multiset_insert,
    vstd::seq_lib::to_multiset_contains;

/// Where `insert_in_order` puts `x`: after the messages it is not before.
proof fn lemma_insert_shape(s: Seq<AuthorizedMessageView>, x: AuthorizedMessageView) -> (j: int)
    ensures
        0 <= j <= s.len(),
        insert_in_order(s, x) == s.insert(j, x),
        forall|k: int| j <= k < s.len() ==> before(x, #[trigger] s[k]),
        j == 0 || !before(x, s[j - 1]),
    decreases s.len(),
{
    if s.len() == 0 {
        assert(s.insert(0, x) =~= seq![x]);
        0
    } else if before(x, s.last()) {
        let init = s.drop_last();
        let j = lemma_insert_shape(init, x);
        assert(init.insert(j, x).push(s.last()) =~= s.insert(j, x));
        assert forall|k: int| j <= k < s.len() implies before(x, #[trigger] s[k]) by {
            if k < init.len() {
                assert(init[k] == s[k]);
            }
        }
        if j > 0 {
            assert(init[j - 1] == s[j - 1]);
        }
        j
    } else {
        assert(s.insert(s.len() as int, x) =~= s.push(x));
        s.len() as int
    }
}

/// Law: insertion keeps a sequence in order.
pub proof fn lemma_insert_keeps_order(s: Seq<AuthorizedMessageView>, x: AuthorizedMessageView)
    requires
        is_ordered(s),
    ensures
        is_ordered(insert_in_order(s, x)),
        insert_in_order(s, x).to_multiset() == s.to_multiset().insert(x),
{
    let j = lemma_insert_shape(s, x);
    let r = s.insert(j, x);
    assert forall|a: int, b: int| 0 <= a < b < r.len() implies !before(
        #[trigger] r[b],
        #[trigger] r[a],
    ) by {
        if b == j {
            assert(!before(x, s[j - 1]));
            if a < j - 1 {
                assert(!before(s[j - 1], s[a]));
            }
        } else if a == j {
            assert(before(x, s[b - 1]));
        } else {
            let sa = if a < j {
                a
            } else {
                a - 1
            };
            let sb = if b < j {
                b
            } else {
                b - 1
            };
            assert(r[a] == s[sa] && r[b] == s[sb]);
        }
    }
}

/// Law: `in_order` puts messages in order, and keeps every message.
pub proof fn lemma_in_order_sorts(s: Seq<AuthorizedMessageView>)
    ensures
        is_ordered(in_order(s)),
        in_order(s).to_multiset() == s.to_multiset(),
    decreases s.len(),
{
    if s.len() > 0 {
        let init = s.drop_last();
        lemma_in_order_sorts(init);
        lemma_insert_keeps_order(in_order(init), s.last());
        assert(init.push(s.last()) =~= s);
    }
}

/// Law: a sequence already in order is left as it is.
pub proof fn lemma_in_order_of_ordered(s: Seq<AuthorizedMessageView>)
    requires
        is_ordered(s),
    ensures
        in_order(s) == s,
    decreases s.len(),
{
    if s.len() > 0 {
        let init = s.drop_last();
        assert(is_ordered(init)) by {
            assert forall|a: int, b: int| 0 <= a < b < init.len() implies !before(
                #[trigger] init[b],
                #[trigger] init[a],
            ) by {
                assert(init[a] == s[a] && init[b] == s[b]);
            }
        }
        lemma_in_order_of_ordered(init);
        if init.len() > 0 {
            assert(!before(s[s.len() - 1], s[s.len() - 2]));
        }
        assert(init.push(s.last()) =~= s);
    }
}

proof fn lemma_in_order_contains(s: Seq<AuthorizedMessageView>, m: AuthorizedMessageView)
    ensures
        in_order(s).contains(m) <==> s.contains(m),
{
    lemma_in_order_sorts(s);
    assert(in_order(s).to_multiset().count(m) == s.to_multiset().count(m));
}

proof fn lemma_kept_append(
    a: Seq<AuthorizedMessageView>,
    b: Seq<AuthorizedMessageView>,
    max_size: usize,
    members: Seq<crate::state::AuthorizedMember>,
    owner_id: MemberId,
)
    ensures
        kept(a + b, max_size, members, owner_id) == kept(a, max_size, members, owner_id) + kept(
            b,
            max_size,
            members,
            owner_id,
        ),
    decreases b.len(),
{
    if b.len() == 0 {
        assert(a + b =~= a);
        assert(kept(a, max_size, members, owner_id) + kept(b, max_size, members, owner_id)
            =~= kept(a, max_size, members, owner_id));
    } else {
        lemma_kept_append(a, b.drop_last(), max_size, members, owner_id);
        assert((a + b).drop_last() =~= a + b.drop_last());
        assert((a + b).last() == b.last());
        let ka = kept(a, max_size, members, owner_id);
        let kb = kept(b.drop_last(), max_size, members, owner_id);
        assert((ka + kb).push(b.last()) =~= ka + kb.push(b.last()));
    }
}

proof fn lemma_kept_members(
    s: Seq<AuthorizedMessageView>,
    max_size: usize,
    members: Seq<crate::state::AuthorizedMember>,
    owner_id: MemberId,
    m: AuthorizedMessageView,
)
    ensures
        kept(s, max_size, members, owner_id).contains(m) <==> (s.contains(m) && may_stay(
            m,
            max_size,
            members,
            owner_id,
        )),
    decreases s.len(),
{
    if s.len() > 0 {
        let init = s.drop_last();
        lemma_kept_members(init, max_size, members, owner_id, m);
        let k = kept(init, max_size, members, owner_id);
        assert(s =~= init.push(s.last()));
        if s.contains(m) && !init.contains(m) {
            let i = choose|i: int| 0 <= i < s.len() && s[i] == m;
            if i < init.len() {
                assert(init[i] == s[i]);
            }
        }
        if init.contains(m) {
            let i = choose|i: int| 0 <= i < init.len() && init[i] == m;
            assert(s[i] == init[i]);
        }
        if may_stay(s.last(), max_size, members, owner_id) {
            let kk = k.push(s.last());
            if k.contains(m) {
                let i = choose|i: int| 0 <= i < k.len() && k[i] == m;
                assert(kk[i] == k[i]);
            }
            if kk.contains(m) && !k.contains(m) {
                let i = choose|i: int| 0 <= i < kk.len() && kk[i] == m;
                if i < k.len() {
                    assert(kk[i] == k[i]);
                }
            }
            if m == s.last() {
                assert(kk[k.len() as int] == m);
            }
        }
    } else {
        assert(!s.contains(m));
    }
}

proof fn lemma_kept_identity(
    s: Seq<AuthorizedMessageView>,
    max_size: usize,
    members: Seq<crate::state::AuthorizedMember>,
    owner_id: MemberId,
)
    requires
        forall|i: int| 0 <= i < s.len() ==> may_stay(#[trigger] s[i], max_size, members, owner_id),
    ensures
        kept(s, max_size, members, owner_id) == s,
    decreases s.len(),
{
    if s.len() > 0 {
        let init = s.drop_last();
        assert forall|i: int| 0 <= i < init.len() implies may_stay(
            #[trigger] init[i],
            max_size,
            members,
            owner_id,
        ) by {
            assert(init[i] == s[i]);
        }
        lemma_kept_identity(init, max_size, members, owner_id);
        assert(may_stay(s[s.len() - 1], max_size, members, owner_id));
        assert(init.push(s.last()) =~= s);
    }
}

proof fn lemma_kept_empty(
    s: Seq<AuthorizedMessageView>,
    max_size: usize,
    members: Seq<crate::state::AuthorizedMember>,
    owner_id: MemberId,
)
    requires
        forall|i: int| 0 <= i < s.len() ==> !may_stay(#[trigger] s[i], max_size, members, owner_id),
    ensures
        kept(s, max_size, members, owner_id).len() == 0,
    decreases s.len(),
{
    if s.len() > 0 {
        let init = s.drop_last();
        assert forall|i: int| 0 <= i < init.len() implies !may_stay(
            #[trigger] init[i],
            max_size,
            members,
            owner_id,
        ) by {
            assert(init[i] == s[i]);
        }
        lemma_kept_empty(init, max_size, members, owner_id);
        assert(!may_stay(s[s.len() - 1], max_size, members, owner_id));
    }
}

proof fn lemma_unseen_members(d: Seq<AuthorizedMessageView>, seen: Seq<MessageId>, m: AuthorizedMessageView)
    ensures
        unseen(d, seen).contains(m) <==> (d.contains(m) && !seen.contains(message_id(m))),
    decreases d.len(),
{
    if d.len() > 0 {
        let init = d.drop_last();
        lemma_unseen_members(init, seen, m);
        let u = unseen(init, seen);
        assert(d =~= init.push(d.last()));
        if d.contains(m) && !init.contains(m) {
            let i = choose|i: int| 0 <= i < d.len() && d[i] == m;
            if i < init.len() {
                assert(init[i] == d[i]);
            }
        }
        if init.contains(m) {
            let i = choose|i: int| 0 <= i < init.len() && init[i] == m;
            assert(d[i] == init[i]);
        }
        if !seen.contains(message_id(d.last())) {
            let uu = u.push(d.last());
            if u.contains(m) {
                let i = choose|i: int| 0 <= i < u.len() && u[i] == m;
                assert(uu[i] == u[i]);
            }
            if uu.contains(m) && !u.contains(m) {
                let i = choose|i: int| 0 <= i < uu.len() && uu[i] == m;
                if i < u.len() {
                    assert(uu[i] == u[i]);
                }
            }
            if m == d.last() {
                assert(uu[u.len() as int] == m);
            }
        }
    } else {
        assert(!d.contains(m));
    }
}

proof fn lemma_ids_of_contains(s: Seq<AuthorizedMessageView>, m: AuthorizedMessageView)
    requires
        s.contains(m),
    ensures
        ids_of(s).contains(message_id(m)),
{
    let i = choose|i: int| 0 <= i < s.len() && s[i] == m;
    assert(ids_of(s)[i] == message_id(m));
}

proof fn lemma_ids_of_witness(s: Seq<AuthorizedMessageView>, id: MessageId) -> (m: AuthorizedMessageView)
    requires
        ids_of(s).contains(id),
    ensures
        s.contains(m),
        message_id(m) == id,
{
    let i = choose|i: int| 0 <= i < ids_of(s).len() && ids_of(s)[i] == id;
    assert(s[i] == s[i]);
    s[i]
}

/// Law: once the stored messages all satisfy the board's limits (as they do
/// after any delta), applying the same delta a second time changes nothing.
pub proof fn lemma_apply_delta_twice(
    old: Seq<AuthorizedMessageView>,
    delta: Seq<AuthorizedMessageView>,
    max_size: usize,
    members: Seq<crate::state::AuthorizedMember>,
    owner_id: MemberId,
)
    requires
        kept(old, max_size, members, owner_id) == old,
    ensures
        ({
            let once = merged_messages(old, Some(delta), max_size, members, owner_id);
            merged_messages(once, Some(delta), max_size, members, owner_id) == once
        }),
{
    let u1 = unseen(delta, ids_of(old));
    let all1 = old + u1;
    let k1 = kept(all1, max_size, members, owner_id);
    let once = in_order(k1);
    let u2 = unseen(delta, ids_of(once));
    lemma_in_order_sorts(k1);
    // every message of `once` may stay
    assert forall|i: int| 0 <= i < once.len() implies may_stay(
        #[trigger] once[i],
        max_size,
        members,
        owner_id,
    ) by {
        assert(once.contains(once[i]));
        lemma_in_order_contains(k1, once[i]);
        lemma_kept_members(all1, max_size, members, owner_id, once[i]);
    }
    lemma_kept_identity(once, max_size, members, owner_id);
    // no message of `u2` may stay
    assert forall|i: int| 0 <= i < u2.len() implies !may_stay(
        #[trigger] u2[i],
        max_size,
        members,
        owner_id,
    ) by {
        let m = u2[i];
        assert(u2.contains(m));
        lemma_unseen_members(delta, ids_of(once), m);
        if may_stay(m, max_size, members, owner_id) {
            if ids_of(old).contains(message_id(m)) {
                let o = lemma_ids_of_witness(old, message_id(m));
                lemma_kept_members(old, max_size, members, owner_id, o);
                assert(all1.contains(o)) by {
                    let j = choose|j: int| 0 <= j < old.len() && old[j] == o;
                    assert(all1[j] == o);
                }
                lemma_kept_members(all1, max_size, members, owner_id, o);
                lemma_in_order_contains(k1, o);
                lemma_ids_of_contains(once, o);
            } else {
                lemma_unseen_members(delta, ids_of(old), m);
                assert(all1.contains(m)) by {
                    let j = choose|j: int| 0 <= j < u1.len() && u1[j] == m;
                    assert(all1[old.len() + j] == m);
                }
                lemma_kept_members(all1, max_size, members, owner_id, m);
                lemma_in_order_contains(k1, m);
                lemma_ids_of_contains(once, m);
            }
        }
    }
    lemma_kept_empty(u2, max_size, members, owner_id);
    lemma_kept_append(once, u2, max_size, members, owner_id);
    let k2 = kept(once + u2, max_size, members, owner_id);
    assert(k2 =~= once);
    lemma_in_order_of_ordered(once);
}

/// Law: applying the same delta a second time changes nothing, whatever the
/// stored messages are, wherever no message id stands for two different
/// messages among the stored ones and the delta's.
pub proof fn lemma_apply_delta_twice_consistent(
    old: Seq<AuthorizedMessageView>,
    delta: Seq<AuthorizedMessageView>,
    max_size: usize,
    members: Seq<crate::state::AuthorizedMember>,
    owner_id: MemberId,
)
    requires
        ids_consistent(old + delta),
    ensures
        ({
            let once = merged_messages(old, Some(delta), max_size, members, owner_id);
            merged_messages(once, Some(delta), max_size, members, owner_id) == once
        }),
{
    let u1 = unseen(delta, ids_of(old));
    let all1 = old + u1;
    let k1 = kept(all1, max_size, members, owner_id);
    let once = in_order(k1);
    let u2 = unseen(delta, ids_of(once));
    lemma_in_order_sorts(k1);
    assert forall|i: int| 0 <= i < once.len() implies may_stay(
        #[trigger] once[i],
        max_size,
        members,
        owner_id,
    ) by {
        assert(once.contains(once[i]));
        lemma_in_order_contains(k1, once[i]);
        lemma_kept_members(all1, max_size, members, owner_id, once[i]);
    }
    lemma_kept_identity(once, max_size, members, owner_id);
    assert forall|i: int| 0 <= i < u2.len() implies !may_stay(
        #[trigger] u2[i],
        max_size,
        members,
        owner_id,
    ) by {
        let m = u2[i];
        assert(u2.contains(m));
        lemma_unseen_members(delta, ids_of(once), m);
        if may_stay(m, max_size, members, owner_id) {
            if ids_of(old).contains(message_id(m)) {
                let o = lemma_ids_of_witness(old, message_id(m));
                let a = choose|a: int| 0 <= a < old.len() && old[a] == o;
                let b = choose|b: int| 0 <= b < delta.len() && delta[b] == m;
                let ud = old + delta;
                assert(ud[a] == o);
                assert(ud[old.len() + b] == m);
                assert(o == m);
                assert(all1.contains(o)) by {
                    assert(all1[a] == o);
                }
                lemma_kept_members(all1, max_size, members, owner_id, o);
                lemma_in_order_contains(k1, o);
                lemma_ids_of_contains(once, o);
            } else {
                lemma_unseen_members(delta, ids_of(old), m);
                assert(all1.contains(m)) by {
                    let j = choose|j: int| 0 <= j < u1.len() && u1[j] == m;
                    assert(all1[old.len() + j] == m);
                }
                lemma_kept_members(all1, max_size, members, owner_id, m);
                lemma_in_order_contains(k1, m);
                lemma_ids_of_contains(once, m);
            }
        }
    }
    lemma_kept_empty(u2, max_size, members, owner_id);
    lemma_kept_append(once, u2, max_size, members, owner_id);
    let k2 = kept(once + u2, max_size, members, owner_id);
    assert(k2 =~= once);
    lemma_in_order_of_ordered(once);
}

/// Law: stored messages that are in order and within the board's limits are
/// left unchanged when no delta comes.
pub proof fn lemma_apply_no_delta(
    msgs: Seq<AuthorizedMessageView>,
    max_size: usize,
    members: Seq<crate::state::AuthorizedMember>,
    owner_id: MemberId,
)
    requires
        kept(msgs, max_size, members, owner_id) == msgs,
        is_ordered(msgs),
    ensures
        merged_messages(msgs, None, max_size, members, owner_id) == msgs,
{
    lemma_in_order_of_ordered(msgs);
}

/// Law: after a delta the messages are in order, and each of them is within
/// the size limit and by a member or the owner.
pub proof fn lemma_merged_well_formed(
    old: Seq<AuthorizedMessageView>,
    delta: Option<Seq<AuthorizedMessageView>>,
    max_size: usize,
    members: Seq<crate::state::AuthorizedMember>,
    owner_id: MemberId,
)
    ensures
        is_ordered(merged_messages(old, delta, max_size, members, owner_id)),
        forall|i: int|
            0 <= i < merged_messages(old, delta, max_size, members, owner_id).len() ==> may_stay(
                #[trigger] merged_messages(old, delta, max_size, members, owner_id)[i],
                max_size,
                members,
                owner_id,
            ),
{
    let all = match delta {
        Some(d) => old + unseen(d, ids_of(old)),
        None => old,
    };
    let k = kept(all, max_size, members, owner_id);
    lemma_in_order_sorts(k);
    let r = in_order(k);
    assert forall|i: int| 0 <= i < r.len() implies may_stay(
        #[trigger] r[i],
        max_size,
        members,
        owner_id,
    ) by {
        assert(r.contains(r[i]));
        lemma_in_order_contains(k, r[i]);
        lemma_kept_members(all, max_size, members, owner_id, r[i]);
    }
}

// ---------------------------------------------------------------------------
// Deltas in either order
// ---------------------------------------------------------------------------

/// Whether no message id stands for two different messages.
pub open spec fn ids_consistent(s: Seq<AuthorizedMessageView>) -> bool {
    forall|i: int, j: int|
        0 <= i < s.len() && 0 <= j < s.len() && message_id(#[trigger] s[i]) == message_id(
            #[trigger] s[j],
        ) ==> s[i] == s[j]
}

/// Whether no message id occurs twice.
pub open spec fn ids_distinct(s: Seq<AuthorizedMessageView>) -> bool {
    forall|i: int, j: int|
        0 <= i < j < s.len() ==> message_id(#[trigger] s[i]) != message_id(#[trigger] s[j])
}

proof fn lemma_unseen_count(d: Seq<AuthorizedMessageView>, seen: Seq<MessageId>, m: AuthorizedMessageView)
    ensures
        unseen(d, seen).to_multiset().count(m) == if seen.contains(message_id(m)) {
            0
        } else {
            d.to_multiset().count(m)
        },
    decreases d.len(),
{
    if d.len() > 0 {
        let init = d.drop_last();
        let x = d.last();
        lemma_unseen_count(init, seen, m);
        assert(init.push(x) =~= d);
        assert(d.to_multiset() == init.to_multiset().insert(x));
        if !seen.contains(message_id(x)) {
            let u = unseen(init, seen);
            assert(u.push(x).to_multiset() == u.to_multiset().insert(x));
        }
    }
}

proof fn lemma_kept_count(
    s: Seq<AuthorizedMessageView>,
    max_size: usize,
    members: Seq<crate::state::AuthorizedMember>,
    owner_id: MemberId,
    m: AuthorizedMessageView,
)
    ensures
        kept(s, max_size, members, owner_id).to_multiset().count(m) == if may_stay(
            m,
            max_size,
            members,
            owner_id,
        ) {
            s.to_multiset().count(m)
        } else {
            0
        },
    decreases s.len(),
{
    if s.len() > 0 {
        let init = s.drop_last();
        let x = s.last();
        lemma_kept_count(init, max_size, members, owner_id, m);
        assert(init.push(x) =~= s);
        assert(s.to_multiset() == init.to_multiset().insert(x));
        if may_stay(x, max_size, members, owner_id) {
            let k = kept(init, max_size, members, owner_id);
            assert(k.push(x).to_multiset() == k.to_multiset().insert(x));
        }
    }
}

proof fn lemma_distinct_count(d: Seq<AuthorizedMessageView>, m: AuthorizedMessageView)
    requires
        ids_distinct(d),
    ensures
        d.to_multiset().count(m) <= 1,
    decreases d.len(),
{
    if d.len() > 0 {
        let init = d.drop_last();
        let x = d.last();
        assert(ids_distinct(init)) by {
            assert forall|i: int, j: int| 0 <= i < j < init.len() implies message_id(
                #[trigger] init[i],
            ) != message_id(#[trigger] init[j]) by {
                assert(init[i] == d[i] && init[j] == d[j]);
            }
        }
        lemma_distinct_count(init, m);
        assert(init.push(x) =~= d);
        assert(d.to_multiset() == init.to_multiset().insert(x));
        if m == x && init.contains(x) {
            let k = choose|k: int| 0 <= k < init.len() && init[k] == x;
            assert(d[k] == x && d[d.len() - 1] == x);
        }
    }
}

/// How often a message occurs once a delta is applied: as often as before
/// where its id was there; else as often as in the delta; not at all where
/// it may not stay.
proof fn lemma_merged_count(
    o: Seq<AuthorizedMessageView>,
    d: Seq<AuthorizedMessageView>,
    max_size: usize,
    members: Seq<crate::state::AuthorizedMember>,
    owner_id: MemberId,
    m: AuthorizedMessageView,
)
    ensures
        merged_messages(o, Some(d), max_size, members, owner_id).to_multiset().count(m) == if may_stay(
            m,
            max_size,
            members,
            owner_id,
        ) {
            o.to_multiset().count(m) + if ids_of(o).contains(message_id(m)) {
                0
            } else {
                d.to_multiset().count(m)
            }
        } else {
            0
        },
{
    let u = unseen(d, ids_of(o));
    let all = o + u;
    let k = kept(all, max_size, members, owner_id);
    lemma_in_order_sorts(k);
    lemma_kept_count(all, max_size, members, owner_id, m);
    vstd::seq_lib::lemma_multiset_commutative(o, u);
    lemma_unseen_count(d, ids_of(o), m);
}

proof fn lemma_contains_in(a: Seq<AuthorizedMessageView>, b: Seq<AuthorizedMessageView>, x: AuthorizedMessageView)
    requires
        a.contains(x),
    ensures
        (a + b).contains(x),
        (b + a).contains(x),
{
    let i = choose|i: int| 0 <= i < a.len() && a[i] == x;
    assert((a + b)[i] == x);
    assert((b + a)[b.len() + i] == x);
}

/// Two ordered lists with the same messages, as often each, in which no id
/// stands for two messages, are the same list.
proof fn lemma_ordered_unique(a: Seq<AuthorizedMessageView>, b: Seq<AuthorizedMessageView>)
    requires
        is_ordered(a),
        is_ordered(b),
        a.to_multiset() == b.to_multiset(),
        ids_consistent(a),
    ensures
        a == b,
    decreases a.len(),
{
    vstd::seq_lib::to_multiset_len(a);
    vstd::seq_lib::to_multiset_len(b);
    if a.len() == 0 {
        assert(a =~= b);
    } else {
        let la = a.last();
        let lb = b.last();
        assert(a.contains(la)) by {
            assert(a[a.len() - 1] == la);
        }
        assert(b.contains(lb)) by {
            assert(b[b.len() - 1] == lb);
        }
        assert(a.to_multiset().count(la) > 0);
        assert(b.to_multiset().count(lb) > 0);
        let jb = choose|k: int| 0 <= k < b.len() && b[k] == la;
        let ja = choose|k: int| 0 <= k < a.len() && a[k] == lb;
        if jb < b.len() - 1 {
            assert(!before(b[b.len() - 1], b[jb]));
        }
        if ja < a.len() - 1 {
            assert(!before(a[a.len() - 1], a[ja]));
        }
        if la != lb {
            assert(message_id(a[a.len() - 1]) != message_id(a[ja]));
            assert(false);
        }
        let a0 = a.drop_last();
        let b0 = b.drop_last();
        assert(a0.push(la) =~= a);
        assert(b0.push(lb) =~= b);
        assert(a0.push(la).to_multiset() == a0.to_multiset().insert(la));
        assert(b0.push(lb).to_multiset() == b0.to_multiset().insert(lb));
        assert(a0.to_multiset() =~= b0.to_multiset()) by {
            assert forall|v: AuthorizedMessageView| a0.to_multiset().count(v) == b0.to_multiset().count(
                v,
            ) by {
                assert(a.to_multiset().count(v) == b.to_multiset().count(v));
                assert(a.to_multiset().count(v) == a0.to_multiset().insert(la).count(v));
                assert(b.to_multiset().count(v) == b0.to_multiset().insert(lb).count(v));
            }
        }
        assert(is_ordered(a0)) by {
            assert forall|i: int, j: int| 0 <= i < j < a0.len() implies !before(
                #[trigger] a0[j],
                #[trigger] a0[i],
            ) by {
                assert(a0[i] == a[i] && a0[j] == a[j]);
            }
        }
        assert(is_ordered(b0)) by {
            assert forall|i: int, j: int| 0 <= i < j < b0.len() implies !before(
                #[trigger] b0[j],
                #[trigger] b0[i],
            ) by {
                assert(b0[i] == b[i] && b0[j] == b[j]);
            }
        }
        assert(ids_consistent(a0)) by {
            assert forall|i: int, j: int|
                0 <= i < a0.len() && 0 <= j < a0.len() && message_id(#[trigger] a0[i]) == message_id(
                    #[trigger] a0[j],
                ) implies a0[i] == a0[j] by {
                assert(a0[i] == a[i] && a0[j] == a[j]);
            }
        }
        lemma_ordered_unique(a0, b0);
    }
}

/// Where every message of `s` occurs in `u`, and no id stands for two
/// messages of `u`, no id stands for two messages of `s`.
proof fn lemma_consistent_within(s: Seq<AuthorizedMessageView>, u: Seq<AuthorizedMessageView>)
    requires
        ids_consistent(u),
        forall|x: AuthorizedMessageView| s.contains(x) ==> u.contains(x),
    ensures
        ids_consistent(s),
{
    assert forall|i: int, j: int|
        0 <= i < s.len() && 0 <= j < s.len() && message_id(#[trigger] s[i]) == message_id(
            #[trigger] s[j],
        ) implies s[i] == s[j] by {
        assert(s.contains(s[i]) && s.contains(s[j]));
        let p = choose|p: int| 0 <= p < u.len() && u[p] == s[i];
        let q = choose|q: int| 0 <= q < u.len() && u[q] == s[j];
        assert(message_id(u[p]) == message_id(u[q]));
    }
}

/// Law: two deltas applied one after the other leave the same messages in
/// the same order, whichever of them comes first, where no message id
/// stands for two different messages and neither delta holds a message
/// twice.
pub proof fn lemma_message_deltas_commute(
    old: Seq<AuthorizedMessageView>,
    d1: Seq<AuthorizedMessageView>,
    d2: Seq<AuthorizedMessageView>,
    max_size: usize,
    members: Seq<crate::state::AuthorizedMember>,
    owner_id: MemberId,
)
    requires
        ids_consistent(old + d1 + d2),
        ids_distinct(d1),
        ids_distinct(d2),
    ensures
        merged_messages(
            merged_messages(old, Some(d1), max_size, members, owner_id),
            Some(d2),
            max_size,
            members,
            owner_id,
        ) == merged_messages(
            merged_messages(old, Some(d2), max_size, members, owner_id),
            Some(d1),
            max_size,
            members,
            owner_id,
        ),
{
    let u = old + d1 + d2;
    let r1 = merged_messages(old, Some(d1), max_size, members, owner_id);
    let r2 = merged_messages(old, Some(d2), max_size, members, owner_id);
    let r12 = merged_messages(r1, Some(d2), max_size, members, owner_id);
    let r21 = merged_messages(r2, Some(d1), max_size, members, owner_id);
    // Every message of each list occurs in `u`.
    assert forall|x: AuthorizedMessageView| old.contains(x) implies u.contains(x) by {
        lemma_contains_in(old, d1, x);
        lemma_contains_in(old + d1, d2, x);
    }
    assert forall|x: AuthorizedMessageView| d1.contains(x) implies u.contains(x) by {
        lemma_contains_in(d1, old, x);
        lemma_contains_in(old + d1, d2, x);
    }
    assert forall|x: AuthorizedMessageView| d2.contains(x) implies u.contains(x) by {
        lemma_contains_in(d2, old + d1, x);
    }
    assert forall|x: AuthorizedMessageView| r1.contains(x) implies u.contains(x) by {
        lemma_merged_count(old, d1, max_size, members, owner_id, x);
    }
    assert forall|x: AuthorizedMessageView| r2.contains(x) implies u.contains(x) by {
        lemma_merged_count(old, d2, max_size, members, owner_id, x);
    }
    assert forall|x: AuthorizedMessageView| r12.contains(x) implies u.contains(x) by {
        lemma_merged_count(r1, d2, max_size, members, owner_id, x);
    }
    // An id is among a list's ids exactly where its message is in the list.
    assert forall|x: AuthorizedMessageView, s: Seq<AuthorizedMessageView>|
        u.contains(x) && (forall|y: AuthorizedMessageView| s.contains(y) ==> u.contains(y))
            implies (#[trigger] ids_of(s).contains(message_id(x)) <==> s.contains(x)) by {
        if ids_of(s).contains(message_id(x)) {
            let y = lemma_ids_of_witness(s, message_id(x));
            let p = choose|p: int| 0 <= p < u.len() && u[p] == x;
            let q = choose|q: int| 0 <= q < u.len() && u[q] == y;
            assert(message_id(u[p]) == message_id(u[q]));
        }
        if s.contains(x) {
            lemma_ids_of_contains(s, x);
        }
    }
    assert forall|m: AuthorizedMessageView| r12.to_multiset().count(m) == r21.to_multiset().count(m) by {
        lemma_merged_count(old, d1, max_size, members, owner_id, m);
        lemma_merged_count(old, d2, max_size, members, owner_id, m);
        lemma_merged_count(r1, d2, max_size, members, owner_id, m);
        lemma_merged_count(r2, d1, max_size, members, owner_id, m);
        lemma_distinct_count(d1, m);
        lemma_distinct_count(d2, m);
        if u.contains(m) {
            assert(ids_of(old).contains(message_id(m)) <==> old.contains(m));
            assert(ids_of(r1).contains(message_id(m)) <==> r1.contains(m));
            assert(ids_of(r2).contains(message_id(m)) <==> r2.contains(m));
        } else {
            assert(!old.contains(m));
            assert(!d1.contains(m));
            assert(!d2.contains(m));
        }
    }
    assert(r12.to_multiset() =~= r21.to_multiset());
    lemma_merged_well_formed(r1, Some(d2), max_size, members, owner_id);
    lemma_merged_well_formed(r2, Some(d1), max_size, members, owner_id);
    lemma_consistent_within(r12, u);
    lemma_ordered_unique(r12, r21);
}

/// The delta that a message set takes from another in a merge: the other's
/// messages whose ids it lacks, or none where there are none.
pub open spec fn merge_delta(mine: Seq<AuthorizedMessageView>, other: Seq<AuthorizedMessageView>) -> Option<
    Seq<AuthorizedMessageView>,
> {
    let d = unseen(other, ids_of(mine));
    if d.len() == 0 {
        None
    } else {
        Some(d)
    }
}

proof fn lemma_merge_count(
    a: Seq<AuthorizedMessageView>,
    b: Seq<AuthorizedMessageView>,
    max_size: usize,
    members: Seq<crate::state::AuthorizedMember>,
    owner_id: MemberId,
    m: AuthorizedMessageView,
)
    requires
        ids_consistent(a + b),
        ids_distinct(a),
        ids_distinct(b),
    ensures
        merged_messages(a, merge_delta(a, b), max_size, members, owner_id).to_multiset().count(m)
            == if may_stay(m, max_size, members, owner_id) && (a.contains(m) || b.contains(m)) {
            1nat
        } else {
            0nat
        },
{
    let u = a + b;
    let d = unseen(b, ids_of(a));
    lemma_distinct_count(a, m);
    lemma_distinct_count(b, m);
    lemma_unseen_count(b, ids_of(a), m);
    // An id of `a` is the id of `m` exactly where `m` is in `a`, for `m` in `u`.
    if u.contains(m) && ids_of(a).contains(message_id(m)) {
        let y = lemma_ids_of_witness(a, message_id(m));
        lemma_contains_in(a, b, y);
        let p = choose|p: int| 0 <= p < u.len() && u[p] == m;
        let q = choose|q: int| 0 <= q < u.len() && u[q] == y;
        assert(message_id(u[p]) == message_id(u[q]));
    }
    if a.contains(m) {
        lemma_ids_of_contains(a, m);
        lemma_contains_in(a, b, m);
    }
    if b.contains(m) {
        lemma_contains_in(b, a, m);
        assert((a + b).contains(m)) by {
            let k = choose|k: int| 0 <= k < b.len() && b[k] == m;
            assert((a + b)[a.len() + k] == m);
        }
    }
    if d.len() == 0 {
        let k = kept(a, max_size, members, owner_id);
        lemma_in_order_sorts(k);
        lemma_kept_count(a, max_size, members, owner_id, m);
        if b.contains(m) && !a.contains(m) {
            lemma_unseen_members(b, ids_of(a), m);
            assert(d.contains(m));
            let k = choose|k: int| 0 <= k < d.len() && d[k] == m;
            assert(false);
        }
    } else {
        lemma_merged_count(a, d, max_size, members, owner_id, m);
        lemma_unseen_count(d, ids_of(a), m);
    }
}

/// Law: two message sets that merge each other's messages end up the same,
/// messages and order, where no message id stands for two different
/// messages and neither set holds a message twice.
pub proof fn lemma_merge_converges(
    a: Seq<AuthorizedMessageView>,
    b: Seq<AuthorizedMessageView>,
    max_size: usize,
    members: Seq<crate::state::AuthorizedMember>,
    owner_id: MemberId,
)
    requires
        ids_consistent(a + b),
        ids_distinct(a),
        ids_distinct(b),
    ensures
        merged_messages(a, merge_delta(a, b), max_size, members, owner_id) == merged_messages(
            b,
            merge_delta(b, a),
            max_size,
            members,
            owner_id,
        ),
{
    let ra = merged_messages(a, merge_delta(a, b), max_size, members, owner_id);
    let rb = merged_messages(b, merge_delta(b, a), max_size, members, owner_id);
    assert(ids_consistent(b + a)) by {
        assert forall|i: int, j: int|
            0 <= i < (b + a).len() && 0 <= j < (b + a).len() && message_id(#[trigger] (b + a)[i])
                == message_id(#[trigger] (b + a)[j]) implies (b + a)[i] == (b + a)[j] by {
            let x = (b + a)[i];
            let y = (b + a)[j];
            let p = if i < b.len() {
                a.len() + i
            } else {
                i - b.len()
            };
            let q = if j < b.len() {
                a.len() + j
            } else {
                j - b.len()
            };
            assert((a + b)[p] == x);
            assert((a + b)[q] == y);
        }
    }
    assert forall|m: AuthorizedMessageView| ra.to_multiset().count(m) == rb.to_multiset().count(m) by {
        lemma_merge_count(a, b, max_size, members, owner_id, m);
        lemma_merge_count(b, a, max_size, members, owner_id, m);
    }
    assert(ra.to_multiset() =~= rb.to_multiset());
    lemma_merged_well_formed(a, merge_delta(a, b), max_size, members, owner_id);
    lemma_merged_well_formed(b, merge_delta(b, a), max_size, members, owner_id);
    assert forall|x: AuthorizedMessageView| ra.contains(x) implies (a + b).contains(x) by {
        lemma_merge_count(a, b, max_size, members, owner_id, x);
        if a.contains(x) {
            lemma_contains_in(a, b, x);
        } else {
            let k = choose|k: int| 0 <= k < b.len() && b[k] == x;
            assert((a + b)[a.len() + k] == x);
        }
    }
    lemma_consistent_within(ra, a + b);
    lemma_ordered_unique(ra, rb);
}

/// Law: while some member does not hold the current secret, no delta that
/// carries a private message is accepted, whatever else it holds; and a
/// private message that is otherwise acceptable is refused for exactly
/// that reason.
pub proof fn lemma_private_needs_complete_distribution(
    delta: Seq<AuthorizedMessageView>,
    cfg: Configuration,
    current_version: u32,
)
    ensures
        (exists|i: int| 0 <= i < delta.len() && (#[trigger] delta[i]).message.content is Private)
            ==> first_delta_problem(delta, cfg, current_version, false) is Some,
        (delta.len() == 1 && (delta[0].message.content matches BodyView::Private { secret_version, .. }
            && title_problem(delta[0].message.content, cfg) is None && (cfg.privacy_mode
            == PrivacyMode::Public || secret_version == current_version))) ==> first_delta_problem(
            delta,
            cfg,
            current_version,
            false,
        ) == Some(MessagesError::IncompleteSecretDistribution),
    decreases delta.len(),
{
    if delta.len() > 0 {
        let rest = delta.subrange(1, delta.len() as int);
        lemma_private_needs_complete_distribution(rest, cfg, current_version);
        if exists|i: int| 0 <= i < delta.len() && (#[trigger] delta[i]).message.content is Private {
            let i = choose|i: int| 0 <= i < delta.len() && (#[trigger] delta[i]).message.content is Private;
            if i > 0 {
                assert(rest[i - 1] == delta[i]);
            }
        }
    }
}

} // verus!
