//! The member list as it is shown: who invited whom, the order of the
//! invite tree, and the tags beside each name.
use vstd::prelude::*;

use crate::ids::{member_id_of_key, MemberId};
use crate::state::{
    first_member_with_id, invite_chain_from, AuthorizedMember, ChatBoardParametersV1,
    InviteChainError, MembersV1,
};
use crate::text::concat;

verus! {

/// The id of a member entry.
pub open spec fn entry_id(m: AuthorizedMember) -> MemberId {
    member_id_of_key(m.member.member_vk@)
}

/// Whether the member with id `member_id` (the first such entry) was
/// invited by `self_id`.
pub open spec fn invited_by(members: Seq<AuthorizedMember>, member_id: MemberId, self_id: MemberId) -> bool {
    match first_member_with_id(members, member_id) {
        Some(i) => members[i].member.invited_by == self_id,
        None => false,
    }
}

/// Whether `member_id` was invited by a member whom `self_id` invited.
pub open spec fn in_network(members: Seq<AuthorizedMember>, member_id: MemberId, self_id: MemberId) -> bool {
    exists|i: int, j: int|
        0 <= i < members.len() && 0 <= j < members.len() && entry_id(#[trigger] members[i])
            == member_id && entry_id(#[trigger] members[j]) == members[i].member.invited_by
            && invited_by(members, entry_id(members[j]), self_id)
}

/// Whether `member_id` is in the invite chain of `self_id` (the chain of
/// the first entry of `self_id`, where it can be walked).
pub open spec fn sponsors(
    members: Seq<AuthorizedMember>,
    member_id: MemberId,
    self_id: MemberId,
    owner_vk: Seq<u8>,
) -> bool {
    match first_member_with_id(members, self_id) {
        Some(s) => match invite_chain_from(
            members,
            members[s].member,
            member_id_of_key(owner_vk),
            members.len(),
        ) {
            Ok(c) => exists|k: int| 0 <= k < c.len() && entry_id(#[trigger] c[k]) == member_id,
            Err(_) => false,
        },
        None => false,
    }
}

/// Whether you invited the member `member_id`: the first member entry with
/// that id names you as its inviter.
pub fn did_you_invite_member(member_id: MemberId, members: &MembersV1, self_id: MemberId) -> (r:
    bool)
    ensures
        r == invited_by(members.members@, member_id, self_id),
{
    match members.find_by_id(member_id) {
        Some(i) => members.members[i].member.invited_by == self_id,
        None => false,
    }
}

/// Whether the member `member_id` was invited by someone you invited.
pub fn is_in_your_network(member_id: MemberId, members: &MembersV1, self_id: MemberId) -> (r: bool)
    ensures
        r == in_network(members.members@, member_id, self_id),
{
    let ms = &members.members;
    let mut i: usize = 0;
    while i < ms.len()
        invariant
            ms == &members.members,
            i <= ms@.len(),
            forall|a: int, b: int|
                0 <= a < i && 0 <= b < ms@.len() ==> !(entry_id(#[trigger] ms@[a]) == member_id
                    && entry_id(#[trigger] ms@[b]) == ms@[a].member.invited_by && invited_by(
                    ms@,
                    entry_id(ms@[b]),
                    self_id,
                )),
        decreases ms.len() - i,
    {
        if ms[i].member.id() == member_id {
            let mut j: usize = 0;
            while j < ms.len()
                invariant
                    ms == &members.members,
                    i < ms@.len(),
                    j <= ms@.len(),
                    entry_id(ms@[i as int]) == member_id,
                    forall|b: int|
                        0 <= b < j ==> !(entry_id(#[trigger] ms@[b]) == ms@[i as int].member.invited_by
                            && invited_by(ms@, entry_id(ms@[b]), self_id)),
                decreases ms.len() - j,
            {
                let inviter_id = ms[j].member.id();
                if inviter_id == ms[i].member.invited_by && did_you_invite_member(
                    inviter_id,
                    members,
                    self_id,
                ) {
                    assert(entry_id(ms@[i as int]) == member_id && entry_id(ms@[j as int])
                        == ms@[i as int].member.invited_by);
                    return true;
                }
                j = j + 1;
            }
        }
        i = i + 1;
    }
    false
}

/// Whether the member `member_id` is in your invite chain: among the
/// inviters above the first entry with your id, where that chain can be
/// walked.
pub fn is_member_sponsor(
    member_id: MemberId,
    members: &MembersV1,
    self_id: MemberId,
    params: &ChatBoardParametersV1,
) -> (r: bool)
    ensures
        r == sponsors(members.members@, member_id, self_id, params.owner@),
{
    match members.find_by_id(self_id) {
        Some(s) => {
            let self_member = members.members[s];
            match members.get_invite_chain(&self_member, params) {
                Ok(chain) => {
                    let mut k: usize = 0;
                    while k < chain.len()
                        invariant
                            k <= chain@.len(),
                            s < members.members@.len(),
                            first_member_with_id(members.members@, self_id) == Some(s as int),
                            invite_chain_from(
                                members.members@,
                                members.members@[s as int].member,
                                member_id_of_key(params.owner@),
                                members.members@.len(),
                            ) == Ok::<Seq<AuthorizedMember>, InviteChainError>(chain@),
                            forall|j: int| 0 <= j < k ==> entry_id(#[trigger] chain@[j]) != member_id,
                        decreases chain.len() - k,
                    {
                        if chain[k].member.id() == member_id {
                            let ghost c = chain@;
                            assert(entry_id(c[k as int]) == member_id);
                            assert(exists|x: int| 0 <= x < c.len() && entry_id(#[trigger] c[x]) == member_id);
                            let ghost ms = members.members@;
                            assert(first_member_with_id(ms, self_id) == Some(s as int));
                            assert(invite_chain_from(ms, ms[s as int].member, member_id_of_key(params.owner@), ms.len()) is Ok);
                            assert(invite_chain_from(ms, ms[s as int].member, member_id_of_key(params.owner@), ms.len())->Ok_0 == c);
                            assert(sponsors(ms, member_id, self_id, params.owner@));
                            return true;
                        }
                        k = k + 1;
                    }
                    false
                },
                Err(_) => false,
            }
        },
        None => false,
    }
}

/// A member as the member list shows them.
pub struct MemberDisplay {
    pub nickname: String,
    pub member_id: MemberId,
    pub is_owner: bool,
    pub is_admin: bool,
    pub is_self: bool,
    pub invited_you: bool,
    pub sponsored_you: bool,
    pub invited_by_you: bool,
    pub in_your_network: bool,
}

/// The tags (icon, tooltip) beside a member's name, in order: owner or
/// admin; you; invited by you or in your network; invited you or in your
/// invite chain.
pub open spec fn member_tags(m: MemberDisplay) -> Seq<(Seq<char>, Seq<char>)> {
    let role: Seq<(Seq<char>, Seq<char>)> = if m.is_owner {
        seq![("👑"@, "Board Owner"@)]
    } else if m.is_admin {
        seq![("👑"@, "Admin"@)]
    } else {
        seq![]
    };
    let you: Seq<(Seq<char>, Seq<char>)> = if m.is_self {
        seq![("⭐"@, "You"@)]
    } else {
        seq![]
    };
    let down: Seq<(Seq<char>, Seq<char>)> = if m.invited_by_you {
        seq![("🔑"@, "Invited by You"@)]
    } else if m.in_your_network {
        seq![("🌐"@, "In Your Network"@)]
    } else {
        seq![]
    };
    let up: Seq<(Seq<char>, Seq<char>)> = if m.invited_you {
        seq![("🎪"@, "Invited You"@)]
    } else if m.sponsored_you {
        seq![("🔭"@, "In Your Invite Chain"@)]
    } else {
        seq![]
    };
    role + you + down + up
}

/// One tag as markup.
pub open spec fn tag_markup(icon: Seq<char>, tooltip: Seq<char>) -> Seq<char> {
    "<span class=\"member-icon\" title=\""@ + tooltip + "\">"@ + icon + "</span> "@
}

/// The tags as markup, in order.
pub open spec fn tags_markup(tags: Seq<(Seq<char>, Seq<char>)>) -> Seq<char>
    decreases tags.len(),
{
    if tags.len() == 0 {
        Seq::empty()
    } else {
        tags_markup(tags.drop_last()) + tag_markup(tags.last().0, tags.last().1)
    }
}

/// How a member is shown: the nickname alone where there is no tag, else
/// the nickname, a space and the tags.
pub open spec fn member_display_text(m: MemberDisplay) -> Seq<char> {
    let tags = member_tags(m);
    if tags.len() == 0 {
        m.nickname@
    } else {
        m.nickname@ + " "@ + tags_markup(tags)
    }
}

/// The member list entry of a member: the nickname, then a space and the
/// tags as markup where there are any.
pub fn format_member_display(member: &MemberDisplay) -> (r: String)
    ensures
        r@ == member_display_text(*member),
{
    let mut tags: Vec<(&str, &str)> = Vec::new();
    if member.is_owner {
        tags.push(("👑", "Board Owner"));
    } else if member.is_admin {
        tags.push(("👑", "Admin"));
    }
    if member.is_self {
        tags.push(("⭐", "You"));
    }
    if member.invited_by_you {
        tags.push(("🔑", "Invited by You"));
    } else if member.in_your_network {
        tags.push(("🌐", "In Your Network"));
    }
    if member.invited_you {
        tags.push(("🎪", "Invited You"));
    } else if member.sponsored_you {
        tags.push(("🔭", "In Your Invite Chain"));
    }
    let ghost tv = tags@.map_values(|t: (&str, &str)| (t.0@, t.1@));
    assert(tv =~= member_tags(*member));
    if tags.len() == 0 {
        return member.nickname.clone();
    }
    let mut html = concat(member.nickname.as_str(), " ");
    let mut i: usize = 0;
    while i < tags.len()
        invariant
            i <= tags@.len(),
            tv == tags@.map_values(|t: (&str, &str)| (t.0@, t.1@)),
            html@ == member.nickname@ + " "@ + tags_markup(tv.subrange(0, i as int)),
        decreases tags.len() - i,
    {
        let (icon, tooltip) = tags[i];
        let a = concat(html.as_str(), "<span class=\"member-icon\" title=\"");
        let b = concat(a.as_str(), tooltip);
        let c = concat(b.as_str(), "\">");
        let d = concat(c.as_str(), icon);
        html = concat(d.as_str(), "</span> ");
        proof {
            let pre = tv.subrange(0, i + 1);
            assert(pre.drop_last() =~= tv.subrange(0, i as int));
            assert(pre.last() == (icon@, tooltip@));
        }
        i = i + 1;
    }
    assert(tv.subrange(0, i as int) =~= tv);
    html
}

// ---------------------------------------------------------------------------
// The order of the invite tree
// ---------------------------------------------------------------------------

/// The ids of the members whom `id` invited, in member order.
pub open spec fn invitees(members: Seq<AuthorizedMember>, id: MemberId) -> Seq<MemberId>
    decreases members.len(),
{
    if members.len() == 0 {
        Seq::empty()
    } else if members.last().member.invited_by == id {
        invitees(members.drop_last(), id).push(entry_id(members.last()))
    } else {
        invitees(members.drop_last(), id)
    }
}

/// `s` back to front.
pub open spec fn backwards(s: Seq<MemberId>) -> Seq<MemberId> {
    Seq::new(s.len(), |i: int| s[s.len() - 1 - i])
}

/// Where a walk of the invite tree stands: the ids still to take (the
/// next one last), the ids visited, and the order of the visits.
pub struct TreeWalk {
    pub stack: Seq<MemberId>,
    pub visited: Set<MemberId>,
    pub ordered: Seq<MemberId>,
}

/// One step of the walk: the next id is taken off the stack; where it is
/// not visited yet it is visited, and its invitees are put on the stack so
/// that the first of them comes next.
pub open spec fn walk_step(members: Seq<AuthorizedMember>, w: TreeWalk) -> TreeWalk {
    let cur = w.stack.last();
    let rest = w.stack.drop_last();
    if w.visited.contains(cur) {
        TreeWalk { stack: rest, ..w }
    } else {
        TreeWalk {
            stack: rest + backwards(invitees(members, cur)),
            visited: w.visited.insert(cur),
            ordered: w.ordered.push(cur),
        }
    }
}

/// At most `steps` steps of the walk, stopping where the stack is empty.
pub open spec fn walk(members: Seq<AuthorizedMember>, w: TreeWalk, steps: nat) -> TreeWalk
    decreases steps,
{
    if steps == 0 || w.stack.len() == 0 {
        w
    } else {
        walk(members, walk_step(members, w), (steps - 1) as nat)
    }
}

/// The ids of the members not in `visited`, in member order.
pub open spec fn not_reached(members: Seq<AuthorizedMember>, visited: Set<MemberId>) -> Seq<MemberId>
    decreases members.len(),
{
    if members.len() == 0 {
        Seq::empty()
    } else if visited.contains(entry_id(members.last())) {
        not_reached(members.drop_last(), visited)
    } else {
        not_reached(members.drop_last(), visited).push(entry_id(members.last()))
    }
}

/// The members in the order of the invite tree: a depth-first walk from
/// the owner, each member before the members they invited, invitees in
/// member order; then the members the walk does not reach. The walk takes
/// at most one step per member and one for the owner (every step takes an
/// id that some visit put on the stack).
pub open spec fn tree_order(owner_id: MemberId, members: Seq<AuthorizedMember>) -> Seq<MemberId> {
    let start = TreeWalk { stack: seq![owner_id], visited: Set::empty(), ordered: Seq::empty() };
    let end = walk(members, start, members.len() + 1);
    end.ordered + not_reached(members, end.visited)
}

/// How many members were invited by an id in `v`.
pub open spec fn invited_count(members: Seq<AuthorizedMember>, v: Set<MemberId>) -> nat
    decreases members.len(),
{
    if members.len() == 0 {
        0
    } else {
        invited_count(members.drop_last(), v) + if v.contains(members.last().member.invited_by) {
            1nat
        } else {
            0nat
        }
    }
}

proof fn lemma_invited_count_insert(members: Seq<AuthorizedMember>, v: Set<MemberId>, x: MemberId)
    requires
        !v.contains(x),
    ensures
        invited_count(members, v.insert(x)) == invited_count(members, v) + invitees(members, x).len(),
        invited_count(members, v) <= members.len(),
        invited_count(members, v.insert(x)) <= members.len(),
    decreases members.len(),
{
    if members.len() > 0 {
        lemma_invited_count_insert(members.drop_last(), v, x);
    }
}

fn invitees_exec(members: &Vec<AuthorizedMember>, id: MemberId) -> (r: Vec<MemberId>)
    ensures
        r@ == invitees(members@, id),
{
    let mut out: Vec<MemberId> = Vec::new();
    let mut i: usize = 0;
    while i < members.len()
        invariant
            i <= members@.len(),
            out@ == invitees(members@.subrange(0, i as int), id),
        decreases members.len() - i,
    {
        let ghost pre = members@.subrange(0, i + 1);
        assert(pre.drop_last() =~= members@.subrange(0, i as int));
        if members[i].member.invited_by == id {
            out.push(members[i].member.id());
        }
        i = i + 1;
    }
    assert(members@.subrange(0, i as int) =~= members@);
    out
}

fn contains_id(v: &Vec<MemberId>, id: MemberId) -> (r: bool)
    ensures
        r == v@.contains(id),
{
    let mut i: usize = 0;
    while i < v.len()
        invariant
            i <= v@.len(),
            forall|j: int| 0 <= j < i ==> v@[j] != id,
        decreases v.len() - i,
    {
        if v[i] == id {
            assert(v@[i as int] == id);
            return true;
        }
        i = i + 1;
    }
    false
}

/// The member ids in the order of the invite tree: a depth-first walk from
/// the owner, each member before the members they invited (invitees in
/// member order, an id visited once); then the members whom the walk does
/// not reach, in member order.
pub fn invite_tree_order(owner_id: MemberId, members: &MembersV1) -> (r: Vec<MemberId>)
    ensures
        r@ == tree_order(owner_id, members.members@),
{
    let ghost ms = members.members@;
    let ghost n = ms.len();
    let ghost start = TreeWalk { stack: seq![owner_id], visited: Set::empty(), ordered: Seq::empty() };
    let ghost mut w = start;
    let ghost mut pops: nat = 0;
    let mut ordered: Vec<MemberId> = Vec::new();
    let mut visited: Vec<MemberId> = Vec::new();
    let mut stack: Vec<MemberId> = Vec::new();
    stack.push(owner_id);
    assert(stack@ =~= seq![owner_id]);
    assert(invited_count(ms, Set::empty()) == 0) by {
        lemma_invited_count_empty(ms);
    }
    while stack.len() > 0
        invariant
            ms == members.members@,
            n == ms.len(),
            stack@ == w.stack,
            ordered@ == w.ordered,
            forall|x: MemberId| visited@.contains(x) <==> w.visited.contains(x),
            pops + stack@.len() == 1 + invited_count(ms, w.visited),
            invited_count(ms, w.visited) <= n,
            pops <= n + 1,
            walk(ms, start, (n + 1) as nat) == walk(ms, w, (n + 1 - pops) as nat),
        decreases n + 1 - pops,
    {
        let ghost before = w;
        let cur = stack.pop().unwrap();
        assert(cur == before.stack.last());
        assert(stack@ == before.stack.drop_last());
        if contains_id(&visited, cur) {
            proof {
                w = walk_step(ms, before);
            }
        } else {
            proof {
                lemma_invited_count_insert(ms, before.visited, cur);
            }
            let ghost vis_before = visited@;
            visited.push(cur);
            ordered.push(cur);
            let kids = invitees_exec(&members.members, cur);
            let ghost rest = stack@;
            let mut k = kids.len();
            while k > 0
                invariant
                    k <= kids@.len(),
                    stack@ == rest + backwards(kids@.subrange(k as int, kids@.len() as int)),
                decreases k,
            {
                k = k - 1;
                stack.push(kids[k]);
                assert(stack@ =~= rest + backwards(kids@.subrange(k as int, kids@.len() as int)));
            }
            assert(kids@.subrange(0, kids@.len() as int) =~= kids@);
            proof {
                w = walk_step(ms, before);
                assert forall|x: MemberId| visited@.contains(x) <==> w.visited.contains(x) by {
                    lemma_push_contains(vis_before, cur, x);
                }
            }
        }
        proof {
            pops = pops + 1;
        }
    }
    proof {
        assert(walk(ms, w, (n + 1 - pops) as nat) == w);
    }
    let mut i: usize = 0;
    let ghost end = w;
    while i < members.members.len()
        invariant
            ms == members.members@,
            i <= ms.len(),
            forall|x: MemberId| visited@.contains(x) <==> end.visited.contains(x),
            ordered@ == end.ordered + not_reached(ms.subrange(0, i as int), end.visited),
        decreases members.members.len() - i,
    {
        let ghost pre = ms.subrange(0, i + 1);
        assert(pre.drop_last() =~= ms.subrange(0, i as int));
        let id = members.members[i].member.id();
        if !contains_id(&visited, id) {
            ordered.push(id);
        }
        i = i + 1;
    }
    assert(ms.subrange(0, i as int) =~= ms);
    ordered
}

proof fn lemma_push_contains(s: Seq<MemberId>, x: MemberId, y: MemberId)
    ensures
        s.push(x).contains(y) <==> (s.contains(y) || y == x),
{
    if s.contains(y) {
        let k = choose|k: int| 0 <= k < s.len() && s[k] == y;
        assert(s.push(x)[k] == y);
    }
    if s.push(x).contains(y) {
        let k = choose|k: int| 0 <= k < s.push(x).len() && s.push(x)[k] == y;
        if k < s.len() {
            assert(s[k] == y);
        }
    }
    assert(s.push(x)[s.len() as int] == x);
}

proof fn lemma_invited_count_empty(members: Seq<AuthorizedMember>)
    ensures
        invited_count(members, Set::empty()) == 0,
    decreases members.len(),
{
    if members.len() > 0 {
        lemma_invited_count_empty(members.drop_last());
    }
}

/// Whether the walk has visited exactly the ids it has put in order.
pub open spec fn walk_consistent(w: TreeWalk) -> bool {
    forall|x: MemberId| #[trigger] w.visited.contains(x) <==> w.ordered.contains(x)
}

proof fn lemma_walk_keeps(members: Seq<AuthorizedMember>, w: TreeWalk, steps: nat)
    requires
        walk_consistent(w),
    ensures
        walk_consistent(walk(members, w, steps)),
        w.ordered.len() <= walk(members, w, steps).ordered.len(),
        forall|i: int|
            0 <= i < w.ordered.len() ==> #[trigger] walk(members, w, steps).ordered[i]
                == w.ordered[i],
    decreases steps,
{
    if steps > 0 && w.stack.len() > 0 {
        let next = walk_step(members, w);
        let cur = w.stack.last();
        if !w.visited.contains(cur) {
            assert forall|x: MemberId| #[trigger] next.visited.contains(x) <==> next.ordered.contains(x) by {
                lemma_push_contains(w.ordered, cur, x);
            }
        }
        lemma_walk_keeps(members, next, (steps - 1) as nat);
    }
}

proof fn lemma_not_reached_contains(members: Seq<AuthorizedMember>, visited: Set<MemberId>, i: int)
    requires
        0 <= i < members.len(),
        !visited.contains(entry_id(members[i])),
    ensures
        not_reached(members, visited).contains(entry_id(members[i])),
    decreases members.len(),
{
    let init = members.drop_last();
    let x = entry_id(members[i]);
    if i < members.len() - 1 {
        assert(init[i] == members[i]);
        lemma_not_reached_contains(init, visited, i);
        let r = not_reached(init, visited);
        if !visited.contains(entry_id(members.last())) {
            let k = choose|k: int| 0 <= k < r.len() && r[k] == x;
            assert(r.push(entry_id(members.last()))[k] == x);
        }
    } else {
        let r = not_reached(init, visited);
        assert(r.push(x)[r.len() as int] == x);
    }
}

/// Law: the owner comes first in the order of the invite tree, and the id
/// of every member occurs in it.
pub proof fn lemma_tree_order_complete(owner_id: MemberId, members: Seq<AuthorizedMember>)
    ensures
        tree_order(owner_id, members).len() > 0,
        tree_order(owner_id, members)[0] == owner_id,
        forall|i: int|
            0 <= i < members.len() ==> tree_order(owner_id, members).contains(
                entry_id(#[trigger] members[i]),
            ),
{
    let start = TreeWalk { stack: seq![owner_id], visited: Set::empty(), ordered: Seq::empty() };
    let first = walk_step(members, start);
    assert(first.ordered =~= seq![owner_id]);
    assert(walk_consistent(first)) by {
        assert forall|x: MemberId| #[trigger] first.visited.contains(x) <==> first.ordered.contains(x) by {
            if first.ordered.contains(x) {
                let k = choose|k: int| 0 <= k < first.ordered.len() && first.ordered[k] == x;
                assert(first.ordered[k] == owner_id);
            }
            if x == owner_id {
                assert(first.ordered[0] == owner_id);
            }
        }
    }
    let n = members.len();
    assert(walk(members, start, (n + 1) as nat) == walk(members, first, n as nat));
    lemma_walk_keeps(members, first, n as nat);
    let end = walk(members, first, n as nat);
    let r = end.ordered + not_reached(members, end.visited);
    assert(end.ordered[0] == owner_id);
    assert(r[0] == owner_id);
    assert forall|i: int| 0 <= i < members.len() implies r.contains(entry_id(#[trigger] members[i])) by {
        let x = entry_id(members[i]);
        if end.visited.contains(x) {
            assert(end.ordered.contains(x));
            let k = choose|k: int| 0 <= k < end.ordered.len() && end.ordered[k] == x;
            assert(r[k] == x);
        } else {
            lemma_not_reached_contains(members, end.visited, i);
            let nr = not_reached(members, end.visited);
            let k = choose|k: int| 0 <= k < nr.len() && nr[k] == x;
            assert(r[end.ordered.len() + k] == x);
        }
    }
}

} // verus!
