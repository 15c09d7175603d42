//! Laws of the admin list: the order it is kept in, which ids a delta
//! leaves in it, that two deltas give the same ids in either order, and
//! that a delta applied twice changes nothing more.
use vstd::prelude::*;

use crate::admin::{
    admin_id, admin_ids, admins_after, distinct_id_count, fresh_admins, id_values, insert_by_id,
    sorted_by_id, AuthorizedAdmin,
};

verus! {

broadcast use vstd::seq_lib::to_multiset_build, vstd::seq_lib::to_multiset_insert,
    vstd::seq_lib::to_multiset_contains, vstd::seq_lib::to_multiset_len,
    vstd::multiset::group_multiset_axioms;

/// Whether the appointments are in ascending order of id.
pub open spec fn ids_ascending(s: Seq<AuthorizedAdmin>) -> bool {
    forall|i: int, j: int|
        0 <= i < j < s.len() ==> admin_id(#[trigger] s[i]).0.0 <= admin_id(#[trigger] s[j]).0.0
}

/// How often the id with hash value `v` occurs among the appointments.
pub open spec fn id_count(s: Seq<AuthorizedAdmin>, v: i64) -> nat {
    id_values(s).to_multiset().count(v)
}

/// Where `insert_by_id` puts `x`: after the appointments whose ids are not
/// greater.
proof fn lemma_insert_by_id_shape(s: Seq<AuthorizedAdmin>, x: AuthorizedAdmin) -> (j: int)
    ensures
        0 <= j <= s.len(),
        insert_by_id(s, x) == s.insert(j, x),
        forall|k: int| j <= k < s.len() ==> admin_id(x).0.0 < admin_id(#[trigger] s[k]).0.0,
        j == 0 || admin_id(x).0.0 >= admin_id(s[j - 1]).0.0,
    decreases s.len(),
{
    if s.len() == 0 {
        assert(s.insert(0, x) =~= seq![x]);
        0
    } else if admin_id(x).0.0 < admin_id(s.last()).0.0 {
        let init = s.drop_last();
        let j = lemma_insert_by_id_shape(init, x);
        assert(init.insert(j, x).push(s.last()) =~= s.insert(j, x));
        assert forall|k: int| j <= k < s.len() implies admin_id(x).0.0 < admin_id(
            #[trigger] s[k],
        ).0.0 by {
            if k < init.len() {
                assert(init[k] == s[k]);
            }
        }
        if j > 0 {
            assert(init[j - 1] == s[j - 1]);
        }
        j
    } else {
        assert(s.insert(s.len() as int, x) =~= s.push(x));
        s.len() as int
    }
}

proof fn lemma_id_values_insert(s: Seq<AuthorizedAdmin>, j: int, x: AuthorizedAdmin)
    requires
        0 <= j <= s.len(),
    ensures
        id_values(s.insert(j, x)) == id_values(s).insert(j, x.admin.member_id.0.0),
{
    assert(id_values(s.insert(j, x)) =~= id_values(s).insert(j, x.admin.member_id.0.0));
}

proof fn lemma_id_values_push(s: Seq<AuthorizedAdmin>, x: AuthorizedAdmin)
    ensures
        id_values(s.push(x)) == id_values(s).push(x.admin.member_id.0.0),
{
    assert(id_values(s.push(x)) =~= id_values(s).push(x.admin.member_id.0.0));
}

proof fn lemma_contains_push(t: Seq<i64>, x: i64, v: i64)
    ensures
        t.push(x).contains(v) <==> (t.contains(v) || v == x),
{
    if t.contains(v) {
        let k = choose|k: int| 0 <= k < t.len() && t[k] == v;
        assert(t.push(x)[k] == v);
    }
    assert(t.push(x)[t.len() as int] == x);
}

proof fn lemma_id_values_concat_contains(a: Seq<AuthorizedAdmin>, b: Seq<AuthorizedAdmin>, v: i64)
    ensures
        id_values(a + b).contains(v) <==> (id_values(a).contains(v) || id_values(b).contains(v)),
{
    assert(id_values(a + b) =~= id_values(a) + id_values(b));
    let t = id_values(a) + id_values(b);
    if id_values(a).contains(v) {
        let k = choose|k: int| 0 <= k < id_values(a).len() && id_values(a)[k] == v;
        assert(t[k] == v);
    }
    if id_values(b).contains(v) {
        let k = choose|k: int| 0 <= k < id_values(b).len() && id_values(b)[k] == v;
        assert(t[id_values(a).len() + k] == v);
    }
    if t.contains(v) {
        let k = choose|k: int| 0 <= k < t.len() && t[k] == v;
        if k < id_values(a).len() {
            assert(id_values(a)[k] == v);
        } else {
            assert(id_values(b)[k - id_values(a).len()] == v);
        }
    }
}

proof fn lemma_admin_ids_contains(s: Seq<AuthorizedAdmin>, x: AuthorizedAdmin)
    ensures
        admin_ids(s).contains(admin_id(x)) <==> id_values(s).contains(x.admin.member_id.0.0),
{
    if admin_ids(s).contains(admin_id(x)) {
        let k = choose|k: int| 0 <= k < admin_ids(s).len() && admin_ids(s)[k] == admin_id(x);
        assert(id_values(s)[k] == x.admin.member_id.0.0);
    }
    if id_values(s).contains(x.admin.member_id.0.0) {
        let k = choose|k: int|
            0 <= k < id_values(s).len() && id_values(s)[k] == x.admin.member_id.0.0;
        assert(admin_ids(s)[k] == admin_id(x));
    }
}

/// Law: sorting by id puts the appointments in ascending order of id and
/// keeps every appointment.
pub proof fn lemma_sorted_by_id(s: Seq<AuthorizedAdmin>)
    ensures
        ids_ascending(sorted_by_id(s)),
        sorted_by_id(s).to_multiset() == s.to_multiset(),
        id_values(sorted_by_id(s)).to_multiset() == id_values(s).to_multiset(),
    decreases s.len(),
{
    if s.len() > 0 {
        let init = s.drop_last();
        let x = s.last();
        lemma_sorted_by_id(init);
        let r0 = sorted_by_id(init);
        let j = lemma_insert_by_id_shape(r0, x);
        let r = r0.insert(j, x);
        assert forall|a: int, b: int| 0 <= a < b < r.len() implies admin_id(#[trigger] r[a]).0.0
            <= admin_id(#[trigger] r[b]).0.0 by {
            if b == j {
                assert(r[a] == r0[a]);
                if a < j - 1 {
                    assert(admin_id(r0[a]).0.0 <= admin_id(r0[j - 1]).0.0);
                }
            } else if a == j {
                assert(r[b] == r0[b - 1]);
            } else {
                let sa = if a < j {
                    a
                } else {
                    a - 1
                };
                let sb = if b < j {
                    b
                } else {
                    b - 1
                };
                assert(r[a] == r0[sa] && r[b] == r0[sb]);
            }
        }
        lemma_id_values_insert(r0, j, x);
        assert(init.push(x) =~= s);
        lemma_id_values_push(init, x);
    }
}

/// Law: a list already in ascending order of id is left as it is.
pub proof fn lemma_sorted_by_id_of_ascending(s: Seq<AuthorizedAdmin>)
    requires
        ids_ascending(s),
    ensures
        sorted_by_id(s) == s,
    decreases s.len(),
{
    if s.len() > 0 {
        let init = s.drop_last();
        assert forall|a: int, b: int| 0 <= a < b < init.len() implies admin_id(
            #[trigger] init[a],
        ).0.0 <= admin_id(#[trigger] init[b]).0.0 by {
            assert(init[a] == s[a] && init[b] == s[b]);
        }
        lemma_sorted_by_id_of_ascending(init);
        if init.len() > 0 {
            assert(admin_id(s[s.len() - 2]).0.0 <= admin_id(s[s.len() - 1]).0.0);
        }
        assert(init.push(s.last()) =~= s);
    }
}

/// How often each id occurs once the fresh appointments of a delta are
/// appended: as often as before where the list had it, once where only
/// the delta has it.
proof fn lemma_fresh_counts(old: Seq<AuthorizedAdmin>, d: Seq<AuthorizedAdmin>)
    ensures
        forall|v: i64|
            #[trigger] id_count(old + fresh_admins(old, d), v) == if id_values(old).contains(v) {
                id_count(old, v)
            } else if id_values(d).contains(v) {
                1nat
            } else {
                0nat
            },
    decreases d.len(),
{
    if d.len() == 0 {
        assert(old + fresh_admins(old, d) =~= old);
        assert forall|v: i64| !id_values(d).contains(v) by {}
    } else {
        let init = d.drop_last();
        let x = d.last();
        let xv = x.admin.member_id.0.0;
        let prev = fresh_admins(old, init);
        lemma_fresh_counts(old, init);
        assert(init.push(x) =~= d);
        lemma_id_values_push(init, x);
        lemma_admin_ids_contains(old + prev, x);
        assert(id_values(old).contains(xv) ==> id_count(old, xv) > 0);
        if admin_ids(old + prev).contains(admin_id(x)) {
            assert(id_count(old + prev, xv) > 0);
            assert forall|v: i64| #[trigger] id_count(old + fresh_admins(old, d), v) == if id_values(
                old,
            ).contains(v) {
                id_count(old, v)
            } else if id_values(d).contains(v) {
                1nat
            } else {
                0nat
            } by {
                lemma_contains_push(id_values(init), xv, v);
                assert(id_values(old).contains(v) ==> id_count(old, v) > 0);
            }
        } else {
            assert(old + fresh_admins(old, d) =~= (old + prev).push(x));
            lemma_id_values_push(old + prev, x);
            assert(id_values(old + prev).push(xv).to_multiset() == id_values(
                old + prev,
            ).to_multiset().insert(xv));
            assert forall|v: i64| #[trigger] id_count(old + fresh_admins(old, d), v) == if id_values(
                old,
            ).contains(v) {
                id_count(old, v)
            } else if id_values(d).contains(v) {
                1nat
            } else {
                0nat
            } by {
                lemma_contains_push(id_values(init), xv, v);
                assert(id_values(old).contains(v) ==> id_count(old, v) > 0);
                assert(id_count(old + prev, xv) == 0);
                assert(id_count(old + prev, v) == id_count(old + fresh_admins(old, init), v));
            }
        }
    }
}

proof fn lemma_fresh_from_delta(old: Seq<AuthorizedAdmin>, d: Seq<AuthorizedAdmin>)
    ensures
        forall|x: AuthorizedAdmin| #[trigger] fresh_admins(old, d).contains(x) ==> d.contains(x),
    decreases d.len(),
{
    if d.len() > 0 {
        let init = d.drop_last();
        lemma_fresh_from_delta(old, init);
        assert forall|x: AuthorizedAdmin| #[trigger] fresh_admins(old, d).contains(x) implies d.contains(x) by {
            let f = fresh_admins(old, d);
            let k = choose|k: int| 0 <= k < f.len() && f[k] == x;
            if fresh_admins(old, init).contains(x) {
                let j = choose|j: int| 0 <= j < init.len() && init[j] == x;
                assert(d[j] == x);
            } else {
                assert(d[d.len() - 1] == x);
            }
        }
    }
}

/// Law: after a delta is applied, the list is in ascending order of id; an
/// id that the list had occurs as often as before, an id that only the
/// delta has occurs exactly once, and no other id occurs. The appointments
/// the list had are all kept, as they were, and every other appointment in
/// the result is one of the delta's.
pub proof fn lemma_admins_after_ids(
    old: Seq<AuthorizedAdmin>,
    d: Seq<AuthorizedAdmin>,
    max_admins: usize,
    owner_vk: Seq<u8>,
)
    requires
        admins_after(old, Some(d), max_admins, owner_vk) is Ok,
    ensures
        ({
            let a = admins_after(old, Some(d), max_admins, owner_vk)->Ok_0;
            &&& ids_ascending(a)
            &&& forall|v: i64|
                #[trigger] id_count(a, v) == if id_values(old).contains(v) {
                    id_count(old, v)
                } else if id_values(d).contains(v) {
                    1nat
                } else {
                    0nat
                }
            &&& a.to_multiset() == old.to_multiset().add(fresh_admins(old, d).to_multiset())
            &&& forall|x: AuthorizedAdmin| #[trigger] a.contains(x) ==> old.contains(x) || d.contains(x)
        }),
{
    let s = old + fresh_admins(old, d);
    vstd::seq_lib::lemma_multiset_commutative(old, fresh_admins(old, d));
    lemma_fresh_from_delta(old, d);
    let a = admins_after(old, Some(d), max_admins, owner_vk)->Ok_0;
    lemma_sorted_by_id(s);
    lemma_fresh_counts(old, d);
    assert forall|v: i64| #[trigger] id_count(a, v) == if id_values(old).contains(v) {
        id_count(old, v)
    } else if id_values(d).contains(v) {
        1nat
    } else {
        0nat
    } by {
        assert(id_count(a, v) == id_count(s, v));
    }
    assert forall|x: AuthorizedAdmin| #[trigger] a.contains(x) implies old.contains(x) || d.contains(x) by {
        let f = fresh_admins(old, d);
        assert(a.to_multiset().count(x) > 0);
        assert(s.to_multiset().count(x) > 0);
        if old.to_multiset().count(x) == 0 {
            assert(f.to_multiset().count(x) > 0);
            assert(f.contains(x));
        }
    }
}

/// Two lists of hash values in ascending order with the same elements, as
/// often each, are the same list.
proof fn lemma_ascending_unique(a: Seq<i64>, b: Seq<i64>)
    requires
        forall|i: int, j: int| 0 <= i < j < a.len() ==> a[i] <= a[j],
        forall|i: int, j: int| 0 <= i < j < b.len() ==> b[i] <= b[j],
        a.to_multiset() == b.to_multiset(),
    ensures
        a == b,
    decreases a.len(),
{
    vstd::seq_lib::to_multiset_len(a);
    vstd::seq_lib::to_multiset_len(b);
    assert(a.len() == b.len());
    if a.len() > 0 {
        let la = a.last();
        let lb = b.last();
        assert(a.contains(la)) by {
            assert(a[a.len() - 1] == la);
        }
        assert(b.contains(lb)) by {
            assert(b[b.len() - 1] == lb);
        }
        assert(a.to_multiset().count(la) > 0);
        assert(b.to_multiset().count(lb) > 0);
        let jb = choose|k: int| 0 <= k < b.len() && b[k] == la;
        let ja = choose|k: int| 0 <= k < a.len() && a[k] == lb;
        if jb < b.len() - 1 {
            assert(b[jb] <= b[b.len() - 1]);
        }
        if ja < a.len() - 1 {
            assert(a[ja] <= a[a.len() - 1]);
        }
        assert(la == lb);
        let a0 = a.drop_last();
        let b0 = b.drop_last();
        assert(a0.push(la) =~= a);
        assert(b0.push(lb) =~= b);
        assert(a0.push(la).to_multiset() == a0.to_multiset().insert(la));
        assert(b0.push(lb).to_multiset() == b0.to_multiset().insert(lb));
        assert(a0.to_multiset() =~= b0.to_multiset()) by {
            assert forall|v: i64| a0.to_multiset().count(v) == b0.to_multiset().count(v) by {
                assert(a.to_multiset().count(v) == b.to_multiset().count(v));
                assert(a.to_multiset().count(v) == a0.to_multiset().insert(la).count(v));
                assert(b.to_multiset().count(v) == b0.to_multiset().insert(lb).count(v));
            }
        }
        lemma_ascending_unique(a0, b0);
        assert(a =~= b);
    } else {
        assert(a =~= b);
    }
}

/// Law: two deltas applied one after the other leave the same ids, in the
/// same order, whichever of them is applied first.
pub proof fn lemma_admin_deltas_commute(
    old: Seq<AuthorizedAdmin>,
    d1: Seq<AuthorizedAdmin>,
    d2: Seq<AuthorizedAdmin>,
    max_admins: usize,
    owner_vk: Seq<u8>,
)
    requires
        admins_after(old, Some(d1), max_admins, owner_vk) is Ok,
        admins_after(
            admins_after(old, Some(d1), max_admins, owner_vk)->Ok_0,
            Some(d2),
            max_admins,
            owner_vk,
        ) is Ok,
        admins_after(old, Some(d2), max_admins, owner_vk) is Ok,
        admins_after(
            admins_after(old, Some(d2), max_admins, owner_vk)->Ok_0,
            Some(d1),
            max_admins,
            owner_vk,
        ) is Ok,
    ensures
        admin_ids(
            admins_after(
                admins_after(old, Some(d1), max_admins, owner_vk)->Ok_0,
                Some(d2),
                max_admins,
                owner_vk,
            )->Ok_0,
        ) == admin_ids(
            admins_after(
                admins_after(old, Some(d2), max_admins, owner_vk)->Ok_0,
                Some(d1),
                max_admins,
                owner_vk,
            )->Ok_0,
        ),
{
    let a1 = admins_after(old, Some(d1), max_admins, owner_vk)->Ok_0;
    let a2 = admins_after(old, Some(d2), max_admins, owner_vk)->Ok_0;
    let a12 = admins_after(a1, Some(d2), max_admins, owner_vk)->Ok_0;
    let a21 = admins_after(a2, Some(d1), max_admins, owner_vk)->Ok_0;
    lemma_admins_after_ids(old, d1, max_admins, owner_vk);
    lemma_admins_after_ids(old, d2, max_admins, owner_vk);
    lemma_admins_after_ids(a1, d2, max_admins, owner_vk);
    lemma_admins_after_ids(a2, d1, max_admins, owner_vk);
    assert forall|v: i64| id_count(a12, v) == id_count(a21, v) by {
        assert(id_values(old).contains(v) ==> id_count(old, v) > 0);
        assert(id_values(a1).contains(v) <==> id_count(a1, v) > 0);
        assert(id_values(a2).contains(v) <==> id_count(a2, v) > 0);
    }
    let t12 = id_values(a12);
    let t21 = id_values(a21);
    assert(t12.to_multiset() =~= t21.to_multiset()) by {
        assert forall|v: i64| t12.to_multiset().count(v) == t21.to_multiset().count(v) by {
            assert(id_count(a12, v) == id_count(a21, v));
        }
    }
    assert forall|i: int, j: int| 0 <= i < j < t12.len() implies t12[i] <= t12[j] by {
        assert(admin_id(a12[i]).0.0 <= admin_id(a12[j]).0.0);
    }
    assert forall|i: int, j: int| 0 <= i < j < t21.len() implies t21[i] <= t21[j] by {
        assert(admin_id(a21[i]).0.0 <= admin_id(a21[j]).0.0);
    }
    lemma_ascending_unique(t12, t21);
    assert(admin_ids(a12) =~= admin_ids(a21)) by {
        assert forall|i: int| 0 <= i < a12.len() implies admin_ids(a12)[i] == admin_ids(a21)[i] by {
            assert(t12[i] == t21[i]);
        }
    }
}

proof fn lemma_fresh_of_known(old: Seq<AuthorizedAdmin>, d: Seq<AuthorizedAdmin>)
    requires
        forall|v: i64| id_values(d).contains(v) ==> id_values(old).contains(v),
    ensures
        fresh_admins(old, d) == Seq::<AuthorizedAdmin>::empty(),
    decreases d.len(),
{
    if d.len() > 0 {
        let init = d.drop_last();
        let x = d.last();
        assert(init.push(x) =~= d);
        lemma_id_values_push(init, x);
        assert forall|v: i64| id_values(init).contains(v) implies id_values(old).contains(v) by {
            lemma_contains_push(id_values(init), x.admin.member_id.0.0, v);
        }
        lemma_fresh_of_known(old, init);
        lemma_contains_push(id_values(init), x.admin.member_id.0.0, x.admin.member_id.0.0);
        assert(old + fresh_admins(old, init) =~= old);
        lemma_admin_ids_contains(old, x);
    }
}

/// Law: applying a delta a second time changes nothing more.
pub proof fn lemma_admin_delta_idempotent(
    old: Seq<AuthorizedAdmin>,
    d: Seq<AuthorizedAdmin>,
    max_admins: usize,
    owner_vk: Seq<u8>,
)
    requires
        admins_after(old, Some(d), max_admins, owner_vk) is Ok,
    ensures
        admins_after(
            admins_after(old, Some(d), max_admins, owner_vk)->Ok_0,
            Some(d),
            max_admins,
            owner_vk,
        ) == admins_after(old, Some(d), max_admins, owner_vk),
{
    let a = admins_after(old, Some(d), max_admins, owner_vk)->Ok_0;
    lemma_admins_after_ids(old, d, max_admins, owner_vk);
    assert forall|v: i64| id_values(a).contains(v) <==> (id_values(old).contains(v) || id_values(
        d,
    ).contains(v)) by {
        assert(id_values(a).contains(v) <==> id_count(a, v) > 0);
        assert(id_values(old).contains(v) ==> id_count(old, v) > 0);
    }
    assert(id_values(a + d).to_set() =~= id_values(old + d).to_set()) by {
        assert forall|v: i64| id_values(a + d).contains(v) <==> id_values(old + d).contains(v) by {
            lemma_id_values_concat_contains(a, d, v);
            lemma_id_values_concat_contains(old, d, v);
        }
    }
    assert(distinct_id_count(a + d) == distinct_id_count(old + d));
    lemma_fresh_of_known(a, d);
    assert(a + fresh_admins(a, d) =~= a);
    lemma_sorted_by_id_of_ascending(a);
}

} // verus!
