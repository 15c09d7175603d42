//! Board admins: members whom the owner has appointed by signature.
use vstd::prelude::*;

use crate::cbor::{encode, encode_term, lemma_pair_terms_of_len, pair_terms_of, CborTerm, CborValue};
use crate::crypto::{
    ed25519_sign, ed25519_verify, spec_ed25519_public, spec_ed25519_sign, spec_ed25519_verify,
};
use crate::ids::{member_id_of_key, MemberId};
use crate::state::{AuthorizedMember, ChatBoardParametersV1, ChatBoardStateV1, MembersV1};
use crate::text::{concat, decimal, int_to_string};
use crate::wire::{i64_term, int_value, text_value};

verus! {

broadcast use vstd::std_specs::hash::group_hash_axioms;

/// An admin appointment.
#[derive(Clone, Copy, PartialEq, Eq, Structural, Debug, Hash)]
pub struct Admin {
    pub member_id: MemberId,
}

impl Admin {
    /// The id of the appointed member.
    pub fn id(&self) -> (r: MemberId)
        ensures
            r == self.member_id,
    {
        self.member_id
    }
}

/// An appointment as CBOR: a one-entry map from `member_id` to the id's
/// hash value.
pub open spec fn admin_term(a: Admin) -> CborTerm {
    CborTerm::Dict(seq![(CborTerm::Text("member_id"@), i64_term(a.member_id.0.0))])
}

/// The bytes that the owner signs to appoint an admin.
pub open spec fn admin_bytes(a: Admin) -> Seq<u8> {
    encode_term(admin_term(a))
}

impl Admin {
    fn encode(&self) -> (r: Vec<u8>)
        ensures
            r@ == admin_bytes(*self),
    {
        let fields = vec![(text_value("member_id"), int_value(self.member_id.0.0))];
        proof {
            lemma_pair_terms_of_len(fields@);
            assert(pair_terms_of(fields@) =~= admin_term(*self)->Dict_0);
        }
        encode(&CborValue::Dict(fields))
    }
}

/// An appointment with the owner's signature.
#[derive(Clone, Copy, PartialEq, Eq, Debug)]
pub struct AuthorizedAdmin {
    pub admin: Admin,
    pub signature: [u8; 64],
}

/// Whether the signature of an appointment verifies under `owner_vk`.
pub open spec fn admin_signature_valid(a: AuthorizedAdmin, owner_vk: Seq<u8>) -> bool {
    spec_ed25519_verify(owner_vk, admin_bytes(a.admin), a.signature@)
}

/// Why an admin list or an admin delta is refused.
#[derive(Clone, Copy, PartialEq, Eq, Structural, Debug)]
pub enum AdminsError {
    /// More admins than the board allows.
    TooManyAdmins { count: usize, max: usize },
    /// The owner is listed as an admin.
    OwnerIsAdmin,
    /// An appointment's signature does not verify under the owner's key.
    InvalidSignature,
    /// Applying the delta would leave more admins than the board allows.
    TooManyAdminsAfterDelta { count: usize, max: usize },
}

/// The text of an error.
pub open spec fn admins_error_text(e: AdminsError) -> Seq<char> {
    match e {
        AdminsError::TooManyAdmins { count, max } => "Too many admins: "@ + decimal(count as int)
            + " > "@ + decimal(max as int),
        AdminsError::OwnerIsAdmin => "Owner should not be included in the admins list"@,
        AdminsError::InvalidSignature => "Invalid signature"@,
        AdminsError::TooManyAdminsAfterDelta { count, max } => "Too many admins after delta: "@
            + decimal(count as int) + " > "@ + decimal(max as int),
    }
}

impl AdminsError {
    /// The text of the error.
    pub fn message(&self) -> (r: String)
        ensures
            r@ == admins_error_text(*self),
    {
        match self {
            AdminsError::TooManyAdmins { count, max } => {
                let a = int_to_string(*count as i128);
                let b = int_to_string(*max as i128);
                let x = concat("Too many admins: ", a.as_str());
                let y = concat(x.as_str(), " > ");
                concat(y.as_str(), b.as_str())
            },
            AdminsError::OwnerIsAdmin => "Owner should not be included in the admins list".to_owned(),
            AdminsError::InvalidSignature => "Invalid signature".to_owned(),
            AdminsError::TooManyAdminsAfterDelta { count, max } => {
                let a = int_to_string(*count as i128);
                let b = int_to_string(*max as i128);
                let x = concat("Too many admins after delta: ", a.as_str());
                let y = concat(x.as_str(), " > ");
                concat(y.as_str(), b.as_str())
            },
        }
    }
}

impl AuthorizedAdmin {
    /// Appoints `admin` with the owner's secret key `owner_sk`. The
    /// signature verifies under the owner's verifying key.
    pub fn new(admin: Admin, owner_sk: &[u8; 32]) -> (r: Self)
        ensures
            r.admin == admin,
            r.signature@ == spec_ed25519_sign(owner_sk@, admin_bytes(admin)),
            admin_signature_valid(r, spec_ed25519_public(owner_sk@)),
    {
        let bytes = admin.encode();
        let signature = ed25519_sign(owner_sk, bytes.as_slice());
        AuthorizedAdmin { admin, signature }
    }

    /// An appointment with a signature made elsewhere.
    pub fn with_signature(admin: Admin, signature: [u8; 64]) -> (r: Self)
        ensures
            r.admin == admin,
            r.signature == signature,
    {
        AuthorizedAdmin { admin, signature }
    }

    /// Checks the signature against the owner's verifying key.
    pub fn verify_signature(&self, owner_vk: &[u8; 32]) -> (r: Result<(), AdminsError>)
        ensures
            r is Ok <==> admin_signature_valid(*self, owner_vk@),
            r is Err ==> r == Err::<(), AdminsError>(AdminsError::InvalidSignature),
    {
        let bytes = self.admin.encode();
        if ed25519_verify(owner_vk, bytes.as_slice(), &self.signature) {
            Ok(())
        } else {
            Err(AdminsError::InvalidSignature)
        }
    }
}

/// The admins of a board (the owner is not among them).
pub struct AdminsV1 {
    pub admins: Vec<AuthorizedAdmin>,
}

impl Default for AdminsV1 {
    /// No admins.
    fn default() -> (r: Self)
        ensures
            r.admins@.len() == 0,
    {
        AdminsV1 { admins: Vec::new() }
    }
}

/// What is wrong with one appointment, if anything: the owner appointed,
/// or a signature that does not verify.
pub open spec fn admin_problem(a: AuthorizedAdmin, owner_vk: Seq<u8>) -> Option<AdminsError> {
    if a.admin.member_id == member_id_of_key(owner_vk) {
        Some(AdminsError::OwnerIsAdmin)
    } else if !admin_signature_valid(a, owner_vk) {
        Some(AdminsError::InvalidSignature)
    } else {
        None
    }
}

/// The problem of the first appointment that has one.
pub open spec fn first_admin_problem(s: Seq<AuthorizedAdmin>, owner_vk: Seq<u8>) -> Option<
    AdminsError,
>
    decreases s.len(),
{
    if s.len() == 0 {
        None
    } else {
        match admin_problem(s[0], owner_vk) {
            Some(e) => Some(e),
            None => first_admin_problem(s.subrange(1, s.len() as int), owner_vk),
        }
    }
}

/// What is wrong with an admin list: none where it is empty; too many
/// admins; else the first appointment with a problem.
pub open spec fn admins_problem(s: Seq<AuthorizedAdmin>, max_admins: usize, owner_vk: Seq<u8>) -> Option<
    AdminsError,
> {
    if s.len() == 0 {
        None
    } else if s.len() > max_admins {
        Some(AdminsError::TooManyAdmins { count: s.len() as usize, max: max_admins })
    } else {
        first_admin_problem(s, owner_vk)
    }
}

/// The id of an appointment.
pub open spec fn admin_id(a: AuthorizedAdmin) -> MemberId {
    a.admin.member_id
}

/// The ids of the appointments, in order.
pub open spec fn admin_ids(s: Seq<AuthorizedAdmin>) -> Seq<MemberId> {
    s.map_values(|a: AuthorizedAdmin| admin_id(a))
}

/// The appointments of `s` whose ids `seen` does not hold, in order.
pub open spec fn unseen_admins(s: Seq<AuthorizedAdmin>, seen: Seq<MemberId>) -> Seq<AuthorizedAdmin>
    decreases s.len(),
{
    if s.len() == 0 {
        s
    } else if seen.contains(admin_id(s.last())) {
        unseen_admins(s.drop_last(), seen)
    } else {
        unseen_admins(s.drop_last(), seen).push(s.last())
    }
}

fn contains_member_id(ids: &Vec<MemberId>, id: MemberId) -> (r: bool)
    ensures
        r == ids@.contains(id),
{
    let mut i: usize = 0;
    while i < ids.len()
        invariant
            i <= ids@.len(),
            forall|j: int| 0 <= j < i ==> ids@[j] != id,
        decreases ids.len() - i,
    {
        if ids[i] == id {
            assert(ids@[i as int] == id);
            return true;
        }
        i = i + 1;
    }
    false
}

/// The changes of an admin list: appointments to add.
pub struct AdminsDelta {
    added: Vec<AuthorizedAdmin>,
}

impl View for AdminsDelta {
    type V = Seq<AuthorizedAdmin>;

    closed spec fn view(&self) -> Seq<AuthorizedAdmin> {
        self.added@
    }
}

impl AdminsDelta {
    /// A delta that adds `added`.
    pub fn new(added: Vec<AuthorizedAdmin>) -> (r: Self)
        ensures
            r@ == added@,
    {
        AdminsDelta { added }
    }
}

impl AdminsV1 {
    /// Checks the admin list: an empty list passes; else there may be no
    /// more admins than the board allows, and each appointment in turn must
    /// not name the owner and must carry the owner's valid signature.
    pub fn verify(&self, parent_state: &ChatBoardStateV1, parameters: &ChatBoardParametersV1) -> (r:
        Result<(), AdminsError>)
        ensures
            match r {
                Ok(()) => admins_problem(
                    self.admins@,
                    parent_state.configuration.max_admins,
                    parameters.owner@,
                ) is None,
                Err(e) => admins_problem(
                    self.admins@,
                    parent_state.configuration.max_admins,
                    parameters.owner@,
                ) == Some(e),
            },
    {
        let s = &self.admins;
        if s.len() == 0 {
            return Ok(());
        }
        let max_admins = parent_state.configuration.max_admins;
        if s.len() > max_admins {
            return Err(AdminsError::TooManyAdmins { count: s.len(), max: max_admins });
        }
        let owner_id = parameters.owner_id();
        let mut i: usize = 0;
        assert(s@.subrange(0, s@.len() as int) =~= s@);
        while i < s.len()
            invariant
                owner_id == member_id_of_key(parameters.owner@),
                s == &self.admins,
                0 < s@.len() <= parent_state.configuration.max_admins,
                i <= s@.len(),
                first_admin_problem(s@, parameters.owner@) == first_admin_problem(
                    s@.subrange(i as int, s@.len() as int),
                    parameters.owner@,
                ),
            decreases s.len() - i,
        {
            let a = &s[i];
            let ghost rest = s@.subrange(i as int, s@.len() as int);
            assert(rest[0] == *a);
            assert(rest.subrange(1, rest.len() as int) =~= s@.subrange(i + 1, s@.len() as int));
            if a.admin.id() == owner_id {
                return Err(AdminsError::OwnerIsAdmin);
            }
            match a.verify_signature(&parameters.owner) {
                Err(e) => {
                    return Err(e);
                },
                Ok(()) => {},
            }
            i = i + 1;
        }
        Ok(())
    }

    /// The ids of the admins, in order.
    pub fn summarize(&self) -> (r: Vec<MemberId>)
        ensures
            r@ == admin_ids(self.admins@),
    {
        let mut out: Vec<MemberId> = Vec::new();
        let mut i: usize = 0;
        while i < self.admins.len()
            invariant
                i <= self.admins@.len(),
                out@ == admin_ids(self.admins@.subrange(0, i as int)),
            decreases self.admins.len() - i,
        {
            out.push(self.admins[i].admin.id());
            i = i + 1;
            assert(out@ =~= admin_ids(self.admins@.subrange(0, i as int)));
        }
        assert(self.admins@.subrange(0, i as int) =~= self.admins@);
        out
    }

    /// The appointments whose ids `old_state_summary` does not hold;
    /// `None` where there are none.
    pub fn delta(&self, old_state_summary: &Vec<MemberId>) -> (r: Option<AdminsDelta>)
        ensures
            match r {
                Some(d) => d@ == unseen_admins(self.admins@, old_state_summary@) && d@.len() > 0,
                None => unseen_admins(self.admins@, old_state_summary@).len() == 0,
            },
    {
        let mut out: Vec<AuthorizedAdmin> = Vec::new();
        let mut i: usize = 0;
        while i < self.admins.len()
            invariant
                i <= self.admins@.len(),
                out@ == unseen_admins(self.admins@.subrange(0, i as int), old_state_summary@),
            decreases self.admins.len() - i,
        {
            let a = self.admins[i];
            proof {
                let pre = self.admins@.subrange(0, i + 1);
                assert(pre.drop_last() =~= self.admins@.subrange(0, i as int));
                assert(pre.last() == a);
            }
            if !contains_member_id(old_state_summary, a.admin.id()) {
                out.push(a);
            }
            i = i + 1;
        }
        assert(self.admins@.subrange(0, i as int) =~= self.admins@);
        if out.len() == 0 {
            None
        } else {
            Some(AdminsDelta::new(out))
        }
    }
}

// ---------------------------------------------------------------------------
// Applying a delta
// ---------------------------------------------------------------------------

/// The hash values of the appointments' ids, in order.
pub open spec fn id_values(s: Seq<AuthorizedAdmin>) -> Seq<i64> {
    s.map_values(|a: AuthorizedAdmin| a.admin.member_id.0.0)
}

/// The number of distinct member ids among the appointments.
pub open spec fn distinct_id_count(s: Seq<AuthorizedAdmin>) -> nat {
    id_values(s).to_set().len()
}

/// The appointments of `d` whose ids neither `old` nor an earlier
/// appointment of `d` has, in order.
pub open spec fn fresh_admins(old: Seq<AuthorizedAdmin>, d: Seq<AuthorizedAdmin>) -> Seq<
    AuthorizedAdmin,
>
    decreases d.len(),
{
    if d.len() == 0 {
        d
    } else {
        let prev = fresh_admins(old, d.drop_last());
        if admin_ids(old + prev).contains(admin_id(d.last())) {
            prev
        } else {
            prev.push(d.last())
        }
    }
}

/// `x` inserted into `s` after every appointment whose id is not greater.
pub open spec fn insert_by_id(s: Seq<AuthorizedAdmin>, x: AuthorizedAdmin) -> Seq<AuthorizedAdmin>
    decreases s.len(),
{
    if s.len() == 0 {
        seq![x]
    } else if admin_id(x).0.0 < admin_id(s.last()).0.0 {
        insert_by_id(s.drop_last(), x).push(s.last())
    } else {
        s.push(x)
    }
}

/// `s` sorted by id, stably.
pub open spec fn sorted_by_id(s: Seq<AuthorizedAdmin>) -> Seq<AuthorizedAdmin>
    decreases s.len(),
{
    if s.len() == 0 {
        s
    } else {
        insert_by_id(sorted_by_id(s.drop_last()), s.last())
    }
}

/// The appointments of a delta, if there is one.
pub open spec fn delta_admins(d: Option<AdminsDelta>) -> Option<Seq<AuthorizedAdmin>> {
    match d {
        Some(x) => Some(x@),
        None => None,
    }
}

/// The admin list after a delta, or why the delta is refused: too many
/// distinct admins, then an appointment of the delta whose signature does
/// not verify. Otherwise the delta's appointments with new ids are added
/// and the list is sorted by id; without a delta it is only sorted.
pub open spec fn admins_after(
    old: Seq<AuthorizedAdmin>,
    delta: Option<Seq<AuthorizedAdmin>>,
    max_admins: usize,
    owner_vk: Seq<u8>,
) -> Result<Seq<AuthorizedAdmin>, AdminsError> {
    match delta {
        None => Ok(sorted_by_id(old)),
        Some(d) => {
            let count = distinct_id_count(old + d);
            if count > max_admins {
                Err(AdminsError::TooManyAdminsAfterDelta { count: count as usize, max: max_admins })
            } else if exists|i: int| 0 <= i < d.len() && !admin_signature_valid(#[trigger] d[i], owner_vk) {
                Err(AdminsError::InvalidSignature)
            } else {
                Ok(sorted_by_id(old + fresh_admins(old, d)))
            }
        },
    }
}

/// The appointments by the hash value of their ids; where several share
/// an id, the last of them.
pub open spec fn by_id(s: Seq<AuthorizedAdmin>) -> Map<i64, AuthorizedAdmin>
    decreases s.len(),
{
    if s.len() == 0 {
        Map::empty()
    } else {
        by_id(s.drop_last()).insert(s.last().admin.member_id.0.0, s.last())
    }
}

proof fn lemma_id_values_push(s: Seq<AuthorizedAdmin>, a: AuthorizedAdmin)
    ensures
        id_values(s.push(a)) == id_values(s).push(a.admin.member_id.0.0),
        admin_ids(s.push(a)) == admin_ids(s).push(admin_id(a)),
{
    assert(id_values(s.push(a)) =~= id_values(s).push(a.admin.member_id.0.0));
    assert(admin_ids(s.push(a)) =~= admin_ids(s).push(admin_id(a)));
}

proof fn lemma_by_id_dom(s: Seq<AuthorizedAdmin>)
    ensures
        by_id(s).dom() == id_values(s).to_set(),
    decreases s.len(),
{
    if s.len() == 0 {
        assert(id_values(s).to_set() =~= Set::empty());
    } else {
        let init = s.drop_last();
        lemma_by_id_dom(init);
        assert(init.push(s.last()) =~= s);
        lemma_id_values_push(init, s.last());
        id_values(init).lemma_push_to_set_commute(s.last().admin.member_id.0.0);
    }
}

fn has_admin_id(v: &Vec<AuthorizedAdmin>, id: MemberId) -> (r: bool)
    ensures
        r == admin_ids(v@).contains(id),
{
    let mut i: usize = 0;
    while i < v.len()
        invariant
            i <= v@.len(),
            forall|j: int| 0 <= j < i ==> v@[j].admin.member_id != id,
        decreases v.len() - i,
    {
        if v[i].admin.member_id == id {
            assert(admin_ids(v@)[i as int] == id);
            return true;
        }
        i = i + 1;
    }
    proof {
        if admin_ids(v@).contains(id) {
            let j = choose|j: int| 0 <= j < admin_ids(v@).len() && admin_ids(v@)[j] == id;
            assert(v@[j].admin.member_id == id);
        }
    }
    false
}

proof fn lemma_insert_by_id_at(s: Seq<AuthorizedAdmin>, x: AuthorizedAdmin, j: int)
    requires
        0 <= j <= s.len(),
        forall|k: int| j <= k < s.len() ==> admin_id(x).0.0 < admin_id(#[trigger] s[k]).0.0,
        j == 0 || admin_id(x).0.0 >= admin_id(s[j - 1]).0.0,
    ensures
        insert_by_id(s, x) == s.insert(j, x),
    decreases s.len(),
{
    if s.len() == j {
        assert(s.insert(j, x) =~= s.push(x));
    } else {
        let init = s.drop_last();
        assert forall|k: int| j <= k < init.len() implies admin_id(x).0.0 < admin_id(
            #[trigger] init[k],
        ).0.0 by {
            assert(init[k] == s[k]);
        }
        if j > 0 {
            assert(init[j - 1] == s[j - 1]);
        }
        assert(admin_id(x).0.0 < admin_id(s[s.len() - 1]).0.0);
        lemma_insert_by_id_at(init, x, j);
        assert(init.insert(j, x).push(s.last()) =~= s.insert(j, x));
    }
}

/// `v` sorted by id, stably.
fn sort_by_id(v: &Vec<AuthorizedAdmin>) -> (r: Vec<AuthorizedAdmin>)
    ensures
        r@ == sorted_by_id(v@),
{
    let mut sorted: Vec<AuthorizedAdmin> = Vec::new();
    let mut i: usize = 0;
    while i < v.len()
        invariant
            i <= v@.len(),
            sorted@ == sorted_by_id(v@.subrange(0, i as int)),
        decreases v.len() - i,
    {
        let x = v[i];
        let key = x.admin.member_id.0.0;
        let mut j = sorted.len();
        while j > 0 && key < sorted[j - 1].admin.member_id.0.0
            invariant
                j <= sorted@.len(),
                key == admin_id(x).0.0,
                forall|k: int| j <= k < sorted@.len() ==> key < admin_id(#[trigger] sorted@[k]).0.0,
            decreases j,
        {
            j = j - 1;
        }
        proof {
            lemma_insert_by_id_at(sorted@, x, j as int);
            let pre = v@.subrange(0, i + 1);
            assert(pre.drop_last() =~= v@.subrange(0, i as int));
            assert(pre.last() == x);
        }
        sorted.insert(j, x);
        i = i + 1;
    }
    assert(v@.subrange(0, i as int) =~= v@);
    sorted
}

impl AdminsV1 {
    /// The admins by the hash value of their ids; where several share an
    /// id, the last of them.
    pub fn admins_by_member_id(&self) -> (r: std::collections::HashMap<i64, AuthorizedAdmin>)
        ensures
            r@ == by_id(self.admins@),
    {
        let mut m: std::collections::HashMap<i64, AuthorizedAdmin> = std::collections::HashMap::new();
        let mut i: usize = 0;
        while i < self.admins.len()
            invariant
                i <= self.admins@.len(),
                m@ == by_id(self.admins@.subrange(0, i as int)),
            decreases self.admins.len() - i,
        {
            let a = self.admins[i];
            proof {
                let pre = self.admins@.subrange(0, i + 1);
                assert(pre.drop_last() =~= self.admins@.subrange(0, i as int));
                assert(pre.last() == a);
            }
            m.insert(a.admin.member_id.0.0, a);
            i = i + 1;
        }
        assert(self.admins@.subrange(0, i as int) =~= self.admins@);
        m
    }

    /// Applies a delta. It is refused, and nothing changes, where the
    /// admins and the delta's appointments together have more distinct ids
    /// than the board allows, or where an appointment of the delta does not
    /// carry the owner's valid signature. Otherwise each appointment whose
    /// id is new is appended; in any case the list is then sorted by id.
    pub fn apply_delta(
        &mut self,
        parent_state: &ChatBoardStateV1,
        parameters: &ChatBoardParametersV1,
        delta: &Option<AdminsDelta>,
    ) -> (r: Result<(), AdminsError>)
        ensures
            match admins_after(
                old(self).admins@,
                delta_admins(*delta),
                parent_state.configuration.max_admins,
                parameters.owner@,
            ) {
                Ok(s) => r is Ok && final(self).admins@ == s,
                Err(e) => r == Err::<(), AdminsError>(e) && final(self).admins@ == old(self).admins@,
            },
    {
        let max_admins = parent_state.configuration.max_admins;
        let ghost old_v = self.admins@;
        match delta {
            Some(d) => {
                let added = &d.added;
                let mut combined = self.admins_by_member_id();
                proof {
                    lemma_by_id_dom(old_v);
                    assert(old_v + added@.subrange(0, 0) =~= old_v);
                }
                let mut i: usize = 0;
                while i < added.len()
                    invariant
                        i <= added@.len(),
                        self.admins@ == old_v,
                        combined@.dom() == id_values(old_v + added@.subrange(0, i as int)).to_set(),
                    decreases added.len() - i,
                {
                    let a = added[i];
                    let k = a.admin.member_id.0.0;
                    proof {
                        let pre = old_v + added@.subrange(0, i as int);
                        assert(old_v + added@.subrange(0, i + 1) =~= pre.push(a));
                        lemma_id_values_push(pre, a);
                        id_values(pre).lemma_push_to_set_commute(k);
                    }
                    if !combined.contains_key(&k) {
                        combined.insert(k, a);
                    } else {
                        assert(combined@.dom().insert(k) =~= combined@.dom());
                    }
                    i = i + 1;
                }
                assert(added@.subrange(0, i as int) =~= added@);
                if combined.len() > max_admins {
                    return Err(
                        AdminsError::TooManyAdminsAfterDelta { count: combined.len(), max: max_admins },
                    );
                }
                assert(distinct_id_count(old_v + added@) <= max_admins);
                let mut i: usize = 0;
                while i < added.len()
                    invariant
                        i <= added@.len(),
                        self.admins@ == old_v,
                        distinct_id_count(old_v + added@) <= max_admins,
                        max_admins == parent_state.configuration.max_admins,
                        delta_admins(*delta) == Some(added@),
                        forall|j: int|
                            0 <= j < i ==> admin_signature_valid(
                                #[trigger] added@[j],
                                parameters.owner@,
                            ),
                    decreases added.len() - i,
                {
                    if added[i].verify_signature(&parameters.owner).is_err() {
                        assert(!admin_signature_valid(added@[i as int], parameters.owner@));
                        return Err(AdminsError::InvalidSignature);
                    }
                    i = i + 1;
                }
                let mut i: usize = 0;
                assert(old_v + fresh_admins(old_v, added@.subrange(0, 0)) =~= old_v);
                while i < added.len()
                    invariant
                        i <= added@.len(),
                        self.admins@ == old_v + fresh_admins(old_v, added@.subrange(0, i as int)),
                    decreases added.len() - i,
                {
                    let a = added[i];
                    proof {
                        let pre = added@.subrange(0, i + 1);
                        assert(pre.drop_last() =~= added@.subrange(0, i as int));
                        assert(pre.last() == a);
                    }
                    if !has_admin_id(&self.admins, a.admin.id()) {
                        let ghost prev = fresh_admins(old_v, added@.subrange(0, i as int));
                        self.admins.push(a);
                        assert(self.admins@ =~= old_v + prev.push(a));
                    }
                    i = i + 1;
                }
                assert(added@.subrange(0, i as int) =~= added@);
            },
            None => {},
        }
        let sorted = sort_by_id(&self.admins);
        self.admins = sorted;
        Ok(())
    }

    /// Merges another admin list into this one: its appointments whose ids
    /// this one lacks are applied as a delta.
    pub fn merge(
        &mut self,
        parent_state: &ChatBoardStateV1,
        parameters: &ChatBoardParametersV1,
        other_state: &AdminsV1,
    ) -> (r: Result<(), AdminsError>)
        ensures
            ({
                let d = unseen_admins(other_state.admins@, admin_ids(old(self).admins@));
                let dopt = if d.len() == 0 {
                    None
                } else {
                    Some(d)
                };
                match admins_after(
                    old(self).admins@,
                    dopt,
                    parent_state.configuration.max_admins,
                    parameters.owner@,
                ) {
                    Ok(s) => r is Ok && final(self).admins@ == s,
                    Err(e) => r == Err::<(), AdminsError>(e) && final(self).admins@ == old(
                        self,
                    ).admins@,
                }
            }),
    {
        let summary = self.summarize();
        let delta = other_state.delta(&summary);
        self.apply_delta(parent_state, parameters, &delta)
    }
}

/// The ids of the members who could be made admins, in member order: all
/// but the owner and those already appointed.
pub open spec fn admin_candidates(
    members: Seq<AuthorizedMember>,
    appointed: Seq<MemberId>,
    owner_id: MemberId,
) -> Seq<MemberId>
    decreases members.len(),
{
    if members.len() == 0 {
        Seq::empty()
    } else {
        let rest = admin_candidates(members.drop_last(), appointed, owner_id);
        let id = member_id_of_key(members.last().member.member_vk@);
        if id != owner_id && !appointed.contains(id) {
            rest.push(id)
        } else {
            rest
        }
    }
}

pub(crate) fn is_appointed(admins: &AdminsV1, id: MemberId) -> (r: bool)
    ensures
        r == admin_ids(admins.admins@).contains(id),
{
    let ghost ids = admin_ids(admins.admins@);
    let mut i: usize = 0;
    while i < admins.admins.len()
        invariant
            i <= admins.admins@.len(),
            ids == admin_ids(admins.admins@),
            ids.len() == admins.admins@.len(),
            forall|j: int| 0 <= j < i ==> ids[j] != id,
        decreases admins.admins.len() - i,
    {
        if admins.admins[i].admin.member_id == id {
            assert(ids[i as int] == id);
            return true;
        }
        i = i + 1;
    }
    false
}

/// The members who could be made admins: every member but the owner and
/// those already appointed, in member order.
pub fn available_admin_candidates(members: &MembersV1, admins: &AdminsV1, owner_id: MemberId) -> (r: Vec<
    MemberId,
>)
    ensures
        r@ == admin_candidates(members.members@, admin_ids(admins.admins@), owner_id),
{
    let ms = &members.members;
    let mut out: Vec<MemberId> = Vec::new();
    let mut i: usize = 0;
    assert(ms@.subrange(0, 0) =~= Seq::<AuthorizedMember>::empty());
    while i < ms.len()
        invariant
            ms == &members.members,
            i <= ms@.len(),
            out@ == admin_candidates(ms@.subrange(0, i as int), admin_ids(admins.admins@), owner_id),
        decreases ms.len() - i,
    {
        let ghost next = ms@.subrange(0, i + 1);
        assert(next.drop_last() =~= ms@.subrange(0, i as int));
        assert(next.last() == ms@[i as int]);
        let id = ms[i].member.id();
        if id != owner_id && !is_appointed(admins, id) {
            out.push(id);
        }
        i = i + 1;
    }
    assert(ms@.subrange(0, i as int) =~= ms@);
    out
}

} // verus!
