use vstd::prelude::*;

use crate::principal::{AuthProof, Principal};

verus! {

/// Why a contributor-registry operation was refused.
#[derive(Clone, Copy, PartialEq, Eq, Structural, Debug)]
pub enum ContributorError {
    NotInitialized,
    AlreadyInitialized,
    Unauthorized,
    ContributorNotFound,
    InvalidGitHubHandle,
    ContributorAlreadyExists,
}

/// One contributor profile, keyed by `address`.
#[derive(Debug, PartialEq, Eq)]
pub struct ContributorData {
    pub address: Principal,
    pub github_handle: String,
    pub reputation_score: u64,
    pub registered_timestamp: u64,
}

/// The mathematical value of a `ContributorData`: the handle as a
/// sequence of characters, everything else as stored.
#[verifier::ext_equal]
pub ghost struct ContributorDataView {
    pub address: Principal,
    pub github_handle: Seq<char>,
    pub reputation_score: u64,
    pub registered_timestamp: u64,
}

impl View for ContributorData {
    type V = ContributorDataView;

    open spec fn view(&self) -> ContributorDataView {
        ContributorDataView {
            address: self.address,
            github_handle: self.github_handle@,
            reputation_score: self.reputation_score,
            registered_timestamp: self.registered_timestamp,
        }
    }
}

/// The abstract state of a contributor registry: the admin slot and a
/// map from principal to the profile registered under it.
#[verifier::ext_equal]
pub ghost struct ContributorRegistryView {
    pub admin: Option<Principal>,
    pub records: Map<Principal, ContributorDataView>,
}

/// A registry's abstract state is well formed when every record sits
/// under its own address, stored handles are non-empty, and no record
/// exists before the registry is initialized.
pub open spec fn registry_wf(v: ContributorRegistryView) -> bool {
    &&& forall|p: Principal| #[trigger] v.records.dom().contains(p) ==> v.records[p].address == p
    &&& forall|p: Principal| #[trigger] v.records.dom().contains(p)
        ==> v.records[p].github_handle.len() != 0
    &&& v.admin is None ==> forall|p: Principal| !(#[trigger] v.records.dom().contains(p))
}

/// What `initialize` decides and changes, as a function of the abstract
/// state: the admin slot is one-shot.
pub open spec fn initialize_spec(v: ContributorRegistryView, admin: Principal) -> (
    ContributorRegistryView,
    Result<(), ContributorError>,
) {
    if v.admin is Some {
        (v, Err(ContributorError::AlreadyInitialized))
    } else {
        (ContributorRegistryView { admin: Some(admin), ..v }, Ok(()))
    }
}

/// What `register_contributor` decides and changes: initialization is a
/// precondition, the handle must be non-empty, registration is one-shot
/// per principal, and a fresh record starts with reputation 0 and the
/// current ledger time.
pub open spec fn register_spec(
    v: ContributorRegistryView,
    address: Principal,
    github_handle: Seq<char>,
    now: u64,
) -> (ContributorRegistryView, Result<(), ContributorError>) {
    if v.admin is None {
        (v, Err(ContributorError::NotInitialized))
    } else if github_handle.len() == 0 {
        (v, Err(ContributorError::InvalidGitHubHandle))
    } else if v.records.dom().contains(address) {
        (v, Err(ContributorError::ContributorAlreadyExists))
    } else {
        let rec = ContributorDataView {
            address,
            github_handle,
            reputation_score: 0,
            registered_timestamp: now,
        };
        (ContributorRegistryView { records: v.records.insert(address, rec), ..v }, Ok(()))
    }
}

/// What `update_reputation` decides and changes: only the stored admin
/// may overwrite a registered contributor's score, and the identity
/// check comes before the record lookup.
pub open spec fn update_reputation_spec(
    v: ContributorRegistryView,
    admin: Principal,
    contributor_address: Principal,
    new_score: u64,
) -> (ContributorRegistryView, Result<(), ContributorError>) {
    match v.admin {
        None => (v, Err(ContributorError::NotInitialized)),
        Some(stored) => if admin != stored {
            (v, Err(ContributorError::Unauthorized))
        } else if !v.records.dom().contains(contributor_address) {
            (v, Err(ContributorError::ContributorNotFound))
        } else {
            let rec = ContributorDataView {
                reputation_score: new_score,
                ..v.records[contributor_address]
            };
            (
                ContributorRegistryView { records: v.records.insert(contributor_address, rec), ..v },
                Ok(()),
            )
        },
    }
}

/// What `get_contributor` returns: the record under `address`, or
/// `ContributorNotFound`.
pub open spec fn get_contributor_spec(v: ContributorRegistryView, address: Principal) -> Result<
    ContributorDataView,
    ContributorError,
> {
    if v.records.dom().contains(address) {
        Ok(v.records[address])
    } else {
        Err(ContributorError::ContributorNotFound)
    }
}

/// What `get_admin` returns: the stored admin, or `NotInitialized`.
pub open spec fn get_admin_spec(v: ContributorRegistryView) -> Result<
    Principal,
    ContributorError,
> {
    match v.admin {
        Some(a) => Ok(a),
        None => Err(ContributorError::NotInitialized),
    }
}

/// The abstract value of an owned result returned by `get_contributor`.
pub open spec fn contributor_result_view(r: Result<ContributorData, ContributorError>) -> Result<
    ContributorDataView,
    ContributorError,
> {
    match r {
        Ok(d) => Ok(d@),
        Err(e) => Err(e),
    }
}

spec fn has_record(s: Seq<ContributorData>, a: Principal) -> bool {
    exists|i: int| 0 <= i < s.len() && s[i].address == a
}

spec fn record_index(s: Seq<ContributorData>, a: Principal) -> int {
    choose|i: int| 0 <= i < s.len() && s[i].address == a
}

spec fn records_of(s: Seq<ContributorData>) -> Map<Principal, ContributorDataView> {
    Map::new(|a: Principal| has_record(s, a), |a: Principal| s[record_index(s, a)]@)
}

spec fn distinct_addresses(s: Seq<ContributorData>) -> bool {
    forall|i: int, j: int| 0 <= i < j < s.len() ==> s[i].address != s[j].address
}

proof fn lemma_record_index(s: Seq<ContributorData>, a: Principal, i: int)
    requires
        distinct_addresses(s),
        0 <= i < s.len(),
        s[i].address == a,
    ensures
        has_record(s, a),
        record_index(s, a) == i,
{
    assert(has_record(s, a));
    let j = record_index(s, a);
    assert(0 <= j < s.len() && s[j].address == a);
}

proof fn lemma_push_record(s: Seq<ContributorData>, c: ContributorData)
    requires
        distinct_addresses(s),
        !has_record(s, c.address),
    ensures
        distinct_addresses(s.push(c)),
        records_of(s.push(c)) == records_of(s).insert(c.address, c@),
{
    let s2 = s.push(c);
    assert forall|i: int, j: int| 0 <= i < j < s2.len() implies s2[i].address != s2[j].address by {
        if j == s.len() {
            if s2[i].address == c.address {
                assert(s[i].address == c.address);
                assert(has_record(s, c.address));
            }
        }
    }
    assert forall|a: Principal| #[trigger] has_record(s2, a) implies has_record(s, a) || a
        == c.address by {
        let i = choose|i: int| 0 <= i < s2.len() && s2[i].address == a;
        if i < s.len() {
            assert(s[i].address == a);
        }
    }
    assert forall|a: Principal| has_record(s, a) implies #[trigger] has_record(s2, a) by {
        let i = choose|i: int| 0 <= i < s.len() && s[i].address == a;
        assert(s2[i].address == a);
    }
    assert(s2[s.len() as int].address == c.address);
    assert(has_record(s2, c.address));
    assert forall|a: Principal| #[trigger] has_record(s2, a) implies records_of(s2)[a]
        == records_of(s).insert(c.address, c@)[a] by {
        lemma_record_index(s2, c.address, s.len() as int);
        if a == c.address {
            assert(records_of(s2)[a] == c@);
        } else {
            let i = choose|i: int| 0 <= i < s.len() && s[i].address == a;
            assert(s2[i].address == a);
            lemma_record_index(s2, a, i);
            lemma_record_index(s, a, i);
        }
    }
    assert(records_of(s2) =~= records_of(s).insert(c.address, c@));
}

proof fn lemma_update_record(s: Seq<ContributorData>, i: int, c: ContributorData)
    requires
        distinct_addresses(s),
        0 <= i < s.len(),
        c.address == s[i].address,
    ensures
        distinct_addresses(s.update(i, c)),
        records_of(s.update(i, c)) == records_of(s).insert(c.address, c@),
{
    let s2 = s.update(i, c);
    assert forall|k: int, j: int| 0 <= k < j < s2.len() implies s2[k].address != s2[j].address by {
        assert(s2[k].address == s[k].address);
        assert(s2[j].address == s[j].address);
    }
    assert forall|a: Principal| #[trigger] has_record(s2, a) implies has_record(s, a) by {
        let k = choose|k: int| 0 <= k < s2.len() && s2[k].address == a;
        assert(s[k].address == a);
    }
    assert forall|a: Principal| #[trigger] has_record(s, a) implies has_record(s2, a) by {
        let k = choose|k: int| 0 <= k < s.len() && s[k].address == a;
        assert(s2[k].address == a);
    }
    assert forall|a: Principal| #[trigger] has_record(s2, a) implies records_of(s2)[a]
        == records_of(s).insert(c.address, c@)[a] by {
        lemma_record_index(s2, c.address, i);
        if a == c.address {
            assert(records_of(s2)[a] == c@);
        } else {
            let k = choose|k: int| 0 <= k < s.len() && s[k].address == a;
            assert(s2[k].address == a);
            lemma_record_index(s2, a, k);
            lemma_record_index(s, a, k);
            assert(s2[k] == s[k]);
        }
    }
    assert(records_of(s2) =~= records_of(s).insert(c.address, c@));
}

/// The decision `initialize` takes, given whether an admin is already
/// stored: the principal to store as permanent admin, or the error.
pub fn initialize_decision(already_initialized: bool, admin: Principal) -> (r: Result<
    Principal,
    ContributorError,
>)
    ensures
        r == if already_initialized {
            Err::<Principal, ContributorError>(ContributorError::AlreadyInitialized)
        } else {
            Ok::<Principal, ContributorError>(admin)
        },
{
    if already_initialized {
        Err(ContributorError::AlreadyInitialized)
    } else {
        Ok(admin)
    }
}

/// The decision `register_contributor` takes, given the stored facts it
/// depends on: the record to commit for `address`, or the error.
pub fn register_decision(
    initialized: bool,
    address: Principal,
    github_handle: String,
    already_exists: bool,
    now: u64,
) -> (r: Result<ContributorData, ContributorError>)
    ensures
        r == if !initialized {
            Err::<ContributorData, ContributorError>(ContributorError::NotInitialized)
        } else if github_handle@.len() == 0 {
            Err::<ContributorData, ContributorError>(ContributorError::InvalidGitHubHandle)
        } else if already_exists {
            Err::<ContributorData, ContributorError>(ContributorError::ContributorAlreadyExists)
        } else {
            Ok::<ContributorData, ContributorError>(
                ContributorData {
                    address,
                    github_handle,
                    reputation_score: 0,
                    registered_timestamp: now,
                },
            )
        },
{
    if !initialized {
        return Err(ContributorError::NotInitialized);
    }
    if github_handle.as_str().unicode_len() == 0 {
        return Err(ContributorError::InvalidGitHubHandle);
    }
    if already_exists {
        return Err(ContributorError::ContributorAlreadyExists);
    }
    Ok(ContributorData { address, github_handle, reputation_score: 0, registered_timestamp: now })
}

/// The decision `update_reputation` takes, given the stored admin and
/// the record under the target key: the updated record to commit, or
/// the error. The identity check comes before the record lookup.
pub fn update_reputation_decision(
    stored_admin: Option<Principal>,
    caller: Principal,
    record: Option<&ContributorData>,
    new_score: u64,
) -> (r: Result<ContributorData, ContributorError>)
    ensures
        r == match stored_admin {
            None => Err::<ContributorData, ContributorError>(ContributorError::NotInitialized),
            Some(stored) => if caller != stored {
                Err::<ContributorData, ContributorError>(ContributorError::Unauthorized)
            } else {
                match record {
                    None => Err::<ContributorData, ContributorError>(
                        ContributorError::ContributorNotFound,
                    ),
                    Some(rec) => Ok::<ContributorData, ContributorError>(
                        ContributorData { reputation_score: new_score, ..*rec },
                    ),
                }
            },
        },
{
    let stored = match stored_admin {
        None => {
            return Err(ContributorError::NotInitialized);
        },
        Some(a) => a,
    };
    if caller.id != stored.id {
        return Err(ContributorError::Unauthorized);
    }
    match record {
        None => Err(ContributorError::ContributorNotFound),
        Some(rec) => Ok(
            ContributorData {
                address: rec.address,
                github_handle: rec.github_handle.clone(),
                reputation_score: new_score,
                registered_timestamp: rec.registered_timestamp,
            },
        ),
    }
}

/// A contributor registry instance: the admin slot together with the
/// profiles registered so far, one per principal.
pub struct ContributorRegistryContract {
    admin: Option<Principal>,
    contributors: Vec<ContributorData>,
}

impl View for ContributorRegistryContract {
    type V = ContributorRegistryView;

    closed spec fn view(&self) -> ContributorRegistryView {
        ContributorRegistryView { admin: self.admin, records: records_of(self.contributors@) }
    }
}

impl ContributorRegistryContract {
    /// The representation invariant: one record per address, non-empty
    /// handles, and no record before initialization.
    pub closed spec fn wf(self) -> bool {
        &&& distinct_addresses(self.contributors@)
        &&& self.admin is None ==> self.contributors@.len() == 0
        &&& forall|i: int|
            0 <= i < self.contributors@.len()
                ==> (#[trigger] self.contributors@[i]).github_handle@.len() != 0
    }

    pub proof fn lemma_wf_view(self)
        requires
            self.wf(),
        ensures
            registry_wf(self@),
    {
        assert forall|p: Principal| #[trigger] self@.records.dom().contains(p) implies self@.records[p].address
            == p && self@.records[p].github_handle.len() != 0 by {
            let s = self.contributors@;
            let i = record_index(s, p);
            assert(0 <= i < s.len() && s[i].address == p);
        }
        if self.admin is None {
            assert forall|p: Principal| !(#[trigger] self@.records.dom().contains(p)) by {
                assert(self.contributors@.len() == 0);
            }
        }
    }

    /// An empty, uninitialized registry.
    pub fn new() -> (r: Self)
        ensures
            r.wf(),
            r@.admin is None,
            r@.records == Map::<Principal, ContributorDataView>::empty(),
    {
        let r = ContributorRegistryContract { admin: None, contributors: Vec::new() };
        proof {
            assert(records_of(r.contributors@) =~= Map::<Principal, ContributorDataView>::empty());
        }
        r
    }

    fn find_index(&self, address: Principal) -> (r: Option<usize>)
        ensures
            match r {
                Some(i) => i < self.contributors@.len() && self.contributors@[i as int].address
                    == address && has_record(self.contributors@, address),
                None => !has_record(self.contributors@, address),
            },
    {
        let mut i: usize = 0;
        while i < self.contributors.len()
            invariant
                i <= self.contributors@.len(),
                forall|j: int| 0 <= j < i ==> self.contributors@[j].address != address,
            decreases self.contributors@.len() - i,
        {
            if self.contributors[i].address.id == address.id {
                return Some(i);
            }
            i += 1;
        }
        None
    }

    /// Store `admin` as the permanent administrator, once. The caller
    /// must present the host's authentication of `admin` itself.
    pub fn initialize(&mut self, admin: Principal, auth: &AuthProof) -> (r: Result<
        (),
        ContributorError,
    >)
        requires
            old(self).wf(),
            auth.principal == admin,
        ensures
            final(self).wf(),
            final(self)@ == initialize_spec(old(self)@, admin).0,
            r == initialize_spec(old(self)@, admin).1,
    {
        if self.admin.is_some() {
            return Err(ContributorError::AlreadyInitialized);
        }
        self.admin = Some(admin);
        proof {
            assert(self@ =~= initialize_spec(old(self)@, admin).0);
        }
        Ok(())
    }

    /// Create the profile for `address`, once, with reputation 0 and the
    /// current ledger time `now`. The caller must present the host's
    /// authentication of `address` itself: registration is self-service.
    pub fn register_contributor(
        &mut self,
        address: Principal,
        github_handle: String,
        auth: &AuthProof,
        now: u64,
    ) -> (r: Result<(), ContributorError>)
        requires
            old(self).wf(),
            auth.principal == address,
        ensures
            final(self).wf(),
            final(self)@ == register_spec(old(self)@, address, github_handle@, now).0,
            r == register_spec(old(self)@, address, github_handle@, now).1,
    {
        let idx = self.find_index(address);
        let decision = register_decision(
            self.admin.is_some(),
            address,
            github_handle,
            idx.is_some(),
            now,
        );
        match decision {
            Err(e) => Err(e),
            Ok(rec) => {
                proof {
                    lemma_push_record(self.contributors@, rec);
                }
                self.contributors.push(rec);
                proof {
                    assert(self@ =~= register_spec(old(self)@, address, rec.github_handle@, now).0);
                }
                Ok(())
            },
        }
    }

    /// Overwrite the reputation score of a registered contributor. Only
    /// the stored admin may do so, and the caller must present the
    /// host's authentication of `admin`.
    pub fn update_reputation(
        &mut self,
        admin: Principal,
        contributor_address: Principal,
        new_score: u64,
        auth: &AuthProof,
    ) -> (r: Result<(), ContributorError>)
        requires
            old(self).wf(),
            auth.principal == admin,
        ensures
            final(self).wf(),
            final(self)@ == update_reputation_spec(
                old(self)@,
                admin,
                contributor_address,
                new_score,
            ).0,
            r == update_reputation_spec(old(self)@, admin, contributor_address, new_score).1,
    {
        let idx = self.find_index(contributor_address);
        let decision = match idx {
            Some(i) => update_reputation_decision(
                self.admin,
                admin,
                Some(&self.contributors[i]),
                new_score,
            ),
            None => update_reputation_decision(self.admin, admin, None, new_score),
        };
        match decision {
            Err(e) => Err(e),
            Ok(updated) => {
                let i = match idx {
                    Some(i) => i,
                    None => {
                        proof {
                            assert(false);
                        }
                        0
                    },
                };
                let ghost s_old = self.contributors@;
                proof {
                    lemma_record_index(s_old, contributor_address, i as int);
                    lemma_update_record(s_old, i as int, updated);
                }
                self.contributors.remove(i);
                self.contributors.insert(i, updated);
                proof {
                    assert(self.contributors@ =~= s_old.update(i as int, updated));
                    assert(self@ =~= update_reputation_spec(
                        old(self)@,
                        admin,
                        contributor_address,
                        new_score,
                    ).0);
                }
                Ok(())
            },
        }
    }

    /// Read the profile under `address`. Profile data is public: no
    /// authorization is needed.
    pub fn get_contributor(&self, address: Principal) -> (r: Result<
        ContributorData,
        ContributorError,
    >)
        requires
            self.wf(),
        ensures
            contributor_result_view(r) == get_contributor_spec(self@, address),
    {
        match self.find_index(address) {
            None => Err(ContributorError::ContributorNotFound),
            Some(i) => {
                proof {
                    lemma_record_index(self.contributors@, address, i as int);
                }
                let d = &self.contributors[i];
                Ok(
                    ContributorData {
                        address: d.address,
                        github_handle: d.github_handle.clone(),
                        reputation_score: d.reputation_score,
                        registered_timestamp: d.registered_timestamp,
                    },
                )
            },
        }
    }

    /// Read the stored admin. The admin's identity is public.
    pub fn get_admin(&self) -> (r: Result<Principal, ContributorError>)
        ensures
            r == get_admin_spec(self@),
    {
        match self.admin {
            Some(a) => Ok(a),
            None => Err(ContributorError::NotInitialized),
        }
    }
}

/// Registration is one-shot. Once a registration for `address` has
/// succeeded, a further attempt with any non-empty handle fails with
/// `ContributorAlreadyExists` and leaves the registry unchanged.
pub proof fn lemma_register_at_most_once(
    v: ContributorRegistryView,
    address: Principal,
    handle1: Seq<char>,
    now1: u64,
    handle2: Seq<char>,
    now2: u64,
)
    requires
        register_spec(v, address, handle1, now1).1 is Ok,
        handle2.len() != 0,
    ensures
        register_spec(register_spec(v, address, handle1, now1).0, address, handle2, now2).1
            == Err::<(), ContributorError>(ContributorError::ContributorAlreadyExists),
        register_spec(register_spec(v, address, handle1, now1).0, address, handle2, now2).0
            == register_spec(v, address, handle1, now1).0,
{
}

/// No operation of the registry ever removes a record: a principal once
/// registered stays registered.
pub proof fn lemma_record_is_permanent(v: ContributorRegistryView, p: Principal)
    requires
        v.records.dom().contains(p),
    ensures
        forall|a: Principal| (#[trigger] initialize_spec(v, a).0).records.dom().contains(p),
        forall|a: Principal, h: Seq<char>, n: u64|
            (#[trigger] register_spec(v, a, h, n).0).records.dom().contains(p),
        forall|a: Principal, c: Principal, ns: u64|
            (#[trigger] update_reputation_spec(v, a, c, ns).0).records.dom().contains(p),
{
}

/// Only the stored admin may update reputation: a call under any other
/// identity fails with `Unauthorized` and changes nothing, whatever the
/// score.
pub proof fn lemma_update_reputation_requires_admin(
    v: ContributorRegistryView,
    stored: Principal,
    caller: Principal,
    contributor_address: Principal,
    new_score: u64,
)
    requires
        v.admin == Some(stored),
        caller != stored,
    ensures
        update_reputation_spec(v, caller, contributor_address, new_score).0 == v,
        update_reputation_spec(v, caller, contributor_address, new_score).1 == Err::<
            (),
            ContributorError,
        >(ContributorError::Unauthorized),
{
}

/// Reads on absent state fail cleanly: an unregistered key yields
/// `ContributorNotFound` and an uninitialized registry yields
/// `NotInitialized`; neither read panics, since both are total.
pub proof fn lemma_reads_fail_cleanly(v: ContributorRegistryView, address: Principal)
    ensures
        !v.records.dom().contains(address) ==> get_contributor_spec(v, address) == Err::<
            ContributorDataView,
            ContributorError,
        >(ContributorError::ContributorNotFound),
        v.admin is None ==> get_admin_spec(v) == Err::<Principal, ContributorError>(
            ContributorError::NotInitialized,
        ),
{
}

} // verus!
