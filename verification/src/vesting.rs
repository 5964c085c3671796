use vstd::prelude::*;

use vstd::arithmetic::div_mod::{
    lemma_div_is_ordered, lemma_div_multiples_vanish, lemma_fundamental_div_mod,
    lemma_hoist_over_denominator, lemma_mod_bound,
};

use crate::principal::{AuthProof, Principal};

verus! {

/// Why a vesting-wallet operation was refused.
#[derive(Clone, Copy, PartialEq, Eq, PartialOrd, Ord, Structural, Debug)]
pub enum VestingError {
    NotInitialized,
    AlreadyInitialized,
    Unauthorized,
    VestingNotFound,
    InvalidAmount,
    InvalidDuration,
    InvalidStartTime,
    NothingToClaim,
    InsufficientBalance,
}

/// One token-release schedule, keyed by `beneficiary`. Vesting is
/// linear: nothing before `start_time`, everything once `duration` has
/// elapsed, and in between the fraction of `total_amount` matching the
/// elapsed fraction of `duration`, floored.
#[derive(Clone, Copy, PartialEq, Eq, Structural, Debug)]
pub struct VestingData {
    pub beneficiary: Principal,
    pub total_amount: i128,
    pub start_time: u64,
    pub duration: u64,
    pub claimed_amount: i128,
}

/// A schedule's own invariant: a positive total, a positive duration,
/// and a claimed amount between zero and the total.
pub open spec fn schedule_fields_wf(rec: VestingData) -> bool {
    &&& 0 < rec.total_amount
    &&& 0 < rec.duration
    &&& 0 <= rec.claimed_amount <= rec.total_amount
}

/// The abstract state of a vesting wallet: the admin slot, the token
/// asset the wallet pays out, and a map from beneficiary to schedule.
#[verifier::ext_equal]
pub ghost struct VestingWalletView {
    pub admin: Option<Principal>,
    pub token: Option<Principal>,
    pub schedules: Map<Principal, VestingData>,
}

/// A wallet's abstract state is well formed when every schedule sits
/// under its own beneficiary and satisfies its own invariant, admin and
/// token are set together, and no schedule exists before
/// initialization.
pub open spec fn wallet_wf(v: VestingWalletView) -> bool {
    &&& forall|p: Principal| #[trigger] v.schedules.dom().contains(p) ==> v.schedules[p].beneficiary
        == p
    &&& forall|p: Principal| #[trigger] v.schedules.dom().contains(p) ==> schedule_fields_wf(
        v.schedules[p],
    )
    &&& v.admin is None ==> forall|p: Principal| !(#[trigger] v.schedules.dom().contains(p))
    &&& v.admin is Some <==> v.token is Some
}

/// The amount unlocked by time `now` under a linear schedule: zero
/// before `start`, all of `total` once `duration` has elapsed, and the
/// floored proportional share in between.
pub open spec fn vested_amount(total: int, start: int, duration: int, now: int) -> int {
    if now < start {
        0
    } else if now - start >= duration {
        total
    } else {
        total * (now - start) / duration
    }
}

/// The unlocked amount always lies between zero and the schedule's
/// total.
pub proof fn lemma_vested_bounds(total: int, start: int, duration: int, now: int)
    requires
        0 < total,
        0 < duration,
    ensures
        0 <= vested_amount(total, start, duration, now) <= total,
{
    if now < start {
    } else if now - start >= duration {
    } else {
        let e = now - start;
        assert(0 <= total * e) by (nonlinear_arith)
            requires
                0 <= total,
                0 <= e,
        ;
        lemma_div_multiples_vanish(0, duration);
        lemma_div_is_ordered(0, total * e, duration);
        assert(total * e <= duration * total) by (nonlinear_arith)
            requires
                0 <= total,
                0 <= e,
                e <= duration,
        ;
        lemma_div_is_ordered(total * e, duration * total, duration);
        lemma_div_multiples_vanish(total, duration);
    }
}

/// The unlocked amount never decreases as ledger time advances.
pub proof fn lemma_vested_monotonic(total: int, start: int, duration: int, now1: int, now2: int)
    requires
        0 < total,
        0 < duration,
        now1 <= now2,
    ensures
        vested_amount(total, start, duration, now1) <= vested_amount(total, start, duration, now2),
{
    lemma_vested_bounds(total, start, duration, now1);
    lemma_vested_bounds(total, start, duration, now2);
    if start <= now1 && now1 - start < duration && start <= now2 && now2 - start < duration {
        let e1 = now1 - start;
        let e2 = now2 - start;
        assert(total * e1 <= total * e2) by (nonlinear_arith)
            requires
                0 <= total,
                0 <= e1,
                e1 <= e2,
        ;
        lemma_div_is_ordered(total * e1, total * e2, duration);
    }
}

/// What `initialize` decides and changes: admin and token are stored
/// together, once.
pub open spec fn initialize_spec(v: VestingWalletView, admin: Principal, token: Principal) -> (
    VestingWalletView,
    Result<(), VestingError>,
) {
    if v.admin is Some {
        (v, Err(VestingError::AlreadyInitialized))
    } else {
        (VestingWalletView { admin: Some(admin), token: Some(token), ..v }, Ok(()))
    }
}

/// The record `create_vesting` commits, or the error it returns, as a
/// function of the stored admin, the caller, the schedule parameters,
/// the current ledger time and whether a schedule already exists for
/// the beneficiary. A schedule must not start in the past, and a
/// beneficiary's schedule is one-shot.
pub open spec fn create_record_spec(
    stored_admin: Option<Principal>,
    caller: Principal,
    beneficiary: Principal,
    total_amount: i128,
    start_time: u64,
    duration: u64,
    now: u64,
    already_exists: bool,
) -> Result<VestingData, VestingError> {
    match stored_admin {
        None => Err(VestingError::NotInitialized),
        Some(stored) => if caller != stored {
            Err(VestingError::Unauthorized)
        } else if total_amount <= 0 {
            Err(VestingError::InvalidAmount)
        } else if duration == 0 {
            Err(VestingError::InvalidDuration)
        } else if start_time < now {
            Err(VestingError::InvalidStartTime)
        } else if already_exists {
            Err(VestingError::AlreadyInitialized)
        } else {
            Ok(VestingData { beneficiary, total_amount, start_time, duration, claimed_amount: 0 })
        },
    }
}

/// What `create_vesting` decides and changes, over the abstract state.
pub open spec fn create_vesting_spec(
    v: VestingWalletView,
    caller: Principal,
    beneficiary: Principal,
    total_amount: i128,
    start_time: u64,
    duration: u64,
    now: u64,
) -> (VestingWalletView, Result<(), VestingError>) {
    match create_record_spec(
        v.admin,
        caller,
        beneficiary,
        total_amount,
        start_time,
        duration,
        now,
        v.schedules.dom().contains(beneficiary),
    ) {
        Err(e) => (v, Err(e)),
        Ok(rec) => (
            VestingWalletView { schedules: v.schedules.insert(beneficiary, rec), ..v },
            Ok(()),
        ),
    }
}

/// What `claim` decides for one schedule: the claimable amount is what
/// has vested by `now` minus what was already claimed; a claim needs a
/// positive claimable amount and a wallet balance that covers it, and
/// on success the schedule's claimed amount rises to the vested amount.
pub open spec fn claim_record_spec(rec: VestingData, now: u64, available_balance: i128) -> Result<
    (VestingData, i128),
    VestingError,
> {
    let vested = vested_amount(
        rec.total_amount as int,
        rec.start_time as int,
        rec.duration as int,
        now as int,
    );
    let claimable = vested - rec.claimed_amount as int;
    if claimable <= 0 {
        Err(VestingError::NothingToClaim)
    } else if claimable > available_balance as int {
        Err(VestingError::InsufficientBalance)
    } else {
        Ok((VestingData { claimed_amount: vested as i128, ..rec }, claimable as i128))
    }
}

/// What `claim` decides and changes, over the abstract state: the
/// returned amount is what the wallet must transfer to the beneficiary.
pub open spec fn claim_spec(
    v: VestingWalletView,
    beneficiary: Principal,
    now: u64,
    available_balance: i128,
) -> (VestingWalletView, Result<i128, VestingError>) {
    if !v.schedules.dom().contains(beneficiary) {
        (v, Err(VestingError::VestingNotFound))
    } else {
        match claim_record_spec(v.schedules[beneficiary], now, available_balance) {
            Err(e) => (v, Err(e)),
            Ok((rec, amount)) => (
                VestingWalletView { schedules: v.schedules.insert(beneficiary, rec), ..v },
                Ok(amount),
            ),
        }
    }
}

/// What `get_vesting` returns: the schedule under `beneficiary`, or
/// `VestingNotFound`.
pub open spec fn get_vesting_spec(v: VestingWalletView, beneficiary: Principal) -> Result<
    VestingData,
    VestingError,
> {
    if v.schedules.dom().contains(beneficiary) {
        Ok(v.schedules[beneficiary])
    } else {
        Err(VestingError::VestingNotFound)
    }
}

spec fn has_schedule(s: Seq<VestingData>, b: Principal) -> bool {
    exists|i: int| 0 <= i < s.len() && s[i].beneficiary == b
}

spec fn schedule_index(s: Seq<VestingData>, b: Principal) -> int {
    choose|i: int| 0 <= i < s.len() && s[i].beneficiary == b
}

spec fn schedules_of(s: Seq<VestingData>) -> Map<Principal, VestingData> {
    Map::new(|b: Principal| has_schedule(s, b), |b: Principal| s[schedule_index(s, b)])
}

spec fn distinct_beneficiaries(s: Seq<VestingData>) -> bool {
    forall|i: int, j: int| 0 <= i < j < s.len() ==> s[i].beneficiary != s[j].beneficiary
}

proof fn lemma_schedule_index(s: Seq<VestingData>, b: Principal, i: int)
    requires
        distinct_beneficiaries(s),
        0 <= i < s.len(),
        s[i].beneficiary == b,
    ensures
        has_schedule(s, b),
        schedule_index(s, b) == i,
{
    assert(has_schedule(s, b));
    let j = schedule_index(s, b);
    assert(0 <= j < s.len() && s[j].beneficiary == b);
}

proof fn lemma_push_schedule(s: Seq<VestingData>, c: VestingData)
    requires
        distinct_beneficiaries(s),
        !has_schedule(s, c.beneficiary),
    ensures
        distinct_beneficiaries(s.push(c)),
        schedules_of(s.push(c)) == schedules_of(s).insert(c.beneficiary, c),
{
    let s2 = s.push(c);
    assert forall|i: int, j: int| 0 <= i < j < s2.len() implies s2[i].beneficiary
        != s2[j].beneficiary by {
        if j == s.len() {
            if s2[i].beneficiary == c.beneficiary {
                assert(s[i].beneficiary == c.beneficiary);
                assert(has_schedule(s, c.beneficiary));
            }
        }
    }
    assert forall|b: Principal| #[trigger] has_schedule(s2, b) implies has_schedule(s, b) || b
        == c.beneficiary by {
        let i = choose|i: int| 0 <= i < s2.len() && s2[i].beneficiary == b;
        if i < s.len() {
            assert(s[i].beneficiary == b);
        }
    }
    assert forall|b: Principal| has_schedule(s, b) implies #[trigger] has_schedule(s2, b) by {
        let i = choose|i: int| 0 <= i < s.len() && s[i].beneficiary == b;
        assert(s2[i].beneficiary == b);
    }
    assert(s2[s.len() as int].beneficiary == c.beneficiary);
    assert(has_schedule(s2, c.beneficiary));
    assert forall|b: Principal| #[trigger] has_schedule(s2, b) implies schedules_of(s2)[b]
        == schedules_of(s).insert(c.beneficiary, c)[b] by {
        lemma_schedule_index(s2, c.beneficiary, s.len() as int);
        if b == c.beneficiary {
            assert(schedules_of(s2)[b] == c);
        } else {
            let i = choose|i: int| 0 <= i < s.len() && s[i].beneficiary == b;
            assert(s2[i].beneficiary == b);
            lemma_schedule_index(s2, b, i);
            lemma_schedule_index(s, b, i);
        }
    }
    assert(schedules_of(s2) =~= schedules_of(s).insert(c.beneficiary, c));
}

proof fn lemma_update_schedule(s: Seq<VestingData>, i: int, c: VestingData)
    requires
        distinct_beneficiaries(s),
        0 <= i < s.len(),
        c.beneficiary == s[i].beneficiary,
    ensures
        distinct_beneficiaries(s.update(i, c)),
        schedules_of(s.update(i, c)) == schedules_of(s).insert(c.beneficiary, c),
{
    let s2 = s.update(i, c);
    assert forall|k: int, j: int| 0 <= k < j < s2.len() implies s2[k].beneficiary
        != s2[j].beneficiary by {
        assert(s2[k].beneficiary == s[k].beneficiary);
        assert(s2[j].beneficiary == s[j].beneficiary);
    }
    assert forall|b: Principal| #[trigger] has_schedule(s2, b) implies has_schedule(s, b) by {
        let k = choose|k: int| 0 <= k < s2.len() && s2[k].beneficiary == b;
        assert(s[k].beneficiary == b);
    }
    assert forall|b: Principal| #[trigger] has_schedule(s, b) implies has_schedule(s2, b) by {
        let k = choose|k: int| 0 <= k < s.len() && s[k].beneficiary == b;
        assert(s2[k].beneficiary == b);
    }
    assert forall|b: Principal| #[trigger] has_schedule(s2, b) implies schedules_of(s2)[b]
        == schedules_of(s).insert(c.beneficiary, c)[b] by {
        lemma_schedule_index(s2, c.beneficiary, i);
        if b == c.beneficiary {
            assert(schedules_of(s2)[b] == c);
        } else {
            let k = choose|k: int| 0 <= k < s.len() && s[k].beneficiary == b;
            assert(s2[k].beneficiary == b);
            lemma_schedule_index(s2, b, k);
            lemma_schedule_index(s, b, k);
            assert(s2[k] == s[k]);
        }
    }
    assert(schedules_of(s2) =~= schedules_of(s).insert(c.beneficiary, c));
}

/// The vested amount at `now`, computed without overflow by splitting
/// the quotient: with `total = q * duration + rem`, the proportional
/// share `total * elapsed / duration` equals
/// `q * elapsed + rem * elapsed / duration`, and every intermediate
/// product fits in 128 bits.
fn vested_amount_exec(total: i128, start: u64, duration: u64, now: u64) -> (r: i128)
    requires
        0 < total,
        0 < duration,
    ensures
        r == vested_amount(total as int, start as int, duration as int, now as int),
        0 <= r <= total,
{
    if now < start {
        return 0;
    }
    let elapsed: u64 = now - start;
    if elapsed >= duration {
        return total;
    }
    let t: u128 = total as u128;
    let d: u128 = duration as u128;
    let e: u128 = elapsed as u128;
    let q: u128 = t / d;
    let rem: u128 = t % d;
    proof {
        lemma_fundamental_div_mod(t as int, d as int);
        lemma_mod_bound(t as int, d as int);
        assert((q as int) * (e as int) <= (t as int)) by (nonlinear_arith)
            requires
                (t as int) == (d as int) * (q as int) + (rem as int),
                0 <= (rem as int),
                0 <= (q as int),
                0 <= (e as int),
                (e as int) < (d as int),
        ;
        assert((rem as int) * (e as int) < 0x10000000000000000 * 0x10000000000000000)
            by (nonlinear_arith)
            requires
                0 <= (rem as int),
                (rem as int) < (d as int),
                0 <= (e as int),
                (e as int) < (d as int),
                (d as int) <= 0xffffffffffffffff,
        ;
    }
    let part1: u128 = q * e;
    let part2: u128 = (rem * e) / d;
    proof {
        let ti = t as int;
        let di = d as int;
        let ei = e as int;
        let qi = q as int;
        let ri = rem as int;
        lemma_hoist_over_denominator(ri * ei, qi * ei, d as nat);
        assert(ri * ei + (qi * ei) * di == ti * ei) by (nonlinear_arith)
            requires
                ti == di * qi + ri,
        ;
        assert(ti * ei <= di * ti) by (nonlinear_arith)
            requires
                0 <= ti,
                0 <= ei,
                ei <= di,
        ;
        lemma_div_is_ordered(ti * ei, di * ti, di);
        lemma_div_multiples_vanish(ti, di);
        assert(part1 as int + part2 as int == ti * ei / di);
        assert(part1 as int + part2 as int <= ti);
    }
    let vested: u128 = part1 + part2;
    vested as i128
}

/// The decision `initialize` takes, given whether an admin is already
/// stored: the admin and token to store permanently, or the error.
pub fn initialize_decision(already_initialized: bool, admin: Principal, token: Principal) -> (r:
    Result<(Principal, Principal), VestingError>)
    ensures
        r == if already_initialized {
            Err::<(Principal, Principal), VestingError>(VestingError::AlreadyInitialized)
        } else {
            Ok::<(Principal, Principal), VestingError>((admin, token))
        },
{
    if already_initialized {
        Err(VestingError::AlreadyInitialized)
    } else {
        Ok((admin, token))
    }
}

/// The decision `create_vesting` takes, given the stored facts it
/// depends on: the schedule to commit for `beneficiary`, or the error.
pub fn create_vesting_decision(
    stored_admin: Option<Principal>,
    caller: Principal,
    beneficiary: Principal,
    total_amount: i128,
    start_time: u64,
    duration: u64,
    now: u64,
    already_exists: bool,
) -> (r: Result<VestingData, VestingError>)
    ensures
        r == create_record_spec(
            stored_admin,
            caller,
            beneficiary,
            total_amount,
            start_time,
            duration,
            now,
            already_exists,
        ),
{
    let stored = match stored_admin {
        None => {
            return Err(VestingError::NotInitialized);
        },
        Some(a) => a,
    };
    if caller.id != stored.id {
        return Err(VestingError::Unauthorized);
    }
    if total_amount <= 0 {
        return Err(VestingError::InvalidAmount);
    }
    if duration == 0 {
        return Err(VestingError::InvalidDuration);
    }
    if start_time < now {
        return Err(VestingError::InvalidStartTime);
    }
    if already_exists {
        return Err(VestingError::AlreadyInitialized);
    }
    Ok(VestingData { beneficiary, total_amount, start_time, duration, claimed_amount: 0 })
}

/// The decision `claim` takes, given the schedule under the caller's
/// key: the updated schedule to commit and the amount to transfer, or
/// the error.
pub fn claim_decision(record: Option<&VestingData>, now: u64, available_balance: i128) -> (r:
    Result<(VestingData, i128), VestingError>)
    requires
        record matches Some(rec) ==> schedule_fields_wf(*rec),
    ensures
        r == match record {
            None => Err::<(VestingData, i128), VestingError>(VestingError::VestingNotFound),
            Some(rec) => claim_record_spec(*rec, now, available_balance),
        },
{
    let rec = match record {
        None => {
            return Err(VestingError::VestingNotFound);
        },
        Some(data) => *data,
    };
    let vested: i128 = vested_amount_exec(rec.total_amount, rec.start_time, rec.duration, now);
    let claimable: i128 = vested - rec.claimed_amount;
    if claimable <= 0 {
        return Err(VestingError::NothingToClaim);
    }
    if claimable > available_balance {
        return Err(VestingError::InsufficientBalance);
    }
    let updated = VestingData { claimed_amount: rec.claimed_amount + claimable, ..rec };
    Ok((updated, claimable))
}

/// A vesting wallet instance: the admin slot, the token the wallet
/// pays out, and the schedules created so far, one per beneficiary.
pub struct VestingWalletContract {
    admin: Option<Principal>,
    token: Option<Principal>,
    schedules: Vec<VestingData>,
}

impl View for VestingWalletContract {
    type V = VestingWalletView;

    closed spec fn view(&self) -> VestingWalletView {
        VestingWalletView {
            admin: self.admin,
            token: self.token,
            schedules: schedules_of(self.schedules@),
        }
    }
}

impl VestingWalletContract {
    /// The representation invariant: one schedule per beneficiary, each
    /// satisfying its own invariant, admin and token set together, and
    /// no schedule before initialization.
    pub closed spec fn wf(self) -> bool {
        &&& distinct_beneficiaries(self.schedules@)
        &&& self.admin is None ==> self.schedules@.len() == 0
        &&& (self.admin is Some <==> self.token is Some)
        &&& forall|i: int|
            0 <= i < self.schedules@.len() ==> schedule_fields_wf(#[trigger] self.schedules@[i])
    }

    pub proof fn lemma_wf_view(self)
        requires
            self.wf(),
        ensures
            wallet_wf(self@),
    {
        assert forall|p: Principal| #[trigger] self@.schedules.dom().contains(p) implies self@.schedules[p].beneficiary
            == p && schedule_fields_wf(self@.schedules[p]) by {
            let s = self.schedules@;
            let i = schedule_index(s, p);
            assert(0 <= i < s.len() && s[i].beneficiary == p);
        }
        if self.admin is None {
            assert forall|p: Principal| !(#[trigger] self@.schedules.dom().contains(p)) by {
                assert(self.schedules@.len() == 0);
            }
        }
    }

    /// An empty, uninitialized wallet.
    pub fn new() -> (r: Self)
        ensures
            r.wf(),
            r@.admin is None,
            r@.token is None,
            r@.schedules == Map::<Principal, VestingData>::empty(),
    {
        let r = VestingWalletContract { admin: None, token: None, schedules: Vec::new() };
        proof {
            assert(schedules_of(r.schedules@) =~= Map::<Principal, VestingData>::empty());
        }
        r
    }

    fn find_index(&self, beneficiary: Principal) -> (r: Option<usize>)
        ensures
            match r {
                Some(i) => i < self.schedules@.len() && self.schedules@[i as int].beneficiary
                    == beneficiary && has_schedule(self.schedules@, beneficiary),
                None => !has_schedule(self.schedules@, beneficiary),
            },
    {
        let mut i: usize = 0;
        while i < self.schedules.len()
            invariant
                i <= self.schedules@.len(),
                forall|j: int| 0 <= j < i ==> self.schedules@[j].beneficiary != beneficiary,
            decreases self.schedules@.len() - i,
        {
            if self.schedules[i].beneficiary.id == beneficiary.id {
                return Some(i);
            }
            i += 1;
        }
        None
    }

    /// Store `admin` and the token asset as the wallet's permanent
    /// configuration, once. The caller must present the host's
    /// authentication of `admin` itself.
    pub fn initialize(&mut self, admin: Principal, token: Principal, auth: &AuthProof) -> (r:
        Result<(), VestingError>)
        requires
            old(self).wf(),
            auth.principal == admin,
        ensures
            final(self).wf(),
            final(self)@ == initialize_spec(old(self)@, admin, token).0,
            r == initialize_spec(old(self)@, admin, token).1,
    {
        if self.admin.is_some() {
            return Err(VestingError::AlreadyInitialized);
        }
        self.admin = Some(admin);
        self.token = Some(token);
        proof {
            assert(self@ =~= initialize_spec(old(self)@, admin, token).0);
        }
        Ok(())
    }

    /// Create the schedule for `beneficiary`, once. Only the stored
    /// admin may do so, and the caller must present the host's
    /// authentication of `admin`.
    pub fn create_vesting(
        &mut self,
        admin: Principal,
        beneficiary: Principal,
        total_amount: i128,
        start_time: u64,
        duration: u64,
        now: u64,
        auth: &AuthProof,
    ) -> (r: Result<(), VestingError>)
        requires
            old(self).wf(),
            auth.principal == admin,
        ensures
            final(self).wf(),
            final(self)@ == create_vesting_spec(
                old(self)@,
                admin,
                beneficiary,
                total_amount,
                start_time,
                duration,
                now,
            ).0,
            r == create_vesting_spec(
                old(self)@,
                admin,
                beneficiary,
                total_amount,
                start_time,
                duration,
                now,
            ).1,
    {
        let idx = self.find_index(beneficiary);
        let decision = create_vesting_decision(
            self.admin,
            admin,
            beneficiary,
            total_amount,
            start_time,
            duration,
            now,
            idx.is_some(),
        );
        match decision {
            Err(e) => Err(e),
            Ok(rec) => {
                proof {
                    lemma_push_schedule(self.schedules@, rec);
                }
                self.schedules.push(rec);
                proof {
                    assert(self@ =~= create_vesting_spec(
                        old(self)@,
                        admin,
                        beneficiary,
                        total_amount,
                        start_time,
                        duration,
                        now,
                    ).0);
                }
                Ok(())
            },
        }
    }

    /// Release to `beneficiary` whatever has vested and was not claimed
    /// yet. `available_balance` is the wallet's current token balance;
    /// the returned amount is what the host must transfer. The caller
    /// must present the host's authentication of `beneficiary`.
    pub fn claim(
        &mut self,
        beneficiary: Principal,
        now: u64,
        available_balance: i128,
        auth: &AuthProof,
    ) -> (r: Result<i128, VestingError>)
        requires
            old(self).wf(),
            auth.principal == beneficiary,
        ensures
            final(self).wf(),
            final(self)@ == claim_spec(old(self)@, beneficiary, now, available_balance).0,
            r == claim_spec(old(self)@, beneficiary, now, available_balance).1,
    {
        let idx = self.find_index(beneficiary);
        let decision = match idx {
            Some(i) => claim_decision(Some(&self.schedules[i]), now, available_balance),
            None => claim_decision(None, now, available_balance),
        };
        match (decision, idx) {
            (Err(e), Some(i)) => {
                proof {
                    lemma_schedule_index(self.schedules@, beneficiary, i as int);
                }
                Err(e)
            },
            (Err(e), None) => Err(e),
            (Ok((updated, amount)), Some(i)) => {
                let ghost s_old = self.schedules@;
                proof {
                    lemma_schedule_index(s_old, beneficiary, i as int);
                    lemma_update_schedule(s_old, i as int, updated);
                    let rec = s_old[i as int];
                    lemma_vested_bounds(
                        rec.total_amount as int,
                        rec.start_time as int,
                        rec.duration as int,
                        now as int,
                    );
                }
                self.schedules.remove(i);
                self.schedules.insert(i, updated);
                proof {
                    assert(self.schedules@ =~= s_old.update(i as int, updated));
                    assert(self@ =~= claim_spec(old(self)@, beneficiary, now, available_balance).0);
                }
                Ok(amount)
            },
            (Ok(_), None) => {
                proof {
                    assert(false);
                }
                Err(VestingError::VestingNotFound)
            },
        }
    }

    /// Read the schedule under `beneficiary`. Schedule data is public:
    /// no authorization is needed.
    pub fn get_vesting(&self, beneficiary: Principal) -> (r: Result<VestingData, VestingError>)
        requires
            self.wf(),
        ensures
            r == get_vesting_spec(self@, beneficiary),
    {
        match self.find_index(beneficiary) {
            None => Err(VestingError::VestingNotFound),
            Some(i) => {
                proof {
                    lemma_schedule_index(self.schedules@, beneficiary, i as int);
                }
                Ok(self.schedules[i])
            },
        }
    }
}

/// Claiming never lowers a schedule's claimed amount, never pushes it
/// past the total, never touches another beneficiary's schedule, and
/// preserves well-formedness.
pub proof fn lemma_claim_monotone(
    v: VestingWalletView,
    beneficiary: Principal,
    now: u64,
    available_balance: i128,
)
    requires
        wallet_wf(v),
    ensures
        wallet_wf(claim_spec(v, beneficiary, now, available_balance).0),
        forall|p: Principal|
            #[trigger] claim_spec(v, beneficiary, now, available_balance).0.schedules.dom().contains(
                p,
            ) <==> v.schedules.dom().contains(p),
        forall|p: Principal| #[trigger] v.schedules.dom().contains(p) ==> {
            let before = v.schedules[p];
            let after = claim_spec(v, beneficiary, now, available_balance).0.schedules[p];
            &&& after.claimed_amount >= before.claimed_amount
            &&& after.claimed_amount <= after.total_amount
            &&& after.total_amount == before.total_amount
            &&& after.start_time == before.start_time
            &&& after.duration == before.duration
            &&& after.beneficiary == before.beneficiary
            &&& (p != beneficiary ==> after == before)
        },
{
    if v.schedules.dom().contains(beneficiary) {
        let rec = v.schedules[beneficiary];
        lemma_vested_bounds(
            rec.total_amount as int,
            rec.start_time as int,
            rec.duration as int,
            now as int,
        );
    }
}

/// A claim strictly before the schedule's start always fails with
/// `NothingToClaim` and changes nothing.
pub proof fn lemma_claim_before_start(
    v: VestingWalletView,
    beneficiary: Principal,
    now: u64,
    available_balance: i128,
)
    requires
        wallet_wf(v),
        v.schedules.dom().contains(beneficiary),
        now < v.schedules[beneficiary].start_time,
    ensures
        claim_spec(v, beneficiary, now, available_balance).0 == v,
        claim_spec(v, beneficiary, now, available_balance).1 == Err::<i128, VestingError>(
            VestingError::NothingToClaim,
        ),
{
}

/// A claim at or after the end of the vesting period, with nothing
/// claimed yet and a covering balance, releases exactly the schedule's
/// total.
pub proof fn lemma_claim_fully_vested(
    v: VestingWalletView,
    beneficiary: Principal,
    now: u64,
    available_balance: i128,
)
    requires
        wallet_wf(v),
        v.schedules.dom().contains(beneficiary),
        v.schedules[beneficiary].claimed_amount == 0,
        now >= v.schedules[beneficiary].start_time + v.schedules[beneficiary].duration,
        available_balance >= v.schedules[beneficiary].total_amount,
    ensures
        claim_spec(v, beneficiary, now, available_balance).1 == Ok::<i128, VestingError>(
            v.schedules[beneficiary].total_amount,
        ),
        claim_spec(v, beneficiary, now, available_balance).0.schedules[beneficiary].claimed_amount
            == v.schedules[beneficiary].total_amount,
{
}

/// Once a schedule is fully claimed it is terminal: every further claim
/// fails with `NothingToClaim` and changes nothing.
pub proof fn lemma_claim_terminal(
    v: VestingWalletView,
    beneficiary: Principal,
    now: u64,
    available_balance: i128,
)
    requires
        wallet_wf(v),
        v.schedules.dom().contains(beneficiary),
        v.schedules[beneficiary].claimed_amount == v.schedules[beneficiary].total_amount,
    ensures
        claim_spec(v, beneficiary, now, available_balance).0 == v,
        claim_spec(v, beneficiary, now, available_balance).1 == Err::<i128, VestingError>(
            VestingError::NothingToClaim,
        ),
{
    let rec = v.schedules[beneficiary];
    lemma_vested_bounds(
        rec.total_amount as int,
        rec.start_time as int,
        rec.duration as int,
        now as int,
    );
}

} // verus!
