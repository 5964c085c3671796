use ledger_registries::principal::{AuthProof, Principal};
use ledger_registries::vesting::{
    claim_decision, create_vesting_decision, initialize_decision, VestingData, VestingError,
    VestingWalletContract,
};

#[test]
fn vesting_initialize_once() {
    let mut w = VestingWalletContract::new();
    let a = Principal { id: 1 };
    let b = Principal { id: 2 };
    let token = Principal { id: 9 };
    assert_eq!(w.initialize(a, token, &AuthProof { principal: a }), Ok(()));
    assert_eq!(
        w.initialize(b, token, &AuthProof { principal: b }),
        Err(VestingError::AlreadyInitialized)
    );
}

#[test]
fn create_before_initialize_fails() {
    let mut w = VestingWalletContract::new();
    let a = Principal { id: 1 };
    let x = Principal { id: 7 };
    let r = w.create_vesting(a, x, 1000, 100, 100, 50, &AuthProof { principal: a });
    assert_eq!(r, Err(VestingError::NotInitialized));
}

#[test]
fn create_by_non_admin_unauthorized() {
    let mut w = VestingWalletContract::new();
    let a = Principal { id: 1 };
    let b = Principal { id: 2 };
    let x = Principal { id: 7 };
    w.initialize(a, Principal { id: 9 }, &AuthProof { principal: a }).unwrap();
    let r = w.create_vesting(b, x, 1000, 100, 100, 50, &AuthProof { principal: b });
    assert_eq!(r, Err(VestingError::Unauthorized));
}

#[test]
fn create_rejects_bad_parameters() {
    let mut w = VestingWalletContract::new();
    let a = Principal { id: 1 };
    let x = Principal { id: 7 };
    w.initialize(a, Principal { id: 9 }, &AuthProof { principal: a }).unwrap();
    let auth = AuthProof { principal: a };
    assert_eq!(w.create_vesting(a, x, 0, 100, 100, 50, &auth), Err(VestingError::InvalidAmount));
    assert_eq!(w.create_vesting(a, x, -5, 100, 100, 50, &auth), Err(VestingError::InvalidAmount));
    assert_eq!(w.create_vesting(a, x, 1000, 100, 0, 50, &auth), Err(VestingError::InvalidDuration));
    assert_eq!(
        w.create_vesting(a, x, 1000, 40, 100, 50, &auth),
        Err(VestingError::InvalidStartTime)
    );
    assert_eq!(w.get_vesting(x), Err(VestingError::VestingNotFound));
}

#[test]
fn create_twice_for_same_beneficiary_fails() {
    let mut w = VestingWalletContract::new();
    let a = Principal { id: 1 };
    let x = Principal { id: 7 };
    w.initialize(a, Principal { id: 9 }, &AuthProof { principal: a }).unwrap();
    let auth = AuthProof { principal: a };
    assert_eq!(w.create_vesting(a, x, 1000, 100, 100, 50, &auth), Ok(()));
    assert_eq!(
        w.create_vesting(a, x, 500, 200, 10, 50, &auth),
        Err(VestingError::AlreadyInitialized)
    );
    let rec = w.get_vesting(x).unwrap();
    assert_eq!(rec.total_amount, 1000);
    assert_eq!(rec.start_time, 100);
    assert_eq!(rec.duration, 100);
    assert_eq!(rec.claimed_amount, 0);
}

#[test]
fn claim_without_schedule_fails() {
    let mut w = VestingWalletContract::new();
    let x = Principal { id: 7 };
    let r = w.claim(x, 100, 100000, &AuthProof { principal: x });
    assert_eq!(r, Err(VestingError::VestingNotFound));
}

#[test]
fn claim_before_start_nothing_to_claim() {
    let mut w = VestingWalletContract::new();
    let a = Principal { id: 1 };
    let x = Principal { id: 7 };
    w.initialize(a, Principal { id: 9 }, &AuthProof { principal: a }).unwrap();
    w.create_vesting(a, x, 1000, 100, 100, 50, &AuthProof { principal: a }).unwrap();
    let r = w.claim(x, 60, 100000, &AuthProof { principal: x });
    assert_eq!(r, Err(VestingError::NothingToClaim));
    assert_eq!(w.get_vesting(x).unwrap().claimed_amount, 0);
}

#[test]
fn claim_after_full_vesting_releases_total_once() {
    let mut w = VestingWalletContract::new();
    let a = Principal { id: 1 };
    let x = Principal { id: 7 };
    w.initialize(a, Principal { id: 9 }, &AuthProof { principal: a }).unwrap();
    w.create_vesting(a, x, 1000, 100, 100, 50, &AuthProof { principal: a }).unwrap();
    let r = w.claim(x, 200, 1000, &AuthProof { principal: x });
    assert_eq!(r, Ok(1000));
    assert_eq!(w.get_vesting(x).unwrap().claimed_amount, 1000);
    let again = w.claim(x, 300, 100000, &AuthProof { principal: x });
    assert_eq!(again, Err(VestingError::NothingToClaim));
    assert_eq!(w.get_vesting(x).unwrap().claimed_amount, 1000);
}

#[test]
fn partial_claims_are_linear_and_monotone() {
    let mut w = VestingWalletContract::new();
    let a = Principal { id: 1 };
    let x = Principal { id: 7 };
    w.initialize(a, Principal { id: 9 }, &AuthProof { principal: a }).unwrap();
    w.create_vesting(a, x, 1000, 100, 100, 50, &AuthProof { principal: a }).unwrap();
    let r1 = w.claim(x, 137, 100000, &AuthProof { principal: x });
    assert_eq!(r1, Ok(370));
    assert_eq!(w.get_vesting(x).unwrap().claimed_amount, 370);
    let r2 = w.claim(x, 150, 100000, &AuthProof { principal: x });
    assert_eq!(r2, Ok(130));
    assert_eq!(w.get_vesting(x).unwrap().claimed_amount, 500);
    let r3 = w.claim(x, 150, 100000, &AuthProof { principal: x });
    assert_eq!(r3, Err(VestingError::NothingToClaim));
}

#[test]
fn claim_with_insufficient_balance_fails_and_changes_nothing() {
    let mut w = VestingWalletContract::new();
    let a = Principal { id: 1 };
    let x = Principal { id: 7 };
    w.initialize(a, Principal { id: 9 }, &AuthProof { principal: a }).unwrap();
    w.create_vesting(a, x, 1000, 100, 100, 50, &AuthProof { principal: a }).unwrap();
    let r = w.claim(x, 137, 100, &AuthProof { principal: x });
    assert_eq!(r, Err(VestingError::InsufficientBalance));
    assert_eq!(w.get_vesting(x).unwrap().claimed_amount, 0);
}

#[test]
fn vested_share_is_floored() {
    let mut w = VestingWalletContract::new();
    let a = Principal { id: 1 };
    let x = Principal { id: 7 };
    w.initialize(a, Principal { id: 9 }, &AuthProof { principal: a }).unwrap();
    w.create_vesting(a, x, 10, 0, 3, 0, &AuthProof { principal: a }).unwrap();
    let r = w.claim(x, 1, 100, &AuthProof { principal: x });
    assert_eq!(r, Ok(3));
    let r2 = w.claim(x, 2, 100, &AuthProof { principal: x });
    assert_eq!(r2, Ok(3));
    let r3 = w.claim(x, 3, 100, &AuthProof { principal: x });
    assert_eq!(r3, Ok(4));
    assert_eq!(w.get_vesting(x).unwrap().claimed_amount, 10);
}

#[test]
fn claim_handles_large_schedules_without_overflow() {
    let mut w = VestingWalletContract::new();
    let a = Principal { id: 1 };
    let x = Principal { id: 7 };
    w.initialize(a, Principal { id: 9 }, &AuthProof { principal: a }).unwrap();
    let total: i128 = i128::MAX;
    let duration: u64 = u64::MAX;
    w.create_vesting(a, x, total, 0, duration, 0, &AuthProof { principal: a }).unwrap();
    let r = w.claim(x, u64::MAX / 2, total, &AuthProof { principal: x });
    let amount = r.unwrap();
    assert!(amount > 0);
    assert!(amount < total);
    assert_eq!(w.get_vesting(x).unwrap().claimed_amount, amount);
    let rest = w.claim(x, u64::MAX, total, &AuthProof { principal: x }).unwrap();
    assert_eq!(amount + rest, total);
}

#[test]
fn vesting_initialize_decision_matches_slot_state() {
    let a = Principal { id: 1 };
    let t = Principal { id: 9 };
    assert_eq!(initialize_decision(false, a, t), Ok((a, t)));
    assert_eq!(initialize_decision(true, a, t), Err(VestingError::AlreadyInitialized));
}

#[test]
fn create_vesting_decision_orders_its_checks() {
    let a = Principal { id: 1 };
    let b = Principal { id: 2 };
    let x = Principal { id: 7 };
    assert_eq!(
        create_vesting_decision(None, a, x, 1000, 100, 100, 50, false),
        Err(VestingError::NotInitialized)
    );
    assert_eq!(
        create_vesting_decision(Some(a), b, x, 0, 100, 0, 50, true),
        Err(VestingError::Unauthorized)
    );
    assert_eq!(
        create_vesting_decision(Some(a), a, x, 0, 100, 0, 50, true),
        Err(VestingError::InvalidAmount)
    );
    assert_eq!(
        create_vesting_decision(Some(a), a, x, 1000, 100, 0, 50, true),
        Err(VestingError::InvalidDuration)
    );
    assert_eq!(
        create_vesting_decision(Some(a), a, x, 1000, 40, 100, 50, true),
        Err(VestingError::InvalidStartTime)
    );
    assert_eq!(
        create_vesting_decision(Some(a), a, x, 1000, 100, 100, 50, true),
        Err(VestingError::AlreadyInitialized)
    );
    let rec = create_vesting_decision(Some(a), a, x, 1000, 100, 100, 50, false).unwrap();
    assert_eq!(rec.beneficiary, x);
    assert_eq!(rec.total_amount, 1000);
    assert_eq!(rec.start_time, 100);
    assert_eq!(rec.duration, 100);
    assert_eq!(rec.claimed_amount, 0);
}

#[test]
fn claim_decision_computes_transfer_and_new_record() {
    let x = Principal { id: 7 };
    assert_eq!(claim_decision(None, 100, 100000), Err(VestingError::VestingNotFound));
    let rec = VestingData {
        beneficiary: x,
        total_amount: 1000,
        start_time: 100,
        duration: 100,
        claimed_amount: 200,
    };
    let (updated, amount) = claim_decision(Some(&rec), 137, 100000).unwrap();
    assert_eq!(amount, 170);
    assert_eq!(updated.claimed_amount, 370);
    assert_eq!(updated.total_amount, 1000);
    assert_eq!(claim_decision(Some(&rec), 110, 100000), Err(VestingError::NothingToClaim));
    assert_eq!(claim_decision(Some(&rec), 137, 100), Err(VestingError::InsufficientBalance));
}
