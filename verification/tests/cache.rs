use contract_conformance_guard::cache::{
    contract_key, first_lock_step, first_write_step, lock_key, next_lock_step, next_refresh_step, next_write_step,
    LockOutcome, LockReply, LockStep, RefreshReply, RefreshStep, StoreReply, WriteReply, WriteStep,
    CAS_MAX_RETRIES, REFRESH_LOCK_TTL_SECONDS,
};
use contract_conformance_guard::cdgc::{CachedContract, RefreshLock};
use contract_conformance_guard::conformance::ContractField;
use contract_conformance_guard::fetch::Identity;

const STORED: StoreReply = StoreReply::Stored;
const MISMATCH: StoreReply = StoreReply::Mismatch;
const FAILED: StoreReply = StoreReply::Failed;

fn cached(timestamp: i64) -> Option<CachedContract> {
    Some(CachedContract {
        fields: Vec::new(),
        name: Some("cached".to_string()),
        external_id: None,
        timestamp,
    })
}

fn served(step: RefreshStep) -> (Option<(Option<String>, i64)>, bool) {
    match step {
        RefreshStep::Finish { contract, store } => {
            (contract.map(|c| (c.name, c.timestamp)), store)
        }
        _ => panic!("not finished"),
    }
}

#[test]
fn keys_have_a_prefix() {
    assert_eq!(contract_key("a-1"), "ccg-contract-a-1");
    assert_eq!(lock_key("a-1"), "ccg-lock-a-1");
    assert_eq!(REFRESH_LOCK_TTL_SECONDS, 30);
    assert_eq!(CAS_MAX_RETRIES, 3);
}

fn lock(acquired_at: i64) -> RefreshLock {
    RefreshLock { acquired_at }
}

fn read_lock() -> LockStep {
    next_lock_step(first_lock_step(100), LockReply::Write(MISMATCH))
}

fn found(acquired_at: i64) -> LockReply {
    LockReply::Found(Some((lock(acquired_at), "v7".to_string())))
}

#[test]
fn a_free_lock_is_taken() {
    assert_eq!(first_lock_step(100), LockStep::Insert { entry: lock(100) });
    assert_eq!(
        next_lock_step(first_lock_step(100), LockReply::Write(STORED)),
        LockStep::Finish(LockOutcome::Acquired)
    );
    assert_eq!(
        next_lock_step(first_lock_step(100), LockReply::Write(FAILED)),
        LockStep::Finish(LockOutcome::Failed)
    );
}

#[test]
fn a_held_lock_is_taken_over_after_its_time() {
    assert_eq!(read_lock(), LockStep::Read { entry: lock(100) });
    assert_eq!(next_lock_step(read_lock(), found(71)), LockStep::Finish(LockOutcome::Denied));
    assert_eq!(
        next_lock_step(read_lock(), found(70)),
        LockStep::Replace { entry: lock(100), version: "v7".to_string() }
    );
    assert_eq!(next_lock_step(read_lock(), found(500)), LockStep::Finish(LockOutcome::Denied));
    assert_eq!(
        next_lock_step(read_lock(), LockReply::Found(None)),
        LockStep::InsertAgain { entry: lock(100) }
    );
    assert_eq!(
        next_lock_step(read_lock(), LockReply::ReadFailed),
        LockStep::Finish(LockOutcome::Failed)
    );
    for (reply, outcome) in [
        (STORED, LockOutcome::Acquired),
        (MISMATCH, LockOutcome::Denied),
        (FAILED, LockOutcome::Failed),
    ] {
        let replace = LockStep::Replace { entry: lock(100), version: "v7".to_string() };
        assert_eq!(next_lock_step(replace, LockReply::Write(reply)), LockStep::Finish(outcome));
        let insert = LockStep::InsertAgain { entry: lock(100) };
        assert_eq!(next_lock_step(insert, LockReply::Write(reply)), LockStep::Finish(outcome));
    }
}

#[test]
fn a_lost_write_is_tried_three_times() {
    let mut step = first_write_step();
    let mut writes = 0;
    while step != WriteStep::Finish {
        step = match &step {
            WriteStep::Read { .. } => {
                let version = if writes > 0 { Some(format!("v{writes}")) } else { None };
                next_write_step(step, WriteReply::Found(version))
            }
            _ => {
                writes += 1;
                next_write_step(step, WriteReply::Write(MISMATCH))
            }
        };
    }
    assert_eq!(writes, 3);
}

#[test]
fn a_write_ends_when_it_is_done_or_fails() {
    assert_eq!(first_write_step(), WriteStep::Read { left: 3 });
    assert_eq!(
        next_write_step(first_write_step(), WriteReply::Found(Some("v1".to_string()))),
        WriteStep::Replace { left: 3, version: "v1".to_string() }
    );
    assert_eq!(
        next_write_step(first_write_step(), WriteReply::Found(None)),
        WriteStep::Insert { left: 3 }
    );
    assert_eq!(next_write_step(first_write_step(), WriteReply::ReadFailed), WriteStep::Finish);
    let replace = || WriteStep::Replace { left: 2, version: "v1".to_string() };
    let insert = || WriteStep::Insert { left: 2 };
    for (reply, next) in [(STORED, None), (FAILED, None), (MISMATCH, Some(1))] {
        let next = || match next {
            Some(left) => WriteStep::Read { left },
            None => WriteStep::Finish,
        };
        assert_eq!(next_write_step(replace(), WriteReply::Write(reply)), next());
        assert_eq!(next_write_step(insert(), WriteReply::Write(reply)), next());
    }
}

#[test]
fn a_fresh_contract_is_served_from_the_cache() {
    let step =
        next_refresh_step(RefreshStep::ReadCache, RefreshReply::Cached(cached(900)), 999, 100, true);
    assert_eq!(served(step), (Some((Some("cached".to_string()), 900)), false));
    let step =
        next_refresh_step(RefreshStep::ReadCache, RefreshReply::Cached(cached(900)), 1000, 100, true);
    assert!(matches!(step, RefreshStep::Lock { cached: Some(_) }));
    let step =
        next_refresh_step(RefreshStep::ReadCache, RefreshReply::Cached(None), 1000, 100, true);
    assert!(matches!(step, RefreshStep::Lock { cached: None }));
}

#[test]
fn one_replica_refreshes_and_the_others_serve_what_is_there() {
    let lock = || RefreshStep::Lock { cached: cached(1) };
    let step =
        next_refresh_step(lock(), RefreshReply::Lock(LockOutcome::Denied), 1000, 100, true);
    assert_eq!(served(step), (Some((Some("cached".to_string()), 1)), false));
    for outcome in [LockOutcome::Acquired, LockOutcome::Failed] {
        let step = next_refresh_step(lock(), RefreshReply::Lock(outcome), 1000, 100, true);
        assert!(matches!(step, RefreshStep::Fetch { cached: Some(_) }));
    }
}

#[test]
fn a_fetched_contract_is_stamped_and_stored() {
    let field = ContractField {
        name: "sku".to_string(),
        ftype: None,
        required: true,
        sensitive: false,
        term: None,
    };
    let identity =
        Identity { name: Some("n".to_string()), external_id: Some("e".to_string()) };
    let step = next_refresh_step(
        RefreshStep::Fetch { cached: cached(1) },
        RefreshReply::Fetched(Some((vec![field.clone()], identity))),
        1000,
        100,
        false,
    );
    match step {
        RefreshStep::Finish { contract: Some(c), store: true } => {
            assert_eq!(c.fields, vec![field]);
            assert_eq!(c.name.as_deref(), Some("n"));
            assert_eq!(c.external_id.as_deref(), Some("e"));
            assert_eq!(c.timestamp, 1000);
        }
        _ => panic!("not stored"),
    }
}

#[test]
fn a_catalog_error_serves_the_last_known_contract() {
    let fetch = || RefreshStep::Fetch { cached: cached(1) };
    let step = next_refresh_step(fetch(), RefreshReply::Fetched(None), 1000, 100, true);
    assert_eq!(served(step), (Some((Some("cached".to_string()), 1)), false));
    let step = next_refresh_step(fetch(), RefreshReply::Fetched(None), 1000, 100, false);
    assert_eq!(served(step), (None, false));
}
