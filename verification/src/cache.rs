//! Contract cache: lazy refresh by one replica at a time.
//!
//! Each operation on the shared store is a step; what the store replies decides
//! the next one. The caller performs the operations.

use crate::cdgc::{CachedContract, RefreshLock};
use crate::conformance::ContractField;
use crate::fetch::Identity;
use vstd::prelude::*;

verus! {

/// Seconds after which a refresh lock may be taken over.
pub const REFRESH_LOCK_TTL_SECONDS: i64 = 30;

/// How often a write that lost a race is tried.
pub const CAS_MAX_RETRIES: u32 = 3;

/// The cache key of an asset's contract.
pub fn contract_key(asset_id: &str) -> (r: String)
    ensures
        r@ == "ccg-contract-"@ + asset_id@,
{
    let mut key: String = "ccg-contract-".to_owned();
    key.append(asset_id);
    key
}

/// The key of an asset's refresh lock.
pub fn lock_key(asset_id: &str) -> (r: String)
    ensures
        r@ == "ccg-lock-"@ + asset_id@,
{
    let mut key: String = "ccg-lock-".to_owned();
    key.append(asset_id);
    key
}

/// What the store replies to a conditional write.
#[derive(Debug, Clone, Copy, PartialEq, Eq, Structural)]
pub enum StoreReply {
    Stored,
    /// Another replica wrote first.
    Mismatch,
    Failed,
}

/// `now - then` is a number that `i64` can hold.
pub open spec fn age_fits(now: i64, then: i64) -> bool {
    i64::MIN <= now - then <= i64::MAX
}

// ---- refresh lock ----

/// How the attempt to take the lock ended.
#[derive(Debug, Clone, Copy, PartialEq, Eq, Structural)]
pub enum LockOutcome {
    Acquired,
    Denied,
    Failed,
}

/// The next operation of the attempt to take the lock with `entry`.
#[derive(Debug, PartialEq)]
pub enum LockStep {
    /// Write the entry where there is none.
    Insert { entry: RefreshLock },
    /// Read the lock that was in the way.
    Read { entry: RefreshLock },
    /// Write the entry in place of the lock that was read, if the store still has
    /// it in this version.
    Replace { entry: RefreshLock, version: String },
    /// Write the entry where there is none any more.
    InsertAgain { entry: RefreshLock },
    Finish(LockOutcome),
}

/// What the store replies to a lock operation.
#[derive(Debug, PartialEq)]
pub enum LockReply {
    Write(StoreReply),
    /// The lock that was read and its version.
    Found(Option<(RefreshLock, String)>),
    ReadFailed,
}

/// The reply is one to the operation.
pub open spec fn answers_lock(step: LockStep, reply: LockReply) -> bool {
    match step {
        LockStep::Insert { .. } => reply is Write,
        LockStep::Read { .. } => !(reply is Write),
        LockStep::Replace { .. } => reply is Write,
        LockStep::InsertAgain { .. } => reply is Write,
        LockStep::Finish(_) => false,
    }
}

/// The lock is younger than its time to live at `now`.
pub open spec fn held(lock: RefreshLock, now: i64) -> bool {
    now - lock.acquired_at < REFRESH_LOCK_TTL_SECONDS
}

/// The operation that follows a reply: a lost race for a free lock is followed by
/// reading the lock, a lock that is read and not held any more by replacing that
/// version of it, and every other reply ends the attempt.
pub open spec fn lock_after(step: LockStep, reply: LockReply) -> LockStep {
    match (step, reply) {
        (_, LockReply::Write(StoreReply::Stored)) => LockStep::Finish(LockOutcome::Acquired),
        (_, LockReply::Write(StoreReply::Failed)) => LockStep::Finish(LockOutcome::Failed),
        (LockStep::Insert { entry }, LockReply::Write(StoreReply::Mismatch)) => LockStep::Read {
            entry,
        },
        (_, LockReply::Write(StoreReply::Mismatch)) => LockStep::Finish(LockOutcome::Denied),
        (LockStep::Read { entry }, LockReply::Found(Some((lock, version)))) => if held(
            lock,
            entry.acquired_at,
        ) {
            LockStep::Finish(LockOutcome::Denied)
        } else {
            LockStep::Replace { entry, version }
        },
        (LockStep::Read { entry }, LockReply::Found(None)) => LockStep::InsertAgain { entry },
        _ => LockStep::Finish(LockOutcome::Failed),
    }
}

/// The first operation of the attempt to take the lock at `now`.
pub fn first_lock_step(now: i64) -> (r: LockStep)
    ensures
        r == (LockStep::Insert { entry: RefreshLock { acquired_at: now } }),
{
    LockStep::Insert { entry: RefreshLock { acquired_at: now } }
}

/// The operation that follows a reply.
pub fn next_lock_step(step: LockStep, reply: LockReply) -> (r: LockStep)
    requires
        answers_lock(step, reply),
        step matches LockStep::Read { entry } ==> (reply matches LockReply::Found(Some((lock, _)))
            ==> age_fits(entry.acquired_at, lock.acquired_at)),
    ensures
        r == lock_after(step, reply),
{
    match (step, reply) {
        (_, LockReply::Write(StoreReply::Stored)) => LockStep::Finish(LockOutcome::Acquired),
        (_, LockReply::Write(StoreReply::Failed)) => LockStep::Finish(LockOutcome::Failed),
        (LockStep::Insert { entry }, LockReply::Write(StoreReply::Mismatch)) => {
            LockStep::Read { entry }
        },
        (_, LockReply::Write(StoreReply::Mismatch)) => LockStep::Finish(LockOutcome::Denied),
        (LockStep::Read { entry }, LockReply::Found(Some((lock, version)))) => {
            if entry.acquired_at - lock.acquired_at < REFRESH_LOCK_TTL_SECONDS {
                LockStep::Finish(LockOutcome::Denied)
            } else {
                LockStep::Replace { entry, version }
            }
        },
        (LockStep::Read { entry }, LockReply::Found(None)) => LockStep::InsertAgain { entry },
        _ => LockStep::Finish(LockOutcome::Failed),
    }
}

/// The operations that an attempt to take the lock may still need.
pub open spec fn lock_steps_left(step: LockStep) -> nat {
    match step {
        LockStep::Insert { .. } => 3,
        LockStep::Read { .. } => 2,
        LockStep::Replace { .. } => 1,
        LockStep::InsertAgain { .. } => 1,
        LockStep::Finish(_) => 0,
    }
}

/// The entry that an attempt writes.
pub open spec fn lock_entry(step: LockStep) -> Option<RefreshLock> {
    match step {
        LockStep::Insert { entry } => Some(entry),
        LockStep::Read { entry } => Some(entry),
        LockStep::Replace { entry, .. } => Some(entry),
        LockStep::InsertAgain { entry } => Some(entry),
        LockStep::Finish(_) => None,
    }
}

/// Single flight: the lock is acquired exactly when the store took a write of
/// it; only a lock that is not held any more is replaced, and only in the version
/// that was read; an attempt writes one and the same entry, and ends after at
/// most three operations.
pub proof fn lock_law(step: LockStep, reply: LockReply)
    requires
        answers_lock(step, reply),
    ensures
        lock_after(step, reply) == LockStep::Finish(LockOutcome::Acquired) <==> reply
            == LockReply::Write(StoreReply::Stored),
        lock_after(step, reply) matches LockStep::Replace { entry, version } ==> (
        reply matches LockReply::Found(Some((lock, seen))) && version == seen && !held(
            lock,
            entry.acquired_at,
        )),
        lock_after(step, reply) is Replace <==> (reply matches LockReply::Found(Some((lock, _)))
            && !held(lock, lock_entry(step)->0.acquired_at)),
        lock_entry(lock_after(step, reply)) matches Some(entry) ==> lock_entry(step) == Some(entry),
        lock_steps_left(lock_after(step, reply)) < lock_steps_left(step) <= 3,
{
}

// ---- writing the cache ----

/// The next operation of writing a contract to the cache. `left` counts the
/// tries, this one included.
#[derive(Debug, PartialEq)]
pub enum WriteStep {
    /// Read the entry that is there.
    Read { left: u32 },
    /// Write in place of the entry that was read, if the store still has it in
    /// this version.
    Replace { left: u32, version: String },
    /// Write where no entry was found.
    Insert { left: u32 },
    Finish,
}

/// What the store replies to a cache operation.
#[derive(Debug, PartialEq)]
pub enum WriteReply {
    /// The version of the entry that is there.
    Found(Option<String>),
    ReadFailed,
    Write(StoreReply),
}

/// The reply is one to the operation, which is one of the tries.
pub open spec fn answers_write(step: WriteStep, reply: WriteReply) -> bool {
    match step {
        WriteStep::Read { left } => left > 0 && !(reply is Write),
        WriteStep::Replace { left, .. } => left > 0 && reply is Write,
        WriteStep::Insert { left } => left > 0 && reply is Write,
        WriteStep::Finish => false,
    }
}

/// The tries that are left at an operation, this one included.
pub open spec fn tries_left(step: WriteStep) -> u32 {
    match step {
        WriteStep::Read { left } => left,
        WriteStep::Replace { left, .. } => left,
        WriteStep::Insert { left } => left,
        WriteStep::Finish => 0,
    }
}

/// The operation that follows a reply: what was read is replaced in the version
/// that was read, a lost race is tried again while tries are left, and every
/// other reply ends the write.
pub open spec fn write_after(step: WriteStep, reply: WriteReply) -> WriteStep {
    let left = tries_left(step);
    match reply {
        WriteReply::Found(Some(version)) => WriteStep::Replace { left, version },
        WriteReply::Found(None) => WriteStep::Insert { left },
        WriteReply::Write(StoreReply::Mismatch) => if left > 1 {
            WriteStep::Read { left: (left - 1) as u32 }
        } else {
            WriteStep::Finish
        },
        _ => WriteStep::Finish,
    }
}

/// The first operation of writing a contract to the cache.
pub fn first_write_step() -> (r: WriteStep)
    ensures
        r == (WriteStep::Read { left: CAS_MAX_RETRIES }),
{
    WriteStep::Read { left: CAS_MAX_RETRIES }
}

/// The operation that follows a reply.
pub fn next_write_step(step: WriteStep, reply: WriteReply) -> (r: WriteStep)
    requires
        answers_write(step, reply),
    ensures
        r == write_after(step, reply),
{
    let left: u32 = match step {
        WriteStep::Read { left } => left,
        WriteStep::Replace { left, .. } => left,
        WriteStep::Insert { left } => left,
        WriteStep::Finish => 0,
    };
    match reply {
        WriteReply::Found(Some(version)) => WriteStep::Replace { left, version },
        WriteReply::Found(None) => WriteStep::Insert { left },
        WriteReply::Write(StoreReply::Mismatch) => if left > 1 {
            WriteStep::Read { left: left - 1 }
        } else {
            WriteStep::Finish
        },
        _ => WriteStep::Finish,
    }
}

/// A cache write ends: each reply uses up a try or moves on within one, and
/// only a lost race starts another. Every operation that follows has a try left.
/// An entry is replaced only in the version that was just read, and inserted only
/// where none was found.
pub proof fn write_law(step: WriteStep, reply: WriteReply)
    requires
        answers_write(step, reply),
    ensures
        2 * tries_left(write_after(step, reply)) + (if write_after(step, reply) is Read {
            1int
        } else {
            0
        }) < 2 * tries_left(step) + (if step is Read {
            1int
        } else {
            0
        }),
        write_after(step, reply) is Read ==> reply == WriteReply::Write(StoreReply::Mismatch),
        write_after(step, reply) == WriteStep::Finish || tries_left(write_after(step, reply)) > 0,
        write_after(step, reply) matches WriteStep::Replace { version, .. } ==> reply
            == WriteReply::Found(Some(version)),
        write_after(step, reply) is Insert ==> reply == WriteReply::Found(None),
{
}

// ---- refreshing ----

/// The next operation of looking up a contract.
pub enum RefreshStep {
    /// Read the cached contract.
    ReadCache,
    /// Try to take the refresh lock.
    Lock { cached: Option<CachedContract> },
    /// Fetch the contract from the catalog.
    Fetch { cached: Option<CachedContract> },
    /// Return the contract; a fetched one is written to the cache first.
    Finish { contract: Option<CachedContract>, store: bool },
}

/// What an operation of looking up a contract gave.
pub enum RefreshReply {
    Cached(Option<CachedContract>),
    Lock(LockOutcome),
    /// The fetched fields and the asset's identity, or nothing where the catalog
    /// failed.
    Fetched(Option<(Vec<ContractField>, Identity)>),
}

/// The reply is one to the operation.
pub open spec fn answers_refresh(step: RefreshStep, reply: RefreshReply) -> bool {
    match step {
        RefreshStep::ReadCache => reply is Cached,
        RefreshStep::Lock { .. } => reply is Lock,
        RefreshStep::Fetch { .. } => reply is Fetched,
        RefreshStep::Finish { .. } => false,
    }
}

/// The contract was fetched less than `ttl` seconds ago.
pub open spec fn fresh(c: CachedContract, now: i64, ttl: i64) -> bool {
    now - c.timestamp < ttl
}

/// A contract that was fetched at `now`.
pub open spec fn contract_at(
    fields: Vec<ContractField>,
    identity: Identity,
    now: i64,
) -> CachedContract {
    CachedContract {
        fields,
        name: identity.name,
        external_id: identity.external_id,
        timestamp: now,
    }
}

/// The operation that follows a reply: a fresh contract is served, a stale one
/// is refreshed by the replica that has the lock and served by the others, and
/// where the lock cannot be asked for the contract is refreshed. On a catalog
/// error the last known contract is served if the guard fails open.
pub open spec fn refresh_after(
    step: RefreshStep,
    reply: RefreshReply,
    now: i64,
    ttl: i64,
    fail_open: bool,
) -> RefreshStep {
    match (step, reply) {
        (_, RefreshReply::Cached(cached)) => match cached {
            Some(c) if fresh(c, now, ttl) => RefreshStep::Finish { contract: cached, store: false },
            _ => RefreshStep::Lock { cached },
        },
        (RefreshStep::Lock { cached }, RefreshReply::Lock(outcome)) => if outcome
            == LockOutcome::Denied {
            RefreshStep::Finish { contract: cached, store: false }
        } else {
            RefreshStep::Fetch { cached }
        },
        (RefreshStep::Fetch { cached }, RefreshReply::Fetched(fetched)) => match fetched {
            Some((fields, identity)) => RefreshStep::Finish {
                contract: Some(contract_at(fields, identity, now)),
                store: true,
            },
            None => RefreshStep::Finish {
                contract: if fail_open {
                    cached
                } else {
                    None
                },
                store: false,
            },
        },
        _ => RefreshStep::Finish { contract: None, store: false },
    }
}

/// The operation that follows a reply. The lookup begins with
/// [`RefreshStep::ReadCache`].
pub fn next_refresh_step(
    step: RefreshStep,
    reply: RefreshReply,
    now: i64,
    ttl: i64,
    fail_open: bool,
) -> (r: RefreshStep)
    requires
        answers_refresh(step, reply),
        reply matches RefreshReply::Cached(Some(c)) ==> age_fits(now, c.timestamp),
    ensures
        r == refresh_after(step, reply, now, ttl, fail_open),
{
    match (step, reply) {
        (_, RefreshReply::Cached(cached)) => {
            let served: bool = match &cached {
                Some(c) => now - c.timestamp < ttl,
                None => false,
            };
            if served {
                RefreshStep::Finish { contract: cached, store: false }
            } else {
                RefreshStep::Lock { cached }
            }
        },
        (RefreshStep::Lock { cached }, RefreshReply::Lock(outcome)) => {
            if outcome == LockOutcome::Denied {
                RefreshStep::Finish { contract: cached, store: false }
            } else {
                RefreshStep::Fetch { cached }
            }
        },
        (RefreshStep::Fetch { cached }, RefreshReply::Fetched(fetched)) => match fetched {
            Some((fields, identity)) => {
                let contract = CachedContract {
                    fields,
                    name: identity.name,
                    external_id: identity.external_id,
                    timestamp: now,
                };
                RefreshStep::Finish { contract: Some(contract), store: true }
            },
            None => {
                let contract: Option<CachedContract> = if fail_open {
                    cached
                } else {
                    None
                };
                RefreshStep::Finish { contract, store: false }
            },
        },
        _ => RefreshStep::Finish { contract: None, store: false },
    }
}

/// The operations that a lookup may still need.
pub open spec fn refresh_steps_left(step: RefreshStep) -> nat {
    match step {
        RefreshStep::ReadCache => 3,
        RefreshStep::Lock { .. } => 2,
        RefreshStep::Fetch { .. } => 1,
        RefreshStep::Finish { .. } => 0,
    }
}

/// A lookup ends after at most three operations.
pub proof fn refresh_ends(
    step: RefreshStep,
    reply: RefreshReply,
    now: i64,
    ttl: i64,
    fail_open: bool,
)
    requires
        answers_refresh(step, reply),
    ensures
        refresh_steps_left(refresh_after(step, reply, now, ttl, fail_open)) < refresh_steps_left(
            step,
        ) <= 3,
{
}

/// A fresh contract is served as it is cached, without a lock and without the
/// catalog.
pub proof fn fresh_is_served(c: CachedContract, now: i64, ttl: i64, fail_open: bool)
    requires
        fresh(c, now, ttl),
    ensures
        refresh_after(RefreshStep::ReadCache, RefreshReply::Cached(Some(c)), now, ttl, fail_open)
            == (RefreshStep::Finish { contract: Some(c), store: false }),
{
}

/// A stale contract is fetched only by the replica that took the lock, or when
/// the lock could not be asked for; every other replica serves what is cached.
pub proof fn stale_is_single_flight(
    cached: Option<CachedContract>,
    outcome: LockOutcome,
    now: i64,
    ttl: i64,
    fail_open: bool,
)
    ensures
        ({
            let next = refresh_after(
                RefreshStep::Lock { cached },
                RefreshReply::Lock(outcome),
                now,
                ttl,
                fail_open,
            );
            &&& next is Fetch <==> outcome != LockOutcome::Denied
            &&& next is Finish ==> next == (RefreshStep::Finish { contract: cached, store: false })
        }),
{
}

/// A fetched contract is served and written to the cache, and is fresh until the
/// refresh interval has passed.
pub proof fn fetched_is_served_and_fresh(
    cached: Option<CachedContract>,
    fields: Vec<ContractField>,
    identity: Identity,
    now: i64,
    ttl: i64,
    fail_open: bool,
)
    ensures
        ({
            let c = contract_at(fields, identity, now);
            let next = refresh_after(
                RefreshStep::Fetch { cached },
                RefreshReply::Fetched(Some((fields, identity))),
                now,
                ttl,
                fail_open,
            );
            &&& next == (RefreshStep::Finish { contract: Some(c), store: true })
            &&& forall|later: i64|
                now <= later ==> (#[trigger] fresh(c, later, ttl) <==> later < now + ttl)
        }),
{
}

/// On a catalog error a guard that fails open serves the last known contract;
/// one that does not has no contract, and nothing is written to the cache.
pub proof fn catalog_error_serves_last_known(
    cached: Option<CachedContract>,
    now: i64,
    ttl: i64,
    fail_open: bool,
)
    ensures
        refresh_after(
            RefreshStep::Fetch { cached },
            RefreshReply::Fetched(None),
            now,
            ttl,
            fail_open,
        ) == (RefreshStep::Finish {
            contract: if fail_open {
                cached
            } else {
                None
            },
            store: false,
        }),
{
}

} // verus!
