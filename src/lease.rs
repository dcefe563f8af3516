use vstd::prelude::*;

use crate::client::{
    is_valid_path, path_error, Condition, ConditionView, Error, GetRequest, GetResponse, Metadata,
    PatchRequest, PatchResponse, Path, PutRequest, PutResponse, Version,
};
use crate::decimal::{decimal, format_u64, lemma_u64_text_roundtrip, parse_u64, u64_of_text};
use crate::inmemory::{
    get_step, option_condition_view, option_metadata_view, patch_step, put_step, InMemoryStore,
    StoreView, WriteOutcome,
};

verus! {

/// Metadata key holding the current holder of a lease, empty once released.
pub const OWNER_HEADER: &'static str = "x-kanso-lease-owner";

/// Metadata key holding the Unix second at which the lease lapses.
pub const EXPIRY_HEADER: &'static str = "x-kanso-lease-expiry";

/// The default lease duration, in seconds.
pub const DEFAULT_TTL_SECS: u64 = 60;

pub open spec fn owner_key() -> Seq<char> {
    OWNER_HEADER@
}

pub open spec fn expiry_key() -> Seq<char> {
    EXPIRY_HEADER@
}

/// The two reserved keys differ.
pub proof fn lemma_keys_differ()
    ensures
        owner_key() != expiry_key(),
{
    reveal_strlit("x-kanso-lease-owner");
    reveal_strlit("x-kanso-lease-expiry");
    assert(owner_key().len() != expiry_key().len());
}

/// Why a lease operation failed.
#[derive(Debug)]
pub enum LeaseError {
    /// A live lease is held by another owner.
    LeaseHeld,
    /// A conditional write lost to another writer.
    Conflict,
    /// The leased path has no object.
    NotFound,
    /// A storage failure with no more specific meaning.
    Storage(Error),
    /// The payload could not be encoded or decoded; the codec's message.
    Serialization(String),
    /// The lease keys are missing or malformed.
    InvalidMetadata(String),
}

/// The kind of a lease failure.
pub enum LeaseFailure {
    LeaseHeld,
    Conflict,
    NotFound,
    Storage,
    Serialization,
    InvalidMetadata,
}

pub open spec fn failure_of(e: LeaseError) -> LeaseFailure {
    match e {
        LeaseError::LeaseHeld => LeaseFailure::LeaseHeld,
        LeaseError::Conflict => LeaseFailure::Conflict,
        LeaseError::NotFound => LeaseFailure::NotFound,
        LeaseError::Storage(_) => LeaseFailure::Storage,
        LeaseError::Serialization(_) => LeaseFailure::Serialization,
        LeaseError::InvalidMetadata(_) => LeaseFailure::InvalidMetadata,
    }
}

/// The Unix second at which a lease taken at `now` for `ttl` seconds lapses,
/// capped at the largest `u64`.
pub open spec fn expiry_after(now: u64, ttl: u64) -> u64 {
    if now + ttl > u64::MAX {
        u64::MAX
    } else {
        (now + ttl) as u64
    }
}

/// The metadata that grants the lease to `owner` until `expiry`.
pub open spec fn lease_metadata(owner: Seq<char>, expiry: u64) -> Map<Seq<char>, Seq<char>> {
    Map::empty().insert(owner_key(), owner).insert(expiry_key(), decimal(expiry as nat))
}

/// The metadata of a released lease: no owner, expired since the epoch.
pub open spec fn released_metadata() -> Map<Seq<char>, Seq<char>> {
    lease_metadata(Seq::empty(), 0)
}

/// The expiry that metadata records, if it records a valid one.
pub open spec fn recorded_expiry(m: Map<Seq<char>, Seq<char>>) -> Option<u64> {
    if m.contains_key(expiry_key()) {
        u64_of_text(m[expiry_key()])
    } else {
        None
    }
}

/// A lease expiring at `expiry` is alive at `now`.
pub open spec fn alive(expiry: u64, now: u64) -> bool {
    expiry > now
}

/// The mathematical value of a lease.
pub struct LeaseView {
    pub path: Seq<char>,
    pub owner: Seq<char>,
    pub ttl: u64,
    pub version: Seq<char>,
}

/// What acquiring does to a store in state `s`, and what it returns.
pub open spec fn acquire_spec(
    s: StoreView,
    path: Seq<char>,
    owner: Seq<char>,
    ttl: u64,
    init: Seq<u8>,
    now: u64,
) -> (StoreView, Result<(LeaseView, Seq<u8>), LeaseFailure>) {
    let meta = lease_metadata(owner, expiry_after(now, ttl));
    if path_error(path) is Some {
        (s, Err(LeaseFailure::Storage))
    } else {
        match get_step(s, path) {
            None => {
                let (t, out) = put_step(s, path, init, meta, Some(ConditionView::IfAbsent));
                match out {
                    WriteOutcome::Accepted(ver) => (
                        t,
                        Ok((LeaseView { path, owner, ttl, version: ver }, init)),
                    ),
                    WriteOutcome::Rejected(_) => (t, Err(LeaseFailure::Conflict)),
                    _ => (t, Err(LeaseFailure::Storage)),
                }
            },
            Some(obj) => {
                if recorded_expiry(obj.metadata) is None || !obj.metadata.contains_key(owner_key()) {
                    (s, Err(LeaseFailure::InvalidMetadata))
                } else if alive(recorded_expiry(obj.metadata)->0, now) && obj.metadata[owner_key()] != owner {
                    (s, Err(LeaseFailure::LeaseHeld))
                } else {
                    let (t, out) = put_step(
                        s,
                        path,
                        obj.value,
                        meta,
                        Some(ConditionView::IfVersionMatches(obj.version)),
                    );
                    match out {
                        WriteOutcome::Accepted(ver) => (
                            t,
                            Ok((LeaseView { path, owner, ttl, version: ver }, obj.value)),
                        ),
                        _ => (t, Err(LeaseFailure::Conflict)),
                    }
                }
            },
        }
    }
}

/// What an update of lease `l` to `value` does, and the lease after it.
pub open spec fn update_spec(s: StoreView, l: LeaseView, value: Seq<u8>, now: u64) -> (
    StoreView,
    Result<LeaseView, LeaseFailure>,
) {
    let (t, out) = put_step(
        s,
        l.path,
        value,
        lease_metadata(l.owner, expiry_after(now, l.ttl)),
        Some(ConditionView::IfVersionMatches(l.version)),
    );
    match out {
        WriteOutcome::Accepted(ver) => (t, Ok(LeaseView { version: ver, ..l })),
        _ => (t, Err(LeaseFailure::Conflict)),
    }
}

/// What a renewal of lease `l` does, and the lease after it.
pub open spec fn renew_spec(s: StoreView, l: LeaseView, now: u64) -> (StoreView, Result<LeaseView, LeaseFailure>) {
    let (t, out) = patch_step(
        s,
        l.path,
        lease_metadata(l.owner, expiry_after(now, l.ttl)),
        Some(ConditionView::IfVersionMatches(l.version)),
    );
    match out {
        WriteOutcome::Accepted(ver) => (t, Ok(LeaseView { version: ver, ..l })),
        _ => (t, Err(LeaseFailure::Conflict)),
    }
}

/// What releasing lease `l` does.
pub open spec fn release_spec(s: StoreView, l: LeaseView) -> (StoreView, Result<(), LeaseFailure>) {
    match get_step(s, l.path) {
        None => (s, Err(LeaseFailure::NotFound)),
        Some(obj) => {
            let (t, out) = put_step(
                s,
                l.path,
                obj.value,
                released_metadata(),
                Some(ConditionView::IfVersionMatches(obj.version)),
            );
            match out {
                WriteOutcome::Accepted(_) => (t, Ok(())),
                _ => (t, Err(LeaseFailure::Conflict)),
            }
        },
    }
}

/// Relies on uuid::Uuid::new_v4 and its `Display`: a fresh random identifier.
#[verifier::external_body]
fn new_owner_id() -> (r: String) {
    uuid::Uuid::new_v4().to_string()
}

/// The metadata that grants the lease to `owner` until `expiry`.
fn grant_metadata(owner: &str, expiry: u64) -> (r: Metadata)
    ensures
        r@ == lease_metadata(owner@, expiry),
{
    let mut m = Metadata::new();
    m.insert(OWNER_HEADER, owner);
    let e = format_u64(expiry);
    m.insert(EXPIRY_HEADER, e.as_str());
    m
}

fn expiry_from(now: u64, ttl: u64) -> (r: u64)
    ensures
        r == expiry_after(now, ttl),
{
    if now > u64::MAX - ttl {
        u64::MAX
    } else {
        now + ttl
    }
}

/// The lease expiry recorded in `metadata`.
pub fn get_expiry(metadata: &Metadata) -> (r: Result<u64, LeaseError>)
    ensures
        match r {
            Ok(e) => recorded_expiry(metadata@) == Some(e),
            Err(e) => recorded_expiry(metadata@) is None && e is InvalidMetadata,
        },
{
    match metadata.get(EXPIRY_HEADER) {
        Some(s) => match parse_u64(s.as_str()) {
            Some(e) => Ok(e),
            None => Err(LeaseError::InvalidMetadata(String::from_str("missing or invalid expiry"))),
        },
        None => Err(LeaseError::InvalidMetadata(String::from_str("missing or invalid expiry"))),
    }
}

/// The lease owner recorded in `metadata`.
pub fn get_owner(metadata: &Metadata) -> (r: Result<String, LeaseError>)
    ensures
        match r {
            Ok(o) => metadata@.contains_key(owner_key()) && o@ == metadata@[owner_key()],
            Err(e) => !metadata@.contains_key(owner_key()) && e is InvalidMetadata,
        },
{
    match metadata.get(OWNER_HEADER) {
        Some(s) => Ok(s.clone()),
        None => Err(LeaseError::InvalidMetadata(String::from_str("missing owner"))),
    }
}

/// Whether a lease expiring at `expiry` is alive at `now`.
pub fn is_lease_alive(expiry: u64, now: u64) -> (r: bool)
    ensures
        r == alive(expiry, now),
{
    expiry > now
}

/// `q` writes `value` at `path` with metadata `meta` under `condition`.
pub open spec fn puts(
    q: PutRequest,
    path: Seq<char>,
    value: Seq<u8>,
    meta: Map<Seq<char>, Seq<char>>,
    condition: Option<ConditionView>,
) -> bool {
    &&& q.key@ == path
    &&& q.value@ == value
    &&& option_metadata_view(q.metadata) == meta
    &&& option_condition_view(q.condition) == condition
}

/// The mathematical value of an acquire request.
pub struct AcquireView {
    pub path: Seq<char>,
    pub owner: Seq<char>,
    pub ttl: u64,
    pub init: Seq<u8>,
}

/// A request to take the lease on a path, initialising it with a payload
/// if the path holds nothing yet.
pub struct AcquireRequest {
    path: String,
    owner: String,
    ttl: u64,
    init_value: Vec<u8>,
}

impl View for AcquireRequest {
    type V = AcquireView;

    closed spec fn view(&self) -> AcquireView {
        AcquireView { path: self.path@, owner: self.owner@, ttl: self.ttl, init: self.init_value@ }
    }
}

pub open spec fn acquire_result(r: Result<(Lease, Vec<u8>), LeaseError>) -> Result<(LeaseView, Seq<u8>), LeaseFailure> {
    match r {
        Ok((l, v)) => Ok((l@, v@)),
        Err(e) => Err(failure_of(e)),
    }
}

impl AcquireRequest {
    /// A request for `path` with payload `init_value`, a fresh random owner
    /// and the default duration.
    pub fn new(path: &str, init_value: Vec<u8>) -> (r: AcquireRequest)
        ensures
            r@.path == path@,
            r@.ttl == DEFAULT_TTL_SECS,
            r@.init == init_value@,
    {
        AcquireRequest { path: path.to_owned(), owner: new_owner_id(), ttl: DEFAULT_TTL_SECS, init_value }
    }

    /// The same request on behalf of `owner`.
    pub fn owner(self, owner: &str) -> (r: AcquireRequest)
        ensures
            r@ == (AcquireView { owner: owner@, ..self@ }),
    {
        AcquireRequest { owner: owner.to_owned(), ..self }
    }

    /// The same request for a lease of `ttl` seconds.
    pub fn ttl(self, ttl: u64) -> (r: AcquireRequest)
        ensures
            r@ == (AcquireView { ttl, ..self@ }),
    {
        AcquireRequest { ttl, ..self }
    }

    /// The read that acquiring starts with; an invalid path is a storage failure.
    pub fn get_request(&self) -> (r: Result<GetRequest, LeaseError>)
        ensures
            match r {
                Ok(g) => is_valid_path(self@.path) && g.key@ == self@.path,
                Err(e) => !is_valid_path(self@.path) && e is Storage,
            },
    {
        match GetRequest::new(self.path.as_str()) {
            Ok(g) => Ok(g),
            Err(_) => Err(LeaseError::Storage(Error::Other(String::from_str("invalid lease path")))),
        }
    }

    /// The write that acquiring makes after finding `current` at `key` at
    /// time `now`: create the object if absent; refuse if another owner
    /// holds a live lease; otherwise write the same payload back under the
    /// caller's ownership, conditional on the version read.
    pub fn plan(&self, key: &Path, current: Option<GetResponse>, now: u64) -> (r: Result<PutRequest, LeaseError>)
        requires
            key@ == self@.path,
        ensures
            ({
                let meta = lease_metadata(self@.owner, expiry_after(now, self@.ttl));
                match current {
                    None => r matches Ok(q) && puts(q, key@, self@.init, meta, Some(ConditionView::IfAbsent)),
                    Some(resp) => {
                        let m = resp.metadata@;
                        if recorded_expiry(m) is None || !m.contains_key(owner_key()) {
                            r matches Err(e) && e is InvalidMetadata
                        } else if alive(recorded_expiry(m)->0, now) && m[owner_key()] != self@.owner {
                            r matches Err(e) && e is LeaseHeld
                        } else {
                            r matches Ok(q) && puts(
                                q,
                                key@,
                                resp.value@,
                                meta,
                                Some(ConditionView::IfVersionMatches(resp.version@)),
                            )
                        }
                    },
                }
            }),
    {
        let expiry = expiry_from(now, self.ttl);
        match current {
            None => {
                let metadata = grant_metadata(self.owner.as_str(), expiry);
                Ok(PutRequest {
                    key: key.clone(),
                    value: self.init_value.clone(),
                    condition: Some(Condition::IfAbsent),
                    metadata: Some(metadata),
                })
            },
            Some(resp) => {
                let current_expiry = get_expiry(&resp.metadata)?;
                let current_owner = get_owner(&resp.metadata)?;
                if is_lease_alive(current_expiry, now) && !(current_owner == self.owner) {
                    return Err(LeaseError::LeaseHeld);
                }
                let metadata = grant_metadata(self.owner.as_str(), expiry);
                Ok(PutRequest {
                    key: key.clone(),
                    value: resp.value,
                    condition: Some(Condition::IfVersionMatches(resp.version)),
                    metadata: Some(metadata),
                })
            },
        }
    }

    /// The lease and its payload once the planned write of `value` at `key`
    /// has returned `result`. A lost race to create the object is a
    /// conflict, as is any failure to take over an existing one; other
    /// failures to create it are storage failures.
    pub fn finish(self, key: Path, value: Vec<u8>, fresh: bool, result: Result<PutResponse, Error>) -> (r: Result<(Lease, Vec<u8>), LeaseError>)
        requires
            key@ == self@.path,
        ensures
            match result {
                Ok(resp) => r matches Ok((l, v)) && v@ == value@ && l@ == (LeaseView {
                    path: self@.path,
                    owner: self@.owner,
                    ttl: self@.ttl,
                    version: resp.version@,
                }),
                Err(Error::ConditionFailed { .. }) => r matches Err(e) && e is Conflict,
                Err(e0) => r matches Err(e) && if fresh {
                    e == LeaseError::Storage(e0)
                } else {
                    e is Conflict
                },
            },
    {
        match result {
            Ok(resp) => Ok((Lease { path: key, owner: self.owner, ttl: self.ttl, version: resp.version }, value)),
            Err(Error::ConditionFailed { .. }) => Err(LeaseError::Conflict),
            Err(e) => {
                if fresh {
                    Err(LeaseError::Storage(e))
                } else {
                    Err(LeaseError::Conflict)
                }
            },
        }
    }

    /// Acquires the lease on an in-memory store at time `now`, returning the
    /// lease and the payload it guards: the initial payload if the path was
    /// empty, else the payload found there.
    pub fn execute(self, store: &mut InMemoryStore, now: u64) -> (r: Result<(Lease, Vec<u8>), LeaseError>)
        ensures
            acquire_spec(old(store)@, self@.path, self@.owner, self@.ttl, self@.init, now) == (
                final(store)@,
                acquire_result(r),
            ),
    {
        let get = self.get_request()?;
        let key = get.key.clone();
        let found = store.get(get);
        let current = match found {
            Ok(c) => c,
            Err(e) => {
                return Err(LeaseError::Storage(e));
            },
        };
        let fresh = current.is_none();
        let request = self.plan(&key, current, now)?;
        let value = request.value.clone();
        let result = store.put(request);
        self.finish(key, value, fresh, result)
    }
}

/// A held lease: the path, its owner, its duration, and the version of the
/// last write this lease made.
#[derive(Debug)]
pub struct Lease {
    path: Path,
    owner: String,
    ttl: u64,
    version: Version,
}

impl View for Lease {
    type V = LeaseView;

    closed spec fn view(&self) -> LeaseView {
        LeaseView { path: self.path@, owner: self.owner@, ttl: self.ttl, version: self.version@ }
    }
}

/// The lease after an operation that returned `r`, or the failure.
pub open spec fn lease_after(new_lease: LeaseView, r: Result<(), LeaseError>) -> Result<LeaseView, LeaseFailure> {
    match r {
        Ok(()) => Ok(new_lease),
        Err(e) => Err(failure_of(e)),
    }
}

impl Lease {
    /// The write that replaces the payload with `value` and extends the
    /// lease from `now`, conditional on the lease's version.
    pub fn update_request(&self, value: Vec<u8>, now: u64) -> (r: PutRequest)
        ensures
            puts(
                r,
                self@.path,
                value@,
                lease_metadata(self@.owner, expiry_after(now, self@.ttl)),
                Some(ConditionView::IfVersionMatches(self@.version)),
            ),
    {
        let metadata = grant_metadata(self.owner.as_str(), expiry_from(now, self.ttl));
        PutRequest {
            key: self.path.clone(),
            value,
            condition: Some(Condition::IfVersionMatches(self.version.clone())),
            metadata: Some(metadata),
        }
    }

    /// Takes in the outcome of an update or takeover write: on success the
    /// lease tracks the new version, on any failure it is a conflict.
    pub fn record_update(&mut self, result: Result<PutResponse, Error>) -> (r: Result<(), LeaseError>)
        ensures
            match result {
                Ok(resp) => r is Ok && final(self)@ == (LeaseView { version: resp.version@, ..old(self)@ }),
                Err(_) => r matches Err(e) && e is Conflict && final(self)@ == old(self)@,
            },
    {
        match result {
            Ok(resp) => {
                self.version = resp.version;
                Ok(())
            },
            Err(_) => Err(LeaseError::Conflict),
        }
    }

    /// The patch that extends the lease from `now` without touching the
    /// payload, conditional on the lease's version.
    pub fn renew_request(&self, now: u64) -> (r: PatchRequest)
        ensures
            r.key@ == self@.path,
            r.metadata@ == lease_metadata(self@.owner, expiry_after(now, self@.ttl)),
            option_condition_view(r.condition) == Some(ConditionView::IfVersionMatches(self@.version)),
    {
        PatchRequest {
            key: self.path.clone(),
            metadata: grant_metadata(self.owner.as_str(), expiry_from(now, self.ttl)),
            condition: Some(Condition::IfVersionMatches(self.version.clone())),
        }
    }

    /// Takes in the outcome of a renewal.
    pub fn record_renewal(&mut self, result: Result<PatchResponse, Error>) -> (r: Result<(), LeaseError>)
        ensures
            match result {
                Ok(resp) => r is Ok && final(self)@ == (LeaseView { version: resp.version@, ..old(self)@ }),
                Err(_) => r matches Err(e) && e is Conflict && final(self)@ == old(self)@,
            },
    {
        match result {
            Ok(resp) => {
                self.version = resp.version;
                Ok(())
            },
            Err(_) => Err(LeaseError::Conflict),
        }
    }

    /// The read that releasing starts with.
    pub fn release_get_request(&self) -> (r: GetRequest)
        ensures
            r.key@ == self@.path,
    {
        GetRequest { key: self.path.clone() }
    }

    /// The write that releases the lease, given the object `current` found
    /// at its path: the same payload with no owner and an expiry of zero,
    /// conditional on the version read.
    pub fn release_request(&self, current: Option<GetResponse>) -> (r: Result<PutRequest, LeaseError>)
        ensures
            current is None ==> r matches Err(LeaseError::NotFound),
            current matches Some(resp) ==> r matches Ok(q) && puts(
                q,
                self@.path,
                resp.value@,
                released_metadata(),
                Some(ConditionView::IfVersionMatches(resp.version@)),
            ),
    {
        proof {
            reveal_strlit("");
            assert(""@ =~= Seq::<char>::empty());
        }
        match current {
            None => Err(LeaseError::NotFound),
            Some(resp) => Ok(PutRequest {
                key: self.path.clone(),
                value: resp.value,
                condition: Some(Condition::IfVersionMatches(resp.version)),
                metadata: Some(grant_metadata("", 0)),
            }),
        }
    }

    /// Takes in the outcome of the releasing write.
    pub fn finish_release(result: Result<PutResponse, Error>) -> (r: Result<(), LeaseError>)
        ensures
            match result {
                Ok(_) => r is Ok,
                Err(_) => r matches Err(e) && e is Conflict,
            },
    {
        match result {
            Ok(_) => Ok(()),
            Err(_) => Err(LeaseError::Conflict),
        }
    }

    /// Replaces the payload on an in-memory store and extends the lease.
    pub fn update(&mut self, store: &mut InMemoryStore, value: Vec<u8>, now: u64) -> (r: Result<(), LeaseError>)
        ensures
            update_spec(old(store)@, old(self)@, value@, now) == (final(store)@, lease_after(final(self)@, r)),
            r is Err ==> final(self)@ == old(self)@,
    {
        let request = self.update_request(value, now);
        let result = store.put(request);
        self.record_update(result)
    }

    /// Extends the lease on an in-memory store without touching the payload.
    pub fn renew(&mut self, store: &mut InMemoryStore, now: u64) -> (r: Result<(), LeaseError>)
        ensures
            renew_spec(old(store)@, old(self)@, now) == (final(store)@, lease_after(final(self)@, r)),
            r is Err ==> final(self)@ == old(self)@,
    {
        let request = self.renew_request(now);
        let result = store.patch(request);
        self.record_renewal(result)
    }

    /// Releases the lease on an in-memory store, so that anyone may take it.
    pub fn release(self, store: &mut InMemoryStore) -> (r: Result<(), LeaseError>)
        ensures
            release_spec(old(store)@, self@) == (final(store)@, match r {
                Ok(()) => Ok(()),
                Err(e) => Err(failure_of(e)),
            }),
    {
        let found = store.get(self.release_get_request());
        let current = match found {
            Ok(c) => c,
            Err(e) => {
                return Err(LeaseError::Storage(e));
            },
        };
        let request = self.release_request(current)?;
        let result = store.put(request);
        Lease::finish_release(result)
    }
}

/// What the grant metadata records: the owner, and an expiry that reads back.
proof fn lemma_grant_reads_back(owner: Seq<char>, expiry: u64)
    ensures
        lease_metadata(owner, expiry).contains_key(owner_key()),
        lease_metadata(owner, expiry)[owner_key()] == owner,
        recorded_expiry(lease_metadata(owner, expiry)) == Some(expiry),
{
    lemma_keys_differ();
    lemma_u64_text_roundtrip(expiry);
}

/// Acquiring a valid path that holds no object creates it and returns the
/// initial payload.
pub proof fn lemma_acquire_fresh(s: StoreView, path: Seq<char>, owner: Seq<char>, ttl: u64, init: Seq<u8>, now: u64)
    requires
        is_valid_path(path),
        !s.objects.contains_key(path),
        s.minted < u64::MAX,
    ensures
        acquire_spec(s, path, owner, ttl, init, now).1 matches Ok((l, v)) && v == init && l.owner == owner
            && l.path == path,
{
}

/// Acquiring fails with `LeaseHeld`, changing nothing, while another owner
/// holds a live lease.
pub proof fn lemma_acquire_held(s: StoreView, path: Seq<char>, owner: Seq<char>, ttl: u64, init: Seq<u8>, now: u64)
    requires
        is_valid_path(path),
        s.objects.contains_key(path),
        recorded_expiry(s.objects[path].metadata) matches Some(e) && alive(e, now),
        s.objects[path].metadata.contains_key(owner_key()),
        s.objects[path].metadata[owner_key()] != owner,
    ensures
        acquire_spec(s, path, owner, ttl, init, now) == (s, Err::<(LeaseView, Seq<u8>), LeaseFailure>(LeaseFailure::LeaseHeld)),
{
}

/// The current owner re-acquires and gets the stored payload, not its
/// initial one.
pub proof fn lemma_acquire_by_owner(s: StoreView, path: Seq<char>, owner: Seq<char>, ttl: u64, init: Seq<u8>, now: u64)
    requires
        is_valid_path(path),
        s.objects.contains_key(path),
        recorded_expiry(s.objects[path].metadata) is Some,
        s.objects[path].metadata.contains_key(owner_key()),
        s.objects[path].metadata[owner_key()] == owner,
        s.minted < u64::MAX,
    ensures
        acquire_spec(s, path, owner, ttl, init, now).1 matches Ok((l, v)) && v == s.objects[path].value
            && l.owner == owner,
{
}

/// Once a lease has expired, anyone acquires it and gets the stored payload.
pub proof fn lemma_acquire_expired(s: StoreView, path: Seq<char>, owner: Seq<char>, ttl: u64, init: Seq<u8>, now: u64)
    requires
        is_valid_path(path),
        s.objects.contains_key(path),
        recorded_expiry(s.objects[path].metadata) matches Some(e) && !alive(e, now),
        s.objects[path].metadata.contains_key(owner_key()),
        s.minted < u64::MAX,
    ensures
        acquire_spec(s, path, owner, ttl, init, now).1 matches Ok((l, v)) && v == s.objects[path].value
            && l.owner == owner,
{
}

/// After an accepted update to `value`, the same owner re-acquires and gets
/// `value`.
pub proof fn lemma_update_then_reacquire(
    s: StoreView,
    l: LeaseView,
    value: Seq<u8>,
    now: u64,
    ttl: u64,
    init: Seq<u8>,
    later: u64,
)
    requires
        is_valid_path(l.path),
        update_spec(s, l, value, now).1 is Ok,
        update_spec(s, l, value, now).0.minted < u64::MAX,
    ensures
        acquire_spec(update_spec(s, l, value, now).0, l.path, l.owner, ttl, init, later).1 matches Ok((l2, v))
            && v == value,
{
    lemma_grant_reads_back(l.owner, expiry_after(now, l.ttl));
}

/// After an accepted release, any owner acquires at once, whatever the
/// time, and gets the payload that was there.
pub proof fn lemma_release_then_acquire(
    s: StoreView,
    l: LeaseView,
    owner: Seq<char>,
    ttl: u64,
    init: Seq<u8>,
    now: u64,
)
    requires
        is_valid_path(l.path),
        release_spec(s, l).1 is Ok,
        release_spec(s, l).0.minted < u64::MAX,
    ensures
        acquire_spec(release_spec(s, l).0, l.path, owner, ttl, init, now).1 matches Ok((l2, v))
            && v == s.objects[l.path].value && l2.owner == owner,
{
    lemma_grant_reads_back(Seq::empty(), 0);
}

} // verus!
