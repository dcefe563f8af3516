use vstd::prelude::*;

use crate::client::{
    Condition, ConditionView, Error, GetRequest, GetResponse, Metadata, PatchRequest,
    PatchResponse, PutRequest, PutResponse, Version,
};
use crate::decimal::{decimal, format_u64, lemma_decimal_injective};

verus! {

/// The mathematical value of a stored object.
pub struct ObjectView {
    pub value: Seq<u8>,
    pub version: Seq<char>,
    pub metadata: Map<Seq<char>, Seq<char>>,
}

/// The mathematical value of a store: its objects by path, and how many
/// versions it has minted.
pub struct StoreView {
    pub objects: Map<Seq<char>, ObjectView>,
    pub minted: nat,
}

impl StoreView {
    /// Every stored version is the decimal text of a number already minted.
    pub open spec fn wf(self) -> bool {
        &&& self.minted <= u64::MAX
        &&& forall|p: Seq<char>| #[trigger] self.objects.contains_key(p) ==>
            exists|k: nat| 1 <= k <= self.minted && self.objects[p].version == decimal(k)
    }
}

/// What became of a write.
pub enum WriteOutcome {
    /// Accepted, with the new version.
    Accepted(Seq<char>),
    /// The condition did not hold.
    Rejected(ConditionView),
    /// A patch of an absent object.
    Missing,
    /// No version is left to mint.
    Exhausted,
}

pub open spec fn condition_holds(
    objects: Map<Seq<char>, ObjectView>,
    path: Seq<char>,
    condition: Option<ConditionView>,
) -> bool {
    match condition {
        None => true,
        Some(ConditionView::IfAbsent) => !objects.contains_key(path),
        Some(ConditionView::IfVersionMatches(v)) => objects.contains_key(path) && objects[path].version == v,
    }
}

/// What a read of `path` returns.
pub open spec fn get_step(s: StoreView, path: Seq<char>) -> Option<ObjectView> {
    if s.objects.contains_key(path) {
        Some(s.objects[path])
    } else {
        None
    }
}

/// The store after an accepted write of `obj` at `path`, and the outcome.
pub open spec fn accept_step(s: StoreView, path: Seq<char>, value: Seq<u8>, metadata: Map<Seq<char>, Seq<char>>) -> (StoreView, WriteOutcome) {
    let version = decimal(s.minted + 1);
    (
        StoreView {
            objects: s.objects.insert(path, ObjectView { value, version, metadata }),
            minted: s.minted + 1,
        },
        WriteOutcome::Accepted(version),
    )
}

/// A put: the condition is tested, then a new version is minted and the
/// object replaced whole.
pub open spec fn put_step(
    s: StoreView,
    path: Seq<char>,
    value: Seq<u8>,
    metadata: Map<Seq<char>, Seq<char>>,
    condition: Option<ConditionView>,
) -> (StoreView, WriteOutcome) {
    if !condition_holds(s.objects, path, condition) {
        (s, WriteOutcome::Rejected(condition->0))
    } else if s.minted >= u64::MAX {
        (s, WriteOutcome::Exhausted)
    } else {
        accept_step(s, path, value, metadata)
    }
}

/// A patch: the object must exist; the condition is tested; the payload is
/// kept, the metadata replaced and a new version minted.
pub open spec fn patch_step(
    s: StoreView,
    path: Seq<char>,
    metadata: Map<Seq<char>, Seq<char>>,
    condition: Option<ConditionView>,
) -> (StoreView, WriteOutcome) {
    if !s.objects.contains_key(path) {
        (s, WriteOutcome::Missing)
    } else if !condition_holds(s.objects, path, condition) {
        (s, WriteOutcome::Rejected(condition->0))
    } else if s.minted >= u64::MAX {
        (s, WriteOutcome::Exhausted)
    } else {
        accept_step(s, path, s.objects[path].value, metadata)
    }
}

pub open spec fn put_outcome(r: Result<PutResponse, Error>) -> WriteOutcome {
    match r {
        Ok(resp) => WriteOutcome::Accepted(resp.version@),
        Err(Error::ConditionFailed { condition }) => WriteOutcome::Rejected(condition@),
        Err(Error::NotFound) => WriteOutcome::Missing,
        Err(Error::Other(_)) => WriteOutcome::Exhausted,
    }
}

pub open spec fn patch_outcome(r: Result<PatchResponse, Error>) -> WriteOutcome {
    match r {
        Ok(resp) => WriteOutcome::Accepted(resp.version@),
        Err(Error::ConditionFailed { condition }) => WriteOutcome::Rejected(condition@),
        Err(Error::NotFound) => WriteOutcome::Missing,
        Err(Error::Other(_)) => WriteOutcome::Exhausted,
    }
}

pub open spec fn option_condition_view(c: Option<Condition>) -> Option<ConditionView> {
    match c {
        Some(c) => Some(c@),
        None => None,
    }
}

pub open spec fn option_metadata_view(m: Option<Metadata>) -> Map<Seq<char>, Seq<char>> {
    match m {
        Some(m) => m@,
        None => Map::empty(),
    }
}

pub open spec fn response_view(r: GetResponse) -> ObjectView {
    ObjectView { value: r.value@, version: r.version@, metadata: r.metadata@ }
}

/// A minted version is new: no stored object carries it.
pub proof fn lemma_minted_version_is_fresh(s: StoreView, p: Seq<char>)
    requires
        s.wf(),
        s.objects.contains_key(p),
    ensures
        s.objects[p].version != decimal(s.minted + 1),
{
    let k = choose|k: nat| 1 <= k <= s.minted && s.objects[p].version == decimal(k);
    lemma_decimal_injective(k, s.minted + 1);
}

/// An accepted write keeps the store well formed.
proof fn lemma_accept_wf(s: StoreView, path: Seq<char>, value: Seq<u8>, metadata: Map<Seq<char>, Seq<char>>)
    requires
        s.wf(),
        s.minted < u64::MAX,
    ensures
        accept_step(s, path, value, metadata).0.wf(),
{
    let t = accept_step(s, path, value, metadata).0;
    assert forall|p: Seq<char>| #[trigger] t.objects.contains_key(p) implies
        exists|k: nat| 1 <= k <= t.minted && t.objects[p].version == decimal(k) by {
        if p == path {
            assert(t.objects[p].version == decimal(t.minted));
        } else {
            let k = choose|k: nat| 1 <= k <= s.minted && s.objects[p].version == decimal(k);
            assert(t.objects[p].version == decimal(k));
        }
    }
}

/// An object as the store holds it.
#[derive(Debug)]
struct StoredObject {
    value: Vec<u8>,
    version: Version,
    metadata: Metadata,
}

impl View for StoredObject {
    type V = ObjectView;

    closed spec fn view(&self) -> ObjectView {
        ObjectView { value: self.value@, version: self.version@, metadata: self.metadata@ }
    }
}

spec fn paths_unique(s: Seq<(String, StoredObject)>) -> bool {
    forall|i: int, j: int| 0 <= i < j < s.len() ==> (#[trigger] s[i]).0@ != (#[trigger] s[j]).0@
}

spec fn objects_map(s: Seq<(String, StoredObject)>) -> Map<Seq<char>, ObjectView>
    decreases s.len(),
{
    if s.len() == 0 {
        Map::empty()
    } else {
        objects_map(s.drop_last()).insert(s.last().0@, s.last().1@)
    }
}

proof fn lemma_objects_map(s: Seq<(String, StoredObject)>)
    requires
        paths_unique(s),
    ensures
        forall|k: Seq<char>|
            objects_map(s).contains_key(k) <==> exists|i: int| 0 <= i < s.len() && (#[trigger] s[i]).0@ == k,
        forall|i: int| 0 <= i < s.len() ==> objects_map(s)[(#[trigger] s[i]).0@] == s[i].1@,
    decreases s.len(),
{
    if s.len() > 0 {
        let p = s.drop_last();
        assert(paths_unique(p)) by {
            assert forall|i: int, j: int| 0 <= i < j < p.len() implies (#[trigger] p[i]).0@ != (#[trigger] p[j]).0@ by {
                assert(p[i] == s[i] && p[j] == s[j]);
            }
        }
        lemma_objects_map(p);
        let last = s.last();
        assert(objects_map(s) == objects_map(p).insert(last.0@, last.1@));
        assert forall|k: Seq<char>|
            objects_map(s).contains_key(k) <==> exists|i: int| 0 <= i < s.len() && (#[trigger] s[i]).0@ == k by {
            if objects_map(s).contains_key(k) && k != last.0@ {
                let i = choose|i: int| 0 <= i < p.len() && (#[trigger] p[i]).0@ == k;
                assert(s[i] == p[i]);
            }
            if exists|i: int| 0 <= i < s.len() && (#[trigger] s[i]).0@ == k {
                let i = choose|i: int| 0 <= i < s.len() && (#[trigger] s[i]).0@ == k;
                if i < s.len() - 1 {
                    assert(s[i] == p[i]);
                }
            }
        }
        assert forall|i: int| 0 <= i < s.len() implies objects_map(s)[(#[trigger] s[i]).0@] == s[i].1@ by {
            if i < s.len() - 1 {
                assert(s[i] == p[i]);
                assert(s[i].0@ != s[s.len() - 1].0@);
            }
        }
    }
}

/// The reference backend: objects in memory, versions minted from a counter.
#[derive(Debug)]
pub struct InMemoryStore {
    data: Vec<(String, StoredObject)>,
    version_counter: u64,
}

impl View for InMemoryStore {
    type V = StoreView;

    closed spec fn view(&self) -> StoreView {
        StoreView { objects: objects_map(self.data@), minted: self.version_counter as nat }
    }
}

impl Default for InMemoryStore {
    fn default() -> (r: Self)
        ensures
            r@.objects == Map::<Seq<char>, ObjectView>::empty(),
            r@.minted == 0,
    {
        InMemoryStore::new()
    }
}

impl InMemoryStore {
    #[verifier::type_invariant]
    closed spec fn inv(self) -> bool {
        &&& paths_unique(self.data@)
        &&& self@.wf()
    }

    /// An empty store.
    pub fn new() -> (r: InMemoryStore)
        ensures
            r@.objects == Map::<Seq<char>, ObjectView>::empty(),
            r@.minted == 0,
            r@.wf(),
    {
        InMemoryStore { data: Vec::new(), version_counter: 0 }
    }

    /// Every store is well formed.
    pub fn check_wf(&self)
        ensures
            self@.wf(),
    {
        proof {
            use_type_invariant(self);
        }
    }

    fn find(&self, key: &String) -> (r: Option<usize>)
        ensures
            match r {
                Some(i) => i < self.data@.len() && self.data@[i as int].0@ == key@,
                None => forall|i: int| 0 <= i < self.data@.len() ==> (#[trigger] self.data@[i]).0@ != key@,
            },
    {
        let mut i: usize = 0;
        while i < self.data.len()
            invariant
                i <= self.data@.len(),
                forall|j: int| 0 <= j < i ==> (#[trigger] self.data@[j]).0@ != key@,
            decreases self.data@.len() - i,
        {
            if self.data[i].0 == *key {
                return Some(i);
            }
            i = i + 1;
        }
        None
    }

    /// Reads the object at the request's path.
    pub fn get(&self, request: GetRequest) -> (r: Result<Option<GetResponse>, Error>)
        ensures
            r matches Ok(found) && match found {
                Some(resp) => get_step(self@, request.key@) == Some(response_view(resp)),
                None => get_step(self@, request.key@) is None,
            },
    {
        proof {
            use_type_invariant(self);
            lemma_objects_map(self.data@);
        }
        let key = request.key.as_str().to_owned();
        match self.find(&key) {
            None => Ok(None),
            Some(i) => {
                let obj = &self.data[i].1;
                Ok(Some(GetResponse {
                    value: obj.value.clone(),
                    version: obj.version.clone(),
                    metadata: obj.metadata.clone(),
                }))
            },
        }
    }

    /// Stores `obj` at `key`, at index `found` if the key is there already.
    fn store(&mut self, key: String, found: Option<usize>, obj: StoredObject)
        requires
            match found {
                Some(i) => i < old(self).data@.len() && old(self).data@[i as int].0@ == key@,
                None => forall|i: int| 0 <= i < old(self).data@.len() ==> (#[trigger] old(self).data@[i]).0@ != key@,
            },
            old(self).version_counter < u64::MAX,
            obj.version@ == decimal((old(self).version_counter + 1) as nat),
        ensures
            final(self)@.objects == old(self)@.objects.insert(key@, obj@),
            final(self)@.minted == old(self)@.minted + 1,
    {
        proof {
            use_type_invariant(&*self);
            lemma_accept_wf(self@, key@, obj.value@, obj.metadata@);
        }
        let ghost kv = key@;
        let ghost ov = obj@;
        let mut data: Vec<(String, StoredObject)> = Vec::new();
        std::mem::swap(&mut data, &mut self.data);
        let ghost before = data@;
        proof {
            lemma_objects_map(before);
        }
        match found {
            Some(i) => {
                data.set(i, (key, obj));
            },
            None => {
                data.push((key, obj));
            },
        }
        let ghost after = data@;
        assert(paths_unique(after)) by {
            assert forall|a: int, b: int| 0 <= a < b < after.len() implies (#[trigger] after[a]).0@ != (#[trigger] after[b]).0@ by {
                if found is None && b == before.len() {
                    assert(after[a] == before[a]);
                } else if found is Some {
                    let i = found->0 as int;
                    if a != i && b != i {
                        assert(after[a] == before[a] && after[b] == before[b]);
                    } else if a == i {
                        assert(after[b] == before[b]);
                    } else {
                        assert(after[a] == before[a]);
                    }
                } else {
                    assert(after[a] == before[a] && after[b] == before[b]);
                }
            }
        }
        proof {
            lemma_objects_map(after);
            assert(objects_map(after) =~= objects_map(before).insert(kv, ov)) by {
                assert forall|kk: Seq<char>| #[trigger] objects_map(after).contains_key(kk)
                    <==> objects_map(before).insert(kv, ov).contains_key(kk) by {
                    if objects_map(after).contains_key(kk) && kk != kv {
                        let j = choose|j: int| 0 <= j < after.len() && (#[trigger] after[j]).0@ == kk;
                        assert(after[j] == before[j]);
                    }
                    if objects_map(before).contains_key(kk) {
                        let j = choose|j: int| 0 <= j < before.len() && (#[trigger] before[j]).0@ == kk;
                        if found is Some && j == found->0 {
                            assert(after[j].0@ == kk);
                        } else {
                            assert(after[j] == before[j]);
                        }
                    }
                    if kk == kv {
                        match found {
                            Some(i) => assert(after[i as int].0@ == kk),
                            None => assert(after[before.len() as int].0@ == kk),
                        }
                    }
                }
                assert forall|kk: Seq<char>| #[trigger] objects_map(after).contains_key(kk)
                    implies objects_map(after)[kk] == objects_map(before).insert(kv, ov)[kk] by {
                    let j = choose|j: int| 0 <= j < after.len() && (#[trigger] after[j]).0@ == kk;
                    if kk != kv {
                        assert(after[j] == before[j]);
                    }
                }
            }
        }
        self.version_counter = self.version_counter + 1;
        self.data = data;
    }

    /// Writes the request's payload and metadata if its condition holds.
    pub fn put(&mut self, request: PutRequest) -> (r: Result<PutResponse, Error>)
        ensures
            put_step(
                old(self)@,
                request.key@,
                request.value@,
                option_metadata_view(request.metadata),
                option_condition_view(request.condition),
            ) == (final(self)@, put_outcome(r)),
    {
        proof {
            use_type_invariant(&*self);
            lemma_objects_map(self.data@);
        }
        let key = request.key.as_str().to_owned();
        let found = self.find(&key);
        match &request.condition {
            None => {},
            Some(Condition::IfAbsent) => {
                if found.is_some() {
                    return Err(Error::ConditionFailed { condition: Condition::IfAbsent });
                }
            },
            Some(Condition::IfVersionMatches(expected)) => {
                let matches = match found {
                    Some(i) => self.data[i].1.version == *expected,
                    None => false,
                };
                if !matches {
                    return Err(Error::ConditionFailed { condition: Condition::IfVersionMatches(expected.clone()) });
                }
            },
        }
        if self.version_counter == u64::MAX {
            return Err(Error::Other(String::from_str("version counter exhausted")));
        }
        let version = Version::from_string(format_u64(self.version_counter + 1));
        let metadata = match request.metadata {
            Some(m) => m,
            None => Metadata::new(),
        };
        let response = PutResponse { version: version.clone() };
        self.store(key, found, StoredObject { value: request.value, version, metadata });
        Ok(response)
    }

    /// Replaces the metadata of an existing object if the request's condition holds.
    pub fn patch(&mut self, request: PatchRequest) -> (r: Result<PatchResponse, Error>)
        ensures
            patch_step(
                old(self)@,
                request.key@,
                request.metadata@,
                option_condition_view(request.condition),
            ) == (final(self)@, patch_outcome(r)),
    {
        proof {
            use_type_invariant(&*self);
            lemma_objects_map(self.data@);
        }
        let key = request.key.as_str().to_owned();
        let found = self.find(&key);
        let i = match found {
            None => {
                return Err(Error::NotFound);
            },
            Some(i) => i,
        };
        match &request.condition {
            None => {},
            Some(Condition::IfAbsent) => {
                return Err(Error::ConditionFailed { condition: Condition::IfAbsent });
            },
            Some(Condition::IfVersionMatches(expected)) => {
                if !(self.data[i].1.version == *expected) {
                    return Err(Error::ConditionFailed { condition: Condition::IfVersionMatches(expected.clone()) });
                }
            },
        }
        if self.version_counter == u64::MAX {
            return Err(Error::Other(String::from_str("version counter exhausted")));
        }
        let version = Version::from_string(format_u64(self.version_counter + 1));
        let value = self.data[i].1.value.clone();
        let response = PatchResponse { version: version.clone() };
        self.store(key, found, StoredObject { value, version, metadata: request.metadata });
        Ok(response)
    }
}

/// A put keeps the store well formed.
pub proof fn lemma_put_step_wf(
    s: StoreView,
    path: Seq<char>,
    value: Seq<u8>,
    metadata: Map<Seq<char>, Seq<char>>,
    condition: Option<ConditionView>,
)
    requires
        s.wf(),
    ensures
        put_step(s, path, value, metadata, condition).0.wf(),
{
    if condition_holds(s.objects, path, condition) && s.minted < u64::MAX {
        lemma_accept_wf(s, path, value, metadata);
    }
}

/// A new store holds nothing: every read finds no object.
pub proof fn lemma_new_store_reads_none(path: Seq<char>)
    ensures
        get_step(StoreView { objects: Map::empty(), minted: 0 }, path) is None,
{
}

/// After an accepted put, a read returns the written payload and metadata
/// under the returned version; reads do not change the store, and writes
/// that are not accepted leave it as it was.
pub proof fn lemma_put_then_get(
    s: StoreView,
    path: Seq<char>,
    value: Seq<u8>,
    metadata: Map<Seq<char>, Seq<char>>,
    condition: Option<ConditionView>,
)
    ensures
        ({
            let (t, out) = put_step(s, path, value, metadata, condition);
            &&& out matches WriteOutcome::Accepted(ver) ==> get_step(t, path) == Some(
                ObjectView { value, version: ver, metadata },
            )
            &&& !(out is Accepted) ==> t == s
        }),
{
}

/// A patch that is not accepted leaves the store as it was.
pub proof fn lemma_failed_patch_changes_nothing(
    s: StoreView,
    path: Seq<char>,
    metadata: Map<Seq<char>, Seq<char>>,
    condition: Option<ConditionView>,
)
    ensures
        !(patch_step(s, path, metadata, condition).1 is Accepted) ==> patch_step(s, path, metadata, condition).0 == s,
{
}

/// Every accepted write returns a version that no object of the store
/// carried before, in particular not the object's own prior version.
pub proof fn lemma_accepted_version_is_new(
    s: StoreView,
    path: Seq<char>,
    value: Seq<u8>,
    metadata: Map<Seq<char>, Seq<char>>,
    condition: Option<ConditionView>,
)
    requires
        s.wf(),
    ensures
        put_step(s, path, value, metadata, condition).1 matches WriteOutcome::Accepted(ver) ==>
            forall|p: Seq<char>| #[trigger] s.objects.contains_key(p) ==> s.objects[p].version != ver,
        patch_step(s, path, metadata, condition).1 matches WriteOutcome::Accepted(ver) ==>
            forall|p: Seq<char>| #[trigger] s.objects.contains_key(p) ==> s.objects[p].version != ver,
{
    assert forall|p: Seq<char>| #[trigger] s.objects.contains_key(p) implies s.objects[p].version != decimal(s.minted + 1) by {
        lemma_minted_version_is_fresh(s, p);
    }
}

/// A patch of an absent object fails with `NotFound`; an accepted patch
/// keeps the payload byte for byte and replaces the metadata whole.
pub proof fn lemma_patch_keeps_payload(
    s: StoreView,
    path: Seq<char>,
    metadata: Map<Seq<char>, Seq<char>>,
    condition: Option<ConditionView>,
)
    ensures
        !s.objects.contains_key(path) ==> patch_step(s, path, metadata, condition) == (s, WriteOutcome::Missing),
        patch_step(s, path, metadata, condition).1 matches WriteOutcome::Accepted(ver) ==> get_step(
            patch_step(s, path, metadata, condition).0,
            path,
        ) == Some(ObjectView { value: s.objects[path].value, version: ver, metadata }),
{
}

/// A put under `IfAbsent` is accepted exactly when no object exists (and a
/// version is left to mint); otherwise it fails with that condition and
/// changes nothing.
pub proof fn lemma_put_if_absent(
    s: StoreView,
    path: Seq<char>,
    value: Seq<u8>,
    metadata: Map<Seq<char>, Seq<char>>,
)
    requires
        s.minted < u64::MAX,
    ensures
        put_step(s, path, value, metadata, Some(ConditionView::IfAbsent)).1 is Accepted
            <==> !s.objects.contains_key(path),
        s.objects.contains_key(path) ==> put_step(s, path, value, metadata, Some(ConditionView::IfAbsent))
            == (s, WriteOutcome::Rejected(ConditionView::IfAbsent)),
{
}

/// A put or patch under `IfVersionMatches(v)` is accepted exactly when the
/// object's current version is `v` (and a version is left to mint);
/// otherwise it fails with that condition and changes nothing.
pub proof fn lemma_version_match(
    s: StoreView,
    path: Seq<char>,
    value: Seq<u8>,
    metadata: Map<Seq<char>, Seq<char>>,
    v: Seq<char>,
)
    requires
        s.minted < u64::MAX,
    ensures
        ({
            let current = s.objects.contains_key(path) && s.objects[path].version == v;
            let c = Some(ConditionView::IfVersionMatches(v));
            &&& put_step(s, path, value, metadata, c).1 is Accepted <==> current
            &&& !current ==> put_step(s, path, value, metadata, c) == (
                s,
                WriteOutcome::Rejected(ConditionView::IfVersionMatches(v)),
            )
            &&& s.objects.contains_key(path) ==> (patch_step(s, path, metadata, c).1 is Accepted <==> current)
            &&& s.objects.contains_key(path) && !current ==> patch_step(s, path, metadata, c) == (
                s,
                WriteOutcome::Rejected(ConditionView::IfVersionMatches(v)),
            )
        }),
{
}

/// Applies, one after another, puts at `path` of the given payloads and
/// metadata, each under `IfVersionMatches(v)`.
pub open spec fn compare_and_swap_all(
    s: StoreView,
    path: Seq<char>,
    writes: Seq<(Seq<u8>, Map<Seq<char>, Seq<char>>)>,
    v: Seq<char>,
) -> (StoreView, Seq<WriteOutcome>)
    decreases writes.len(),
{
    if writes.len() == 0 {
        (s, Seq::empty())
    } else {
        let (t, outs) = compare_and_swap_all(s, path, writes.drop_last(), v);
        let (u, out) = put_step(t, path, writes.last().0, writes.last().1, Some(ConditionView::IfVersionMatches(v)));
        (u, outs.push(out))
    }
}

pub open spec fn count_accepted(outs: Seq<WriteOutcome>) -> nat
    decreases outs.len(),
{
    if outs.len() == 0 {
        0
    } else {
        count_accepted(outs.drop_last()) + if outs.last() is Accepted { 1nat } else { 0nat }
    }
}

/// Of any number of writes that all expect the current version `v`, in
/// whatever order the store takes them, exactly one is accepted: the first.
pub proof fn lemma_one_compare_and_swap_wins(
    s: StoreView,
    path: Seq<char>,
    writes: Seq<(Seq<u8>, Map<Seq<char>, Seq<char>>)>,
    v: Seq<char>,
)
    requires
        s.wf(),
        s.objects.contains_key(path),
        s.objects[path].version == v,
        s.minted < u64::MAX,
        writes.len() >= 1,
    ensures
        count_accepted(compare_and_swap_all(s, path, writes, v).1) == 1,
        compare_and_swap_all(s, path, writes, v).1[0] is Accepted,
    decreases writes.len(),
{
    let c = Some(ConditionView::IfVersionMatches(v));
    if writes.len() == 1 {
        assert(writes.drop_last().len() == 0);
        let outs = compare_and_swap_all(s, path, writes, v).1;
        assert(compare_and_swap_all(s, path, writes.drop_last(), v) == (s, Seq::<WriteOutcome>::empty()));
        assert(put_step(s, path, writes.last().0, writes.last().1, c).1 is Accepted);
        assert(outs =~= seq![put_step(s, path, writes.last().0, writes.last().1, c).1]);
        assert(outs.drop_last().len() == 0);
        assert(count_accepted(outs.drop_last()) == 0);
    } else {
        lemma_one_compare_and_swap_wins(s, path, writes.drop_last(), v);
        let (t, outs) = compare_and_swap_all(s, path, writes.drop_last(), v);
        lemma_cas_state(s, path, writes.drop_last(), v);
        let all = compare_and_swap_all(s, path, writes, v).1;
        let out = put_step(t, path, writes.last().0, writes.last().1, c).1;
        assert(!(out is Accepted));
        assert(all == outs.push(out));
        assert(all.drop_last() =~= outs);
        assert(all[0] == outs[0]);
    }
}

/// After the first of a run of writes expecting `v` is accepted, the
/// object's version is no longer `v`, so each later one is rejected and the
/// store stays well formed.
proof fn lemma_cas_state(
    s: StoreView,
    path: Seq<char>,
    writes: Seq<(Seq<u8>, Map<Seq<char>, Seq<char>>)>,
    v: Seq<char>,
)
    requires
        s.wf(),
        s.objects.contains_key(path),
        s.objects[path].version == v,
        s.minted < u64::MAX,
        writes.len() >= 1,
    ensures
        ({
            let t = compare_and_swap_all(s, path, writes, v).0;
            &&& t.wf()
            &&& t.objects.contains_key(path)
            &&& t.objects[path].version != v
        }),
    decreases writes.len(),
{
    let c = Some(ConditionView::IfVersionMatches(v));
    if writes.len() == 1 {
        assert(writes.drop_last().len() == 0);
        lemma_minted_version_is_fresh(s, path);
        lemma_accept_wf(s, path, writes.last().0, writes.last().1);
        assert(compare_and_swap_all(s, path, writes.drop_last(), v) == (s, Seq::<WriteOutcome>::empty()));
        assert(compare_and_swap_all(s, path, writes, v).0 == accept_step(s, path, writes.last().0, writes.last().1).0);
    } else {
        lemma_cas_state(s, path, writes.drop_last(), v);
        let (t, outs) = compare_and_swap_all(s, path, writes.drop_last(), v);
        assert(put_step(t, path, writes.last().0, writes.last().1, c).0 == t);
        assert(compare_and_swap_all(s, path, writes, v).0 == t);
    }
}

} // verus!
