use vstd::prelude::*;

verus! {

/// An opaque token naming one accepted write of an object; compared only
/// for equality.
#[derive(Debug, Eq, Hash)]
pub struct Version(String);

impl View for Version {
    type V = Seq<char>;

    closed spec fn view(&self) -> Seq<char> {
        self.0@
    }
}

impl Version {
    /// A version with the given text.
    pub fn new(s: &str) -> (r: Version)
        ensures
            r@ == s@,
    {
        Version(s.to_owned())
    }

    /// A version holding the given string.
    pub fn from_string(s: String) -> (r: Version)
        ensures
            r@ == s@,
    {
        Version(s)
    }

    /// The text of the version.
    pub fn as_str(&self) -> (r: &str)
        ensures
            r@ == self@,
    {
        self.0.as_str()
    }
}

impl Clone for Version {
    fn clone(&self) -> (r: Self)
        ensures
            r == *self,
    {
        Version(self.0.clone())
    }
}

impl PartialEq for Version {
    fn eq(&self, other: &Version) -> (r: bool) {
        self.0 == other.0
    }
}

impl vstd::std_specs::cmp::PartialEqSpecImpl for Version {
    open spec fn obeys_eq_spec() -> bool {
        true
    }

    open spec fn eq_spec(&self, other: &Version) -> bool {
        self@ == other@
    }
}

/// A precondition that a backend tests atomically before a write.
#[derive(Debug, Eq)]
pub enum Condition {
    /// Only write if no object exists at the path.
    IfAbsent,
    /// Only write if the object's current version is this one.
    IfVersionMatches(Version),
}

/// The mathematical value of a condition.
pub enum ConditionView {
    IfAbsent,
    IfVersionMatches(Seq<char>),
}

impl View for Condition {
    type V = ConditionView;

    open spec fn view(&self) -> ConditionView {
        match self {
            Condition::IfAbsent => ConditionView::IfAbsent,
            Condition::IfVersionMatches(v) => ConditionView::IfVersionMatches(v@),
        }
    }
}

impl Clone for Condition {
    fn clone(&self) -> (r: Self)
        ensures
            r == *self,
    {
        match self {
            Condition::IfAbsent => Condition::IfAbsent,
            Condition::IfVersionMatches(v) => Condition::IfVersionMatches(v.clone()),
        }
    }
}

impl PartialEq for Condition {
    fn eq(&self, other: &Condition) -> (r: bool) {
        match (self, other) {
            (Condition::IfAbsent, Condition::IfAbsent) => true,
            (Condition::IfVersionMatches(a), Condition::IfVersionMatches(b)) => a == b,
            _ => false,
        }
    }
}

impl vstd::std_specs::cmp::PartialEqSpecImpl for Condition {
    open spec fn obeys_eq_spec() -> bool {
        true
    }

    open spec fn eq_spec(&self, other: &Condition) -> bool {
        self@ == other@
    }
}

/// Why a storage operation failed.
#[derive(Debug)]
pub enum Error {
    /// The write's precondition did not hold; nothing changed.
    ConditionFailed { condition: Condition },
    /// A patch named an object that does not exist.
    NotFound,
    /// Transport, authentication, decoding or an unexpected status.
    Other(String),
}

/// Why a string is not a valid path.
#[derive(Debug, Clone, Copy, PartialEq, Eq, Structural)]
pub enum PathError {
    LeadingTrailingSlash,
    EmptySegment,
    RelativeSegment,
    ControlCharacter,
    Empty,
}

pub open spec fn is_ascii_control(c: char) -> bool {
    (c as u32) < 32 || (c as u32) == 127
}

/// The `/`-separated segments of `s`, in order.
pub open spec fn segments(s: Seq<char>) -> Seq<Seq<char>>
    decreases s.len(),
{
    if s.len() == 0 {
        seq![Seq::<char>::empty()]
    } else {
        let prev = segments(s.drop_last());
        if s.last() == '/' {
            prev.push(Seq::<char>::empty())
        } else {
            prev.update(prev.len() - 1, prev.last().push(s.last()))
        }
    }
}

/// What is wrong with one segment, checked in this order.
pub open spec fn segment_error(seg: Seq<char>) -> Option<PathError> {
    if seg.len() == 0 {
        Some(PathError::EmptySegment)
    } else if seg == seq!['.'] || seg == seq!['.', '.'] {
        Some(PathError::RelativeSegment)
    } else if exists|i: int| 0 <= i < seg.len() && is_ascii_control(#[trigger] seg[i]) {
        Some(PathError::ControlCharacter)
    } else {
        None
    }
}

/// The error of the first faulty segment of `segs`.
pub open spec fn first_segment_error(segs: Seq<Seq<char>>) -> Option<PathError>
    decreases segs.len(),
{
    if segs.len() == 0 {
        None
    } else {
        match first_segment_error(segs.drop_last()) {
            Some(e) => Some(e),
            None => segment_error(segs.last()),
        }
    }
}

/// Why `s` is not a valid path, or `None` when it is one.
pub open spec fn path_error(s: Seq<char>) -> Option<PathError> {
    if s.len() == 0 {
        Some(PathError::Empty)
    } else if s[0] == '/' || s.last() == '/' {
        Some(PathError::LeadingTrailingSlash)
    } else {
        first_segment_error(segments(s))
    }
}

pub open spec fn is_valid_path(s: Seq<char>) -> bool {
    path_error(s) is None
}

/// Completed segments stay as they are when more characters follow.
proof fn lemma_segments_keep_prefix(s: Seq<char>, i: int, j: int, done: Seq<Seq<char>>)
    requires
        0 <= i <= j <= s.len(),
        segments(s.subrange(0, i)).drop_last() == done,
    ensures
        segments(s.subrange(0, j)).len() > done.len(),
        segments(s.subrange(0, j)).subrange(0, done.len() as int) == done,
    decreases j - i,
{
    lemma_segments_nonempty(s.subrange(0, i));
    if j == i {
        assert(segments(s.subrange(0, i)).subrange(0, done.len() as int) =~= done);
    } else {
        lemma_segments_keep_prefix(s, i, j - 1, done);
        let t = s.subrange(0, j);
        assert(t.drop_last() =~= s.subrange(0, j - 1));
        let prev = segments(s.subrange(0, j - 1));
        assert(segments(t).subrange(0, done.len() as int) =~= prev.subrange(0, done.len() as int));
    }
}

proof fn lemma_segments_nonempty(s: Seq<char>)
    ensures
        segments(s).len() >= 1,
    decreases s.len(),
{
    if s.len() > 0 {
        lemma_segments_nonempty(s.drop_last());
    }
}

/// A faulty segment decides the error of every longer list that starts the same way.
proof fn lemma_first_error_extend(a: Seq<Seq<char>>, b: Seq<Seq<char>>)
    requires
        a.len() <= b.len(),
        b.subrange(0, a.len() as int) == a,
        first_segment_error(a) is Some,
    ensures
        first_segment_error(b) == first_segment_error(a),
    decreases b.len() - a.len(),
{
    if b.len() == a.len() {
        assert(b =~= a);
    } else {
        assert(b.drop_last().subrange(0, a.len() as int) =~= a);
        lemma_first_error_extend(a, b.drop_last());
    }
}

/// A validated path: non-empty `/`-separated segments, none empty, none `.`
/// or `..`, and no ASCII control character.
#[derive(Debug, Eq, Hash)]
pub struct Path(String);

impl View for Path {
    type V = Seq<char>;

    closed spec fn view(&self) -> Seq<char> {
        self.0@
    }
}

impl Clone for Path {
    fn clone(&self) -> (r: Self)
        ensures
            r@ == self@,
    {
        proof {
            use_type_invariant(self);
        }
        Path(self.0.clone())
    }
}

impl PartialEq for Path {
    fn eq(&self, other: &Path) -> (r: bool) {
        self.0 == other.0
    }
}

impl vstd::std_specs::cmp::PartialEqSpecImpl for Path {
    open spec fn obeys_eq_spec() -> bool {
        true
    }

    open spec fn eq_spec(&self, other: &Path) -> bool {
        self@ == other@
    }
}

impl Path {
    #[verifier::type_invariant]
    closed spec fn valid(self) -> bool {
        is_valid_path(self.0@)
    }

    /// Checks one segment `s[start..end]`.
    fn check_segment(s: &str, start: usize, end: usize) -> (r: Option<PathError>)
        requires
            start <= end <= s@.len(),
        ensures
            r == segment_error(s@.subrange(start as int, end as int)),
    {
        let ghost seg = s@.subrange(start as int, end as int);
        if start == end {
            return Some(PathError::EmptySegment);
        }
        if end - start <= 2 {
            let c0 = s.get_char(start);
            let c1 = if end - start == 2 { s.get_char(start + 1) } else { '.' };
            if c0 == '.' && c1 == '.' {
                if end - start == 1 {
                    assert(seg =~= seq!['.']);
                } else {
                    assert(seg =~= seq!['.', '.']);
                }
                return Some(PathError::RelativeSegment);
            }
            assert(seg != seq!['.'] && seg != seq!['.', '.']) by {
                if end - start == 1 {
                    assert(seg[0] == c0);
                } else {
                    assert(seg[0] == c0 && seg[1] == c1);
                }
            }
        }
        let mut i: usize = start;
        while i < end
            invariant
                start <= i <= end <= s@.len(),
                seg == s@.subrange(start as int, end as int),
                forall|j: int| 0 <= j < i - start ==> !is_ascii_control(#[trigger] seg[j]),
            decreases end - i,
        {
            let c = s.get_char(i);
            assert(seg[i - start] == c);
            if (c as u32) < 32 || (c as u32) == 127 {
                return Some(PathError::ControlCharacter);
            }
            i = i + 1;
        }
        None
    }

    /// Validates `s` as a path.
    pub fn new(s: &str) -> (r: Result<Path, PathError>)
        ensures
            match r {
                Ok(p) => path_error(s@) is None && p@ == s@,
                Err(e) => path_error(s@) == Some(e),
            },
    {
        let len = s.unicode_len();
        if len == 0 {
            return Err(PathError::Empty);
        }
        if s.get_char(0) == '/' || s.get_char(len - 1) == '/' {
            return Err(PathError::LeadingTrailingSlash);
        }
        let ghost mut done: Seq<Seq<char>> = Seq::empty();
        let mut start: usize = 0;
        let mut i: usize = 0;
        assert(s@.subrange(0, 0) =~= Seq::<char>::empty());
        assert(done.push(s@.subrange(0, 0)) =~= seq![Seq::<char>::empty()]);
        while i < len
            invariant
                0 <= start <= i <= len,
                len == s@.len(),
                s@[0] != '/' && s@.last() != '/',
                segments(s@.subrange(0, i as int)) == done.push(s@.subrange(start as int, i as int)),
                first_segment_error(done) is None,
            decreases len - i,
        {
            let c = s.get_char(i);
            let ghost pre = s@.subrange(0, i as int);
            let ghost next = s@.subrange(0, i + 1);
            assert(next.drop_last() =~= pre);
            if c == '/' {
                let e = Path::check_segment(s, start, i);
                let ghost seg = s@.subrange(start as int, i as int);
                assert(done.push(seg).drop_last() =~= done);
                if e.is_some() {
                    proof {
                        assert(segments(next) == done.push(seg).push(Seq::<char>::empty()));
                        Path::lemma_first_error_prefix(s@, i as int + 1, done.push(seg));
                        assert(first_segment_error(done.push(seg)) == e);
                    }
                    return Err(e.unwrap());
                }
                proof {
                    assert(s@.subrange(i + 1, i + 1) =~= Seq::<char>::empty());
                }
                proof {
                    done = done.push(seg);
                }
                start = i + 1;
            } else {
                assert(s@.subrange(start as int, i + 1) =~= s@.subrange(start as int, i as int).push(c));
            }
            i = i + 1;
        }
        assert(s@.subrange(0, len as int) =~= s@);
        let e = Path::check_segment(s, start, len);
        let ghost last = s@.subrange(start as int, len as int);
        assert(done.push(last).drop_last() =~= done);
        match e {
            Some(err) => Err(err),
            None => Ok(Path(s.to_owned())),
        }
    }

    /// Once a faulty segment is complete, the error of the whole path is fixed.
    proof fn lemma_first_error_prefix(s: Seq<char>, i: int, done: Seq<Seq<char>>)
        requires
            0 < i <= s.len(),
            segments(s.subrange(0, i)) == done.push(Seq::<char>::empty()),
            first_segment_error(done) is Some,
        ensures
            first_segment_error(segments(s)) == first_segment_error(done),
    {
        assert(done.push(Seq::<char>::empty()).drop_last() =~= done);
        lemma_segments_keep_prefix(s, i, s.len() as int, done);
        assert(s.subrange(0, s.len() as int) =~= s);
        lemma_first_error_extend(done, segments(s));
    }

    /// The text of the path.
    pub fn as_str(&self) -> (r: &str)
        ensures
            r@ == self@,
    {
        self.0.as_str()
    }
}

/// No key occurs twice among the entries.
pub open spec fn keys_unique(s: Seq<(String, String)>) -> bool {
    forall|i: int, j: int| 0 <= i < j < s.len() ==> (#[trigger] s[i]).0@ != (#[trigger] s[j]).0@
}

/// The map that a list of entries stands for.
pub open spec fn entries_map(s: Seq<(String, String)>) -> Map<Seq<char>, Seq<char>>
    decreases s.len(),
{
    if s.len() == 0 {
        Map::empty()
    } else {
        entries_map(s.drop_last()).insert(s.last().0@, s.last().1@)
    }
}

/// Which keys a list of unique entries maps, and to what.
proof fn lemma_entries_map(s: Seq<(String, String)>)
    requires
        keys_unique(s),
    ensures
        forall|k: Seq<char>|
            entries_map(s).contains_key(k) <==> exists|i: int| 0 <= i < s.len() && (#[trigger] s[i]).0@ == k,
        forall|i: int| 0 <= i < s.len() ==> entries_map(s)[(#[trigger] s[i]).0@] == s[i].1@,
        entries_map(s).dom().finite(),
        entries_map(s).dom().len() == s.len(),
    decreases s.len(),
{
    if s.len() > 0 {
        let p = s.drop_last();
        assert(keys_unique(p)) by {
            assert forall|i: int, j: int| 0 <= i < j < p.len() implies (#[trigger] p[i]).0@ != (#[trigger] p[j]).0@ by {
                assert(p[i] == s[i] && p[j] == s[j]);
            }
        }
        lemma_entries_map(p);
        let last = s.last();
        assert(!entries_map(p).contains_key(last.0@)) by {
            if entries_map(p).contains_key(last.0@) {
                let i = choose|i: int| 0 <= i < p.len() && (#[trigger] p[i]).0@ == last.0@;
                assert(s[i] == p[i]);
                assert(s[s.len() - 1] == last);
            }
        }
        assert forall|k: Seq<char>|
            entries_map(s).contains_key(k) <==> exists|i: int| 0 <= i < s.len() && (#[trigger] s[i]).0@ == k by {
            if entries_map(s).contains_key(k) && k != last.0@ {
                let i = choose|i: int| 0 <= i < p.len() && (#[trigger] p[i]).0@ == k;
                assert(s[i] == p[i]);
            }
            if exists|i: int| 0 <= i < s.len() && (#[trigger] s[i]).0@ == k {
                let i = choose|i: int| 0 <= i < s.len() && (#[trigger] s[i]).0@ == k;
                if i < s.len() - 1 {
                    assert(s[i] == p[i]);
                }
            }
        }
        assert forall|i: int| 0 <= i < s.len() implies entries_map(s)[(#[trigger] s[i]).0@] == s[i].1@ by {
            if i < s.len() - 1 {
                assert(s[i] == p[i]);
                assert(s[i].0@ != s[s.len() - 1].0@);
            }
        }
    }
}

/// User metadata of an object: a map from string keys to string values.
#[derive(Debug, Eq)]
pub struct Metadata {
    entries: Vec<(String, String)>,
}

impl View for Metadata {
    type V = Map<Seq<char>, Seq<char>>;

    closed spec fn view(&self) -> Map<Seq<char>, Seq<char>> {
        entries_map(self.entries@)
    }
}

impl Clone for Metadata {
    fn clone(&self) -> (r: Self)
        ensures
            r@ == self@,
    {
        proof {
            use_type_invariant(self);
        }
        let mut entries: Vec<(String, String)> = Vec::new();
        let mut i: usize = 0;
        while i < self.entries.len()
            invariant
                i <= self.entries@.len(),
                entries@.len() == i,
                keys_unique(self.entries@),
                forall|j: int| 0 <= j < i ==> (#[trigger] entries@[j]) == self.entries@[j],
            decreases self.entries@.len() - i,
        {
            let k = self.entries[i].0.clone();
            let v = self.entries[i].1.clone();
            entries.push((k, v));
            i = i + 1;
        }
        assert(entries@ =~= self.entries@);
        Metadata { entries }
    }
}

impl PartialEq for Metadata {
    fn eq(&self, other: &Metadata) -> (r: bool) {
        proof {
            use_type_invariant(self);
            use_type_invariant(other);
            lemma_entries_map(self.entries@);
            lemma_entries_map(other.entries@);
        }
        if self.entries.len() != other.entries.len() {
            return false;
        }
        let mut i: usize = 0;
        while i < self.entries.len()
            invariant
                i <= self.entries@.len(),
                keys_unique(self.entries@),
                forall|j: int| 0 <= j < self.entries@.len() ==> self@[(#[trigger] self.entries@[j]).0@] == self.entries@[j].1@,
                forall|j: int| 0 <= j < self.entries@.len() ==> self@.contains_key((#[trigger] self.entries@[j]).0@),
                forall|j: int| 0 <= j < i ==> other@.contains_key((#[trigger] self.entries@[j]).0@)
                    && other@[self.entries@[j].0@] == self.entries@[j].1@,
            decreases self.entries@.len() - i,
        {
            match other.get(self.entries[i].0.as_str()) {
                Some(v) => {
                    if !(*v == self.entries[i].1) {
                        return false;
                    }
                },
                None => {
                    return false;
                },
            }
            i = i + 1;
        }
        proof {
            assert(self@.dom().subset_of(other@.dom())) by {
                assert forall|k: Seq<char>| self@.dom().contains(k) implies other@.dom().contains(k) by {
                    let j = choose|j: int| 0 <= j < self.entries@.len() && (#[trigger] self.entries@[j]).0@ == k;
                }
            }
            vstd::set_lib::lemma_subset_equality(self@.dom(), other@.dom());
            assert(self@ =~= other@) by {
                assert forall|k: Seq<char>| self@.contains_key(k) implies self@[k] == other@[k] by {
                    let j = choose|j: int| 0 <= j < self.entries@.len() && (#[trigger] self.entries@[j]).0@ == k;
                }
            }
        }
        true
    }
}

impl vstd::std_specs::cmp::PartialEqSpecImpl for Metadata {
    open spec fn obeys_eq_spec() -> bool {
        true
    }

    open spec fn eq_spec(&self, other: &Metadata) -> bool {
        self@ == other@
    }
}

impl Default for Metadata {
    fn default() -> (r: Self)
        ensures
            r@ == Map::<Seq<char>, Seq<char>>::empty(),
    {
        Metadata::new()
    }
}

impl Metadata {
    #[verifier::type_invariant]
    closed spec fn unique(self) -> bool {
        keys_unique(self.entries@)
    }

    /// Empty metadata.
    pub fn new() -> (r: Metadata)
        ensures
            r@ == Map::<Seq<char>, Seq<char>>::empty(),
    {
        Metadata { entries: Vec::new() }
    }

    /// Metadata with one entry.
    pub fn with(key: &str, value: &str) -> (r: Metadata)
        ensures
            r@ == Map::<Seq<char>, Seq<char>>::empty().insert(key@, value@),
    {
        let mut m = Metadata::new();
        m.insert(key, value);
        m
    }

    /// The index of the entry for `key`.
    fn find(&self, key: &String) -> (r: Option<usize>)
        ensures
            match r {
                Some(i) => i < self.entries@.len() && self.entries@[i as int].0@ == key@,
                None => forall|i: int| 0 <= i < self.entries@.len() ==> (#[trigger] self.entries@[i]).0@ != key@,
            },
    {
        let mut i: usize = 0;
        while i < self.entries.len()
            invariant
                i <= self.entries@.len(),
                forall|j: int| 0 <= j < i ==> (#[trigger] self.entries@[j]).0@ != key@,
            decreases self.entries@.len() - i,
        {
            if self.entries[i].0 == *key {
                return Some(i);
            }
            i = i + 1;
        }
        None
    }

    /// Sets `key` to `value`, replacing any earlier value of `key`.
    pub fn insert(&mut self, key: &str, value: &str)
        ensures
            final(self)@ == old(self)@.insert(key@, value@),
    {
        proof {
            use_type_invariant(&*self);
        }
        let k = key.to_owned();
        let v = value.to_owned();
        let found = self.find(&k);
        let mut entries: Vec<(String, String)> = Vec::new();
        std::mem::swap(&mut entries, &mut self.entries);
        let ghost before = entries@;
        proof {
            lemma_entries_map(before);
        }
        match found {
            Some(i) => {
                entries.set(i, (k, v));
            },
            None => {
                entries.push((k, v));
            },
        }
        let ghost after = entries@;
        assert(keys_unique(after)) by {
            assert forall|a: int, b: int| 0 <= a < b < after.len() implies (#[trigger] after[a]).0@ != (#[trigger] after[b]).0@ by {
                if found is None && b == before.len() {
                    assert(after[a] == before[a]);
                } else if found is Some {
                    let i = found->0 as int;
                    if a != i && b != i {
                        assert(after[a] == before[a] && after[b] == before[b]);
                    } else if a == i {
                        assert(after[b] == before[b]);
                    } else {
                        assert(after[a] == before[a]);
                    }
                } else {
                    assert(after[a] == before[a] && after[b] == before[b]);
                }
            }
        }
        proof {
            lemma_entries_map(after);
            assert(entries_map(after) =~= entries_map(before).insert(key@, value@)) by {
                assert forall|kk: Seq<char>| #[trigger] entries_map(after).contains_key(kk)
                    <==> entries_map(before).insert(key@, value@).contains_key(kk) by {
                    if entries_map(after).contains_key(kk) && kk != key@ {
                        let j = choose|j: int| 0 <= j < after.len() && (#[trigger] after[j]).0@ == kk;
                        assert(after[j] == before[j]);
                    }
                    if entries_map(before).contains_key(kk) {
                        let j = choose|j: int| 0 <= j < before.len() && (#[trigger] before[j]).0@ == kk;
                        if found is Some && j == found->0 {
                            assert(after[j].0@ == kk);
                        } else {
                            assert(after[j] == before[j]);
                        }
                    }
                    if kk == key@ {
                        match found {
                            Some(i) => assert(after[i as int].0@ == kk),
                            None => assert(after[before.len() as int].0@ == kk),
                        }
                    }
                }
                assert forall|kk: Seq<char>| #[trigger] entries_map(after).contains_key(kk)
                    implies entries_map(after)[kk] == entries_map(before).insert(key@, value@)[kk] by {
                    let j = choose|j: int| 0 <= j < after.len() && (#[trigger] after[j]).0@ == kk;
                    if kk != key@ {
                        assert(after[j] == before[j]);
                    }
                }
            }
        }
        self.entries = entries;
    }

    /// The value of `key`, if it has one.
    pub fn get(&self, key: &str) -> (r: Option<&String>)
        ensures
            match r {
                Some(v) => self@.contains_key(key@) && v@ == self@[key@],
                None => !self@.contains_key(key@),
            },
    {
        proof {
            use_type_invariant(self);
            lemma_entries_map(self.entries@);
        }
        let k = key.to_owned();
        match self.find(&k) {
            Some(i) => Some(&self.entries[i].1),
            None => None,
        }
    }

    /// Whether `key` has a value.
    pub fn contains_key(&self, key: &str) -> (r: bool)
        ensures
            r == self@.contains_key(key@),
    {
        proof {
            use_type_invariant(self);
            lemma_entries_map(self.entries@);
        }
        let k = key.to_owned();
        self.find(&k).is_some()
    }

    /// Removes `key`, returning the value it had.
    pub fn remove(&mut self, key: &str) -> (r: Option<String>)
        ensures
            final(self)@ == old(self)@.remove(key@),
            match r {
                Some(v) => old(self)@.contains_key(key@) && v@ == old(self)@[key@],
                None => !old(self)@.contains_key(key@),
            },
    {
        proof {
            use_type_invariant(&*self);
            lemma_entries_map(self.entries@);
        }
        let k = key.to_owned();
        match self.find(&k) {
            None => {
                assert(old(self)@.remove(key@) =~= old(self)@);
                None
            },
            Some(i) => {
                let mut entries: Vec<(String, String)> = Vec::new();
                std::mem::swap(&mut entries, &mut self.entries);
                let ghost before = entries@;
                let (_, v) = entries.remove(i);
                let ghost after = entries@;
                assert(forall|j: int| 0 <= j < after.len() ==> #[trigger] after[j] == before[if j < i { j } else { j + 1 }]);
                assert(keys_unique(after)) by {
                    assert forall|a: int, b: int| 0 <= a < b < after.len() implies (#[trigger] after[a]).0@ != (#[trigger] after[b]).0@ by {
                        let a2 = if a < i { a } else { a + 1 };
                        let b2 = if b < i { b } else { b + 1 };
                        assert(after[a] == before[a2] && after[b] == before[b2]);
                    }
                }
                proof {
                    lemma_entries_map(after);
                    assert(entries_map(after) =~= entries_map(before).remove(key@)) by {
                        assert forall|kk: Seq<char>| #[trigger] entries_map(after).contains_key(kk)
                            <==> entries_map(before).remove(key@).contains_key(kk) by {
                            if entries_map(after).contains_key(kk) {
                                let j = choose|j: int| 0 <= j < after.len() && (#[trigger] after[j]).0@ == kk;
                                let j2 = if j < i { j } else { j + 1 };
                                assert(after[j] == before[j2]);
                            }
                            if entries_map(before).contains_key(kk) && kk != key@ {
                                let j = choose|j: int| 0 <= j < before.len() && (#[trigger] before[j]).0@ == kk;
                                let j1 = if j < i { j } else { j - 1 };
                                assert(after[j1] == before[j]);
                            }
                        }
                        assert forall|kk: Seq<char>| #[trigger] entries_map(after).contains_key(kk)
                            implies entries_map(after)[kk] == entries_map(before).remove(key@)[kk] by {
                            let j = choose|j: int| 0 <= j < after.len() && (#[trigger] after[j]).0@ == kk;
                            let j2 = if j < i { j } else { j + 1 };
                            assert(after[j] == before[j2]);
                        }
                    }
                }
                self.entries = entries;
                Some(v)
            },
        }
    }

    /// Whether there are no entries.
    pub fn is_empty(&self) -> (r: bool)
        ensures
            r == (self@.dom().len() == 0),
    {
        proof {
            use_type_invariant(self);
            lemma_entries_map(self.entries@);
        }
        self.entries.len() == 0
    }

    /// The number of entries.
    pub fn len(&self) -> (r: usize)
        ensures
            r == self@.dom().len(),
    {
        proof {
            use_type_invariant(self);
            lemma_entries_map(self.entries@);
        }
        self.entries.len()
    }

    /// The keys and values, each key once, in an unspecified order.
    pub fn entries(&self) -> (r: Vec<(String, String)>)
        ensures
            entries_map(r@) == self@,
            keys_unique(r@),
            r@.len() == self@.dom().len(),
    {
        proof {
            use_type_invariant(self);
        }
        let c = self.clone();
        proof {
            use_type_invariant(&c);
            lemma_entries_map(c.entries@);
        }
        c.entries
    }
}

/// The result of a path check, as `GetRequest::new` and its siblings report it.
pub open spec fn path_checked<T>(key: Seq<char>, r: Result<T, PathError>, key_of: spec_fn(T) -> Seq<char>) -> bool {
    match r {
        Ok(t) => path_error(key) is None && key_of(t) == key,
        Err(e) => path_error(key) == Some(e),
    }
}

/// A request to read the object at a path.
#[derive(Debug, Clone)]
pub struct GetRequest {
    pub key: Path,
}

impl GetRequest {
    /// A read of `key`, which must be a valid path.
    pub fn new(key: &str) -> (r: Result<GetRequest, PathError>)
        ensures
            path_checked(key@, r, |g: GetRequest| g.key@),
    {
        let p = Path::new(key)?;
        Ok(GetRequest { key: p })
    }
}

/// What a read finds: the payload, its version and its metadata.
#[derive(Debug, Clone)]
pub struct GetResponse {
    pub value: Vec<u8>,
    pub version: Version,
    pub metadata: Metadata,
}

/// A request to write a payload, optionally under a condition and with metadata.
#[derive(Debug, Clone)]
pub struct PutRequest {
    pub key: Path,
    pub value: Vec<u8>,
    pub condition: Option<Condition>,
    pub metadata: Option<Metadata>,
}

impl PutRequest {
    /// An unconditional write of `value` at `key`, with no metadata.
    pub fn new(key: &str, value: Vec<u8>) -> (r: Result<PutRequest, PathError>)
        ensures
            path_checked(key@, r, |q: PutRequest| q.key@),
            r matches Ok(q) ==> q.value@ == value@ && q.condition is None && q.metadata is None,
    {
        let p = Path::new(key)?;
        Ok(PutRequest { key: p, value, condition: None, metadata: None })
    }

    /// The same write, accepted only if no object exists.
    pub fn if_absent(self) -> (r: Self)
        ensures
            r.key@ == self.key@,
            r.value@ == self.value@,
            r.metadata == self.metadata,
            r.condition == Some(Condition::IfAbsent),
    {
        PutRequest { condition: Some(Condition::IfAbsent), ..self }
    }

    /// The same write, accepted only if the current version is `version`.
    pub fn if_version_matches(self, version: Version) -> (r: Self)
        ensures
            r.key@ == self.key@,
            r.value@ == self.value@,
            r.metadata == self.metadata,
            r.condition == Some(Condition::IfVersionMatches(version)),
    {
        PutRequest { condition: Some(Condition::IfVersionMatches(version)), ..self }
    }

    /// The same write, with `metadata` as the object's metadata.
    pub fn metadata(self, metadata: Metadata) -> (r: Self)
        ensures
            r.key@ == self.key@,
            r.value@ == self.value@,
            r.condition == self.condition,
            r.metadata == Some(metadata),
    {
        PutRequest { metadata: Some(metadata), ..self }
    }
}

/// The version minted by an accepted write.
#[derive(Debug, Clone)]
pub struct PutResponse {
    pub version: Version,
}

/// A request to replace an object's metadata, keeping its payload.
#[derive(Debug, Clone)]
pub struct PatchRequest {
    pub key: Path,
    pub metadata: Metadata,
    pub condition: Option<Condition>,
}

impl PatchRequest {
    /// An unconditional metadata replacement at `key`.
    pub fn new(key: &str, metadata: Metadata) -> (r: Result<PatchRequest, PathError>)
        ensures
            path_checked(key@, r, |q: PatchRequest| q.key@),
            r matches Ok(q) ==> q.metadata == metadata && q.condition is None,
    {
        let p = Path::new(key)?;
        Ok(PatchRequest { key: p, metadata, condition: None })
    }

    /// The same patch, accepted only if the current version is `version`.
    pub fn if_version_matches(self, version: Version) -> (r: Self)
        ensures
            r.key@ == self.key@,
            r.metadata == self.metadata,
            r.condition == Some(Condition::IfVersionMatches(version)),
    {
        PatchRequest { condition: Some(Condition::IfVersionMatches(version)), ..self }
    }
}

/// The version minted by an accepted patch.
#[derive(Debug, Clone)]
pub struct PatchResponse {
    pub version: Version,
}

} // verus!
