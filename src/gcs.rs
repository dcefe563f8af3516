use vstd::prelude::*;

use crate::client::{
    entries_map, keys_unique, Condition, ConditionView, Error, GetResponse, Metadata,
    PatchResponse, Path, PutResponse, Version,
};
use crate::decimal::{decimal, format_u64};
use crate::inmemory::option_condition_view;

verus! {

/// The public endpoint of the cloud object store.
pub const DEFAULT_ENDPOINT: &'static str = "https://storage.googleapis.com";

/// The header prefix that carries user metadata.
pub const META_PREFIX: &'static str = "x-goog-meta-";

/// The OAuth scope that reading and writing objects needs.
pub const STORAGE_SCOPE: &'static str = "https://www.googleapis.com/auth/devstorage.read_write";

/// The text of `s` percent-encoded for a URL component.
pub uninterp spec fn url_encoded(s: Seq<char>) -> Seq<char>;

/// Relies on urlencoding::encode: the percent-encoding of a string, which
/// depends on the string alone.
#[verifier::external_body]
fn url_encode(s: &str) -> (r: String)
    ensures
        r@ == url_encoded(s@),
{
    urlencoding::encode(s).into_owned()
}

/// `i` is the position of the first `/` of `p`.
pub open spec fn is_first_slash(p: Seq<char>, i: int) -> bool {
    &&& 0 <= i < p.len()
    &&& p[i] == '/'
    &&& forall|j: int| 0 <= j < i ==> p[j] != '/'
}

pub open spec fn has_slash(p: Seq<char>) -> bool {
    exists|i: int| 0 <= i < p.len() && p[i] == '/'
}

/// The bucket named by a path: what precedes its first `/`.
pub open spec fn bucket_of(p: Seq<char>) -> Seq<char> {
    p.subrange(0, choose|i: int| is_first_slash(p, i))
}

/// The object name within the bucket: what follows the first `/`.
pub open spec fn object_of(p: Seq<char>) -> Seq<char> {
    p.subrange((choose|i: int| is_first_slash(p, i)) + 1, p.len() as int)
}

proof fn lemma_first_slash_unique(p: Seq<char>, i: int)
    requires
        is_first_slash(p, i),
    ensures
        (choose|k: int| is_first_slash(p, k)) == i,
{
    let k = choose|k: int| is_first_slash(p, k);
    if k < i {
        assert(p[k] != '/');
    } else if i < k {
        assert(p[i] != '/');
    }
}

/// Splits a path into its bucket and the object name within it.
pub fn parse_path(path: &Path) -> (r: Result<(&str, &str), Error>)
    ensures
        match r {
            Ok((b, k)) => has_slash(path@) && b@ == bucket_of(path@) && k@ == object_of(path@),
            Err(e) => !has_slash(path@) && e is Other,
        },
{
    let s = path.as_str();
    let len = s.unicode_len();
    let mut i: usize = 0;
    while i < len
        invariant
            i <= len == s@.len(),
            s@ == path@,
            forall|j: int| 0 <= j < i ==> s@[j] != '/',
        decreases len - i,
    {
        if s.get_char(i) == '/' {
            proof {
                lemma_first_slash_unique(s@, i as int);
            }
            return Ok((s.substring_char(0, i), s.substring_char(i + 1, len)));
        }
        i = i + 1;
    }
    Err(Error::Other(String::from_str("path must include bucket: expected 'bucket/key'")))
}

/// The URL of an object's metadata resource.
pub open spec fn object_url(endpoint: Seq<char>, p: Seq<char>) -> Seq<char> {
    endpoint + "/storage/v1/b/"@ + url_encoded(bucket_of(p)) + "/o/"@ + url_encoded(object_of(p))
}

/// The query that expresses a condition as a generation precondition.
pub open spec fn generation_query(c: Option<ConditionView>) -> Seq<char> {
    match c {
        None => Seq::empty(),
        Some(ConditionView::IfAbsent) => "ifGenerationMatch=0"@,
        Some(ConditionView::IfVersionMatches(v)) => "ifGenerationMatch="@ + v,
    }
}

fn path_parts(path: &Path) -> (r: Result<(String, String), Error>)
    ensures
        match r {
            Ok((b, k)) => has_slash(path@) && b@ == url_encoded(bucket_of(path@)) && k@ == url_encoded(object_of(path@)),
            Err(e) => !has_slash(path@) && e is Other,
        },
{
    let (bucket, key) = parse_path(path)?;
    Ok((url_encode(bucket), url_encode(key)))
}

fn append_generation_query(url: &mut String, condition: &Option<Condition>)
    ensures
        final(url)@ == old(url)@ + generation_query(option_condition_view(*condition)),
{
    match condition {
        None => {
            assert(old(url)@ + Seq::<char>::empty() =~= old(url)@);
        },
        Some(Condition::IfAbsent) => url.append("ifGenerationMatch=0"),
        Some(Condition::IfVersionMatches(v)) => {
            url.append("ifGenerationMatch=");
            url.append(v.as_str());
            assert(final(url)@ =~= old(url)@ + ("ifGenerationMatch="@ + v@));
        },
    }
}

/// The URL that reads an object's payload.
pub fn get_url(endpoint: &str, path: &Path) -> (r: Result<String, Error>)
    ensures
        match r {
            Ok(u) => has_slash(path@) && u@ == object_url(endpoint@, path@) + "?alt=media"@,
            Err(e) => !has_slash(path@) && e is Other,
        },
{
    let (bucket, key) = path_parts(path)?;
    let mut url = endpoint.to_owned();
    url.append("/storage/v1/b/");
    url.append(bucket.as_str());
    url.append("/o/");
    url.append(key.as_str());
    url.append("?alt=media");
    Ok(url)
}

/// The URL that uploads a payload, with the condition as a precondition.
pub fn put_url(endpoint: &str, path: &Path, condition: &Option<Condition>) -> (r: Result<String, Error>)
    ensures
        match r {
            Ok(u) => has_slash(path@) && u@ == endpoint@ + "/upload/storage/v1/b/"@ + url_encoded(bucket_of(path@))
                + "/o?uploadType=media&name="@ + url_encoded(object_of(path@)) + if condition.is_some() {
                "&"@ + generation_query(option_condition_view(*condition))
            } else {
                Seq::empty()
            },
            Err(e) => !has_slash(path@) && e is Other,
        },
{
    let (bucket, key) = path_parts(path)?;
    let mut url = endpoint.to_owned();
    url.append("/upload/storage/v1/b/");
    url.append(bucket.as_str());
    url.append("/o?uploadType=media&name=");
    url.append(key.as_str());
    let ghost base = url@;
    if condition.is_some() {
        url.append("&");
        let ghost amp = url@;
        append_generation_query(&mut url, condition);
        assert(url@ =~= base + ("&"@ + generation_query(option_condition_view(*condition))));
    } else {
        assert(url@ =~= base + Seq::<char>::empty());
    }
    Ok(url)
}

/// The URL that patches an object's metadata, with the condition as a
/// precondition.
pub fn patch_url(endpoint: &str, path: &Path, condition: &Option<Condition>) -> (r: Result<String, Error>)
    ensures
        match r {
            Ok(u) => has_slash(path@) && u@ == object_url(endpoint@, path@) + if condition.is_some() {
                "?"@ + generation_query(option_condition_view(*condition))
            } else {
                Seq::empty()
            },
            Err(e) => !has_slash(path@) && e is Other,
        },
{
    let (bucket, key) = path_parts(path)?;
    let mut url = endpoint.to_owned();
    url.append("/storage/v1/b/");
    url.append(bucket.as_str());
    url.append("/o/");
    url.append(key.as_str());
    let ghost base = url@;
    if condition.is_some() {
        url.append("?");
        append_generation_query(&mut url, condition);
        assert(url@ =~= base + ("?"@ + generation_query(option_condition_view(*condition))));
    } else {
        assert(url@ =~= base + Seq::<char>::empty());
    }
    Ok(url)
}

/// The metadata key that a header name carries, if it has the metadata prefix.
pub open spec fn meta_key(name: Seq<char>) -> Option<Seq<char>> {
    let pre = META_PREFIX@;
    if name.len() >= pre.len() && name.subrange(0, pre.len() as int) == pre {
        Some(name.subrange(pre.len() as int, name.len() as int))
    } else {
        None
    }
}

/// The metadata that a list of response headers carries; a later header
/// wins over an earlier one with the same key.
pub open spec fn headers_metadata(hs: Seq<(String, String)>) -> Map<Seq<char>, Seq<char>>
    decreases hs.len(),
{
    if hs.len() == 0 {
        Map::empty()
    } else {
        let m = headers_metadata(hs.drop_last());
        match meta_key(hs.last().0@) {
            Some(k) => m.insert(k, hs.last().1@),
            None => m,
        }
    }
}

/// The key of a metadata header, or `None` for any other header.
fn strip_meta_prefix(name: &str) -> (r: Option<&str>)
    ensures
        match r {
            Some(k) => meta_key(name@) == Some(k@),
            None => meta_key(name@) is None,
        },
{
    let pre = META_PREFIX;
    let plen = pre.unicode_len();
    let len = name.unicode_len();
    if len < plen {
        return None;
    }
    let mut i: usize = 0;
    while i < plen
        invariant
            i <= plen <= len,
            plen == pre@.len(),
            len == name@.len(),
            pre@ == META_PREFIX@,
            forall|j: int| 0 <= j < i ==> name@[j] == pre@[j],
        decreases plen - i,
    {
        if name.get_char(i) != pre.get_char(i) {
            assert(name@.subrange(0, plen as int)[i as int] != pre@[i as int]);
            return None;
        }
        i = i + 1;
    }
    assert(name@.subrange(0, plen as int) =~= pre@);
    Some(name.substring_char(plen, len))
}

/// The metadata carried by response headers: every header named with the
/// metadata prefix, the prefix taken off.
pub fn metadata_from_headers(headers: &Vec<(String, String)>) -> (r: Metadata)
    ensures
        r@ == headers_metadata(headers@),
{
    let mut m = Metadata::new();
    let mut i: usize = 0;
    while i < headers.len()
        invariant
            i <= headers@.len(),
            m@ == headers_metadata(headers@.subrange(0, i as int)),
        decreases headers@.len() - i,
    {
        let ghost next = headers@.subrange(0, i + 1);
        assert(next.drop_last() =~= headers@.subrange(0, i as int));
        match strip_meta_prefix(headers[i].0.as_str()) {
            Some(k) => m.insert(k, headers[i].1.as_str()),
            None => {},
        }
        i = i + 1;
    }
    assert(headers@.subrange(0, headers@.len() as int) =~= headers@);
    m
}

/// The request headers that carry metadata `m`; read back, they give `m`.
pub fn metadata_headers(m: &Metadata) -> (r: Vec<(String, String)>)
    ensures
        headers_metadata(r@) == m@,
        r@.len() == m@.dom().len(),
        forall|i: int| 0 <= i < r@.len() ==> meta_key(#[trigger] r@[i].0@) is Some,
{
    let entries = m.entries();
    let mut r: Vec<(String, String)> = Vec::new();
    let mut i: usize = 0;
    while i < entries.len()
        invariant
            i <= entries@.len(),
            r@.len() == i,
            entries@.len() == m@.dom().len(),
            keys_unique(entries@),
            entries_map(entries@) == m@,
            headers_metadata(r@) == entries_map(entries@.subrange(0, i as int)),
            forall|j: int| 0 <= j < r@.len() ==> meta_key(#[trigger] r@[j].0@) is Some,
        decreases entries@.len() - i,
    {
        let mut name = META_PREFIX.to_owned();
        name.append(entries[i].0.as_str());
        let ghost k = entries@[i as int].0@;
        assert(name@.subrange(0, META_PREFIX@.len() as int) =~= META_PREFIX@);
        assert(name@.subrange(META_PREFIX@.len() as int, name@.len() as int) =~= k);
        let ghost before = r@;
        r.push((name, entries[i].1.clone()));
        assert(r@.drop_last() =~= before);
        let ghost sub = entries@.subrange(0, i + 1);
        assert(sub.drop_last() =~= entries@.subrange(0, i as int));
        i = i + 1;
    }
    assert(entries@.subrange(0, entries@.len() as int) =~= entries@);
    r
}

/// The string member `generation` of a JSON object, if `body` is the text
/// of one that has it.
pub uninterp spec fn generation_in_json(body: Seq<u8>) -> Option<Seq<char>>;

/// Relies on serde_json::from_slice, with `Value` indexing and `as_str`:
/// the `generation` string of a JSON body, which depends on the bytes alone.
#[verifier::external_body]
fn json_generation(body: &Vec<u8>) -> (r: Option<String>)
    ensures
        match r {
            Some(g) => generation_in_json(body@) == Some(g@),
            None => generation_in_json(body@) is None,
        },
{
    let value: serde_json::Value = serde_json::from_slice(body).ok()?;
    value["generation"].as_str().map(|g| g.to_string())
}

/// The message of a failure with an unexpected status.
pub open spec fn status_message(op: Seq<char>, status: u16) -> Seq<char> {
    "GCS "@ + op + " error: status "@ + decimal(status as nat)
}

fn status_error(op: &str, status: u16) -> (r: Error)
    ensures
        r matches Error::Other(m) && m@ == status_message(op@, status),
{
    let mut m = String::from_str("GCS ");
    m.append(op);
    m.append(" error: status ");
    let n = format_u64(status as u64);
    m.append(n.as_str());
    Error::Other(m)
}

/// What a read returned, from its status, generation header, headers and
/// body: 404 is no object; 200 is the object, which needs a generation;
/// any other status is a failure.
pub fn get_response(status: u16, generation: Option<String>, headers: &Vec<(String, String)>, body: Vec<u8>) -> (r: Result<Option<GetResponse>, Error>)
    ensures
        status == 404 ==> r matches Ok(None),
        status == 200 ==> match generation {
            Some(g) => r matches Ok(Some(resp)) && resp.value@ == body@ && resp.version@ == g@
                && resp.metadata@ == headers_metadata(headers@),
            None => r matches Err(Error::Other(_)),
        },
        status != 200 && status != 404 ==> (r matches Err(Error::Other(m)) && m@ == status_message("get"@, status)),
{
    if status == 404 {
        Ok(None)
    } else if status == 200 {
        match generation {
            Some(g) => Ok(Some(GetResponse {
                value: body,
                version: Version::from_string(g),
                metadata: metadata_from_headers(headers),
            })),
            None => Err(Error::Other(String::from_str("missing generation header"))),
        }
    } else {
        Err(status_error("get", status))
    }
}

/// The version in the JSON body of an accepted write.
fn written_version(body: &Vec<u8>) -> (r: Result<Version, Error>)
    ensures
        match r {
            Ok(v) => generation_in_json(body@) == Some(v@),
            Err(e) => generation_in_json(body@) is None && e is Other,
        },
{
    match json_generation(body) {
        Some(g) => Ok(Version::from_string(g)),
        None => Err(Error::Other(String::from_str("missing generation"))),
    }
}

/// What an upload returned, from its status and body: 200 is the new
/// version; 412 is the failed condition; any other status is a failure.
pub fn put_response(status: u16, body: &Vec<u8>, condition: Option<Condition>) -> (r: Result<PutResponse, Error>)
    ensures
        status == 200 ==> match generation_in_json(body@) {
            Some(g) => r matches Ok(resp) && resp.version@ == g,
            None => r matches Err(Error::Other(_)),
        },
        status == 412 && condition is Some ==> (r matches Err(Error::ConditionFailed { condition: c }) && Some(c) == condition),
        status != 200 && !(status == 412 && condition is Some) ==> (r matches Err(Error::Other(m)) && m@
            == status_message("put"@, status)),
{
    if status == 200 {
        let version = written_version(body)?;
        Ok(PutResponse { version })
    } else if status == 412 && condition.is_some() {
        Err(Error::ConditionFailed { condition: condition.unwrap() })
    } else {
        Err(status_error("put", status))
    }
}

/// What a metadata patch returned, from its status and body: 200 is the new
/// version; 404 is an absent object; 412 is the failed condition; any other
/// status is a failure.
pub fn patch_response(status: u16, body: &Vec<u8>, condition: Option<Condition>) -> (r: Result<PatchResponse, Error>)
    ensures
        status == 200 ==> match generation_in_json(body@) {
            Some(g) => r matches Ok(resp) && resp.version@ == g,
            None => r matches Err(Error::Other(_)),
        },
        status == 404 ==> r matches Err(Error::NotFound),
        status == 412 && condition is Some ==> (r matches Err(Error::ConditionFailed { condition: c }) && Some(c) == condition),
        status != 200 && status != 404 && !(status == 412 && condition is Some) ==> (r matches Err(Error::Other(m))
            && m@ == status_message("patch"@, status)),
{
    if status == 200 {
        let version = written_version(body)?;
        Ok(PatchResponse { version })
    } else if status == 404 {
        Err(Error::NotFound)
    } else if status == 412 && condition.is_some() {
        Err(Error::ConditionFailed { condition: condition.unwrap() })
    } else {
        Err(status_error("patch", status))
    }
}

} // verus!
