//! Pure decision logic of the cloud-bucket storage backend: option parsing
//! and endpoint rewriting. The networked shell around these lives outside
//! the verified core.

use vstd::prelude::*;

verus! {

/// Storage class names a bucket accepts.
#[derive(Clone, Copy, Debug, PartialEq, Eq, Structural)]
pub enum StorageClass {
    Standard,
    Nearline,
    Coldline,
    DurableReducedAvailability,
    Regional,
    MultiRegional,
}

/// Canned access-control lists an object can be created with.
#[derive(Clone, Copy, Debug, PartialEq, Eq, Structural)]
pub enum PredefinedAcl {
    AuthenticatedRead,
    BucketOwnerFullControl,
    BucketOwnerRead,
    Private,
    ProjectPrivate,
    PublicRead,
}

/// Whether two character strings are equal.
pub fn str_eq(a: &str, b: &str) -> (r: bool)
    ensures
        r == (a@ == b@),
{
    let an = a.unicode_len();
    let bn = b.unicode_len();
    if an != bn {
        proof {
            assert(a@.len() != b@.len());
        }
        return false;
    }
    let mut i: usize = 0;
    while i < an
        invariant
            i <= an,
            an == a@.len(),
            an == b@.len(),
            forall|j: int| 0 <= j < i ==> a@[j] == b@[j],
        decreases an - i,
    {
        if a.get_char(i) != b.get_char(i) {
            return false;
        }
        i = i + 1;
    }
    proof {
        assert(a@ =~= b@);
    }
    true
}

/// Whether `s` begins with `p`.
pub fn str_has_prefix(s: &str, p: &str) -> (r: bool)
    ensures
        r == (s@.len() >= p@.len() && s@.subrange(0, p@.len() as int) == p@),
{
    let sn = s.unicode_len();
    let pn = p.unicode_len();
    if sn < pn {
        return false;
    }
    let mut i: usize = 0;
    while i < pn
        invariant
            i <= pn,
            pn == p@.len(),
            sn == s@.len(),
            pn <= sn,
            forall|j: int| 0 <= j < i ==> s@[j] == p@[j],
        decreases pn - i,
    {
        if s.get_char(i) != p.get_char(i) {
            proof {
                assert(s@.subrange(0, p@.len() as int)[i as int] == s@[i as int]);
            }
            return false;
        }
        i = i + 1;
    }
    proof {
        assert(s@.subrange(0, p@.len() as int) =~= p@);
    }
    true
}

/// Whether `s` ends with `p`.
pub fn str_has_suffix(s: &str, p: &str) -> (r: bool)
    ensures
        r == (s@.len() >= p@.len() && s@.subrange(
            s@.len() - p@.len(),
            s@.len() as int,
        ) == p@),
{
    let sn = s.unicode_len();
    let pn = p.unicode_len();
    if sn < pn {
        return false;
    }
    let base = sn - pn;
    let mut i: usize = 0;
    while i < pn
        invariant
            i <= pn,
            pn == p@.len(),
            sn == s@.len(),
            base == sn - pn,
            forall|j: int| 0 <= j < i ==> s@[base + j] == p@[j],
        decreases pn - i,
    {
        if s.get_char(base + i) != p.get_char(i) {
            proof {
                assert(s@.subrange(s@.len() - p@.len(), s@.len() as int)[i as int] == s@[base + i]);
            }
            return false;
        }
        i = i + 1;
    }
    proof {
        assert(s@.subrange(s@.len() - p@.len(), s@.len() as int) =~= p@);
    }
    true
}

pub open spec fn spec_parse_storage_class(s: Seq<char>) -> Result<Option<StorageClass>, ()> {
    if s.len() == 0 {
        Ok(None)
    } else if s == "STANDARD"@ {
        Ok(Some(StorageClass::Standard))
    } else if s == "NEARLINE"@ {
        Ok(Some(StorageClass::Nearline))
    } else if s == "COLDLINE"@ {
        Ok(Some(StorageClass::Coldline))
    } else if s == "DURABLE_REDUCED_AVAILABILITY"@ {
        Ok(Some(StorageClass::DurableReducedAvailability))
    } else if s == "REGIONAL"@ {
        Ok(Some(StorageClass::Regional))
    } else if s == "MULTI_REGIONAL"@ {
        Ok(Some(StorageClass::MultiRegional))
    } else {
        Err(())
    }
}

/// Maps a storage-class option string to its value: the empty string means
/// no preference, an unknown name is handed back as the error.
pub fn parse_storage_class<'a>(sc: &'a str) -> (r: Result<Option<StorageClass>, &'a str>)
    ensures
        match r {
            Ok(o) => spec_parse_storage_class(sc@) == Ok::<Option<StorageClass>, ()>(o),
            Err(e) => spec_parse_storage_class(sc@) == Err::<Option<StorageClass>, ()>(())
                && e@ == sc@,
        },
{
    if sc.unicode_len() == 0 {
        Ok(None)
    } else if str_eq(sc, "STANDARD") {
        Ok(Some(StorageClass::Standard))
    } else if str_eq(sc, "NEARLINE") {
        Ok(Some(StorageClass::Nearline))
    } else if str_eq(sc, "COLDLINE") {
        Ok(Some(StorageClass::Coldline))
    } else if str_eq(sc, "DURABLE_REDUCED_AVAILABILITY") {
        Ok(Some(StorageClass::DurableReducedAvailability))
    } else if str_eq(sc, "REGIONAL") {
        Ok(Some(StorageClass::Regional))
    } else if str_eq(sc, "MULTI_REGIONAL") {
        Ok(Some(StorageClass::MultiRegional))
    } else {
        Err(sc)
    }
}

pub open spec fn spec_parse_predefined_acl(s: Seq<char>) -> Result<Option<PredefinedAcl>, ()> {
    if s.len() == 0 {
        Ok(None)
    } else if s == "authenticatedRead"@ {
        Ok(Some(PredefinedAcl::AuthenticatedRead))
    } else if s == "bucketOwnerFullControl"@ {
        Ok(Some(PredefinedAcl::BucketOwnerFullControl))
    } else if s == "bucketOwnerRead"@ {
        Ok(Some(PredefinedAcl::BucketOwnerRead))
    } else if s == "private"@ {
        Ok(Some(PredefinedAcl::Private))
    } else if s == "projectPrivate"@ {
        Ok(Some(PredefinedAcl::ProjectPrivate))
    } else if s == "publicRead"@ {
        Ok(Some(PredefinedAcl::PublicRead))
    } else {
        Err(())
    }
}

/// Maps a canned-ACL option string to its value: the empty string means no
/// preference, an unknown name is handed back as the error.
pub fn parse_predefined_acl<'a>(acl: &'a str) -> (r: Result<Option<PredefinedAcl>, &'a str>)
    ensures
        match r {
            Ok(o) => spec_parse_predefined_acl(acl@) == Ok::<Option<PredefinedAcl>, ()>(o),
            Err(e) => spec_parse_predefined_acl(acl@) == Err::<Option<PredefinedAcl>, ()>(())
                && e@ == acl@,
        },
{
    if acl.unicode_len() == 0 {
        Ok(None)
    } else if str_eq(acl, "authenticatedRead") {
        Ok(Some(PredefinedAcl::AuthenticatedRead))
    } else if str_eq(acl, "bucketOwnerFullControl") {
        Ok(Some(PredefinedAcl::BucketOwnerFullControl))
    } else if str_eq(acl, "bucketOwnerRead") {
        Ok(Some(PredefinedAcl::BucketOwnerRead))
    } else if str_eq(acl, "private") {
        Ok(Some(PredefinedAcl::Private))
    } else if str_eq(acl, "projectPrivate") {
        Ok(Some(PredefinedAcl::ProjectPrivate))
    } else if str_eq(acl, "publicRead") {
        Ok(Some(PredefinedAcl::PublicRead))
    } else {
        Err(acl)
    }
}

/// The fixed upstream service base every request URI starts with.
pub open spec fn spec_service_base() -> Seq<char> {
    "https://www.googleapis.com"@
}

/// The endpoint path suffixes a configured host may carry; they are already
/// part of the request URI and must not be doubled.
pub open spec fn spec_upload_suffix() -> Seq<char> {
    "upload/storage/v1/"@
}

pub open spec fn spec_storage_suffix() -> Seq<char> {
    "storage/v1/"@
}

pub open spec fn spec_strip_endpoint(h: Seq<char>) -> Seq<char> {
    if h.len() >= spec_upload_suffix().len() && h.subrange(
        h.len() - spec_upload_suffix().len(),
        h.len() as int,
    ) == spec_upload_suffix() {
        h.take(h.len() - spec_upload_suffix().len())
    } else if h.len() >= spec_storage_suffix().len() && h.subrange(
        h.len() - spec_storage_suffix().len(),
        h.len() as int,
    ) == spec_storage_suffix() {
        h.take(h.len() - spec_storage_suffix().len())
    } else {
        h
    }
}

pub open spec fn spec_trim_slashes(s: Seq<char>) -> Seq<char>
    decreases s.len(),
{
    if s.len() > 0 && s[s.len() - 1] == '/' {
        spec_trim_slashes(s.drop_last())
    } else {
        s
    }
}

/// What rewriting a request URI onto a custom host produces: when the URI
/// addresses the upstream service, its path is appended to the host (any
/// endpoint suffix and trailing slashes of the host first set aside);
/// otherwise nothing.
pub open spec fn spec_change_host(host: Seq<char>, url: Seq<char>) -> Option<Seq<char>> {
    if url.len() >= spec_service_base().len() && url.subrange(
        0,
        spec_service_base().len() as int,
    ) == spec_service_base() {
        Some(spec_trim_slashes(spec_strip_endpoint(host)) + url.skip(
            spec_service_base().len() as int,
        ))
    } else {
        None
    }
}

proof fn lemma_trim_slashes_at(s: Seq<char>, hi: int)
    requires
        0 <= hi <= s.len(),
        forall|j: int| hi <= j < s.len() ==> s[j] == '/',
        hi == 0 || s[hi - 1] != '/',
    ensures
        spec_trim_slashes(s) =~= s.take(hi),
    decreases s.len() - hi,
{
    if hi == s.len() {
        assert(s.take(hi) =~= s);
    } else {
        assert(s.drop_last() =~= s.take(s.len() - 1));
        lemma_trim_slashes_at(s.drop_last(), hi);
        assert(s.drop_last().take(hi) =~= s.take(hi));
    }
}

/// Rewrites a request URI addressed at the upstream service onto the
/// configured custom host. The outcome is exactly [`spec_change_host`].
pub fn change_host(host: &str, url: &str) -> (r: Option<String>)
    ensures
        match r {
            Some(out) => spec_change_host(host@, url@) == Some(out@),
            None => spec_change_host(host@, url@) is None,
        },
{
    let base = "https://www.googleapis.com";
    if !str_has_prefix(url, base) {
        return None;
    }
    let upload = "upload/storage/v1/";
    let storage = "storage/v1/";
    let hn = host.unicode_len();
    let stripped_len: usize = if str_has_suffix(host, upload) {
        hn - upload.unicode_len()
    } else if str_has_suffix(host, storage) {
        hn - storage.unicode_len()
    } else {
        hn
    };
    proof {
        assert(host@.take(stripped_len as int) =~= spec_strip_endpoint(host@));
    }
    let mut e: usize = stripped_len;
    while e > 0 && host.get_char(e - 1) == '/'
        invariant
            e <= stripped_len,
            stripped_len <= host@.len(),
            forall|j: int| e <= j < stripped_len ==> host@[j] == '/',
        decreases e,
    {
        e = e - 1;
    }
    proof {
        lemma_trim_slashes_at(host@.take(stripped_len as int), e as int);
        assert(host@.take(stripped_len as int).take(e as int) =~= host@.take(e as int));
    }
    let head = host.substring_char(0, e);
    let tail = url.substring_char(base.unicode_len(), url.unicode_len());
    let out = String::from_str(head).concat(tail);
    proof {
        assert(host@.take(e as int) =~= host@.subrange(0, e as int));
        assert(url@.skip(spec_service_base().len() as int) =~= url@.subrange(
            "https://www.googleapis.com"@.len() as int,
            url@.len() as int,
        ));
    }
    Some(out)
}

} // verus!
