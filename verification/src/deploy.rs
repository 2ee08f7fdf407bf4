//! What the deployment of a subgraph decides: where the services are
//! found, which path a file of the manifest gets once it is uploaded, and
//! what an answer of the node means. Uploading and asking are left to the
//! caller.

use vstd::prelude::*;

verus! {

/// Where and under which name a subgraph is deployed.
#[derive(Debug)]
pub struct DeployConfig {
    pub subgraph_name: String,
    pub manifest_path: String,
    pub ipfs_url: String,
    pub node_url: String,
    pub version_label: Option<String>,
}

/// `s` without the slashes at its end.
pub open spec fn without_trailing_slashes(s: Seq<char>) -> Seq<char>
    decreases s.len(),
{
    if s.len() > 0 && s.last() == '/' {
        without_trailing_slashes(s.drop_last())
    } else {
        s
    }
}

/// The characters of `s`.
fn chars_of(s: &str) -> (v: Vec<char>)
    ensures
        v@ == s@,
{
    let mut v: Vec<char> = Vec::new();
    for c in it: s.chars()
        invariant
            it.seq() == s@,
            v@ == s@.take(it.index()),
    {
        assert(c == s@[it.index()]);
        assert(s@.take(it.index() + 1) =~= s@.take(it.index()).push(c));
        v.push(c);
    }
    assert(s@.take(s@.len() as int) =~= s@);
    v
}

/// The string of the first `n` characters of `chars`.
fn string_of(chars: &Vec<char>, n: usize) -> (s: String)
    requires
        n <= chars@.len(),
    ensures
        s@ == chars@.take(n as int),
{
    let mut s = String::new();
    let mut i: usize = 0;
    assert(chars@.take(0) =~= Seq::<char>::empty());
    while i < n
        invariant
            0 <= i <= n <= chars@.len(),
            s@ == chars@.take(i as int),
        decreases n - i,
    {
        s.push(chars[i]);
        assert(chars@.take(i + 1) =~= chars@.take(i as int).push(chars@[i as int]));
        i = i + 1;
    }
    s
}

/// The address of a service: `url`, or `default` when none is given,
/// without the slashes at its end.
pub fn base_url(url: Option<&str>, default: &str) -> (r: String)
    ensures
        r@ == without_trailing_slashes(
            match url {
                Some(u) => u@,
                None => default@,
            },
        ),
{
    let chosen = match url {
        Some(u) => u,
        None => default,
    };
    let chars = chars_of(chosen);
    let mut n = chars.len();
    assert(chars@.take(chars@.len() as int) =~= chars@);
    while n > 0 && chars[n - 1] == '/'
        invariant
            0 <= n <= chars@.len(),
            without_trailing_slashes(chars@) == without_trailing_slashes(chars@.take(n as int)),
        decreases n,
    {
        assert(chars@.take(n as int).drop_last() =~= chars@.take(n - 1));
        n = n - 1;
    }
    assert(chars@.take(chars@.len() as int) =~= chars@);
    string_of(&chars, n)
}

/// The files that were uploaded: each a path of the manifest with the hash
/// under which the file is stored.
pub type Uploads = Seq<(Seq<char>, Seq<char>)>;

/// The hash of the first upload of `path` among the first `n` uploads.
pub open spec fn uploaded_hash(uploads: Uploads, path: Seq<char>, n: nat) -> Option<Seq<char>>
    decreases n,
{
    if n == 0 || n > uploads.len() {
        None
    } else {
        match uploaded_hash(uploads, path, (n - 1) as nat) {
            Some(h) => Some(h),
            None => if uploads[n - 1].0 == path {
                Some(uploads[n - 1].1)
            } else {
                None
            },
        }
    }
}

/// The views of `uploads`.
pub open spec fn uploads_of(uploads: Seq<(String, String)>) -> Uploads {
    Seq::new(uploads.len(), |i: int| (uploads[i].0@, uploads[i].1@))
}

/// The path that stands for `path` in the deployed manifest: `/ipfs/` and
/// the hash when the file was uploaded, else the path itself.
pub open spec fn resolved_path(uploads: Uploads, path: Seq<char>) -> Seq<char> {
    match uploaded_hash(uploads, path, uploads.len()) {
        Some(h) => "/ipfs/"@ + h,
        None => path,
    }
}

/// Whether the file at `path` was uploaded.
pub fn is_uploaded(uploads: &Vec<(String, String)>, path: &str) -> (r: bool)
    ensures
        r == (uploaded_hash(uploads_of(uploads@), path@, uploads@.len()) is Some),
{
    find_upload(uploads, path).is_some()
}

/// The position of the first upload of `path`.
fn find_upload(uploads: &Vec<(String, String)>, path: &str) -> (r: Option<usize>)
    ensures
        r is Some <==> uploaded_hash(uploads_of(uploads@), path@, uploads@.len()) is Some,
        r matches Some(i) ==> i < uploads@.len() && uploaded_hash(
            uploads_of(uploads@),
            path@,
            uploads@.len(),
        ) == Some(uploads@[i as int].1@),
{
    let ghost table = uploads_of(uploads@);
    let wanted = path.to_owned();
    let mut i: usize = 0;
    while i < uploads.len()
        invariant
            0 <= i <= uploads@.len(),
            table == uploads_of(uploads@),
            wanted@ == path@,
            uploaded_hash(table, path@, i as nat) is None,
        decreases uploads@.len() - i,
    {
        assert(table[i as int] == (uploads@[i as int].0@, uploads@[i as int].1@));
        if uploads[i].0 == wanted {
            proof {
                lemma_uploaded_stays(table, path@, (i + 1) as nat, uploads@.len());
            }
            return Some(i);
        }
        i = i + 1;
    }
    None
}

/// Once a path is found among the uploads, later uploads do not change its
/// hash.
proof fn lemma_uploaded_stays(uploads: Uploads, path: Seq<char>, n: nat, m: nat)
    requires
        n <= m <= uploads.len(),
        uploaded_hash(uploads, path, n) is Some,
    ensures
        uploaded_hash(uploads, path, m) == uploaded_hash(uploads, path, n),
    decreases m,
{
    if n < m {
        lemma_uploaded_stays(uploads, path, n, (m - 1) as nat);
    }
}

/// The path that stands for `path` in the deployed manifest.
pub fn to_ipfs_path(uploads: &Vec<(String, String)>, path: &str) -> (r: String)
    ensures
        r@ == resolved_path(uploads_of(uploads@), path@),
{
    match find_upload(uploads, path) {
        Some(i) => {
            let mut r = "/ipfs/".to_owned();
            let hash = chars_of(uploads[i].1.as_str());
            let mut k: usize = 0;
            let ghost prefix = r@;
            while k < hash.len()
                invariant
                    0 <= k <= hash@.len(),
                    r@ == prefix + hash@.take(k as int),
                decreases hash@.len() - k,
            {
                r.push(hash[k]);
                assert(prefix + hash@.take(k + 1) =~= (prefix + hash@.take(k as int)).push(
                    hash@[k as int],
                ));
                k = k + 1;
            }
            assert(hash@.take(hash@.len() as int) =~= hash@);
            r
        },
        None => path.to_owned(),
    }
}

/// Whether `s` holds `pattern` at position `i`.
pub open spec fn holds_at(s: Seq<char>, pattern: Seq<char>, i: int) -> bool {
    0 <= i && i + pattern.len() <= s.len() && s.subrange(i, i + pattern.len()) == pattern
}

/// Whether `s` holds `pattern` somewhere.
pub open spec fn holds(s: Seq<char>, pattern: Seq<char>) -> bool {
    exists|i: int| holds_at(s, pattern, i)
}

/// Whether `s` holds `pattern` at position `i`.
fn matches_at(s: &Vec<char>, pattern: &Vec<char>, i: usize) -> (r: bool)
    requires
        i + pattern@.len() <= s@.len(),
    ensures
        r == holds_at(s@, pattern@, i as int),
{
    let mut k: usize = 0;
    assert(s@.len() == s.len());
    while k < pattern.len()
        invariant
            0 <= k <= pattern@.len(),
            i + pattern@.len() <= s@.len() <= usize::MAX,
            forall|j: int| 0 <= j < k ==> s@[i + j] == pattern@[j],
        decreases pattern@.len() - k,
    {
        if s[i + k] != pattern[k] {
            assert(s@.subrange(i as int, i + pattern@.len())[k as int] != pattern@[k as int]);
            return false;
        }
        k = k + 1;
    }
    assert(s@.subrange(i as int, i + pattern@.len()) =~= pattern@);
    true
}

/// Whether `s` holds `pattern` somewhere.
pub fn contains(s: &str, pattern: &str) -> (r: bool)
    ensures
        r == holds(s@, pattern@),
{
    let text = chars_of(s);
    let wanted = chars_of(pattern);
    if wanted.len() > text.len() {
        return false;
    }
    if wanted.len() == 0 {
        assert(s@.subrange(0, 0) =~= pattern@);
        assert(holds_at(s@, pattern@, 0));
        return true;
    }
    let last = text.len() - wanted.len();
    let mut i: usize = 0;
    while i <= last
        invariant
            0 <= i <= last + 1,
            last + wanted@.len() == text@.len() <= usize::MAX,
            wanted@.len() > 0,
            text@ == s@,
            wanted@ == pattern@,
            forall|j: int| 0 <= j < i ==> !holds_at(text@, wanted@, j),
        decreases last + 1 - i,
    {
        if matches_at(&text, &wanted, i) {
            return true;
        }
        i = i + 1;
    }
    false
}

/// What the answer of the node to a request means.
#[derive(Debug)]
pub enum Outcome {
    /// The request was carried out, or there was nothing left to do.
    Done,
    /// The node refused the request with this code and message.
    Refused(i32, String),
    /// The node answered with a status that is no success.
    BadStatus,
}

/// What the answer to a request to create a subgraph means. A subgraph that
/// already exists is as good as created; any other error is a refusal; and
/// without an error the status decides.
pub fn create_outcome(error: Option<(i32, &str)>, success: bool) -> (r: Outcome)
    ensures
        match error {
            Some((code, message)) => if holds(message@, "already exists"@) {
                r is Done
            } else {
                r matches Outcome::Refused(c, m) && c == code && m@ == message@
            },
            None => if success {
                r is Done
            } else {
                r is BadStatus
            },
        },
{
    match error {
        Some((code, message)) => {
            if contains(message, "already exists") {
                Outcome::Done
            } else {
                Outcome::Refused(code, message.to_owned())
            }
        },
        None => {
            if success {
                Outcome::Done
            } else {
                Outcome::BadStatus
            }
        },
    }
}

/// What the answer to a request to deploy or to remove a subgraph means:
/// any error is a refusal, and without an error the status decides.
pub fn deploy_outcome(error: Option<(i32, &str)>, success: bool) -> (r: Outcome)
    ensures
        match error {
            Some((code, message)) => r matches Outcome::Refused(c, m) && c == code && m@
                == message@,
            None => if success {
                r is Done
            } else {
                r is BadStatus
            },
        },
{
    match error {
        Some((code, message)) => Outcome::Refused(code, message.to_owned()),
        None => {
            if success {
                Outcome::Done
            } else {
                Outcome::BadStatus
            }
        },
    }
}

} // verus!
