use vstd::prelude::*;
use crate::keystore::KeyInfo;

verus! {

/// What the authentication gate decides for a request.
pub enum AuthDecision {
    /// The key is active and within its limit; the request proceeds,
    /// tagged with the key's info.
    Allowed(KeyInfo),
    /// No key was supplied, or the key is unknown or deactivated.
    Unauthorized,
    /// The key is over its rate limit.
    TooManyRequests,
    /// The backing store failed; the request must not pass silently.
    GatewayError(String),
}

/// Turns what the key store answered into what happens to the request;
/// `None` stands for a request that carried no API key. A store error
/// reading exactly "Rate limit exceeded" rejects the request as rate
/// limited; any other store error is a gateway-level failure.
pub fn auth_decision(validation: Option<Result<Option<KeyInfo>, String>>) -> (d: AuthDecision)
    ensures
        match validation {
            None => d is Unauthorized,
            Some(Ok(Some(info))) => d matches AuthDecision::Allowed(i)
                && i.owner@ == info.owner@ && i.rate_limit == info.rate_limit,
            Some(Ok(None)) => d is Unauthorized,
            Some(Err(m)) => if m@ == "Rate limit exceeded"@ {
                d is TooManyRequests
            } else {
                d matches AuthDecision::GatewayError(g) && g@ == m@
            },
        },
{
    match validation {
        None => AuthDecision::Unauthorized,
        Some(Ok(Some(info))) => AuthDecision::Allowed(info),
        Some(Ok(None)) => AuthDecision::Unauthorized,
        Some(Err(m)) => {
            if m == "Rate limit exceeded".to_owned() {
                AuthDecision::TooManyRequests
            } else {
                AuthDecision::GatewayError(m)
            }
        }
    }
}

/// The query fragment that carries the caller's key: "?api-key=".
pub open spec fn key_marker() -> Seq<u8> {
    seq![63u8, 97u8, 112u8, 105u8, 45u8, 107u8, 101u8, 121u8, 61u8]
}

/// Whether `pat` occurs in `p` starting at `i`.
pub open spec fn match_at(p: Seq<u8>, pat: Seq<u8>, i: int) -> bool {
    0 <= i && i + pat.len() <= p.len() && p.subrange(i, i + pat.len()) == pat
}

/// The first occurrence of `pat` in `p` at or after `i`.
pub open spec fn find_from(p: Seq<u8>, pat: Seq<u8>, i: int) -> Option<int>
    decreases p.len() - i,
{
    if pat.len() == 0 || i < 0 || i + pat.len() > p.len() {
        None
    } else if match_at(p, pat, i) {
        Some(i)
    } else {
        find_from(p, pat, i + 1)
    }
}

/// The path and query with the key-bearing fragment stripped: everything
/// before the first "?api-key=", or the whole string when none occurs.
pub open spec fn strip_key(p: Seq<u8>) -> Seq<u8> {
    match find_from(p, key_marker(), 0) {
        Some(i) => p.take(i),
        None => p,
    }
}

/// `b` without its trailing '/' bytes.
pub open spec fn trim_trailing_slashes(b: Seq<u8>) -> Seq<u8>
    decreases b.len(),
{
    if b.len() > 0 && b.last() == 47u8 {
        trim_trailing_slashes(b.drop_last())
    } else {
        b
    }
}

/// The outbound URI: the backend's base joined with the cleaned path so
/// that no slash is doubled and a bare "/" adds nothing.
pub open spec fn spec_forward_uri(base: Seq<u8>, path_and_query: Seq<u8>) -> Seq<u8> {
    let c = strip_key(path_and_query);
    if c == seq![47u8] {
        trim_trailing_slashes(base)
    } else if base.len() > 0 && base.last() == 47u8 && c.len() > 0 && c.first() == 47u8 {
        base + c.skip(1)
    } else {
        base + c
    }
}

/// The "?api-key=" marker as bytes.
fn key_marker_bytes() -> (r: Vec<u8>)
    ensures
        r@ == key_marker(),
{
    let r: Vec<u8> = vec![63u8, 97u8, 112u8, 105u8, 45u8, 107u8, 101u8, 121u8, 61u8];
    proof {
        assert(r@ =~= key_marker());
    }
    r
}

/// Index of the first occurrence of "?api-key=" in `p`, if any.
#[verifier::loop_isolation(false)]
fn find_key_marker(p: &Vec<u8>) -> (r: Option<usize>)
    ensures
        match r {
            Some(i) => i + key_marker().len() <= p@.len()
                && find_from(p@, key_marker(), 0) == Some(i as int),
            None => find_from(p@, key_marker(), 0) is None,
        },
{
    let pat = key_marker_bytes();
    if p.len() < pat.len() {
        proof {
            lemma_find_none_short(p@, key_marker(), 0);
        }
        return None;
    }
    let mut i: usize = 0;
    while i <= p.len() - pat.len()
        invariant
            0 <= i,
            i <= p@.len() - key_marker().len() + 1,
            find_from(p@, key_marker(), 0) == find_from(p@, key_marker(), i as int),
        decreases p@.len() - i,
    {
        let mut j: usize = 0;
        let mut all_match: bool = true;
        while j < pat.len()
            invariant
                j <= pat@.len(),
                i + pat@.len() <= p@.len(),
                all_match == (forall|x: int| 0 <= x < j ==> p@[i + x] == key_marker()[x]),
            decreases pat@.len() - j,
        {
            if p[i + j] != pat[j] {
                all_match = false;
            }
            j = j + 1;
        }
        if all_match {
            proof {
                assert(p@.subrange(i as int, i + key_marker().len()) =~= key_marker());
                assert(match_at(p@, key_marker(), i as int));
            }
            return Some(i);
        }
        proof {
            assert(!match_at(p@, key_marker(), i as int)) by {
                if match_at(p@, key_marker(), i as int) {
                    let w = choose|x: int| 0 <= x < key_marker().len() && p@[i + x] != key_marker()[x];
                    assert(p@.subrange(i as int, i + key_marker().len())[w] == p@[i + w]);
                }
            }
        }
        i = i + 1;
    }
    proof {
        lemma_find_none_short(p@, key_marker(), i as int);
    }
    None
}

proof fn lemma_find_none_short(p: Seq<u8>, pat: Seq<u8>, i: int)
    requires
        i + pat.len() > p.len(),
        0 <= i,
    ensures
        find_from(p, pat, i) is None,
{
}

/// Builds the outbound request target from the backend's base URL and the
/// caller's path-and-query: the key-bearing query fragment is dropped and
/// the two parts are joined without doubled or trailing slashes.
#[verifier::loop_isolation(false)]
pub fn build_forward_uri(backend_base: &Vec<u8>, path_and_query: &Vec<u8>) -> (r: Vec<u8>)
    ensures
        r@ == spec_forward_uri(backend_base@, path_and_query@),
{
    let mut cleaned: Vec<u8> = Vec::new();
    let end = match find_key_marker(path_and_query) {
        Some(i) => i,
        None => path_and_query.len(),
    };
    let mut i: usize = 0;
    while i < end
        invariant
            i <= end,
            end <= path_and_query@.len(),
            cleaned@ == path_and_query@.take(i as int),
        decreases end - i,
    {
        cleaned.push(path_and_query[i]);
        proof {
            assert(cleaned@ =~= path_and_query@.take(i + 1));
        }
        i = i + 1;
    }
    proof {
        assert(cleaned@ == strip_key(path_and_query@)) by {
            if find_from(path_and_query@, key_marker(), 0) is None {
                assert(path_and_query@.take(path_and_query@.len() as int) =~= path_and_query@);
            }
        }
    }

    if cleaned.len() == 1 && cleaned[0] == 47u8 {
        proof {
            assert(cleaned@ =~= seq![47u8]);
        }
        let mut base = clone_bytes(backend_base);
        while base.len() > 0 && base[base.len() - 1] == 47u8
            invariant
                trim_trailing_slashes(backend_base@) == trim_trailing_slashes(base@),
            decreases base@.len(),
        {
            let ghost before = base@;
            base.pop();
            proof {
                assert(base@ =~= before.drop_last());
            }
        }
        proof {
            assert(trim_trailing_slashes(base@) == base@);
        }
        return base;
    }
    proof {
        assert(cleaned@ != seq![47u8]);
    }

    let skip_first = backend_base.len() > 0 && backend_base[backend_base.len() - 1] == 47u8
        && cleaned.len() > 0 && cleaned[0] == 47u8;
    let mut out = clone_bytes(backend_base);
    let start: usize = if skip_first { 1 } else { 0 };
    let mut k: usize = start;
    while k < cleaned.len()
        invariant
            start <= k <= cleaned@.len(),
            out@ == backend_base@ + cleaned@.subrange(start as int, k as int),
        decreases cleaned@.len() - k,
    {
        let ghost before = out@;
        out.push(cleaned[k]);
        proof {
            assert(out@ =~= backend_base@ + cleaned@.subrange(start as int, k + 1));
        }
        k = k + 1;
    }
    proof {
        if skip_first {
            assert(cleaned@.subrange(1, cleaned@.len() as int) =~= cleaned@.skip(1));
        } else {
            assert(cleaned@.subrange(0, cleaned@.len() as int) =~= cleaned@);
        }
    }
    out
}

/// An owned copy of a byte vector.
fn clone_bytes(b: &Vec<u8>) -> (r: Vec<u8>)
    ensures
        r@ == b@,
{
    let mut r: Vec<u8> = Vec::new();
    let mut i: usize = 0;
    while i < b.len()
        invariant
            i <= b@.len(),
            r@ == b@.take(i as int),
        decreases b@.len() - i,
    {
        r.push(b[i]);
        proof {
            assert(r@ =~= b@.take(i + 1));
        }
        i = i + 1;
    }
    proof {
        assert(b@.take(b@.len() as int) =~= b@);
    }
    r
}

} // verus!
