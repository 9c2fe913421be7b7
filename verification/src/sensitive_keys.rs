//! The effective sensitive-key set: a fixed baseline of field names plus an
//! optional per-call extension; membership is case-sensitive exact match
//! against either list.
use vstd::prelude::*;

verus! {

/// Is the key on the fixed baseline list?
pub open spec fn baseline_key(k: Seq<char>) -> bool {
    ||| k == "postman-token"@
    ||| k == "x-api-key"@
    ||| k == "password"@
    ||| k == "session_token"@
    ||| k == "code"@
    ||| k == "refresh_token"@
    ||| k == "access_token"@
    ||| k == "jti"@
    ||| k == "verification_code"@
    ||| k == "authorization_token"@
    ||| k == "Authorization"@
}

/// The models of a list of extra keys.
pub open spec fn key_views(extras: Seq<String>) -> Seq<Seq<char>> {
    extras.map_values(|e: String| e@)
}

/// Is the key on the effective set: the baseline or the extras?
pub open spec fn sensitive_key(k: Seq<char>, extras: Seq<Seq<char>>) -> bool {
    baseline_key(k) || extras.contains(k)
}

/// Exact match of a key against a fixed name.
fn key_is(k: &String, name: &str) -> (r: bool)
    ensures
        r == (k@ == name@),
{
    *k == name.to_owned()
}

/// Membership test against the baseline list and the extras.
pub fn is_sensitive(k: &String, extras: &Vec<String>) -> (r: bool)
    ensures
        r == sensitive_key(k@, key_views(extras@)),
{
    if key_is(k, "postman-token") || key_is(k, "x-api-key") || key_is(k, "password")
        || key_is(k, "session_token") || key_is(k, "code") || key_is(k, "refresh_token")
        || key_is(k, "access_token") || key_is(k, "jti") || key_is(k, "verification_code")
        || key_is(k, "authorization_token") || key_is(k, "Authorization") {
        return true;
    }
    let mut i: usize = 0;
    while i < extras.len()
        invariant
            0 <= i <= extras@.len(),
            forall|j: int| 0 <= j < i ==> k@ != #[trigger] extras@[j]@,
            !baseline_key(k@),
        decreases extras@.len() - i,
    {
        if key_is(k, extras[i].as_str()) {
            assert(key_views(extras@)[i as int] == k@);
            return true;
        }
        i += 1;
    }
    assert(forall|j: int|
        0 <= j < extras@.len() ==> #[trigger] key_views(extras@)[j] != k@);
    false
}

/// The baseline list itself, for callers that strip these names outright:
/// every baseline key, pinned name by name.
pub fn baseline_keys() -> (r: Vec<String>)
    ensures
        r@.len() == 11,
        r@[0]@ == "postman-token"@,
        r@[1]@ == "x-api-key"@,
        r@[2]@ == "password"@,
        r@[3]@ == "session_token"@,
        r@[4]@ == "code"@,
        r@[5]@ == "refresh_token"@,
        r@[6]@ == "access_token"@,
        r@[7]@ == "jti"@,
        r@[8]@ == "verification_code"@,
        r@[9]@ == "authorization_token"@,
        r@[10]@ == "Authorization"@,
        forall|i: int| 0 <= i < r@.len() ==> baseline_key(#[trigger] r@[i]@),
        forall|k: Seq<char>| baseline_key(k) ==> exists|i: int| 0 <= i < r@.len() && r@[i]@ == k,
{
    let mut v: Vec<String> = Vec::new();
    v.push("postman-token".to_owned());
    v.push("x-api-key".to_owned());
    v.push("password".to_owned());
    v.push("session_token".to_owned());
    v.push("code".to_owned());
    v.push("refresh_token".to_owned());
    v.push("access_token".to_owned());
    v.push("jti".to_owned());
    v.push("verification_code".to_owned());
    v.push("authorization_token".to_owned());
    v.push("Authorization".to_owned());
    proof {
        assert forall|k: Seq<char>| baseline_key(k) implies exists|i: int|
            0 <= i < v@.len() && v@[i]@ == k by {
            if k == "postman-token"@ {
                assert(v@[0]@ == k);
            } else if k == "x-api-key"@ {
                assert(v@[1]@ == k);
            } else if k == "password"@ {
                assert(v@[2]@ == k);
            } else if k == "session_token"@ {
                assert(v@[3]@ == k);
            } else if k == "code"@ {
                assert(v@[4]@ == k);
            } else if k == "refresh_token"@ {
                assert(v@[5]@ == k);
            } else if k == "access_token"@ {
                assert(v@[6]@ == k);
            } else if k == "jti"@ {
                assert(v@[7]@ == k);
            } else if k == "verification_code"@ {
                assert(v@[8]@ == k);
            } else if k == "authorization_token"@ {
                assert(v@[9]@ == k);
            } else {
                assert(v@[10]@ == k);
            }
        }
    }
    v
}

} // verus!
