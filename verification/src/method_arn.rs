//! Parsing of an API Gateway method ARN: the part before the first slash,
//! the stage, the method, and the remaining path.
use vstd::prelude::*;

verus! {

/// The position of the first occurrence of a character at or after `from`;
/// the length when there is none.
pub open spec fn index_of_from(s: Seq<char>, c: char, from: int) -> int
    decreases s.len() - from,
{
    if from < 0 || from >= s.len() {
        s.len() as int
    } else if s[from] == c {
        from
    } else {
        index_of_from(s, c, from + 1)
    }
}

/// A method ARN, split at its first three slashes: everything after the
/// third, slashes included, is the path.
#[derive(Debug, Hash, PartialEq, Eq, PartialOrd, Ord)]
pub struct MethodArn {
    pub api_arn: String,
    pub stage: String,
    pub method: String,
    pub path: String,
}

proof fn lemma_index_of_from(s: Seq<char>, c: char, from: int, i: int)
    requires
        0 <= from <= i <= s.len(),
        forall|j: int| from <= j < i ==> s[j] != c,
        i < s.len() ==> s[i] == c,
    ensures
        index_of_from(s, c, from) == i,
    decreases i - from,
{
    if from < i {
        lemma_index_of_from(s, c, from + 1, i);
    }
}

/// The first occurrence of a character at or after `from`; the length when
/// there is none.
fn find_char_from(s: &str, c: char, from: usize, n: usize) -> (r: usize)
    requires
        from <= n,
        n == s@.len(),
    ensures
        r == index_of_from(s@, c, from as int),
        from <= r <= n,
{
    let mut i: usize = from;
    while i < n
        invariant
            from <= i <= n,
            n == s@.len(),
            forall|j: int| from <= j < i ==> s@[j] != c,
        decreases n - i,
    {
        if s.get_char(i) == c {
            proof {
                lemma_index_of_from(s@, c, from as int, i as int);
            }
            return i;
        }
        i += 1;
    }
    proof {
        lemma_index_of_from(s@, c, from as int, n as int);
    }
    n
}

impl MethodArn {
    /// Split a method ARN at its slashes. The ARN must reach at least the
    /// method segment, that is, hold two slashes.
    pub fn from(method_arn: &str) -> (r: Self)
        requires
            index_of_from(method_arn@, '/', index_of_from(method_arn@, '/', 0) + 1)
                < method_arn@.len(),
        ensures
            ({
                let s = method_arn@;
                let i1 = index_of_from(s, '/', 0);
                let i2 = index_of_from(s, '/', i1 + 1);
                let i3 = index_of_from(s, '/', i2 + 1);
                &&& r.api_arn@ == s.subrange(0, i1)
                &&& r.stage@ == s.subrange(i1 + 1, i2)
                &&& r.method@ == s.subrange(i2 + 1, i3)
                &&& r.path@ == (if i3 < s.len() {
                    s.subrange(i3 + 1, s.len() as int)
                } else {
                    Seq::<char>::empty()
                })
            }),
    {
        let n = method_arn.unicode_len();
        let i1 = find_char_from(method_arn, '/', 0, n);
        proof {
            assert(index_of_from(method_arn@, '/', i1 as int + 1) < method_arn@.len());
        }
        let i2 = find_char_from(method_arn, '/', i1 + 1, n);
        let i3 = find_char_from(method_arn, '/', i2 + 1, n);
        let api_arn = method_arn.substring_char(0, i1).to_owned();
        let stage = method_arn.substring_char(i1 + 1, i2).to_owned();
        let method = method_arn.substring_char(i2 + 1, i3).to_owned();
        let path = if i3 < n {
            method_arn.substring_char(i3 + 1, n).to_owned()
        } else {
            String::new()
        };
        MethodArn { api_arn, stage, method, path }
    }
}

} // verus!
