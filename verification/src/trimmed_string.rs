//! A string wrapper that carries no leading or trailing whitespace.
use vstd::prelude::*;

verus! {

/// The characters with the Unicode `White_Space` property, the set
/// `str::trim` strips.
pub open spec fn is_whitespace_char(c: char) -> bool {
    ||| c == '\u{0009}'
    ||| c == '\u{000A}'
    ||| c == '\u{000B}'
    ||| c == '\u{000C}'
    ||| c == '\u{000D}'
    ||| c == ' '
    ||| c == '\u{0085}'
    ||| c == '\u{00A0}'
    ||| c == '\u{1680}'
    ||| c == '\u{2000}'
    ||| c == '\u{2001}'
    ||| c == '\u{2002}'
    ||| c == '\u{2003}'
    ||| c == '\u{2004}'
    ||| c == '\u{2005}'
    ||| c == '\u{2006}'
    ||| c == '\u{2007}'
    ||| c == '\u{2008}'
    ||| c == '\u{2009}'
    ||| c == '\u{200A}'
    ||| c == '\u{2028}'
    ||| c == '\u{2029}'
    ||| c == '\u{202F}'
    ||| c == '\u{205F}'
    ||| c == '\u{3000}'
}

/// No whitespace at either end.
pub open spec fn is_trimmed(s: Seq<char>) -> bool {
    s.len() == 0 || (!is_whitespace_char(s[0]) && !is_whitespace_char(s[s.len() - 1]))
}

/// The first index holding a non-whitespace character; the length when all
/// are whitespace.
pub open spec fn trim_start_at(s: Seq<char>, from: int) -> int
    decreases s.len() - from,
{
    if from < 0 || from >= s.len() {
        s.len() as int
    } else if is_whitespace_char(s[from]) {
        trim_start_at(s, from + 1)
    } else {
        from
    }
}

/// One past the last index holding a non-whitespace character; 0 when all
/// are whitespace.
pub open spec fn trim_end_at(s: Seq<char>, upto: int) -> int
    decreases upto,
{
    if upto <= 0 || upto > s.len() {
        0
    } else if is_whitespace_char(s[upto - 1]) {
        trim_end_at(s, upto - 1)
    } else {
        upto
    }
}

/// The sequence with leading and trailing whitespace removed.
pub open spec fn trim_of(s: Seq<char>) -> Seq<char> {
    let a = trim_start_at(s, 0);
    let b = trim_end_at(s, s.len() as int);
    if a < b {
        s.subrange(a, b)
    } else {
        Seq::empty()
    }
}

/// A string whose ends carry no whitespace: built by trimming its input.
#[derive(Debug, Hash, PartialEq, Eq, PartialOrd, Ord)]
pub struct TrimmedString {
    inner: String,
}

impl Default for TrimmedString {
    fn default() -> (r: Self)
        ensures
            r@ == Seq::<char>::empty(),
    {
        TrimmedString { inner: String::new() }
    }
}

impl View for TrimmedString {
    type V = Seq<char>;

    closed spec fn view(&self) -> Seq<char> {
        self.inner@
    }
}

proof fn lemma_trim_start_at(s: Seq<char>, from: int, i: int)
    requires
        0 <= from <= i <= s.len(),
        forall|j: int| from <= j < i ==> is_whitespace_char(s[j]),
        i < s.len() ==> !is_whitespace_char(s[i]),
    ensures
        trim_start_at(s, from) == i,
    decreases i - from,
{
    if from < i {
        lemma_trim_start_at(s, from + 1, i);
    }
}

proof fn lemma_trim_end_at(s: Seq<char>, upto: int, i: int)
    requires
        0 <= i <= upto <= s.len(),
        forall|j: int| i <= j < upto ==> is_whitespace_char(s[j]),
        i > 0 ==> !is_whitespace_char(s[i - 1]),
    ensures
        trim_end_at(s, upto) == i,
    decreases upto - i,
{
    if i < upto {
        lemma_trim_end_at(s, upto - 1, i);
    }
}

/// Is the character on the Unicode `White_Space` list?
fn is_ws(c: char) -> (r: bool)
    ensures
        r == is_whitespace_char(c),
{
    c == '\u{0009}' || c == '\u{000A}' || c == '\u{000B}' || c == '\u{000C}' || c == '\u{000D}'
        || c == ' ' || c == '\u{0085}' || c == '\u{00A0}' || c == '\u{1680}' || c == '\u{2000}'
        || c == '\u{2001}' || c == '\u{2002}' || c == '\u{2003}' || c == '\u{2004}' || c
        == '\u{2005}' || c == '\u{2006}' || c == '\u{2007}' || c == '\u{2008}' || c == '\u{2009}'
        || c == '\u{200A}' || c == '\u{2028}' || c == '\u{2029}' || c == '\u{202F}' || c
        == '\u{205F}' || c == '\u{3000}'
}

/// The first index at or after `from` holding a non-whitespace character.
fn skip_ws_start(value: &str, n: usize) -> (a: usize)
    requires
        n == value@.len(),
    ensures
        a == trim_start_at(value@, 0),
        a <= n,
        a < n ==> !is_whitespace_char(value@[a as int]),
{
    let mut i: usize = 0;
    while i < n
        invariant
            0 <= i <= n,
            n == value@.len(),
            forall|j: int| 0 <= j < i ==> is_whitespace_char(value@[j]),
        decreases n - i,
    {
        if !is_ws(value.get_char(i)) {
            proof {
                lemma_trim_start_at(value@, 0, i as int);
            }
            return i;
        }
        i += 1;
    }
    proof {
        lemma_trim_start_at(value@, 0, n as int);
    }
    n
}

/// One past the last non-whitespace character in `[a, n)`; `a` when there is
/// none.
fn skip_ws_end(value: &str, a: usize, n: usize) -> (b: usize)
    requires
        a <= n,
        n == value@.len(),
    ensures
        a <= b <= n,
        forall|j: int| b <= j < n ==> is_whitespace_char(value@[j]),
        b > a ==> !is_whitespace_char(value@[b - 1]),
{
    let mut b: usize = n;
    while b > a
        invariant
            a <= b <= n,
            n == value@.len(),
            forall|j: int| b <= j < n ==> is_whitespace_char(value@[j]),
        decreases b,
    {
        if !is_ws(value.get_char(b - 1)) {
            return b;
        }
        b -= 1;
    }
    b
}

impl TrimmedString {
    /// Build by trimming whitespace from both ends of the input.
    pub fn new(value: &str) -> (r: Self)
        ensures
            r@ == trim_of(value@),
            is_trimmed(r@),
    {
        let n = value.unicode_len();
        let a = skip_ws_start(value, n);
        let b = skip_ws_end(value, a, n);
        let ghost s = value@;
        let ghost ta = trim_start_at(s, 0);
        let ghost tb = trim_end_at(s, s.len() as int);
        if a < b {
            proof {
                lemma_trim_end_at(s, n as int, b as int);
                assert(trim_of(s) == s.subrange(a as int, b as int));
                assert(!is_whitespace_char(s[a as int]));
                assert(!is_whitespace_char(s[b - 1]));
                assert(is_trimmed(trim_of(s)));
            }
            TrimmedString { inner: value.substring_char(a, b).to_owned() }
        } else {
            proof {
                lemma_trim_end_at_le(s, n as int, a as int);
                assert(tb <= ta);
                assert(trim_of(s) =~= Seq::<char>::empty());
            }
            TrimmedString { inner: String::new() }
        }
    }

/// The trimmed text.
    pub fn as_str(&self) -> (r: &str)
        ensures
            r@ == self@,
    {
        self.inner.as_str()
    }

    /// Surrender the trimmed text.
    pub fn into_string(self) -> (r: String)
        ensures
            r@ == self@,
    {
        self.inner
    }
}

proof fn lemma_trim_end_bound(s: Seq<char>, upto: int)
    ensures
        trim_end_at(s, upto) <= upto || upto < 0,
    decreases upto,
{
    if 0 < upto <= s.len() && is_whitespace_char(s[upto - 1]) {
        lemma_trim_end_bound(s, upto - 1);
    }
}

proof fn lemma_trim_end_at_le(s: Seq<char>, upto: int, a: int)
    requires
        0 <= a <= upto <= s.len(),
        forall|j: int| a <= j < upto ==> is_whitespace_char(s[j]),
    ensures
        trim_end_at(s, upto) <= a,
    decreases upto - a,
{
    if a < upto {
        lemma_trim_end_at_le(s, upto - 1, a);
    } else {
        lemma_trim_end_bound(s, a);
    }
}

} // verus!
