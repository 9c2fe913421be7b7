//! Small string helpers: snake_case to PascalCase, and shaving the outer
//! characters off a quoted token.
use vstd::prelude::*;

verus! {

/// What `char::to_uppercase` yields for the character, concatenated: a
/// function of the character alone.
pub uninterp spec fn upper_of(c: char) -> Seq<char>;

/// Relies on `char::to_uppercase`: the Unicode uppercase mapping of the
/// character, which depends on the character alone.
#[verifier::external_body]
fn upper_char(c: char) -> (r: String)
    ensures
        r@ == upper_of(c),
{
    c.to_uppercase().to_string()
}

/// Relies on `String::push`: appends exactly the one character.
#[verifier::external_body]
fn push_char(s: &mut String, c: char)
    ensures
        final(s)@ == old(s)@.push(c),
{
    s.push(c)
}

/// PascalCase of the text from this position on: underscores separate words,
/// each word's first character is uppercased, and an empty word contributes
/// the uppercase of the NUL placeholder character, as taking an absent first
/// character by default does.
pub open spec fn pascal_from(s: Seq<char>, at_word_start: bool) -> Seq<char>
    decreases s.len(),
{
    if s.len() == 0 {
        if at_word_start {
            upper_of('\u{0}')
        } else {
            Seq::empty()
        }
    } else if s[0] == '_' {
        (if at_word_start {
            upper_of('\u{0}')
        } else {
            Seq::empty()
        }) + pascal_from(s.subrange(1, s.len() as int), true)
    } else if at_word_start {
        upper_of(s[0]) + pascal_from(s.subrange(1, s.len() as int), false)
    } else {
        seq![s[0]] + pascal_from(s.subrange(1, s.len() as int), false)
    }
}

/// The whole text in PascalCase.
pub open spec fn pascal_of(s: Seq<char>) -> Seq<char> {
    pascal_from(s, true)
}

/// The text with each underscore-separated word's first character uppercased
/// and the underscores removed.
pub fn snake_to_pascal(s: &str) -> (r: String)
    ensures
        r@ == pascal_of(s@),
{
    let n = s.unicode_len();
    let mut out = String::new();
    let mut at_word_start = true;
    let mut i: usize = 0;
    proof {
        assert(s@.subrange(0, n as int) =~= s@);
        assert(out@ + pascal_from(s@, true) =~= pascal_of(s@));
    }
    while i < n
        invariant
            0 <= i <= n,
            n == s@.len(),
            out@ + pascal_from(s@.subrange(i as int, n as int), at_word_start) == pascal_of(s@),
        decreases n - i,
    {
        let ghost pre = out@;
        let ghost ws = at_word_start;
        let ghost tail = s@.subrange(i as int, n as int);
        let ghost rest = s@.subrange(i + 1, n as int);
        proof {
            assert(tail[0] == s@[i as int]);
            assert(tail.subrange(1, tail.len() as int) =~= rest);
        }
        let c = s.get_char(i);
        if c == '_' {
            if at_word_start {
                let u = upper_char('\u{0}');
                out.append(u.as_str());
            }
            at_word_start = true;
            proof {
                assert(pascal_from(tail, ws) == (if ws {
                    upper_of('\u{0}')
                } else {
                    Seq::<char>::empty()
                }) + pascal_from(rest, true));
                if ws {
                    assert(out@ + pascal_from(rest, true) =~= pre + (upper_of('\u{0}')
                        + pascal_from(rest, true)));
                } else {
                    assert(out@ + pascal_from(rest, true) =~= pre + (Seq::<char>::empty()
                        + pascal_from(rest, true)));
                }
            }
        } else if at_word_start {
            let u = upper_char(c);
            out.append(u.as_str());
            at_word_start = false;
            proof {
                assert(pascal_from(tail, true) == upper_of(tail[0]) + pascal_from(rest, false));
                assert(out@ + pascal_from(rest, false) =~= pre + (upper_of(tail[0])
                    + pascal_from(rest, false)));
            }
        } else {
            push_char(&mut out, c);
            proof {
                assert(pascal_from(tail, false) == seq![tail[0]] + pascal_from(rest, false));
                assert(out@ + pascal_from(rest, false) =~= pre + (seq![tail[0]] + pascal_from(
                    rest,
                    false,
                )));
            }
        }
        i += 1;
    }
    proof {
        assert(s@.subrange(n as int, n as int) =~= Seq::<char>::empty());
    }
    if at_word_start {
        let u = upper_char('\u{0}');
        out.append(u.as_str());
    }
    out
}

/// Casing of identifiers.
pub trait Case {
    /// snake_case turned into PascalCase.
    fn convert_snake_case_to_pascal_case(&self) -> String;
}

impl Case for str {
    fn convert_snake_case_to_pascal_case(&self) -> String {
        snake_to_pascal(self)
    }
}

/// The text without its first and last characters; empty when it has fewer
/// than two.
pub fn without_first_and_last(s: &str) -> (r: &str)
    ensures
        s@.len() >= 2 ==> r@ == s@.subrange(1, s@.len() - 1),
        s@.len() < 2 ==> r@ == Seq::<char>::empty(),
{
    let n = s.unicode_len();
    if n >= 2 {
        s.substring_char(1, n - 1)
    } else {
        proof {
            reveal_strlit("");
        }
        ""
    }
}

/// Shaving the outer characters off a token.
pub trait StringExt {
    /// The text without its first and last characters.
    fn remove_first_and_last_chars(&self) -> &str;
}

impl StringExt for str {
    fn remove_first_and_last_chars(&self) -> &str {
        without_first_and_last(self)
    }
}

} // verus!
