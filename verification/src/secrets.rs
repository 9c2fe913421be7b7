//! Secrets: scrypt password hashing and verification, and short numeric
//! one-time codes with verified fixed-width rendering.
use vstd::prelude::*;
use scrypt::password_hash::{PasswordHash, PasswordHasher, PasswordVerifier, SaltString};
use scrypt::password_hash::rand_core::{OsRng, RngCore};
use scrypt::{Params, Scrypt};

verus! {

/// Whether scrypt accepts the hashed string as a PHC record and the secret
/// matches it; a function of the two strings alone.
pub uninterp spec fn scrypt_verifies(secret: Seq<char>, hashed: Seq<char>) -> bool;

/// Relies on scrypt's `hash_password_customized` with a salt drawn from the
/// operating system: the PHC-format hash of the secret. The salt is random,
/// so the result gets no name; but whatever salt was drawn, it rides in the
/// PHC string, so verifying the secret against the result re-derives the
/// same key and succeeds — the one thing promised.
#[verifier::external_body]
pub fn hash_secret(secret: &str) -> (r: String)
    ensures
        scrypt_verifies(secret@, r@),
{
    Scrypt.hash_password_customized(
        secret.as_bytes(),
        None,
        None,
        Params::new(15, 8, 1, 32).unwrap(),
        &SaltString::generate(&mut OsRng),
    ).unwrap().to_string()
}

/// Relies on scrypt's `verify_password`: whether the hashed string parses as
/// a PHC record and the secret hashes to it — a deterministic function of
/// the two arguments, named `scrypt_verifies`. A string that does not parse
/// verifies nothing.
#[verifier::external_body]
pub fn verify_secret(secret: &str, hashed_secret: &str) -> (r: bool)
    ensures
        r == scrypt_verifies(secret@, hashed_secret@),
{
    match PasswordHash::new(hashed_secret) {
        Ok(parsed) => Scrypt.verify_password(secret.as_bytes(), &parsed).is_ok(),
        Err(_) => false,
    }
}

/// Relies on `OsRng::next_u32` of the `rand_core` crate: a word from the
/// operating system's randomness. Random, so nothing is promised of it.
#[verifier::external_body]
fn random_u32() -> u32 {
    OsRng.next_u32()
}

/// Ten to the given power.
pub open spec fn pow10(e: int) -> int
    decreases e,
{
    if e <= 0 {
        1
    } else {
        10 * pow10(e - 1)
    }
}

/// The decimal digit as a character.
pub open spec fn digit_char(d: int) -> char {
    if d == 0 {
        '0'
    } else if d == 1 {
        '1'
    } else if d == 2 {
        '2'
    } else if d == 3 {
        '3'
    } else if d == 4 {
        '4'
    } else if d == 5 {
        '5'
    } else if d == 6 {
        '6'
    } else if d == 7 {
        '7'
    } else if d == 8 {
        '8'
    } else {
        '9'
    }
}

/// The value written in decimal over exactly `width` places, leading zeros
/// kept.
pub open spec fn decimal_str(v: int, width: nat) -> Seq<char>
    decreases width,
{
    if width == 0 {
        Seq::empty()
    } else {
        decimal_str(v / 10, (width - 1) as nat).push(digit_char(v % 10))
    }
}

proof fn lemma_pow10_pos(e: int)
    ensures
        pow10(e) >= 1,
    decreases e,
{
    if e > 0 {
        lemma_pow10_pos(e - 1);
    }
}

/// Ten to the given power, executable.
fn pow10_exec(e: u32) -> (r: u32)
    requires
        e <= 9,
    ensures
        r == pow10(e as int),
{
    let mut r: u32 = 1;
    let mut i: u32 = 0;
    while i < e
        invariant
            0 <= i <= e <= 9,
            r == pow10(i as int),
        decreases e - i,
    {
        proof {
            lemma_pow10_le(i as int, 8);
            assert(pow10(0) == 1);
            assert(pow10(1) == 10);
            assert(pow10(2) == 100);
            assert(pow10(3) == 1000);
            assert(pow10(4) == 10000);
            assert(pow10(5) == 100000);
            assert(pow10(6) == 1000000);
            assert(pow10(7) == 10000000);
            assert(pow10(8) == 100000000);
        }
        r = r * 10;
        i += 1;
    }
    r
}

proof fn lemma_pow10_le(e: int, cap: int)
    requires
        0 <= e <= cap,
    ensures
        pow10(e) <= pow10(cap),
    decreases cap,
{
    if e < cap {
        lemma_pow10_le(e, cap - 1);
        lemma_pow10_pos(cap - 1);
    }
}

/// Append one digit to the text.
fn push_digit(out: &mut String, d: u32)
    requires
        d <= 9,
    ensures
        final(out)@ == old(out)@.push(digit_char(d as int)),
{
    let t: &str = if d == 0 {
        "0"
    } else if d == 1 {
        "1"
    } else if d == 2 {
        "2"
    } else if d == 3 {
        "3"
    } else if d == 4 {
        "4"
    } else if d == 5 {
        "5"
    } else if d == 6 {
        "6"
    } else if d == 7 {
        "7"
    } else if d == 8 {
        "8"
    } else {
        "9"
    };
    proof {
        reveal_strlit("0");
        reveal_strlit("1");
        reveal_strlit("2");
        reveal_strlit("3");
        reveal_strlit("4");
        reveal_strlit("5");
        reveal_strlit("6");
        reveal_strlit("7");
        reveal_strlit("8");
        reveal_strlit("9");
        assert(t@ =~= seq![digit_char(d as int)]);
    }
    out.append(t);
    proof {
        assert(old(out)@ + t@ =~= old(out)@.push(digit_char(d as int)));
    }
}

/// The value written in decimal over exactly `width` places, leading zeros
/// kept.
pub fn format_digits(value: u32, width: u32) -> (r: String)
    requires
        width <= 9,
    ensures
        r@ == decimal_str(value as int, width as nat),
        r@.len() == width,
{
    let mut out = String::new();
    let mut i: u32 = 0;
    proof {
        lemma_decimal_str_len(value as int, width as nat);
    }
    while i < width
        invariant
            0 <= i <= width <= 9,
            out@ == decimal_str(value as int / pow10(width - i), i as nat),
            out@.len() == i,
        decreases width - i,
    {
        let p = pow10_exec(width - 1 - i);
        proof {
            lemma_pow10_pos(width - 1 - i);
        }
        let d = (value / p) % 10;
        push_digit(&mut out, d);
        proof {
            let v = value as int;
            let e = width - 1 - i;
            lemma_pow10_pos(e as int);
            vstd::arithmetic::div_mod::lemma_div_denominator(v, pow10(e as int), 10);
            assert(pow10(e as int) * 10 == pow10(e + 1)) by {
                assert(pow10(e + 1) == 10 * pow10(e as int));
            }
            assert(v / pow10(e as int) / 10 == v / pow10(e + 1));
            assert(decimal_str(v / pow10(e as int), (i + 1) as nat) == decimal_str(
                v / pow10(e as int) / 10,
                i as nat,
            ).push(digit_char((v / pow10(e as int)) % 10)));
            lemma_decimal_str_len(v / pow10(e as int), (i + 1) as nat);
        }
        i += 1;
    }
    proof {
        assert(pow10(0) == 1);
        assert(value as int / 1 == value as int);
    }
    out
}

proof fn lemma_decimal_str_len(v: int, width: nat)
    ensures
        decimal_str(v, width).len() == width,
    decreases width,
{
    if width > 0 {
        lemma_decimal_str_len(v / 10, (width - 1) as nat);
    }
}

/// A fresh random code of exactly `digit_count` decimal digits, leading
/// zeros kept.
pub fn gen_secret_digits(digit_count: u32) -> (r: String)
    requires
        digit_count <= 9,
    ensures
        r@.len() == digit_count,
        exists|v: int|
            0 <= v < pow10(digit_count as int) && r@ == #[trigger] decimal_str(
                v,
                digit_count as nat,
            ),
{
    let raw = random_u32();
    let m = pow10_exec(digit_count);
    proof {
        lemma_pow10_pos(digit_count as int);
    }
    let v = raw % m;
    let r = format_digits(v, digit_count);
    proof {
        assert(v as int >= 0 && (v as int) < pow10(digit_count as int));
        assert(r@ == decimal_str(v as int, digit_count as nat));
    }
    r
}

} // verus!
