use common::{
    CommonError, Method, MethodArn, TrimmedString, Unit, extend_current_timestamp, format_digits,
    gen_secret_digits, get_current_timestamp, hash, hash_secret, is_almost_deadline,
    verify_secret,
};
use common::constants::api_error_message;
use common::{Case, StringExt};
use common::constants::status_code_of;

#[test]
fn method_arn_splits_into_four_parts() {
    let arn = MethodArn::from("arn:aws:execute-api:us-east-1:123:abc/dev/GET/users/42/orders");
    assert_eq!(arn.api_arn, "arn:aws:execute-api:us-east-1:123:abc");
    assert_eq!(arn.stage, "dev");
    assert_eq!(arn.method, "GET");
    assert_eq!(arn.path, "users/42/orders");
}

#[test]
fn method_arn_without_path_has_empty_path() {
    let arn = MethodArn::from("abc/dev/POST");
    assert_eq!(arn.api_arn, "abc");
    assert_eq!(arn.stage, "dev");
    assert_eq!(arn.method, "POST");
    assert_eq!(arn.path, "");
}

#[test]
fn trimmed_string_strips_both_ends() {
    assert_eq!(TrimmedString::new("  hello world \n\t").as_str(), "hello world");
    assert_eq!(TrimmedString::new("no-space").as_str(), "no-space");
    assert_eq!(TrimmedString::new(" \t \n ").as_str(), "");
    assert_eq!(TrimmedString::new("").into_string(), "");
}

#[test]
fn format_digits_pads_with_leading_zeros() {
    assert_eq!(format_digits(42, 6), "000042");
    assert_eq!(format_digits(0, 4), "0000");
    assert_eq!(format_digits(987654321, 9), "987654321");
    assert_eq!(format_digits(7, 1), "7");
}

#[test]
fn gen_secret_digits_is_all_digits_of_asked_length() {
    let code = gen_secret_digits(6);
    assert_eq!(code.len(), 6);
    assert!(code.chars().all(|c| c.is_ascii_digit()));
    let short = gen_secret_digits(1);
    assert_eq!(short.len(), 1);
}

#[test]
fn hashed_secret_verifies_and_wrong_one_does_not() {
    let hashed = hash_secret("open sesame");
    assert!(verify_secret("open sesame", &hashed));
    assert!(!verify_secret("open sesam", &hashed));
    assert!(!verify_secret("open sesame", "not a phc record"));
}

#[test]
fn extend_timestamp_applies_offsets_in_seconds() {
    // one day on top of second 1000
    let r = extend_current_timestamp(1000, 0, 0, 1, 0, 0, 0, 0, Unit::Seconds);
    assert_eq!(r, Ok(1000 + 86_400));
}

#[test]
fn extend_timestamp_applies_offsets_in_milliseconds() {
    let r = extend_current_timestamp(5_000, 0, 0, 0, 0, 0, -2, 0, Unit::Milliseconds);
    assert_eq!(r, Ok(3_000));
}

#[test]
fn extend_timestamp_reports_a_step_out_of_range() {
    let r = extend_current_timestamp(5_000, 0, 0, 0, 0, 0, -6, 0, Unit::Milliseconds);
    assert!(r.is_err());
    let r2 = extend_current_timestamp(u64::MAX, 1, 0, 0, 0, 0, 0, 0, Unit::Milliseconds);
    assert!(r2.is_err());
}

#[test]
fn current_timestamp_is_well_past_the_epoch() {
    let s = get_current_timestamp(Unit::Seconds).unwrap();
    let ms = get_current_timestamp(Unit::Milliseconds).unwrap();
    assert!(s > 1_600_000_000);
    assert!(ms > 1_600_000_000_000);
}

#[test]
fn almost_deadline_compares_against_the_margin() {
    assert_eq!(is_almost_deadline(5_000, 10_000, 1), Ok(false));
    assert_eq!(is_almost_deadline(9_500, 10_000, 1), Ok(true));
    assert_eq!(is_almost_deadline(9_000, 10_000, 1), Ok(true));
    assert!(is_almost_deadline(9_000, 500, 1).is_err());
}

#[test]
fn api_error_messages_match_their_codes() {
    assert_eq!(api_error_message(400), "Bad request");
    assert_eq!(api_error_message(401), "Unauthorized");
    assert_eq!(api_error_message(403), "Forbidden");
    assert_eq!(api_error_message(404), "Data was not found");
    assert_eq!(api_error_message(409), "Conflict");
    assert_eq!(api_error_message(500), "Internal server error");
    assert_eq!(api_error_message(418), "");
}

#[test]
fn hash_is_stable_within_a_process() {
    let a = hash(&"abc".to_string());
    let b = hash(&"abc".to_string());
    assert_eq!(a, b);
    assert_ne!(hash(&"abc".to_string()), hash(&"abd".to_string()));
}

#[test]
fn common_error_default_is_empty() {
    let e = CommonError::default();
    assert_eq!(e.code, 0);
    assert_eq!(e.message, "");
}

#[test]
fn methods_compare_by_variant() {
    assert_eq!(Method::Get, Method::Get);
    assert_ne!(Method::Post, Method::Delete);
    assert!(Method::Post < Method::Put);
}

#[test]
fn snake_case_becomes_pascal_case() {
    assert_eq!("user_name".convert_snake_case_to_pascal_case(), "UserName");
    assert_eq!("single".convert_snake_case_to_pascal_case(), "Single");
    assert_eq!("a_b_c".convert_snake_case_to_pascal_case(), "ABC");
}

#[test]
fn empty_words_contribute_the_default_character() {
    // an absent first character is taken by default, as NUL
    assert_eq!("a__b".convert_snake_case_to_pascal_case(), "A\u{0}B");
    assert_eq!("".convert_snake_case_to_pascal_case(), "\u{0}");
}

#[test]
fn outer_characters_are_shaved_off() {
    assert_eq!("\"quoted\"".remove_first_and_last_chars(), "quoted");
    assert_eq!("ab".remove_first_and_last_chars(), "");
    assert_eq!("a".remove_first_and_last_chars(), "");
    assert_eq!("".remove_first_and_last_chars(), "");
}

#[test]
fn status_code_is_the_first_three_digits() {
    assert_eq!(status_code_of(2001), 200);
    assert_eq!(status_code_of(400), 400);
    assert_eq!(status_code_of(50099), 500);
    assert_eq!(status_code_of(100), 100);
}
