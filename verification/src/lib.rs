//! Shared utilities for HTTP API handlers: a redaction engine that hides
//! sensitive fields of a parsed document before logging and restores them
//! afterwards, together with small helpers for response codes, ARN parsing
//! and timestamp arithmetic.
pub mod common_enums;
pub mod common_error;
pub mod constants;
pub mod entries;
pub mod hashing;
pub mod laws;
pub mod method_arn;
pub mod redaction;
pub mod secrets;
pub mod sensitive_data;
pub mod sensitive_keys;
pub mod strings;
pub mod timestamps;
pub mod trimmed_string;
pub mod value_tree;

pub use common_enums::Method;
pub use strings::{Case, StringExt, snake_to_pascal, without_first_and_last};
pub use common_error::CommonError;
pub use hashing::hash;
pub use secrets::{hash_secret, verify_secret, gen_secret_digits, format_digits};
pub use method_arn::MethodArn;
pub use timestamps::{Unit, get_current_timestamp, extend_current_timestamp, is_almost_timeout, is_almost_deadline, extend_timestamp_ms, timestamp_in_unit};
pub use trimmed_string::TrimmedString;
pub use sensitive_data::SensitiveData;
pub use value_tree::ValueTree;
