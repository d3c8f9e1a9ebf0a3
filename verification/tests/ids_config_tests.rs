use quizzbuzz_db::config::connection_string;
use quizzbuzz_db::errors::Error;
use quizzbuzz_db::ids::{object_id_string, object_ids_match, validate_object_id};

#[test]
fn object_id_strings_are_fixed_width_hex() {
    assert_eq!(object_id_string(0), "000000000000000000000000");
    assert_eq!(object_id_string(5), "000000000000000000000005");
    assert_eq!(object_id_string(255), "0000000000000000000000ff");
    assert_eq!(object_id_string(0xdead_beef), "0000000000000000deadbeef");
    assert_eq!(object_id_string(u64::MAX), "00000000ffffffffffffffff");
}

#[test]
fn validation_accepts_exactly_24_hex_digits() {
    assert!(validate_object_id("0123456789abcdefABCDEF01"));
    assert!(validate_object_id("ffffffffffffffffffffffff"));
    assert!(!validate_object_id(""));
    assert!(!validate_object_id("0123456789abcdefABCDEF0"));
    assert!(!validate_object_id("0123456789abcdefABCDEF012"));
    assert!(!validate_object_id("0123456789abcdefABCDEF0g"));
    assert!(!validate_object_id("0123456789abcdef ABCDEF0"));
}

#[test]
fn identifier_matching_ignores_case_but_not_value() {
    assert!(object_ids_match("0000000000000000deadbeef", "0000000000000000DEADBEEF"));
    assert!(object_ids_match("abcdefabcdefabcdefabcdef", "abcdefabcdefabcdefabcdef"));
    assert!(!object_ids_match("000000000000000000000001", "000000000000000000000002"));
    assert!(!object_ids_match("000000000000000000000001", "not-an-identifier-at-all"));
}

#[test]
fn connection_string_appends_the_fixed_options() {
    assert_eq!(
        connection_string("mongodb+srv://host.example.com/"),
        "mongodb+srv://host.example.com/?retryWrites=true&w=majority"
    );
}

#[test]
fn error_messages_name_the_offending_input() {
    assert_eq!(
        Error::InvalidIDError("zzz".to_string()).message(),
        "invalid id: zzz"
    );
    assert_eq!(
        Error::NotFoundError("000000000000000000000001".to_string()).message(),
        "not found: 000000000000000000000001"
    );
    assert_eq!(
        Error::InvalidQueryError("%ff".to_string()).message(),
        "invalid query: %ff"
    );
    assert_eq!(
        Error::MongoQueryError("boom".to_string()).message(),
        "query failed: boom"
    );
    assert_eq!(
        Error::ConnectionError("bad uri".to_string()).message(),
        "connection failed: bad uri"
    );
}
