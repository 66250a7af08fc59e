use collection_db::error::ValidationError;
use collection_db::model::Collection;
use collection_db::validator::{build_collection, is_valid, validate, CHECKSUM_LEN};

fn malformed(s: &str) -> Result<(), ValidationError> {
    Err(ValidationError::MalformedChecksum(s.to_string()))
}

#[test]
fn accepts_lowercase_md5_text() {
    assert_eq!(validate("d41d8cd98f00b204e9800998ecf8427e"), Ok(()));
    assert_eq!(validate("0cc175b9c0f1b6a831c399e269772661"), Ok(()));
    assert_eq!(validate("00000000000000000000000000000000"), Ok(()));
    assert_eq!(validate("ffffffffffffffffffffffffffffffff"), Ok(()));
    assert_eq!(validate("0123456789abcdef0123456789abcdef"), Ok(()));
    assert_eq!(CHECKSUM_LEN, 32);
}

#[test]
fn rejects_uppercase() {
    let s = "D41D8CD98F00B204E9800998ECF8427E";
    assert_eq!(validate(s), malformed(s));
    let mixed = "d41d8cd98f00b204e9800998ecf8427E";
    assert_eq!(validate(mixed), malformed(mixed));
}

#[test]
fn rejects_wrong_length() {
    assert_eq!(validate("abc"), malformed("abc"));
    assert_eq!(validate(""), malformed(""));
    let short = "d41d8cd98f00b204e9800998ecf8427";
    assert_eq!(validate(short), malformed(short));
    let long = "d41d8cd98f00b204e9800998ecf8427e0";
    assert_eq!(validate(long), malformed(long));
}

#[test]
fn rejects_other_characters() {
    let s = "d41d8cd98f00b204e9800998ecf8427g";
    assert_eq!(validate(s), malformed(s));
    for bad in ["/41d8cd98f00b204e9800998ecf8427e", ":41d8cd98f00b204e9800998ecf8427e",
        "`41d8cd98f00b204e9800998ecf8427e", "d41d8cd98f00b204 9800998ecf8427e",
        "d41d8cd98f00b204e9800998ecf8427\n"]
    {
        assert!(!is_valid(bad));
    }
}

#[test]
fn counts_characters_not_bytes() {
    // 32 bytes, 31 characters.
    let bytes32 = "d41d8cd98f00b204e9800998ecf842é";
    assert_eq!(bytes32.len(), 32);
    assert_eq!(validate(bytes32), malformed(bytes32));
    // 32 characters, one of them not ASCII.
    let chars32 = "d41d8cd98f00b204e9800998ecf8427é";
    assert_eq!(chars32.chars().count(), 32);
    assert_eq!(validate(chars32), malformed(chars32));
}

#[test]
fn the_error_holds_the_offending_string() {
    let e = validate("nope").unwrap_err();
    assert_eq!(e.rejected(), "nope");
}

#[test]
fn building_keeps_the_valid_and_reports_the_rest() {
    let candidates = vec![
        "d41d8cd98f00b204e9800998ecf8427e".to_string(),
        "abc".to_string(),
        "0cc175b9c0f1b6a831c399e269772661".to_string(),
        "D41D8CD98F00B204E9800998ECF8427E".to_string(),
        "d41d8cd98f00b204e9800998ecf8427e".to_string(),
    ];
    let (collection, errors) = build_collection(Some("demo".to_string()), candidates);
    assert_eq!(
        collection,
        Collection {
            name: Some("demo".to_string()),
            hashes: vec![
                Some("d41d8cd98f00b204e9800998ecf8427e".to_string()),
                Some("0cc175b9c0f1b6a831c399e269772661".to_string()),
                Some("d41d8cd98f00b204e9800998ecf8427e".to_string()),
            ],
        }
    );
    assert_eq!(
        errors,
        vec![
            ValidationError::MalformedChecksum("abc".to_string()),
            ValidationError::MalformedChecksum("D41D8CD98F00B204E9800998ECF8427E".to_string()),
        ]
    );
}

#[test]
fn building_from_nothing_valid_gives_an_empty_collection() {
    let (collection, errors) = build_collection(None, vec!["x".to_string()]);
    assert_eq!(collection, Collection { name: None, hashes: vec![] });
    assert_eq!(errors, vec![ValidationError::MalformedChecksum("x".to_string())]);
    let (collection, errors) = build_collection(Some(String::new()), vec![]);
    assert_eq!(collection, Collection { name: Some(String::new()), hashes: vec![] });
    assert!(errors.is_empty());
}
