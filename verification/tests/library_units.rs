//! Unit tests of the parser, the resolver and the checker.

use avrodisiac::compare_schemas;
use avrodisiac::compat::CompatReason;
use avrodisiac::registry::parse;
use avrodisiac::registry::resolve;
use avrodisiac::schema::ParseError;
use avrodisiac::schema::Schema;
use avrodisiac::validate_schemas;
use avrodisiac::CompatFailure;

fn docs(texts: &[&str]) -> Vec<Vec<u8>> {
    texts.iter().map(|t| t.as_bytes().to_vec()).collect()
}

#[test]
fn parse_primitive_names() {
    assert_eq!(parse(br#""int""#), Ok(Schema::Int));
    assert_eq!(parse(br#""string""#), Ok(Schema::Str));
    assert_eq!(parse(br#" "null" "#), Ok(Schema::Null));
    assert_eq!(parse(br#"{"type":"double"}"#), Ok(Schema::Double));
}

#[test]
fn parse_is_idempotent() {
    let doc = br#"{
        "type":"record","name":"r","namespace":"a.b",
        "fields":[
            {"name":"u","type":["null","int"],"default":null},
            {"name":"e","type":{"type":"enum","name":"col","symbols":["RED","BLUE"]}},
            {"name":"xs","type":{"type":"array","items":"long"}},
            {"name":"m","type":{"type":"map","values":"bytes"}},
            {"name":"fx","type":{"type":"fixed","name":"h","size":16}}
        ]}"#;
    let first = parse(doc);
    let second = parse(doc);
    assert!(first.is_ok());
    assert_eq!(first, second);
}

#[test]
fn malformed_json_is_rejected() {
    assert_eq!(parse(b"{"), Err(ParseError::MalformedJson));
    assert_eq!(parse(b""), Err(ParseError::MalformedJson));
    assert_eq!(parse(b"{\"type\":\"record\",}"), Err(ParseError::MalformedJson));
    let set = docs(&["{ not json"]);
    assert!(matches!(validate_schemas(&set), Err(ParseError::MalformedJson)));
}

#[test]
fn unknown_type_is_rejected() {
    match parse(br#"{"type":"record","name":"r","fields":[{"name":"f","type":"mystery"}]}"#) {
        Err(ParseError::UnknownType(n)) => assert_eq!(n, b"mystery".to_vec()),
        other => panic!("expected an unknown type, got {:?}", other),
    }
}

#[test]
fn duplicate_name_is_rejected() {
    let one = r#"{"type":"record","name":"t","fields":[{"name":"a","type":"int"}]}"#;
    let set = docs(&[one, one]);
    match validate_schemas(&set) {
        Err(ParseError::DuplicateName(n)) => assert_eq!(n, b"t".to_vec()),
        other => panic!("expected a duplicate name, got {:?}", other),
    }
}

#[test]
fn unresolved_reference_is_rejected() {
    let set = docs(&[
        r#"{"type":"record","name":"t","fields":[{"name":"a","type":"ghost.name"}]}"#,
    ]);
    match validate_schemas(&set) {
        Err(ParseError::UnresolvedReference(n)) => assert_eq!(n, b"ghost.name".to_vec()),
        other => panic!("expected an unresolved reference, got {:?}", other),
    }
}

#[test]
fn null_default_on_int_field_is_invalid() {
    let r = parse(
        br#"{"type":"record","name":"t","fields":[{"name":"a","type":"int","default":null}]}"#,
    );
    assert!(matches!(r, Err(ParseError::InvalidField(_))));
}

#[test]
fn union_default_goes_by_first_branch() {
    let ok = parse(
        br#"{"type":"record","name":"t","fields":[{"name":"a","type":["null","int"],"default":null}]}"#,
    );
    assert!(ok.is_ok());
    let bad = parse(
        br#"{"type":"record","name":"t","fields":[{"name":"a","type":["int","null"],"default":null}]}"#,
    );
    assert!(matches!(bad, Err(ParseError::InvalidField(_))));
}

#[test]
fn duplicate_field_names_are_invalid() {
    let r = parse(
        br#"{"type":"record","name":"t","fields":[{"name":"a","type":"int"},{"name":"a","type":"long"}]}"#,
    );
    assert!(matches!(r, Err(ParseError::InvalidField(_))));
}

#[test]
fn fixed_size_is_read() {
    match parse(br#"{"type":"fixed","name":"ns.h","size":16}"#) {
        Ok(Schema::Fixed { fullname, size }) => {
            assert_eq!(fullname, b"ns.h".to_vec());
            assert_eq!(size, 16);
        },
        other => panic!("expected a fixed schema, got {:?}", other),
    }
}

#[test]
fn namespaces_qualify_names() {
    match parse(br#"{"type":"record","name":"r","namespace":"a.b","fields":[]}"#) {
        Ok(Schema::Record { fullname, .. }) => assert_eq!(fullname, b"a.b.r".to_vec()),
        other => panic!("expected a record, got {:?}", other),
    }
    match parse(br#"{"type":"record","name":"x.y.r","namespace":"ignored","fields":[]}"#) {
        Ok(Schema::Record { fullname, .. }) => assert_eq!(fullname, b"x.y.r".to_vec()),
        other => panic!("expected a record, got {:?}", other),
    }
}

#[test]
fn promotions_are_one_way() {
    let rec = |ty: &str| {
        format!(
            r#"{{"type":"record","name":"t","fields":[{{"name":"a","type":"{}"}}]}}"#,
            ty
        )
    };
    for (w, r, ok) in [
        ("int", "long", true),
        ("int", "float", true),
        ("int", "double", true),
        ("long", "float", true),
        ("float", "double", true),
        ("long", "int", false),
        ("double", "float", false),
        ("string", "bytes", true),
        ("bytes", "string", true),
        ("int", "string", false),
        ("boolean", "int", false),
    ] {
        let old = docs(&[rec(w).as_str()]);
        let new = docs(&[rec(r).as_str()]);
        assert_eq!(
            compare_schemas(&old, &new, false).is_ok(),
            ok,
            "writer {} reader {}",
            w,
            r
        );
    }
}

#[test]
fn missing_field_without_default_breaks() {
    let old = docs(&[
        r#"{"type":"record","name":"t","fields":[{"name":"a","type":"int"}]}"#,
    ]);
    let new = docs(&[
        r#"{"type":"record","name":"t","fields":[{"name":"a","type":"int"},{"name":"b","type":"int"}]}"#,
    ]);
    match compare_schemas(&old, &new, false) {
        Err(CompatFailure::Incompatible(issues)) => {
            assert_eq!(issues.len(), 1);
            assert_eq!(issues[0].reason, CompatReason::MissingField(b"b".to_vec()));
            assert_eq!(issues[0].path, vec![b"t".to_vec(), b"b".to_vec()]);
        },
        other => panic!("expected an incompatibility, got {:?}", other),
    }
}

#[test]
fn removed_schema_always_breaks() {
    let old = docs(&[
        r#"{"type":"record","name":"gone","fields":[]}"#,
        r#"{"type":"record","name":"kept","fields":[]}"#,
    ]);
    let new = docs(&[r#"{"type":"record","name":"kept","fields":[]}"#]);
    match compare_schemas(&old, &new, false) {
        Err(CompatFailure::Incompatible(issues)) => {
            assert_eq!(issues.len(), 1);
            assert_eq!(issues[0].reason, CompatReason::SchemaRemoved(b"gone".to_vec()));
        },
        other => panic!("expected an incompatibility, got {:?}", other),
    }
}

#[test]
fn added_schema_never_breaks() {
    let old = docs(&[r#"{"type":"record","name":"kept","fields":[]}"#]);
    let new = docs(&[
        r#"{"type":"record","name":"kept","fields":[]}"#,
        r#"{"type":"record","name":"extra","fields":[]}"#,
    ]);
    assert!(compare_schemas(&old, &new, true).is_ok());
}

#[test]
fn enum_symbols_follow_the_reader_rule() {
    let old = docs(&[r#"{"type":"enum","name":"c","symbols":["A","B","C"]}"#]);
    let narrowed = docs(&[r#"{"type":"enum","name":"c","symbols":["A","B"]}"#]);
    match compare_schemas(&old, &narrowed, false) {
        Err(CompatFailure::Incompatible(issues)) => {
            assert_eq!(
                issues[0].reason,
                CompatReason::UnknownEnumSymbol(b"C".to_vec())
            );
        },
        other => panic!("expected an incompatibility, got {:?}", other),
    }
    let defaulted = docs(&[
        r#"{"type":"enum","name":"c","symbols":["A","B"],"default":"A"}"#,
    ]);
    assert!(compare_schemas(&old, &defaulted, false).is_ok());
}

#[test]
fn fixed_needs_same_name_and_size() {
    let old = docs(&[r#"{"type":"fixed","name":"h","size":16}"#]);
    let same = docs(&[r#"{"type":"fixed","name":"h","size":16}"#]);
    let grown = docs(&[r#"{"type":"fixed","name":"h","size":32}"#]);
    assert!(compare_schemas(&old, &same, true).is_ok());
    assert!(compare_schemas(&old, &grown, false).is_err());
}

#[test]
fn recursive_records_terminate_and_compare() {
    let linked = r#"{"type":"record","name":"node","fields":[
        {"name":"next","type":["null","node"]},
        {"name":"v","type":"int"}]}"#;
    let old = docs(&[linked]);
    let new = docs(&[linked]);
    assert!(compare_schemas(&old, &new, true).is_ok());
    assert!(resolve(&old).is_ok());
}

#[test]
fn string_escapes_decode() {
    match parse(br#"{"type":"record","name":"\u0061b\u0063","fields":[]}"#) {
        Ok(Schema::Record { fullname, .. }) => assert_eq!(fullname, b"abc".to_vec()),
        other => panic!("expected a record, got {:?}", other),
    }
}

#[test]
fn kind_mismatch_reports_type_mismatch() {
    let old = docs(&[
        r#"{"type":"record","name":"t","fields":[{"name":"a","type":"int"}]}"#,
    ]);
    let new = docs(&[
        r#"{"type":"record","name":"t","fields":[{"name":"a","type":"boolean"}]}"#,
    ]);
    match compare_schemas(&old, &new, false) {
        Err(CompatFailure::Incompatible(issues)) => {
            assert_eq!(issues[0].reason, CompatReason::TypeMismatch);
            assert_eq!(issues[0].path, vec![b"t".to_vec(), b"a".to_vec()]);
        },
        other => panic!("expected an incompatibility, got {:?}", other),
    }
}

#[test]
fn arrays_and_maps_compare_their_parts() {
    let arr = |ty: &str| {
        format!(
            r#"{{"type":"record","name":"t","fields":[{{"name":"a","type":{{"type":"array","items":"{}"}}}}]}}"#,
            ty
        )
    };
    let old = docs(&[arr("int").as_str()]);
    let widened = docs(&[arr("long").as_str()]);
    let narrowed_from = docs(&[arr("long").as_str()]);
    let narrowed_to = docs(&[arr("int").as_str()]);
    assert!(compare_schemas(&old, &widened, false).is_ok());
    assert!(compare_schemas(&narrowed_from, &narrowed_to, false).is_err());
}

#[test]
fn writer_union_needs_every_branch_readable() {
    let rec = |ty: &str| {
        format!(
            r#"{{"type":"record","name":"t","fields":[{{"name":"a","type":{}}}]}}"#,
            ty
        )
    };
    let both = docs(&[rec(r#"["int","string"]"#).as_str()]);
    let int_only = docs(&[rec(r#""int""#).as_str()]);
    let wide = docs(&[rec(r#"["null","int","string"]"#).as_str()]);
    // writer union against a narrower reader fails; a wider reader accepts it
    assert!(compare_schemas(&both, &int_only, false).is_err());
    assert!(compare_schemas(&both, &wide, false).is_ok());
    // a non-union writer may be read through a union reader
    assert!(compare_schemas(&int_only, &both, false).is_ok());
}

#[test]
fn document_order_does_not_matter() {
    let a = r#"{"type":"record","name":"outer","fields":[{"name":"n","type":"inner"}]}"#;
    let b = r#"{"type":"record","name":"inner","fields":[{"name":"v","type":"int"}]}"#;
    assert!(validate_schemas(&docs(&[a, b])).is_ok());
    assert!(validate_schemas(&docs(&[b, a])).is_ok());
}

#[test]
fn every_incompatible_name_is_reported() {
    let old = docs(&[
        r#"{"type":"record","name":"a","fields":[{"name":"x","type":"long"}]}"#,
        r#"{"type":"record","name":"b","fields":[{"name":"y","type":"int"}]}"#,
    ]);
    let new = docs(&[
        r#"{"type":"record","name":"a","fields":[{"name":"x","type":"int"}]}"#,
        r#"{"type":"record","name":"b","fields":[{"name":"y","type":"boolean"}]}"#,
    ]);
    match compare_schemas(&old, &new, false) {
        Err(CompatFailure::Incompatible(issues)) => assert_eq!(issues.len(), 2),
        other => panic!("expected two incompatibilities, got {:?}", other),
    }
}
