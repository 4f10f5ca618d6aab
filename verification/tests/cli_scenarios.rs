//! The linting and evolution scenarios, on in-memory document sets.

use avrodisiac::compare_schemas;
use avrodisiac::validate_schemas;

fn docs(texts: &[&str]) -> Vec<Vec<u8>> {
    texts.iter().map(|t| t.as_bytes().to_vec()).collect()
}

#[test]
fn test_schema_validation() {
    let set = docs(&[r#"{
               "name":"test",
               "namespace":"my.namespace",
               "type":"record",
               "fields":[
                   {
                       "name":  "myField",
                       "doc": "just a field",
                       "type":"int"
                   }
               ]
            }"#]);
    assert!(validate_schemas(&set).is_ok());
}

#[test]
fn test_invalid_schema_validation() {
    let set = docs(&[r#"{
               "namespace":"my.namespace",
               "type":"record",
               "fields":[
                   {
                       "type":"int"
                   }
               ]
            }"#]);
    assert!(validate_schemas(&set).is_err());
}

#[test]
fn test_schema_compatibility() {
    let old = docs(&[r#"{
               "name":"test",
               "namespace":"my.namespace",
               "type":"record",
               "fields":[
                   {
                       "name":  "myField",
                       "doc": "just a field",
                       "type":"int"
                   }
               ]
            }"#]);
    let new = docs(&[r#"{
               "name":"test",
               "namespace":"my.namespace",
               "type":"record",
               "fields":[
                   {
                       "name":  "myField",
                       "doc": "just a field",
                       "type":"int"
                   },
                   {
                       "name":  "myOtherField",
                       "doc": "just a field",
                       "type":"int",
                       "default":1
                   }
               ]
            }"#]);
    assert!(compare_schemas(&old, &new, true).is_ok());
}

#[test]
fn test_schema_incompatibility() {
    let old = docs(&[r#"{
               "name":"test",
               "namespace":"my.namespace",
               "type":"record",
               "fields":[
                   {
                       "name":  "myField",
                       "doc": "just a field",
                       "type":"int"
                   }
               ]
            }"#]);
    let new = docs(&[r#"{
               "name":"test",
               "namespace":"my.namespace",
               "type":"record",
               "fields":[
                   {
                       "name":  "myField",
                       "doc": "just a field",
                       "type":"string"
                   },
                   {
                       "name":  "myOtherField",
                       "doc": "just a field",
                       "type":"int",
                       "default":1
                   }
               ]
            }"#]);
    assert!(compare_schemas(&old, &new, true).is_err());
}

#[test]
fn test_schema_read_compatibility() {
    let old = docs(&[r#"{
               "name":"test",
               "namespace":"my.namespace",
               "type":"record",
               "fields":[
                   {
                       "name":  "myField",
                       "doc": "just a field",
                       "type":"int"
                   }
               ]
            }"#]);
    let new = docs(&[r#"{
               "name":"test",
               "namespace":"my.namespace",
               "type":"record",
               "fields":[
                   {
                       "name":  "myField",
                       "doc": "just a field",
                       "type":"long"
                   }
               ]
            }"#]);
    assert!(compare_schemas(&old, &new, false).is_ok());
}

#[test]
fn test_schema_read_incompatibility() {
    let old = docs(&[r#"{
               "name":"test",
               "namespace":"my.namespace",
               "type":"record",
               "fields":[
                   {
                       "name":  "myField",
                       "doc": "just a field",
                       "type":"long"
                   }
               ]
            }"#]);
    let new = docs(&[r#"{
               "name":"test",
               "namespace":"my.namespace",
               "type":"record",
               "fields":[
                   {
                       "name":  "myField",
                       "doc": "just a field",
                       "type":"int"
                   }
               ]
            }"#]);
    assert!(compare_schemas(&old, &new, false).is_err());
}

#[test]
fn test_schema_compatibility_multiple_files() {
    let old = docs(&[
        r#"{
               "name":"test",
               "namespace":"my.namespace",
               "type":"record",
               "fields":[
                   {
                       "name": "myField",
                       "doc": "just a field",
                       "type":"int"
                   },
                   {
                       "name": "nest",
                       "doc": "nested field",
                       "type": "my.namespace.nested"
                   }
               ]
            }"#,
        r#"{
               "name":"nested",
               "namespace":"my.namespace",
               "type":"record",
               "fields":[
                   {
                       "name": "myNestedField",
                       "doc": "just a field",
                       "type":"int"
                   }
               ]
            }"#,
    ]);
    let new = docs(&[
        r#"{
               "name":"test",
               "namespace":"my.namespace",
               "type":"record",
               "fields":[
                   {
                       "name":  "myField",
                       "doc": "just a field",
                       "type":"int"
                   },
                   {
                       "name":  "myOtherField",
                       "doc": "just a field",
                       "type":"int",
                       "default":1
                   },
                   {
                       "name": "nest",
                       "doc": "nested field",
                       "type": "my.namespace.nested"
                   }
               ]
            }"#,
        r#"{
               "name":"nested",
               "namespace":"my.namespace",
               "type":"record",
               "fields":[
                   {
                       "name": "myNestedField",
                       "doc": "just a field",
                       "type":"int"
                   }
               ]
            }"#,
    ]);
    assert!(compare_schemas(&old, &new, true).is_ok());
}

#[test]
fn test_schema_incompatibility_multiple_files() {
    let old = docs(&[
        r#"{
               "name":"test",
               "namespace":"my.namespace",
               "type":"record",
               "fields":[
                   {
                       "name": "myField",
                       "doc": "just a field",
                       "type":"int"
                   },
                   {
                       "name": "nest",
                       "doc": "nested field",
                       "type": "my.namespace.nested"
                   }
               ]
            }"#,
        r#"{
               "name":"nested",
               "namespace":"my.namespace",
               "type":"record",
               "fields":[
                   {
                       "name": "myNestedField",
                       "doc": "just a field",
                       "type":"int"
                   }
               ]
            }"#,
    ]);
    let new = docs(&[
        r#"{
               "name":"test",
               "namespace":"my.namespace",
               "type":"record",
               "fields":[
                   {
                       "name":  "myField",
                       "doc": "just a field",
                       "type":"int"
                   },
                   {
                       "name":  "myOtherField",
                       "doc": "just a field",
                       "type":"int",
                       "default":1
                   },
                   {
                       "name": "nest",
                       "doc": "nested field",
                       "type": "my.namespace.nested"
                   }
               ]
            }"#,
        r#"{
               "name":"nested",
               "namespace":"my.namespace",
               "type":"record",
               "fields":[
                   {
                       "name": "myNestedField",
                       "doc": "just a field",
                       "type":"string"
                   }
               ]
            }"#,
    ]);
    assert!(compare_schemas(&old, &new, true).is_err());
}
