use cds_cqn::csn::{Definition, Definitions, ElementKind};

fn get_test_csn() -> &'static str {
    r#"{"definitions": {
        "TestService": {
          "@source": "srv/service.cds",
          "kind": "service"
        },
        "TestService.TestEntity": {
          "kind": "entity",
          "query": {
            "SELECT": {
              "from": {
                "ref": [
                  "TestDbEntity"
                ]
              }
            }
          },
          "elements": {
            "ID": {
              "key": true,
              "type": "cds.UUID"
            },
            "name": {
              "type": "cds.String",
              "default": {
                "val": "myDefaultName"
              }
            },
            "age": {
              "type": "cds.Integer"
            }
          }
        }
      },
      "meta": {
        "creator": "CDS Compiler v1.25.0"
      },
      "$version": "1.0"}"#
}

fn get_test_csn_no_elements() -> &'static str {
    r#"{"definitions": {
        "TestService": {
          "@source": "srv/service.cds",
          "kind": "service"
        },
        "TestService.TestEntity": {
          "kind": "entity"
        }
      },
      "meta": {
        "creator": "CDS Compiler v1.25.0"
      },
      "$version": "1.0"}"#
}

fn get_test_csn_no_definitions() -> &'static str {
    r#"{"meta": {
        "creator": "CDS Compiler v1.25.0"
      },
      "$version": "1.0"}"#
}

fn get_test_csn_invalid_json() -> &'static str {
    r#"{"meta": -invalid-
        "creator": "CDS Compiler v1.25.0"
      },
      "$version": "1.0"}"#
}

#[test]
fn csn_deserialize_uuid() {
    let input_str = r#"{"type": "cds.UUID", "key": true}"#;
    let deserialized = ElementKind::from_json(input_str).ok().unwrap();
    match deserialized {
        ElementKind::UUID(a) => assert_eq!(a.default.is_none(), true),
        _ => panic!("Could not deserialize"),
    }
}

#[test]
fn deserialize_with_default() {
    let input_str = r#"{"type": "cds.UUID", "default": { "val": "defaultUUID" }}"#;
    let deserialized = ElementKind::from_json(input_str).ok().unwrap();
    match deserialized {
        ElementKind::UUID(a) => match a.default {
            Some(cds_cqn::csn::Default::Val(default)) => assert_eq!(default, "defaultUUID"),
            _ => panic!("Could not deserialize default"),
        },
        _ => panic!("Could not deserialize"),
    }
}

#[test]
fn deserialize_string_with_length() {
    let input_str = r#"{"type": "cds.String", "key": true, "length": 255}"#;
    let deserialized = ElementKind::from_json(input_str).ok().unwrap();
    match deserialized {
        ElementKind::String(a) => match a.length {
            Some(length) => assert_eq!(length, 255),
            _ => panic!("Could not deserialize length"),
        },
        _ => panic!("Could not deserialize"),
    }
}

#[test]
fn csn_test_get_csn() {
    let csn = get_test_csn();
    assert_eq!(Definitions::from_str(csn).is_ok(), true);
}

#[test]
fn test_get_csn_no_definitions() {
    let csn = get_test_csn_no_definitions();
    let res = Definitions::from_str(csn);
    match res {
        Ok(_) => assert_eq!(1, 0),
        Err(e) => assert_eq!(e.description, "Cannot find definitions"),
    }
}

#[test]
fn test_get_csn_no_elements() {
    let csn = get_test_csn_no_elements();
    let res = Definitions::from_str(csn);
    match res {
        Ok(_) => assert_eq!(1, 0),
        Err(e) => assert_eq!(e.description, "Cannot find elements"),
    }
}

#[test]
fn test_get_csn_invalid_json() {
    let csn = get_test_csn_invalid_json();
    let res = Definitions::from_str(csn);
    match res {
        Ok(_) => assert_eq!(1, 0),
        Err(e) => assert_eq!(e.description, "invalid number at line 1 column 11"),
    }
}

#[test]
fn test_csn_reads_every_definition() {
    let definitions = Definitions::from_str(get_test_csn()).ok().unwrap();
    assert_eq!(definitions.get_service_names(), vec!["TestService".to_string()]);
    assert_eq!(definitions.definitions.len(), 2);
    match &definitions.definitions[1] {
        Definition::Entity(entity) => {
            assert_eq!(entity.name, "TestService.TestEntity");
            assert_eq!(entity.query.as_ref().map(|q| q.from.clone()), Some("TestDbEntity".to_string()));
            let names: Vec<&str> = entity.elements.iter().map(|e| e.name.as_str()).collect();
            assert_eq!(names, vec!["ID", "age", "name"]);
            assert!(entity.elements[0].key);
            assert!(!entity.elements[1].key);
            assert!(matches!(entity.elements[0].kind, ElementKind::UUID(_)));
            assert!(matches!(entity.elements[1].kind, ElementKind::Integer(_)));
            match &entity.elements[2].kind {
                ElementKind::String(s) => {
                    assert!(matches!(&s.default, Some(cds_cqn::csn::Default::Val(v)) if v == "myDefaultName"));
                    assert_eq!(s.length, None);
                }
                _ => panic!("expected a string element"),
            }
        }
        _ => panic!("expected an entity"),
    }
}

#[test]
fn test_csn_query_ref_is_joined_with_dots() {
    let csn = r#"{"definitions": {"E": {"kind": "entity", "elements": {},
        "query": {"SELECT": {"from": {"ref": ["my", "db", "Books"]}}}}}}"#;
    let definitions = Definitions::from_str(csn).ok().unwrap();
    match &definitions.definitions[0] {
        Definition::Entity(entity) => {
            assert_eq!(entity.query.as_ref().unwrap().from, "my.db.Books");
            assert!(entity.elements.is_empty());
        }
        _ => panic!("expected an entity"),
    }
}

#[test]
fn test_csn_other_kinds_are_skipped() {
    let csn = r#"{"definitions": {"A": {"kind": "type"}, "B": {"kind": "service"}, "C": 5}}"#;
    let definitions = Definitions::from_str(csn).ok().unwrap();
    assert_eq!(definitions.definitions.len(), 1);
    assert_eq!(definitions.get_service_names(), vec!["B".to_string()]);
}

#[test]
fn test_csn_checked_refuses_a_query_without_ref() {
    let csn = r#"{"definitions": {"E": {"kind": "entity", "elements": {}, "query": {"SELECT": {}}}}}"#;
    assert!(Definitions::from_str_checked(csn).is_none());
    let fine = r#"{"definitions": {"E": {"kind": "entity", "elements": {}}}}"#;
    assert!(matches!(Definitions::from_str_checked(fine), Some(Ok(_))));
}

#[test]
fn test_csn_element_kind_error_is_reported() {
    let csn = r#"{"definitions": {"E": {"kind": "entity", "elements": {"x": {"type": "cds.Date"}}}}}"#;
    match Definitions::from_str(csn) {
        Ok(_) => panic!("expected an error"),
        Err(e) => assert_eq!(
            e.description,
            "unknown variant `cds.Date`, expected one of `cds.UUID`, `cds.Boolean`, `cds.Integer`, `cds.String`"
        ),
    }
}

#[test]
fn element_kind_defaults_of_each_type() {
    match ElementKind::from_json(r#"{"type": "cds.Boolean", "default": {"val": true}}"#).ok().unwrap() {
        ElementKind::Boolean(b) => assert!(matches!(b.default, Some(cds_cqn::csn::Default::Val(true)))),
        _ => panic!("expected a boolean"),
    }
    match ElementKind::from_json(r#"{"type": "cds.Integer", "default": {"val": -42}}"#).ok().unwrap() {
        ElementKind::Integer(i) => assert!(matches!(i.default, Some(cds_cqn::csn::Default::Val(-42)))),
        _ => panic!("expected an integer"),
    }
    match ElementKind::from_json(r#"{"type": "cds.String", "default": null, "length": null}"#).ok().unwrap() {
        ElementKind::String(s) => {
            assert!(s.default.is_none());
            assert!(s.length.is_none());
        }
        _ => panic!("expected a string"),
    }
    match ElementKind::from_json(r#"["cds.Integer", {"val": 7}]"#).ok().unwrap() {
        ElementKind::Integer(i) => assert!(matches!(i.default, Some(cds_cqn::csn::Default::Val(7)))),
        _ => panic!("expected an integer"),
    }
}

fn kind_error(text: &str) -> String {
    match ElementKind::from_json(text) {
        Ok(_) => panic!("expected an error"),
        Err(e) => e.description,
    }
}

#[test]
fn element_kind_errors() {
    assert_eq!(kind_error(r#"{"key": true}"#), "missing field `type` at line 1 column 13");
    assert_eq!(kind_error(r#"{"key":true}"#), "missing field `type` at line 1 column 12");
    assert_eq!(kind_error("{\n  \"key\": true\n}\n "), "missing field `type` at line 3 column 1");
    assert_eq!(kind_error(r#"{"ké": 1}"#), "missing field `type` at line 1 column 10");
    assert_eq!(kind_error(r#"[]"#), "missing field `type` at line 1 column 2");
    assert_eq!(kind_error(r#""cds.UUID""#), "invalid type: string \"cds.UUID\", expected internally tagged enum ElementKind at line 1 column 10");
    assert_eq!(kind_error("null"), "invalid type: null, expected internally tagged enum ElementKind at line 1 column 4");
    assert_eq!(kind_error("1e20"), "invalid type: floating point `1e+20`, expected internally tagged enum ElementKind at line 1 column 4");
    assert_eq!(kind_error(r#"{"type": 3}"#), "invalid type: integer `3`, expected variant identifier");
    assert_eq!(kind_error(r#"{"type": "cds.Boolean", "default": {"val": "x\u0085y"}}"#), r#"invalid type: string "x\u{85}y", expected a boolean"#);
    assert_eq!(kind_error(r#"{"type": "cds.Boolean", "default": {"val": "a\"b\\c\u0001"}}"#), r#"invalid type: string "a\"b\\c\u{1}", expected a boolean"#);
    assert_eq!(kind_error(r#"{"type": "cds.String", "length": null, "default": {"val": null}}"#), "invalid type: null, expected a string");
    assert_eq!(kind_error(r#"{"type": "cds.UUID", "default": "val"}"#), "invalid type: unit variant, expected newtype variant");
    assert_eq!(kind_error(r#"{"type": "cds.UUID", "default": {"other": 1}}"#), "unknown variant `other`, expected `val`");
    assert_eq!(kind_error(r#"{"type": "cds.UUID", "default": {}}"#), "invalid value: map, expected map with a single key");
    assert_eq!(kind_error(r#"{"type": "cds.UUID", "default": 5}"#), "invalid type: integer `5`, expected string or map");
    assert_eq!(kind_error(r#"{"type": "cds.UUID", "default": {"val": 5}}"#), "invalid type: integer `5`, expected a string");
    assert_eq!(kind_error(r#"{"type": "cds.Boolean", "default": {"val": "yes"}}"#), "invalid type: string \"yes\", expected a boolean");
    assert_eq!(kind_error(r#"{"type": "cds.Integer", "default": {"val": 1.5}}"#), "invalid type: floating point `1.5`, expected i64");
    assert_eq!(kind_error(r#"{"type": "cds.Integer", "default": {"val": 18446744073709551615}}"#), "invalid value: integer `18446744073709551615`, expected i64");
    assert_eq!(kind_error(r#"{"type": "cds.String", "length": -1}"#), "invalid value: integer `-1`, expected u64");
    assert_eq!(kind_error(r#"["cds.UUID"]"#), "invalid length 0, expected struct PrimitiveKind with 1 element");
    assert_eq!(kind_error(r#"["cds.UUID", null, 1, 2]"#), "invalid length 3, expected 1 element in sequence");
    assert_eq!(kind_error(r#"["cds.String", null]"#), "invalid length 1, expected struct PrimitiveKindString with 2 elements");
    assert_eq!(kind_error("{"), "EOF while parsing an object at line 1 column 1");
}

#[test]
fn deserialization_error_new_keeps_the_text() {
    let e = cds_cqn::csn::DeserializationError::new("oops");
    assert_eq!(e.description, "oops");
}

#[test]
fn definitions_from_given_members() {
    let members = vec![
        ("S".to_string(), r#"{"kind":"service"}"#.to_string()),
        ("X".to_string(), r#"{"kind":"aspect"}"#.to_string()),
        ("S.E".to_string(), r#"{"kind":"entity","elements":{"a":{"type":"cds.Integer"}}}"#.to_string()),
    ];
    let defs = Definitions::from_members(&members).unwrap().ok().unwrap();
    assert_eq!(defs.definitions.len(), 2);
    assert_eq!(defs.get_service_names(), vec!["S".to_string()]);
    match &defs.definitions[1] {
        Definition::Entity(e) => {
            assert_eq!(e.name, "S.E");
            assert!(e.query.is_none());
            assert_eq!(e.elements.len(), 1);
        }
        _ => panic!("expected an entity"),
    }
    let no_ref = vec![("E".to_string(), r#"{"kind":"entity","elements":{},"query":{}}"#.to_string())];
    assert!(Definitions::from_members(&no_ref).is_none());
    let no_elements = vec![("E".to_string(), r#"{"kind":"entity"}"#.to_string())];
    assert_eq!(Definitions::from_members(&no_elements).unwrap().err().unwrap().description, "Cannot find elements");
}
