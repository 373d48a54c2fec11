use cds_cqn::get_entities::parse_csn::{Definition, Element, ElementKind, Entity, Service};

fn get_test_csn_json() -> serde_json::Value {
    serde_json::from_str(
        r#"{
      "definitions": {
        "TestService": {
          "@source": "srv/service.cds",
          "kind": "service"
        },
        "TestService.TestEntity": {
          "kind": "entity",
          "elements": {
            "ID": {
              "key": true,
              "type": "cds.UUID"
            },
            "name": {
              "type": "cds.String",
              "default": {
                "val": "myDefaultName"
              }
            },
            "age": {
              "type": "cds.Integer"
            }
          }
        }
      },
      "meta": {
        "creator": "CDS Compiler v1.25.0"
      },
      "$version": "1.0"
    }"#,
    )
    .unwrap()
}

#[test]
fn parse_csn_deserialize_uuid() {
    let input_str = r#"{"type": "cds.UUID", "key": true}"#;
    let deserialized = ElementKind::from_json(input_str).unwrap();
    if let ElementKind::UUID(el) = deserialized {
        assert_eq!(el.key, true)
    } else {
        panic!("Should have serialized to UUID")
    };
}

#[test]
fn deserialize_uuid_without_key() {
    let input_str = r#"{"type": "cds.UUID"}"#;
    let deserialized = ElementKind::from_json(input_str).unwrap();
    if let ElementKind::UUID(el) = deserialized {
        assert_eq!(el.key, false)
    } else {
        panic!("Should have serialized to UUID")
    };
}

#[test]
fn deserialize_uuid_with_default() {
    let input_str = r#"{"type": "cds.UUID", "default": { "val": "defaultUUID" }}"#;
    let deserialized = ElementKind::from_json(input_str).unwrap();
    if let ElementKind::UUID(el) = deserialized {
        assert_eq!(el.key, false);
        if let Some(cds_cqn::get_entities::parse_csn::Default::Val(default_val)) = el.default {
            assert_eq!(default_val, "defaultUUID");
        } else {
            panic!("Should have serialized default UUID")
        }
    } else {
        panic!("Should have serialized to UUID")
    };
}

#[test]
fn deserialize_string_without_key() {
    let input_str =
        r#"{"type": "cds.String", "length": 255, "default": { "val": "myDefaultString" }}"#;
    let deserialized = ElementKind::from_json(input_str).unwrap();
    if let ElementKind::String(el) = deserialized {
        assert_eq!(el.key, false);
        assert_eq!(el.length, Some(255));
        if let Some(cds_cqn::get_entities::parse_csn::Default::Val(default_val)) = el.default {
            assert_eq!(default_val, "myDefaultString");
        } else {
            panic!("Should have serialized default String")
        }
    } else {
        panic!("Should have serialized to String")
    };
}

#[test]
fn parse_csn_test_get_csn() {
    let mut definitions: Vec<Definition> = vec![];
    let csn_json = get_test_csn_json();
    let map = csn_json["definitions"].as_object().unwrap();
    for (key, val) in map {
        println!("{}", key);
        if val["kind"] == "service" {
            println!("found service");
            definitions.push(Definition::Service(Service { name: key.clone() }));
        } else if val["kind"] == "entity" {
            let mut elements: Vec<Element> = vec![];
            for (el_key, el_val) in val["elements"].as_object().unwrap() {
                println!("found el_val {}", el_val);
                let el_val_str = &el_val.to_string();
                let element_kind = ElementKind::from_json(el_val_str).unwrap();
                elements.push(Element { name: el_key.clone(), kind: element_kind });
            }
            definitions.push(Definition::Entity(Entity { name: key.clone(), elements: elements }))
        }
    }
    println!("Found definitions");
    println!("{:?}", definitions);
    assert_eq!(1, 1);
}

#[test]
fn notation_elements_of_test_csn() {
    let csn_json = get_test_csn_json();
    let elements = csn_json["definitions"]["TestService.TestEntity"]["elements"]
        .as_object()
        .unwrap();
    let mut kinds = vec![];
    for (name, val) in elements {
        kinds.push((name.clone(), ElementKind::from_json(&val.to_string()).unwrap()));
    }
    assert_eq!(kinds.len(), 3);
    assert_eq!(kinds[0].0, "ID");
    assert!(matches!(&kinds[0].1, ElementKind::UUID(p) if p.key && p.default.is_none()));
    assert_eq!(kinds[1].0, "age");
    assert!(matches!(&kinds[1].1, ElementKind::Integer(p) if !p.key && p.default.is_none()));
    assert_eq!(kinds[2].0, "name");
    match &kinds[2].1 {
        ElementKind::String(s) => {
            assert_eq!(s.name, "_");
            assert!(!s.key);
            assert_eq!(s.length, None);
            assert!(matches!(&s.default,
                Some(cds_cqn::get_entities::parse_csn::Default::Val(v)) if v == "myDefaultName"));
        }
        _ => panic!("expected a string kind"),
    }
}

#[test]
fn notation_string_with_name_and_defaults() {
    let k = ElementKind::from_json(r#"{"type": "cds.String", "name": "title", "key": true}"#)
        .unwrap();
    match k {
        ElementKind::String(s) => {
            assert_eq!(s.name, "title");
            assert!(s.key);
            assert_eq!(s.length, None);
            assert!(s.default.is_none());
        }
        _ => panic!("expected a string kind"),
    }
}

#[test]
fn notation_boolean_and_integer_defaults() {
    match ElementKind::from_json(r#"{"type": "cds.Boolean", "default": {"val": true}}"#).unwrap() {
        ElementKind::Boolean(p) => assert!(matches!(
            p.default,
            Some(cds_cqn::get_entities::parse_csn::Default::Val(true))
        )),
        _ => panic!("expected a boolean kind"),
    }
    match ElementKind::from_json(r#"{"type": "cds.Integer", "default": {"val": -7}}"#).unwrap() {
        ElementKind::Integer(p) => assert!(matches!(
            p.default,
            Some(cds_cqn::get_entities::parse_csn::Default::Val(-7))
        )),
        _ => panic!("expected an integer kind"),
    }
}

#[test]
fn notation_sequence_form() {
    match ElementKind::from_json(r#"["cds.UUID", true, null]"#).unwrap() {
        ElementKind::UUID(p) => {
            assert!(p.key);
            assert!(p.default.is_none());
        }
        _ => panic!("expected a UUID kind"),
    }
    match ElementKind::from_json(r#"["cds.String", "n", false, 12, {"val": "x"}]"#).unwrap() {
        ElementKind::String(s) => {
            assert_eq!(s.name, "n");
            assert!(!s.key);
            assert_eq!(s.length, Some(12));
        }
        _ => panic!("expected a string kind"),
    }
    assert_eq!(
        ElementKind::from_json(r#"["cds.UUID"]"#).err().unwrap(),
        "invalid length 1, expected struct PrimitiveElementKind with 2 elements"
    );
    assert_eq!(
        ElementKind::from_json(r#"["cds.String", "n"]"#).err().unwrap(),
        "invalid length 2, expected struct StringElementKind with 4 elements"
    );
    assert_eq!(
        ElementKind::from_json(r#"["cds.String", "n", true, 1]"#).err().unwrap(),
        "invalid length 3, expected struct StringElementKind with 4 elements"
    );
    assert_eq!(
        ElementKind::from_json(r#"["cds.Boolean", false, null, 3]"#).err().unwrap(),
        "invalid length 3, expected 2 elements in sequence"
    );
}

#[test]
fn notation_errors() {
    assert_eq!(
        ElementKind::from_json(r#"{"type": "cds.String", "length": 70000}"#).err().unwrap(),
        "invalid value: integer `70000`, expected u16"
    );
    assert_eq!(
        ElementKind::from_json(r#"{"type": "cds.UUID", "key": null}"#).err().unwrap(),
        "invalid type: null, expected a boolean"
    );
    assert_eq!(
        ElementKind::from_json(r#"{"type": "cds.String", "name": 5}"#).err().unwrap(),
        "invalid type: integer `5`, expected a string"
    );
    assert_eq!(
        ElementKind::from_json(r#"{"type": "cds.UUID", "key": 1, "default": {"val": 2}}"#)
            .err()
            .unwrap(),
        "invalid type: integer `2`, expected a string"
    );
    assert_eq!(
        ElementKind::from_json(r#"{"key": true}"#).err().unwrap(),
        "missing field `type` at line 1 column 13"
    );
    assert_eq!(
        ElementKind::from_json(r#"{"type": "cds.Date"}"#).err().unwrap(),
        "unknown variant `cds.Date`, expected one of `cds.UUID`, `cds.Boolean`, `cds.Integer`, `cds.String`"
    );
}
