use cds_cqn::add_routes::deserialize_path::{deserialize_path, PathElement, PathSerializationError};
use cds_cqn::add_routes::{error_response, root_response, service_route};
use cds_cqn::entity::ElementType;
use cds_cqn::get_entities::get_entities;
use cds_cqn::get_entities::parse_csn::{make_1000, make__, make_false};
use cds_cqn::url_to_cqn::UriError;

#[test]
fn known_entities() {
    let entities = get_entities();
    assert_eq!(entities.len(), 3);
    let names: Vec<&str> = entities.iter().map(|e| e.name.as_str()).collect();
    assert_eq!(names, vec!["entity1", "entity2", "entity3"]);
    assert_eq!(entities[0].elements[0].name, "sub11");
    assert!(entities[0].elements[0].is_key);
    assert_eq!(entities[0].elements[0].el_type, ElementType::UUID);
    assert_eq!(entities[0].elements[1].el_type, ElementType::String);
    assert_eq!(entities[1].elements[1].el_type, ElementType::Integer);
    assert_eq!(entities[2].elements[1].el_type, ElementType::Integer64);
    assert!(!entities[2].elements[1].is_key);
}

#[test]
fn path_with_keys() {
    let entities = get_entities();
    match deserialize_path("/entity1(sub11=5)/entity2", &entities) {
        Ok(path) => match path.0 {
            PathElement::EntityWithKeys(e) => {
                assert_eq!(e.entity.name, "entity1");
                assert_eq!(e.keys.len(), 1);
                assert_eq!(e.keys[0].key.name, "sub11");
                assert_eq!(e.keys[0].val, "5");
            }
            _ => panic!("expected keys"),
        },
        Err(_) => panic!("expected a path"),
    }
}

#[test]
fn path_without_keys() {
    let entities = get_entities();
    match deserialize_path("/entity2", &entities) {
        Ok(path) => match path.0 {
            PathElement::EntityWithoutKeys(e) => assert_eq!(e.entity.name, "entity2"),
            _ => panic!("expected no keys"),
        },
        Err(_) => panic!("expected a path"),
    }
}

#[test]
fn path_to_unknown_entity() {
    let entities = get_entities();
    match deserialize_path("/entity9", &entities) {
        Err(PathSerializationError::EntityNotFound(name)) => assert_eq!(name, "entity9"),
        _ => panic!("expected EntityNotFound"),
    }
}

#[test]
fn path_with_a_key_that_is_no_key() {
    let entities = get_entities();
    match deserialize_path("/entity1(sub12=5)", &entities) {
        Err(PathSerializationError::KeyInvald(key)) => assert_eq!(key, "sub12"),
        _ => panic!("expected KeyInvald"),
    }
}

#[test]
fn routes_and_answers() {
    assert_eq!(service_route("TestService"), "TestService/*");
    assert_eq!(root_response(), (200, "Please use proper routes.".to_string()));
    assert_eq!(error_response(&UriError::InvalidURI), (400, "Bad request".to_string()));
    assert_eq!(error_response(&UriError::NotImplemented), (501, "Bad request".to_string()));
}

#[test]
fn element_defaults() {
    assert_eq!(make_false(), false);
    assert_eq!(make__(), "_");
    assert_eq!(make_1000(), 1000);
}
