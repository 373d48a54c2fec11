use cds_cqn::cqn::{CQN, SQL};
use cds_cqn::url_to_cqn::{parse, path_is_readable, Method, UriError};

fn select_sql(method: Method, path: &str, query: Option<&str>) -> String {
    match parse(method, path, query, None) {
        Ok(CQN::SELECT(select)) => select.to_sql(),
        _ => panic!("expected a SELECT"),
    }
}

#[test]
fn get_plain_entity() {
    assert_eq!(select_sql(Method::Get, "/srv/Books", None), "SELECT * FROM srv_Books");
}

#[test]
fn get_with_keys_select_and_filter() {
    assert_eq!(
        select_sql(
            Method::Get,
            "/srv/Books(ID=1,kind=x)",
            Some("$select=title,author&$filter=price%20gt%2010")
        ),
        "SELECT title,author FROM srv_Books WHERE ( ( ID = 1 ) and kind = x ) and price > 10"
    );
}

#[test]
fn get_filter_operators() {
    assert_eq!(
        select_sql(Method::Get, "/srv/Books", Some("$filter=name%20eq%20x")),
        "SELECT * FROM srv_Books WHERE name = x"
    );
    assert_eq!(
        select_sql(Method::Get, "/srv/Books", Some("$filter=a%20gte%201")),
        "SELECT * FROM srv_Books WHERE a >= 1"
    );
    assert_eq!(
        select_sql(Method::Get, "/srv/Books", Some("$filter=a%20lte%201")),
        "SELECT * FROM srv_Books WHERE a <= 1"
    );
    assert_eq!(
        select_sql(Method::Get, "/srv/Books", Some("$filter=a%20lt%201&other=3")),
        "SELECT * FROM srv_Books WHERE a < 1"
    );
}

#[test]
fn get_unknown_parameters_change_nothing() {
    assert_eq!(
        select_sql(Method::Get, "/srv/Books", Some("$top=3&x")),
        "SELECT * FROM srv_Books"
    );
}

#[test]
fn post_inserts_the_body() {
    match parse(Method::Post, "/srv/Books", None, Some(r#"{"a":1}"#.to_string())) {
        Ok(CQN::INSERT(insert)) => {
            assert_eq!(insert.entity, "Books");
            assert_eq!(insert.data, r#"{"a":1}"#);
            assert!(insert.filter.is_empty());
            assert_eq!(insert.to_sql(), "INSERT INTO Books (a) VALUES ('1')");
        }
        _ => panic!("expected an INSERT"),
    }
}

#[test]
fn other_methods_are_not_implemented() {
    assert!(matches!(parse(Method::Other, "/", None, None), Err(UriError::NotImplemented)));
}

#[test]
fn unclosed_key_list_is_an_invalid_uri() {
    assert!(matches!(parse(Method::Get, "/srv/Books(ID=1", None, None), Err(UriError::InvalidURI)));
    assert!(matches!(
        parse(Method::Post, "/srv/Books(ID=1", None, Some("{}".to_string())),
        Err(UriError::InvalidURI)
    ));
}

#[test]
fn readable_paths() {
    assert!(path_is_readable("/srv/Books"));
    assert!(path_is_readable("/srv/Books(ID=1,x=2)"));
    assert!(path_is_readable("/srv/Books(ID=1"));
    assert!(!path_is_readable("/srv"));
    assert!(!path_is_readable("/srv/Books)("));
    assert!(!path_is_readable("/srv/Books(ID)"));
    assert!(!path_is_readable("/srv/Books()"));
}
