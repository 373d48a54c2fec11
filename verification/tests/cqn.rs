use cds_cqn::cqn::{Crunch, CQN, INSERT, SELECT, SQL};
use cds_cqn::csn::Definitions;

#[test]
fn select_with_col_to_sql() {
    let mut select = SELECT::from("example_entity");
    select.columns(vec!["col1", "col2"]);
    assert_eq!(select.to_sql(), "SELECT col1,col2 FROM example_entity")
}

#[test]
fn select_without_col_to_sql() {
    let select = SELECT::from("example_entity");
    assert_eq!(select.to_sql(), "SELECT * FROM example_entity")
}

#[test]
fn select_with_filter_to_sql() {
    let mut select = SELECT::from("example_entity");
    select.filter(vec![
        "(", "a", ">", "2", "and", "b", "<", "9", ")", "or", "c", "<", "4",
    ]);
    select.filter(vec!["d", "=", "9"]);
    assert_eq!(
        select.to_sql(),
        "SELECT * FROM example_entity WHERE ( ( a > 2 and b < 9 ) or c < 4 ) and d = 9"
    )
}

#[test]
fn select_from_dotted_entity_uses_underscores() {
    let select = SELECT::from("srv.Books");
    assert_eq!(select.entity.reference, vec!["srv.Books".to_string()]);
    assert!(select.entity.alias.is_none());
    assert!(select.columns.is_empty());
    assert!(select.filter.is_empty());
    assert_eq!(select.to_sql(), "SELECT * FROM srv_Books");
}

#[test]
fn select_columns_are_appended_in_order() {
    let mut select = SELECT::from("t");
    select.columns(vec!["a"]);
    select.columns(vec!["b", "c"]);
    let names: Vec<String> = select.columns.iter().map(|c| c.reference.join(".")).collect();
    assert_eq!(names, vec!["a", "b", "c"]);
    assert_eq!(select.to_sql(), "SELECT a,b,c FROM t");
}

#[test]
fn select_first_filter_is_taken_as_given() {
    let mut select = SELECT::from("t");
    select.filter(vec!["a", "=", "1"]);
    assert_eq!(select.filter, vec!["a", "=", "1"]);
    assert_eq!(select.to_sql(), "SELECT * FROM t WHERE a = 1");
}

#[test]
fn select_filter_ending_in_and_is_not_wrapped() {
    let mut select = SELECT::from("t");
    select.filter(vec!["a", "=", "1", "and"]);
    select.filter(vec!["b", "=", "2"]);
    assert_eq!(select.to_sql(), "SELECT * FROM t WHERE a = 1 and b = 2");
}

#[test]
fn select_with_columns_and_filter() {
    let mut select = SELECT::from("srv.Books");
    select.columns(vec!["title"]);
    select.filter(vec!["x", ">", "1"]);
    select.filter(vec!["y", "<", "2"]);
    assert_eq!(
        select.to_sql(),
        "SELECT title FROM srv_Books WHERE ( x > 1 ) and y < 2"
    );
}

#[test]
fn insert_to_sql_lists_columns_and_unquoted_values() {
    let insert = INSERT {
        entity: "srv.Books".to_string(),
        data: r#"{"title": "Dune", "pages": 412}"#.to_string(),
        filter: vec![],
    };
    assert_eq!(
        insert.to_sql(),
        "INSERT INTO srv_Books (pages,title) VALUES ('412','Dune')"
    );
    assert_eq!(
        insert.try_to_sql(),
        Some("INSERT INTO srv_Books (pages,title) VALUES ('412','Dune')".to_string())
    );
}

#[test]
fn insert_to_sql_removes_quotes_inside_values() {
    let insert = INSERT {
        entity: "t".to_string(),
        data: r#"{"a": ["x", 1], "b": true}"#.to_string(),
        filter: vec![],
    };
    assert_eq!(insert.to_sql(), "INSERT INTO t (a,b) VALUES ('[x,1]','true')");
}

#[test]
fn insert_of_empty_object() {
    let insert = INSERT { entity: "t".to_string(), data: "{}".to_string(), filter: vec![] };
    assert_eq!(insert.to_sql(), "INSERT INTO t ) VALUES )");
}

#[test]
fn insert_of_non_object_cannot_be_printed() {
    let insert = INSERT { entity: "t".to_string(), data: "[1, 2]".to_string(), filter: vec![] };
    assert_eq!(insert.try_to_sql(), None);
    let broken = INSERT { entity: "t".to_string(), data: "{".to_string(), filter: vec![] };
    assert_eq!(broken.try_to_sql(), None);
}

fn books_csn() -> &'static str {
    r#"{"definitions": {
        "srv": {"kind": "service"},
        "srv.Books": {
          "kind": "entity",
          "query": {"SELECT": {"from": {"ref": ["db.Books"]}}},
          "elements": {
            "ID": {"key": true, "type": "cds.UUID"},
            "title": {"type": "cds.String"}
          }
        },
        "srv.Authors": {
          "kind": "entity",
          "elements": {"name": {"type": "cds.String"}}
        }
      }}"#
}

#[test]
fn crunch_fills_in_all_columns() {
    let definitions = Definitions::from_str(books_csn()).ok().unwrap();
    let mut cqn = CQN::SELECT(SELECT::from("srv.Books"));
    cqn.crunch(&definitions);
    match &cqn {
        CQN::SELECT(select) => assert_eq!(select.to_sql(), "SELECT ID,title FROM srv_Books"),
        _ => panic!("expected a SELECT"),
    }
    cqn.crunch(&definitions);
    match &cqn {
        CQN::SELECT(select) => assert_eq!(select.to_sql(), "SELECT ID,title FROM srv_Books"),
        _ => panic!("expected a SELECT"),
    }
}

#[test]
fn crunch_keeps_given_columns_and_unknown_entities() {
    let definitions = Definitions::from_str(books_csn()).ok().unwrap();
    let mut select = SELECT::from("srv.Books");
    select.columns(vec!["title"]);
    let mut cqn = CQN::SELECT(select);
    cqn.crunch(&definitions);
    match &cqn {
        CQN::SELECT(select) => assert_eq!(select.to_sql(), "SELECT title FROM srv_Books"),
        _ => panic!("expected a SELECT"),
    }
    let mut unknown = CQN::SELECT(SELECT::from("srv.Nothing"));
    unknown.crunch(&definitions);
    match &unknown {
        CQN::SELECT(select) => assert_eq!(select.to_sql(), "SELECT * FROM srv_Nothing"),
        _ => panic!("expected a SELECT"),
    }
}

#[test]
fn crunch_sends_inserts_to_the_projection_source() {
    let definitions = Definitions::from_str(books_csn()).ok().unwrap();
    let mut cqn = CQN::INSERT(INSERT {
        entity: "srv.Books".to_string(),
        data: "{}".to_string(),
        filter: vec![],
    });
    cqn.crunch(&definitions);
    match &cqn {
        CQN::INSERT(insert) => assert_eq!(insert.entity, "db.Books"),
        _ => panic!("expected an INSERT"),
    }
    let mut plain = CQN::INSERT(INSERT {
        entity: "srv.Authors".to_string(),
        data: "{}".to_string(),
        filter: vec![],
    });
    plain.crunch(&definitions);
    match &plain {
        CQN::INSERT(insert) => assert_eq!(insert.entity, "srv.Authors"),
        _ => panic!("expected an INSERT"),
    }
}

#[test]
fn insert_sql_of_given_members() {
    let insert = INSERT { entity: "db.Books".to_string(), data: String::new(), filter: vec![] };
    let members = vec![
        ("ID".to_string(), "1".to_string()),
        ("title".to_string(), "\"Emma\"".to_string()),
    ];
    assert_eq!(insert.sql_of_members(&members), "INSERT INTO db_Books (ID,title) VALUES ('1','Emma')");
    assert_eq!(insert.sql_of_members(&vec![]), "INSERT INTO db_Books ) VALUES )");
}

#[test]
fn crunch_of_empty_reference_without_entities() {
    let definitions = Definitions::from_str(r#"{"definitions": {"srv": {"kind": "service"}}}"#).ok().unwrap();
    let mut select = SELECT::from("x");
    select.entity.reference.clear();
    let mut cqn = CQN::SELECT(select);
    cqn.crunch(&definitions);
    match &cqn {
        CQN::SELECT(select) => {
            assert!(select.entity.reference.is_empty());
            assert!(select.columns.is_empty());
        }
        _ => panic!("expected a SELECT"),
    }
}
