use question_service::http::QueryParams;
use question_service::http::Rejection;
use question_service::http::allowed_header;
use question_service::http::allowed_methods;
use question_service::http::get_questions;
use question_service::http::is_method_allowed;
use question_service::http::return_error;
use question_service::json::LoadError;
use question_service::json::parse_payload;
use question_service::json::render_payload_string;
use question_service::json::render_questions_array;
use question_service::question::IdentifierError;
use question_service::question::Question;
use question_service::question::QuestionId;
use question_service::store::Store;

#[test]
fn identifier_rejects_empty() {
    assert_eq!(QuestionId::from_str(""), Err(IdentifierError::InvalidInput));
}

#[test]
fn identifier_round_trips() {
    let q = QuestionId::from_str("1").unwrap();
    assert_eq!(q.as_str(), "1");
    let q = QuestionId::from_str("some longer id").unwrap();
    assert_eq!(q.as_str(), "some longer id");
}

#[test]
fn identifiers_equal_iff_text_equal() {
    let a = QuestionId::from_str("7").unwrap();
    let b = QuestionId::from_str("7").unwrap();
    let c = QuestionId::from_str("8").unwrap();
    assert!(a == b);
    assert!(a != c);
}

#[test]
fn question_new_keeps_fields() {
    let id = QuestionId::from_str("9").unwrap();
    let q = Question::new(
        id,
        "a title".to_string(),
        "a body".to_string(),
        Some(vec!["t1".to_string(), "t2".to_string()]),
    );
    assert_eq!(q.id.as_str(), "9");
    assert_eq!(q.title, "a title");
    assert_eq!(q.content, "a body");
    assert_eq!(q.tags, Some(vec!["t1".to_string(), "t2".to_string()]));
}

#[test]
fn store_loads_embedded_payload() {
    let store = Store::new();
    let records = store.snapshot_all();
    assert_eq!(records.len(), 1);
    assert_eq!(records[0].id.as_str(), "1");
    assert_eq!(records[0].title, "T");
    assert_eq!(records[0].content, "C");
    assert_eq!(records[0].tags, None);
}

#[test]
fn get_questions_serves_embedded_record() {
    let store = Store::new();
    let params = QueryParams { start: None };
    let resp = get_questions(&params, &store);
    assert_eq!(resp.status, 200);
    assert_eq!(
        resp.body,
        "[{\"id\":\"1\",\"title\":\"T\",\"content\":\"C\",\"tags\":null}]"
    );
}

#[test]
fn get_questions_is_idempotent() {
    let store = Store::new();
    let params = QueryParams { start: None };
    let first = get_questions(&params, &store);
    let second = get_questions(&params, &store);
    assert_eq!(first.status, second.status);
    assert_eq!(first.body, second.body);
}

#[test]
fn start_parameter_never_filters_or_errors() {
    let store = Store::new();
    let plain = get_questions(&QueryParams { start: None }, &store);
    let numeric = get_questions(
        &QueryParams {
            start: Some("5".to_string()),
        },
        &store,
    );
    let garbage = get_questions(
        &QueryParams {
            start: Some("abc".to_string()),
        },
        &store,
    );
    assert_eq!(plain.status, 200);
    assert_eq!(numeric.status, 200);
    assert_eq!(garbage.status, 200);
    assert_eq!(plain.body, numeric.body);
    assert_eq!(plain.body, garbage.body);
}

#[test]
fn cors_denial_becomes_403_with_message() {
    let resp = return_error(&Rejection::CorsForbidden {
        message: "CORS request forbidden: method not allowed".to_string(),
    });
    assert_eq!(resp.status, 403);
    assert_eq!(resp.body, "CORS request forbidden: method not allowed");
}

#[test]
fn other_rejections_become_404() {
    let resp = return_error(&Rejection::Other);
    assert_eq!(resp.status, 404);
    assert_eq!(resp.body, "Route not found");
}

#[test]
fn cors_policy_lists_its_configuration() {
    assert_eq!(allowed_methods(), vec!["PUT", "DELETE", "GET", "POST"]);
    assert_eq!(allowed_header(), "content-type");
    assert!(is_method_allowed("GET"));
    assert!(is_method_allowed("PUT"));
    assert!(is_method_allowed("DELETE"));
    assert!(is_method_allowed("POST"));
    assert!(!is_method_allowed("PATCH"));
    assert!(!is_method_allowed("HEAD"));
    assert!(!is_method_allowed(""));
}

#[test]
fn parse_payload_reads_two_entries_with_tags() {
    let payload = "{\"1\":{\"id\":\"1\",\"title\":\"A\",\"content\":\"B\",\"tags\":[\"x\",\"y\"]},\"2\":{\"id\":\"2\",\"title\":\"Cc\",\"content\":\"Dd\",\"tags\":null}}";
    let qs = parse_payload(payload).unwrap();
    assert_eq!(qs.len(), 2);
    assert_eq!(qs[0].id.as_str(), "1");
    assert_eq!(qs[0].title, "A");
    assert_eq!(qs[0].content, "B");
    assert_eq!(qs[0].tags, Some(vec!["x".to_string(), "y".to_string()]));
    assert_eq!(qs[1].id.as_str(), "2");
    assert_eq!(qs[1].tags, None);
}

#[test]
fn parse_payload_reads_empty_object_and_empty_tags() {
    let qs = parse_payload("{}").unwrap();
    assert_eq!(qs.len(), 0);
    let qs = parse_payload("{\"1\":{\"id\":\"1\",\"title\":\"T\",\"content\":\"C\",\"tags\":[]}}")
        .unwrap();
    assert_eq!(qs.len(), 1);
    assert_eq!(qs[0].tags, Some(Vec::<String>::new()));
}

#[test]
fn parse_payload_rejects_malformed_payloads() {
    // Not an object at all.
    assert!(matches!(parse_payload(""), Err(LoadError::Malformed)));
    assert!(matches!(parse_payload("[]"), Err(LoadError::Malformed)));
    // Unclosed object.
    assert!(matches!(
        parse_payload("{\"1\":{\"id\":\"1\",\"title\":\"T\",\"content\":\"C\",\"tags\":null}"),
        Err(LoadError::Malformed)
    ));
    // Trailing text after the object.
    assert!(matches!(
        parse_payload("{\"1\":{\"id\":\"1\",\"title\":\"T\",\"content\":\"C\",\"tags\":null}}x"),
        Err(LoadError::Malformed)
    ));
    // A key that is not its record's identifier.
    assert!(matches!(
        parse_payload("{\"2\":{\"id\":\"1\",\"title\":\"T\",\"content\":\"C\",\"tags\":null}}"),
        Err(LoadError::Malformed)
    ));
    // An empty identifier.
    assert!(matches!(
        parse_payload("{\"\":{\"id\":\"\",\"title\":\"T\",\"content\":\"C\",\"tags\":null}}"),
        Err(LoadError::Malformed)
    ));
    // Two entries sharing an identifier.
    assert!(matches!(
        parse_payload(
            "{\"1\":{\"id\":\"1\",\"title\":\"T\",\"content\":\"C\",\"tags\":null},\"1\":{\"id\":\"1\",\"title\":\"U\",\"content\":\"D\",\"tags\":null}}"
    ),
        Err(LoadError::Malformed)
    ));
    // The loader is strict: whitespace outside strings is not canonical.
    assert!(matches!(
        parse_payload("{\"1\": {\"id\":\"1\",\"title\":\"T\",\"content\":\"C\",\"tags\":null}}"),
        Err(LoadError::Malformed)
    ));
    // A missing field.
    assert!(matches!(
        parse_payload("{\"1\":{\"id\":\"1\",\"title\":\"T\",\"tags\":null}}"),
        Err(LoadError::Malformed)
    ));
}

#[test]
fn payload_round_trips_through_render_and_parse() {
    let payload = "{\"a\":{\"id\":\"a\",\"title\":\"A\",\"content\":\"B\",\"tags\":[\"x\",\"y\"]},\"b\":{\"id\":\"b\",\"title\":\"Cc\",\"content\":\"Dd\",\"tags\":null}}";
    let qs = parse_payload(payload).unwrap();
    let rendered = render_payload_string(&qs);
    assert_eq!(rendered, payload);
    let back = parse_payload(&rendered).unwrap();
    assert_eq!(back.len(), qs.len());
    for (orig, again) in qs.iter().zip(back.iter()) {
        assert_eq!(orig.id.as_str(), again.id.as_str());
        assert_eq!(orig.title, again.title);
        assert_eq!(orig.content, again.content);
        assert_eq!(orig.tags, again.tags);
    }
}

#[test]
fn add_question_inserts_a_new_record() {
    let store = Store::new();
    let q = Question::new(
        QuestionId::from_str("2").unwrap(),
        "T2".to_string(),
        "C2".to_string(),
        None,
    );
    let store = store.add_question(q);
    let records = store.snapshot_all();
    assert_eq!(records.len(), 2);
    assert!(records.iter().any(|r| r.id.as_str() == "2" && r.title == "T2"));
}

#[test]
fn add_question_replaces_an_existing_record() {
    let store = Store::new();
    let q = Question::new(
        QuestionId::from_str("1").unwrap(),
        "replacement".to_string(),
        "new content".to_string(),
        Some(vec!["tag".to_string()]),
    );
    let store = store.add_question(q);
    let records = store.snapshot_all();
    assert_eq!(records.len(), 1);
    assert_eq!(records[0].id.as_str(), "1");
    assert_eq!(records[0].title, "replacement");
    assert_eq!(records[0].content, "new content");
    assert_eq!(records[0].tags, Some(vec!["tag".to_string()]));
}

#[test]
fn rendered_array_lists_records_in_store_order() {
    let payload = "{\"1\":{\"id\":\"1\",\"title\":\"A\",\"content\":\"B\",\"tags\":[\"x\"]},\"2\":{\"id\":\"2\",\"title\":\"Cc\",\"content\":\"Dd\",\"tags\":null}}";
    let qs = parse_payload(payload).unwrap();
    assert_eq!(
        render_questions_array(&qs),
        "[{\"id\":\"1\",\"title\":\"A\",\"content\":\"B\",\"tags\":[\"x\"]},{\"id\":\"2\",\"title\":\"Cc\",\"content\":\"Dd\",\"tags\":null}]"
    );
}
