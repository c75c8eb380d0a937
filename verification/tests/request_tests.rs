use hitman::request::{
    find_args, finish_request, graphql_body, header_log_lines, header_value_valid, prepare_head,
    request_log_lines, simple_body, status_log_line, stream_chunk_output, FindArgsError,
    GraphQLOperation, GraphQLVariable, HeaderNotText, HitmanBody, HitmanRequest, RequestError,
};

fn plain(body: &str) -> HitmanBody {
    HitmanBody::Plain {
        body: body.to_string(),
    }
}

#[test]
fn graphql_operation_keywords() {
    assert_eq!(GraphQLOperation::Query.text(), "query");
    assert_eq!(GraphQLOperation::Mutation.text(), "mutation");
    assert_eq!(GraphQLOperation::Subscription.text(), "subscription");
}

#[test]
fn finds_declared_variables() {
    let args = find_args("query Q($id: ID!, $tags: [String], $all: [Int]!) { a }").unwrap();
    assert_eq!(
        args,
        vec![
            GraphQLVariable {
                name: "id".into(),
                list: false
            },
            GraphQLVariable {
                name: "tags".into(),
                list: true
            },
            GraphQLVariable {
                name: "all".into(),
                list: false
            },
        ]
    );
    assert_eq!(find_args("mutation { a }").unwrap(), vec![]);
}

#[test]
fn bare_selection_sets_are_not_supported() {
    assert_eq!(find_args("{ a }"), Err(FindArgsError::NotSupported));
    assert_eq!(FindArgsError::NotSupported.message(), "Not supported");
}

#[test]
fn broken_documents_fail_to_parse() {
    assert!(matches!(find_args("query {"), Err(FindArgsError::Parse(_))));
}

#[test]
fn plain_body_is_sent_as_is() {
    assert_eq!(plain("abc").to_body(), "abc");
}

#[test]
fn graphql_body_is_sent_as_json() {
    let body = HitmanBody::GraphQL {
        body: "{ a }".into(),
        variables: None,
    };
    assert_eq!(body.to_body(), r#"{"query":"{ a }"}"#);
    let vars: serde_json::Value = serde_json::from_str(r#"{"id": 1}"#).unwrap();
    let body = HitmanBody::GraphQL {
        body: "q".into(),
        variables: Some(vars),
    };
    assert_eq!(body.to_body(), r#"{"query":"q","variables":{"id":1}}"#);
}

#[test]
fn graphql_body_text_shows_variables() {
    let vars: serde_json::Value = serde_json::from_str(r#"{"id": 1}"#).unwrap();
    let body = HitmanBody::GraphQL {
        body: "q".into(),
        variables: Some(vars),
    };
    assert_eq!(body.text(), "q\n{\n  \"id\": 1\n}");
}

#[test]
fn graphql_body_collects_variables() {
    let args = vec![
        GraphQLVariable {
            name: "b".into(),
            list: false,
        },
        GraphQLVariable {
            name: "a".into(),
            list: true,
        },
    ];
    let values = vec![serde_json::Value::from("x"), serde_json::Value::from(3)];
    let body = graphql_body("q".into(), &args, values);
    assert_eq!(body.to_body(), r#"{"query":"q","variables":{"a":3,"b":"x"}}"#);
    let none = graphql_body("q".into(), &vec![], vec![]);
    assert_eq!(none.to_body(), r#"{"query":"q"}"#);
}

#[test]
fn prepares_a_request() {
    let text = "POST http://example.com/login HTTP/1.1\r\nContent-Type: application/json\r\nX-Id: 1\r\n\r\n{\"a\": 1}\n";
    let head = prepare_head(text).unwrap();
    assert_eq!(head.method, "POST");
    assert_eq!(head.url, "http://example.com/login");
    let body = simple_body(&head);
    let req = finish_request(head, body).unwrap();
    let mut headers = req.headers.clone();
    headers.sort();
    assert_eq!(
        headers,
        vec![
            ("content-type".to_string(), "application/json".to_string()),
            ("x-id".to_string(), "1".to_string()),
        ]
    );
    assert_eq!(req.body.unwrap().to_body(), "{\"a\": 1}\n");
}

#[test]
fn url_is_normalised() {
    let head = prepare_head("GET http://example.com HTTP/1.1\r\n\r\n").unwrap();
    assert_eq!(head.url, "http://example.com/");
}

#[test]
fn a_repeated_header_keeps_its_last_value() {
    let text = "GET http://e.com/ HTTP/1.1\r\nA: 1\r\nB: 2\r\na: 3\r\n\r\n";
    let head = prepare_head(text).unwrap();
    let req = finish_request(head, None).unwrap();
    let mut headers = req.headers.clone();
    headers.sort();
    assert_eq!(
        headers,
        vec![
            ("a".to_string(), "3".to_string()),
            ("b".to_string(), "2".to_string()),
        ]
    );
}

#[test]
fn a_partial_head_has_no_body() {
    let head = prepare_head("GET http://e.com/ HTTP/1.1\r\nA: 1\r\n").unwrap();
    assert!(simple_body(&head).is_none());
}

#[test]
fn head_errors() {
    assert!(matches!(
        prepare_head("GET http://e.com/ HTTP/9.9\r\n\r\n"),
        Err(RequestError::Malformed(_))
    ));
    assert_eq!(prepare_head("").err(), Some(RequestError::MethodNotFound));
    assert!(matches!(
        prepare_head("GET relative HTTP/1.1\r\n\r\n"),
        Err(RequestError::InvalidUrl(_))
    ));
    assert_eq!(
        RequestError::MethodNotFound.message(),
        "Invalid input: HTTP method not found"
    );
}

#[test]
fn header_values_are_checked() {
    assert!(header_value_valid("plain value\twith tab"));
    assert!(header_value_valid("ünïcode"));
    assert!(!header_value_valid("bell\u{7}"));
    assert!(!header_value_valid("del\u{7f}"));
}

fn sample_request() -> HitmanRequest {
    HitmanRequest {
        method: "POST".into(),
        url: "http://e.com/".into(),
        headers: vec![
            ("a".into(), "1".into()),
            ("b".into(), "ünï".into()),
        ],
        body: Some(plain("line1\r\nline2")),
    }
}

#[test]
fn request_text_lists_head_and_body() {
    assert_eq!(
        sample_request().text(),
        "POST http://e.com/\na: 1\nb: unknown value\n\nline1\nline2\n"
    );
}

#[test]
fn request_log_lines_are_prefixed() {
    let lines = request_log_lines(&sample_request());
    assert_eq!(
        lines,
        vec![
            "> POST http://e.com/",
            "> a: 1",
            "> b: unknown value",
            "> ",
            "> line1",
            "> line2"
        ]
    );
}

#[test]
fn response_log_lines() {
    assert_eq!(status_log_line(200, Some("OK")), "< HTTP/1.1 200 OK");
    assert_eq!(status_log_line(599, None), "< HTTP/1.1 599 ");
    assert_eq!(
        header_log_lines(&vec![("x".into(), Some("1".into()))]),
        Ok(vec!["< x: 1".to_string()])
    );
    assert_eq!(
        header_log_lines(&vec![("x".into(), None)]),
        Err(HeaderNotText::NotVisibleAscii)
    );
}

#[test]
fn stream_chunks_print_their_data() {
    assert_eq!(
        stream_chunk_output("event: next\ndata: {\"a\":1}\n\n"),
        Some("{\n  \"a\": 1\n}".to_string())
    );
    assert_eq!(
        stream_chunk_output("data:  hello \n\n"),
        Some("hello".to_string())
    );
    assert_eq!(stream_chunk_output(": ping\n"), None);
}
