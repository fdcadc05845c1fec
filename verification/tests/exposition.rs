use metrics_rs_dashboard_actix::exposition::{
    asset_reply, handle_embedded_file, join_members, scrape_reply, AssetReply, UnitTable,
    NOT_FOUND_BODY, UNIT_HEADER,
};

#[test]
fn unit_header_of_an_empty_table() {
    let table = UnitTable::new();
    assert_eq!(table.len(), 0);
    assert_eq!(table.header(), "{}");
}

#[test]
fn unit_header_lists_the_units_by_name() {
    let mut table = UnitTable::new();
    table.register_unit("request_latency".to_string(), "count".to_string());
    assert_eq!(table.header(), r#"{"request_latency":"count"}"#);
    table.register_unit("async_gauge".to_string(), "milliseconds".to_string());
    table.register_unit("async_counter".to_string(), "count".to_string());
    assert_eq!(
        table.header(),
        r#"{"request_latency":"count","async_gauge":"milliseconds","async_counter":"count"}"#
    );
    let parsed: serde_json::Value = serde_json::from_str(&table.header()).unwrap();
    assert_eq!(parsed["async_gauge"], "milliseconds");
    assert_eq!(parsed.as_object().unwrap().len(), 3);
}

#[test]
fn unit_header_escapes_what_json_does_not_take() {
    let mut table = UnitTable::new();
    table.register_unit("a\"b\\c".to_string(), "line\nbreak\ttab".to_string());
    assert_eq!(table.header(), r#"{"a\"b\\c":"line\nbreak\ttab"}"#);
    let parsed: serde_json::Value = serde_json::from_str(&table.header()).unwrap();
    assert_eq!(parsed["a\"b\\c"], "line\nbreak\ttab");
}

#[test]
fn registering_again_replaces_the_unit() {
    let mut table = UnitTable::new();
    table.register_unit("a".to_string(), "count".to_string());
    table.register_unit("b".to_string(), "bytes".to_string());
    table.register_unit("a".to_string(), "seconds".to_string());
    assert_eq!(table.len(), 2);
    assert_eq!(table.unit("a"), Some("seconds".to_string()));
    assert_eq!(table.unit("b"), Some("bytes".to_string()));
    assert_eq!(table.unit("c"), None);
    assert_eq!(table.header(), r#"{"a":"seconds","b":"bytes"}"#);
}

#[test]
fn scrape_without_a_recorder_is_empty() {
    let mut table = UnitTable::new();
    table.register_unit("a".to_string(), "count".to_string());
    let reply = scrape_reply(Some(&table), None);
    assert_eq!(reply.unit_header, None);
    assert_eq!(reply.body, "");
    let reply = scrape_reply(None, None);
    assert_eq!(reply.unit_header, None);
    assert_eq!(reply.body, "");
}

#[test]
fn scrape_carries_the_units() {
    let mut table = UnitTable::new();
    table.register_unit("a".to_string(), "count".to_string());
    let reply = scrape_reply(Some(&table), Some("# TYPE a counter\na 1\n".to_string()));
    assert_eq!(reply.unit_header, Some(r#"{"a":"count"}"#.to_string()));
    assert_eq!(reply.body, "# TYPE a counter\na 1\n");
}

#[test]
fn scrape_before_any_unit_has_no_header() {
    let reply = scrape_reply(None, Some("a 1\n".to_string()));
    assert_eq!(reply.unit_header, None);
    assert_eq!(reply.body, "a 1\n");
    let reply = scrape_reply(Some(&UnitTable::new()), Some(String::new()));
    assert_eq!(reply.unit_header, Some("{}".to_string()));
    assert_eq!(reply.body, "");
}

#[test]
fn header_name() {
    assert_eq!(UNIT_HEADER, "x-dashboard-metrics-unit");
}

#[test]
fn missing_file_is_not_found() {
    assert!(matches!(handle_embedded_file("index.html", None), AssetReply::NotFound));
    assert!(matches!(asset_reply("text/html".to_string(), None), AssetReply::NotFound));
    assert_eq!(NOT_FOUND_BODY, "404 Not Found");
}

#[test]
fn file_is_sent_under_the_type_of_its_extension() {
    for (path, expected) in [
        ("index.html", "text/html"),
        ("assets/app.js", "text/javascript"),
        ("assets/style.css", "text/css"),
        ("logo.PNG", "image/png"),
        ("data.json", "application/json"),
        ("no_extension", "application/octet-stream"),
        ("file.unknown-extension", "application/octet-stream"),
        ("", "application/octet-stream"),
    ] {
        match handle_embedded_file(path, Some(vec![1, 2, 3])) {
            AssetReply::Found { content_type, data } => {
                assert_eq!(content_type, expected, "for {}", path);
                assert_eq!(content_type, mime_guess::from_path(path).first_or_octet_stream().as_ref());
                assert_eq!(data, vec![1, 2, 3]);
            }
            AssetReply::NotFound => panic!("the file {} was there", path),
        }
    }
}

#[test]
fn asset_reply_keeps_type_and_data() {
    match asset_reply("image/svg+xml".to_string(), Some(b"<svg/>".to_vec())) {
        AssetReply::Found { content_type, data } => {
            assert_eq!(content_type, "image/svg+xml");
            assert_eq!(data, b"<svg/>".to_vec());
        }
        AssetReply::NotFound => panic!("the file was there"),
    }
    match handle_embedded_file("empty.txt", Some(Vec::new())) {
        AssetReply::Found { content_type, data } => {
            assert_eq!(content_type, "text/plain");
            assert!(data.is_empty());
        }
        AssetReply::NotFound => panic!("the file was there"),
    }
}

#[test]
fn members_are_joined_into_an_object() {
    assert_eq!(join_members(&vec![]), "{}");
    assert_eq!(join_members(&vec![("\"a\"".to_string(), "1".to_string())]), r#"{"a":1}"#);
    assert_eq!(
        join_members(&vec![
            ("\"a\"".to_string(), "\"x\"".to_string()),
            ("\"b\"".to_string(), "[1,2]".to_string()),
            ("\"c\"".to_string(), "null".to_string()),
        ]),
        r#"{"a":"x","b":[1,2],"c":null}"#
    );
    // The members are taken as they are: nothing is quoted or escaped here.
    assert_eq!(join_members(&vec![("k".to_string(), String::new())]), "{k:}");
}
