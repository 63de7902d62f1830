use contract_conformance_guard::json::{Json, Record};
use contract_conformance_guard::records::{
    nav, path_steps, records_snapshot, replace_at, strip_records,
};
use contract_conformance_guard::field_set::FieldSet;

fn doc(text: &str) -> Json {
    Json::parse(text).expect("a document")
}

fn set(names: &[&str]) -> FieldSet {
    FieldSet::of(names.iter().map(|n| n.to_string()).collect())
}

#[test]
fn a_document_is_read_and_printed() {
    let j = doc(" { \"b\" : [ 1 , -2.5 , true , null ] , \"a\" : \"x\\ny\" } ");
    assert_eq!(j.to_text(), "{\"a\":\"x\\ny\",\"b\":[1,-2.5,true,null]}");
    assert_eq!(Json::parse_bytes(b"[1,{\"k\":\"v\"}]"), Some(doc("[1,{\"k\":\"v\"}]")));
}

#[test]
fn no_document_is_none() {
    assert_eq!(Json::parse(""), None);
    assert_eq!(Json::parse("{\"a\":1} x"), None);
    assert_eq!(Json::parse("{a:1}"), None);
    assert_eq!(Json::parse_bytes(b"\xff"), None);
    assert_eq!(Json::parse_bytes(b"nul"), None);
}

#[test]
fn printing_leaves_no_line_break() {
    let j = Json::object().with("a\nb", Json::text("c\r\n\u{2028}"));
    assert!(!j.to_text().contains('\n'));
    assert_eq!(Json::parse(&j.to_text()), Some(j));
}

#[test]
fn keys_are_ordered_by_code_point() {
    let j = doc("{\"b\":1,\"a\":2,\"\u{10000}\":3,\"\u{ffee}\":4,\"B\":5,\"aa\":6,\"\":7}");
    match &j {
        Json::Object(r) => {
            assert_eq!(r.keys(), vec!["", "B", "a", "aa", "b", "\u{ffee}", "\u{10000}"]);
            assert_eq!(r.len(), 7);
        }
        _ => panic!("no object"),
    }
    assert_eq!(doc("{\"a\":1,\"a\":2}"), doc("{\"a\":2}"));
}

#[test]
fn a_record_is_read_and_changed_by_key() {
    let mut r = Record::new();
    r.insert("m".to_string(), Json::integer(1));
    r.insert("a".to_string(), Json::Bool(true));
    r.insert("z".to_string(), Json::Null);
    r.insert("m".to_string(), Json::text("again"));
    assert_eq!(r.keys(), vec!["a", "m", "z"]);
    assert_eq!(r.get("m"), Some(&Json::text("again")));
    assert_eq!(r.get("mm"), None);
    assert_eq!(r.remove("a"), Some(Json::Bool(true)));
    assert_eq!(r.remove("a"), None);
    assert_eq!(r.keys(), vec!["m", "z"]);
}

#[test]
fn numbers_are_told_apart() {
    for (text, number, integer) in [
        ("0", true, true),
        ("-9223372036854775808", true, true),
        ("18446744073709551615", true, true),
        ("18446744073709551616", true, false),
        ("-9223372036854775809", true, false),
        ("1.0", true, false),
        ("1e2", true, false),
        ("\"1\"", false, false),
        ("null", false, false),
    ] {
        assert_eq!(doc(text).is_number(), number, "{text}");
        assert_eq!(doc(text).is_integer(), integer, "{text}");
    }
    assert_eq!(Json::integer(-32052).to_text(), "-32052");
    assert_eq!(Json::integer(i64::MAX).to_text(), "9223372036854775807");
}

#[test]
fn a_copy_holds_the_same() {
    let j = doc("{\"a\":[1,2.5,{\"b\":null}],\"c\":\"d\",\"e\":false}");
    assert_eq!(j.copy(), j);
    assert_eq!(j.copy().to_text(), j.to_text());
}

#[test]
fn members_are_found_in_objects_only() {
    let j = doc("{\"t\":\"x\",\"l\":[1],\"n\":null}");
    assert_eq!(j.get("n"), Some(&Json::Null));
    assert_eq!(j.get("q"), None);
    assert_eq!(j.get_text("t").map(|s| s.as_str()), Some("x"));
    assert_eq!(j.get_text("l"), None);
    assert_eq!(j.get_list("l").map(|l| l.len()), Some(1));
    assert_eq!(j.get_list("t"), None);
    assert_eq!(doc("[1]").get("0"), None);
    assert_eq!(doc("[1]").with("k", Json::Null), doc("[1]"));
    assert_eq!(doc("7").with("k", Json::Null), doc("7"));
    assert_eq!(Json::optional_text(&None), Json::Null);
    assert_eq!(Json::optional_text(&Some("x".to_string())), Json::text("x"));
}

#[test]
fn a_path_leads_through_objects_and_arrays() {
    let j = doc("{\"a\":{\"b\":[{\"c\":1},{\"c\":2}]},\"1\":\"one\"}");
    assert_eq!(nav(&j, ""), Some(&j));
    assert_eq!(nav(&j, "///"), Some(&j));
    assert_eq!(nav(&j, "a/b/1/c"), Some(&Json::integer(2)));
    assert_eq!(nav(&j, "/a//b/+1/c/"), Some(&Json::integer(2)));
    assert_eq!(nav(&j, "a/b/01/c"), Some(&Json::integer(2)));
    assert_eq!(nav(&j, "1"), Some(&Json::text("one")));
    assert_eq!(nav(&j, "a/b/2"), None);
    assert_eq!(nav(&j, "a/b/-1"), None);
    assert_eq!(nav(&j, "a/b/x"), None);
    assert_eq!(nav(&j, "a/q"), None);
    assert_eq!(nav(&j, "1/x"), None);
    assert_eq!(path_steps("/a//b c/"), vec!["a", "b c"]);
}

#[test]
fn a_value_written_at_a_path_is_found_there() {
    let text = r#"{"a":{"b":[{"c":1},{"c":2}]},"d":3}"#;
    for path in ["", "/", "a", "a/b/1/c", "/a//b/+0/", "d"] {
        let after = replace_at(doc(text), path, Json::text("new"));
        assert_eq!(nav(&after, path), Some(&Json::text("new")), "{path}");
    }
    assert_eq!(
        replace_at(doc(text), "a/b/1/c", Json::Null),
        doc(r#"{"a":{"b":[{"c":1},{"c":null}]},"d":3}"#)
    );
    for path in ["q", "a/q", "a/b/2", "a/b/x/c", "d/e", "a/b/1/c/d"] {
        assert_eq!(nav(&doc(text), path), None, "{path}");
        assert_eq!(replace_at(doc(text), path, Json::Null), doc(text), "{path}");
    }
}

#[test]
fn records_are_the_objects_at_the_path() {
    let j = doc("{\"orders\":[{\"x\":1},7,[],{\"y\":2}],\"one\":{\"z\":3},\"text\":\"t\"}");
    let at = |path: &str| -> Vec<String> {
        records_snapshot(&j, path).iter().map(|r| r.keys().join(",")).collect()
    };
    assert_eq!(at("orders"), vec!["x", "y"]);
    assert_eq!(at("one"), vec!["z"]);
    assert_eq!(at(""), vec!["one,orders,text"]);
    assert_eq!(at("orders/3"), vec!["y"]);
    assert!(at("text").is_empty());
    assert!(at("orders/1").is_empty());
    assert!(at("nowhere").is_empty());
}

#[test]
fn keys_that_read_as_one_index_are_different_keys() {
    let text = r#"{"1":{"x":1},"01":{"x":2},"l":[{"x":3},{"x":4}]}"#;
    assert_eq!(
        strip_records(doc(text), "1", &set(&["x"])),
        doc(r#"{"1":{},"01":{"x":2},"l":[{"x":3},{"x":4}]}"#)
    );
    assert_eq!(
        strip_records(doc(text), "l/01", &set(&["x"])),
        doc(r#"{"1":{"x":1},"01":{"x":2},"l":[{"x":3},{}]}"#)
    );
}

#[test]
fn stripping_reaches_every_record_and_nothing_else() {
    let text = "{\"orders\":[{\"x\":1,\"y\":1},7,{\"y\":2,\"z\":{\"y\":3}}],\"y\":4}";
    assert_eq!(
        strip_records(doc(text), "orders", &set(&["y"])),
        doc("{\"orders\":[{\"x\":1},7,{\"z\":{\"y\":3}}],\"y\":4}")
    );
    assert_eq!(
        strip_records(doc(text), "", &set(&["y", "q"])),
        doc("{\"orders\":[{\"x\":1,\"y\":1},7,{\"y\":2,\"z\":{\"y\":3}}]}")
    );
    assert_eq!(
        strip_records(doc(text), "orders/2/z", &set(&["y"])),
        doc("{\"orders\":[{\"x\":1,\"y\":1},7,{\"y\":2,\"z\":{}}],\"y\":4}")
    );
    assert_eq!(strip_records(doc(text), "nowhere", &set(&["y"])), doc(text));
    assert_eq!(strip_records(doc(text), "y", &set(&["y"])), doc(text));
    assert_eq!(
        strip_records(doc("[{\"a\":1,\"b\":2},{\"b\":3}]"), "", &set(&["b"])),
        doc("[{\"a\":1},{}]")
    );
}

#[test]
fn integers_and_texts_read_back_to_the_depth_limit() {
    let nested = |levels: usize| {
        let mut j = Json::integer(i64::MIN);
        for i in 0..levels {
            j = if i % 2 == 0 { Json::list(vec![j]) } else { Json::object().with("\u{1}\"k\\", j) };
        }
        j
    };
    let deep = nested(127);
    assert_eq!(Json::parse(&deep.to_text()), Some(deep));
    assert_eq!(Json::parse(&nested(128).to_text()), None);
    for text in ["18446744073709551615", "-9223372036854775808", "0", "\"\\u0000\\u001f\u{7f} \""] {
        assert_eq!(doc(text).to_text(), text);
        assert_eq!(Json::parse(&doc(text).to_text()), Some(doc(text)));
    }
}
