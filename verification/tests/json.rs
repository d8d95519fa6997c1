//! The JSON builder on concrete inputs.

use httputil::json::{json_str, JsonBuilder};

#[test]
fn test_json_str() {
    assert_eq!(json_str("foo").as_str(), "foo");
    assert_eq!(json_str("f\"oo").as_str(), "f\\\"oo");
    assert_eq!(json_str("f\\oo").as_str(), "f\\\\oo");
    assert_eq!(json_str("\\oo").as_str(), "\\\\oo");
    assert_eq!(json_str("foo\\").as_str(), "foo\\\\");
}

#[test]
fn empty_object() {
    let out = JsonBuilder::build(|b| b.object(|o| o));
    assert_eq!(out, "{\n\n}");
}

#[test]
fn empty_array() {
    let out = JsonBuilder::build(|b| b.array(|a| a));
    assert_eq!(out, "[\n\n]");
}

#[test]
fn object_two_members() {
    let out = JsonBuilder::build(|b| b.object(|o| {
        o.string("name", "ok").raw("count", "3")
    }));
    assert_eq!(out, "{\n   \"name\": \"ok\",\n   \"count\": 3\n}");
}

#[test]
fn object_one_string_member() {
    let out = JsonBuilder::build(|b| b.object(|o| o.string("k", "v")));
    assert_eq!(out, "{\n   \"k\": \"v\"\n}");
}

#[test]
fn array_in_object() {
    let out = JsonBuilder::build(|b| b.object(|o| {
        o.array("xs", |a| a.raw("1").raw("2"))
    }));
    assert_eq!(out, "{\n   \"xs\": [\n      1,\n      2\n   ]\n}");
}

#[test]
fn object_in_object() {
    let out = JsonBuilder::build(|b| b.object(|o| {
        o.object("inner", |o2| o2.string("k", "v"))
    }));
    assert_eq!(out, "{\n   \"inner\": {\n      \"k\": \"v\"\n   }\n}");
}

#[test]
fn object_in_array() {
    let out = JsonBuilder::build(|b| b.array(|a| {
        a.object(|o| o.raw("n", "1")).string("tail")
    }));
    assert_eq!(out, "[\n   {\n      \"n\": 1\n   },\n   \"tail\"\n]");
}

#[test]
fn array_in_array() {
    let out = JsonBuilder::build(|b| b.array(|a| a.array(|a2| a2.raw("true"))));
    assert_eq!(out, "[\n   [\n      true\n   ]\n]");
}

#[test]
fn top_level_string_and_raw() {
    assert_eq!(JsonBuilder::build(|b| b.string("x")), "\"x\"");
    assert_eq!(JsonBuilder::build(|b| b.raw("null")), "null");
    assert_eq!(JsonBuilder::build(|b| b.string("a\"b")), "\"a\\\"b\"");
}

#[test]
fn value_scope_paths() {
    let out = JsonBuilder::build(|b| b.value(|v| v.string("x")));
    assert_eq!(out, "\"x\"");
    let out = JsonBuilder::build(|b| {
        b.object(|o| o.value("k", |v| v.raw("7")))
    });
    assert_eq!(out, "{\n   \"k\": 7\n}");
    let out = JsonBuilder::build(|b| {
        b.array(|a| a.value(|v| v.object(|o| o.string("k", "v"))))
    });
    assert_eq!(out, "[\n   {\n      \"k\": \"v\"\n   }\n]");
}

#[test]
fn separators_count_matches_members() {
    let none = JsonBuilder::build(|b| b.object(|o| o));
    let one = JsonBuilder::build(|b| b.object(|o| o.raw("a", "1")));
    let three = JsonBuilder::build(|b| b.object(|o| {
        o.raw("a", "1").raw("b", "2").raw("c", "3")
    }));
    assert_eq!(none.matches(",\n").count(), 0);
    assert_eq!(one.matches(",\n").count(), 0);
    assert_eq!(three.matches(",\n").count(), 2);
}

#[test]
fn keys_keep_write_order() {
    let out = JsonBuilder::build(|b| b.object(|o| {
        o.raw("a", "1").raw("b", "2").raw("c", "3")
    }));
    assert_eq!(out, "{\n   \"a\": 1,\n   \"b\": 2,\n   \"c\": 3\n}");
    let a = out.find("\"a\"").unwrap();
    let b = out.find("\"b\"").unwrap();
    let c = out.find("\"c\"").unwrap();
    assert!(a < b && b < c);
}

#[test]
fn keys_are_escaped() {
    let out = JsonBuilder::build(|b| b.object(|o| o.raw("a\\b", "1")));
    assert_eq!(out, "{\n   \"a\\\\b\": 1\n}");
}

#[test]
fn deep_nesting_indent() {
    let out = JsonBuilder::build(|b| b.object(|o| {
        o.object("l1", |o| o.object("l2", |o| o.raw("l3", "0")))
    }));
    assert_eq!(
        out,
        "{\n   \"l1\": {\n      \"l2\": {\n         \"l3\": 0\n      }\n   }\n}",
    );
}
