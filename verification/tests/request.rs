//! Request path walking, query decoding and path decoding on concrete
//! inputs.

use httputil::request::{decode_path, PathIter, QueryValue, RequestQuery};

#[test]
fn request_query() {
    let mut query = RequestQuery::from_query_str("a=b&c=d&e=f&c=g");

    assert_eq!(query.get("a"), Some(["b".to_string()].as_slice()));
    assert_eq!(
        query.get("c"),
        Some(["d".to_string(), "g".to_string()].as_slice())
    );
    assert_eq!(query.get("e"), Some(["f".to_string()].as_slice()));

    assert_eq!(query.get_first("a"), Some("b"));
    assert_eq!(query.get_first("c"), Some("d"));
    assert_eq!(query.get_first("e"), Some("f"));

    assert_eq!(query.take("a"), Some(QueryValue::Single("b".into())));
    assert_eq!(
        query.take("c"),
        Some(QueryValue::Multi(vec!["d".into(), "g".into()]))
    );
    assert_eq!(query.take("e"), Some(QueryValue::Single("f".into())));
    assert_eq!(query.take("a"), None);
}

#[test]
fn query_decodes_values() {
    let query = RequestQuery::from_query_str("k=a%20b&k2=c+d");
    assert_eq!(query.get_first("k"), Some("a b"));
    assert_eq!(query.get_first("k2"), Some("c d"));
    assert_eq!(query.get_first("missing"), None);
    assert_eq!(query.get("missing"), None);
}

#[test]
fn query_empty() {
    let mut query = RequestQuery::from_query_str("");
    assert_eq!(query.get("a"), None);
    assert_eq!(query.take("a"), None);
}

#[test]
fn query_insert_by_hand() {
    let mut query = RequestQuery::default();
    query.insert("k".into(), "1".into());
    assert_eq!(query.get_first("k"), Some("1"));
    query.insert("k".into(), "2".into());
    assert_eq!(
        query.get("k"),
        Some(["1".to_string(), "2".to_string()].as_slice())
    );
}

#[test]
fn query_value_into_multi() {
    assert_eq!(
        QueryValue::Single("x".into()).into_multi(),
        vec!["x".to_string()]
    );
    assert_eq!(
        QueryValue::Multi(vec!["x".into(), "y".into()]).into_multi(),
        vec!["x".to_string(), "y".to_string()]
    );
}

#[test]
fn path_iter_segments() {
    let mut iter = PathIter::new("/foo/bar/baz");
    assert_eq!(iter.full(), "/foo/bar/baz");
    assert_eq!(iter.remaining(), "foo/bar/baz");
    assert_eq!(iter.len(), 11);
    assert!(!iter.is_empty());
    assert_eq!(iter.next(), Some("foo"));
    assert_eq!(iter.next(), Some("bar"));
    assert_eq!(iter.next(), Some("baz"));
    assert_eq!(iter.next(), None);
    assert!(iter.is_empty());
}

#[test]
fn path_iter_edges() {
    let mut iter = PathIter::new("");
    assert!(iter.is_empty());
    assert_eq!(iter.next(), None);

    let mut iter = PathIter::new("/");
    assert_eq!(iter.remaining(), "");
    assert_eq!(iter.next(), None);

    let mut iter = PathIter::new("/a//b/");
    assert_eq!(iter.next(), Some("a"));
    assert_eq!(iter.next(), Some(""));
    assert_eq!(iter.next(), Some("b"));
    assert_eq!(iter.next(), None);

    let mut iter = PathIter::new("no-slash");
    assert_eq!(iter.next(), Some("no-slash"));
    assert_eq!(iter.next(), None);
}

#[test]
fn decode_path_ok() {
    assert_eq!(decode_path("/foo%20bar").unwrap(), "/foo bar");
    assert_eq!(decode_path("/plain").unwrap(), "/plain");
    assert_eq!(decode_path("/100%25").unwrap(), "/100%");
    // A lone percent sign that opens no valid escape stays as it is.
    assert_eq!(decode_path("/a%zz").unwrap(), "/a%zz");
}

#[test]
fn decode_path_invalid_utf8() {
    // 0xC3 0x28 is not a valid UTF-8 sequence.
    assert!(decode_path("/%C3%28").is_err());
}
