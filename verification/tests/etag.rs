//! Entity-tag walking on concrete header values.

use httputil::etag::{names_etag, EtagsIter};

fn all_tags(value: &str) -> Vec<&str> {
    let mut iter = EtagsIter(value);
    let mut tags = Vec::new();
    while let Some(tag) = iter.next() {
        tags.push(tag);
    }
    tags
}

#[test]
fn etags_iter() {
    assert_eq!(
        all_tags("\"foo\", \"bar\", \"ba,zz\""),
        ["\"foo\"", "\"bar\"", "\"ba,zz\""]
    );
    assert_eq!(
        all_tags("\"foo\", W/\"bar\" , \"ba,zz\", "),
        ["\"foo\"", "W/\"bar\"", "\"ba,zz\""]
    );
}

#[test]
fn etags_iter_edges() {
    assert_eq!(all_tags(""), Vec::<&str>::new());
    assert_eq!(all_tags("   "), Vec::<&str>::new());
    // Text that opens no tag ends the walk.
    assert_eq!(all_tags("garbage"), Vec::<&str>::new());
    // An unterminated tag yields nothing.
    assert_eq!(all_tags("\"foo"), Vec::<&str>::new());
    // A valid tag followed by garbage still yields the tag.
    assert_eq!(all_tags("\"foo\" garbage"), ["\"foo\""]);
}

#[test]
fn names_etag_matches() {
    assert!(names_etag("\"foo\", W/\"bar\"", "\"foo\""));
    assert!(names_etag("\"foo\", W/\"bar\"", "W/\"bar\""));
    assert!(!names_etag("\"foo\", W/\"bar\"", "\"baz\""));
    assert!(!names_etag("", "\"foo\""));
    // A matching tag before garbage is still found.
    assert!(names_etag("\"foo\" garbage", "\"foo\""));
}
