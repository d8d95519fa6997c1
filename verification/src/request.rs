//! Processing requests: walking the segments of a request path and
//! reading a decoded query string.

use vstd::prelude::*;
use vstd::utf8::{valid_utf8, decode_utf8};
use vstd::string::StringSliceAdditionalSpecFns;

verus! {

//------------ PathIter ------------------------------------------------------

/// The index of the first occurrence of `c` in `s`, negative when there
/// is none.
pub open spec fn find_char(s: Seq<char>, c: char) -> int
    decreases s.len(),
{
    if s.len() == 0 {
        -1
    } else if s[0] == c {
        0
    } else {
        let r = find_char(s.drop_first(), c);
        if r < 0 {
            -1
        } else {
            r + 1
        }
    }
}

/// The path with one leading slash removed, if it has one.
pub open spec fn strip_lead_slash(s: Seq<char>) -> Seq<char> {
    if s.len() > 0 && s[0] == '/' {
        s.drop_first()
    } else {
        s
    }
}

pub(crate) proof fn lemma_find_char_at(s: Seq<char>, c: char, i: int)
    requires
        0 <= i < s.len(),
        s[i] == c,
        forall|j: int| 0 <= j < i ==> s[j] != c,
    ensures
        find_char(s, c) == i,
    decreases i,
{
    if i > 0 {
        lemma_find_char_at(s.drop_first(), c, i - 1);
    }
}

pub(crate) proof fn lemma_find_char_none(s: Seq<char>, c: char)
    requires
        forall|j: int| 0 <= j < s.len() ==> s[j] != c,
    ensures
        find_char(s, c) == -1,
    decreases s.len(),
{
    if s.len() > 0 {
        lemma_find_char_none(s.drop_first(), c);
    }
}

/// Walks the slash-separated segments of a request path.
///
/// The leading slash is skipped; every further slash ends a segment.
pub struct PathIter<'a> {
    full: &'a str,
    remaining: &'a str,
}

impl<'a> PathIter<'a> {
    /// The whole path this iterator was started on.
    pub closed spec fn full_view(&self) -> Seq<char> {
        self.full@
    }

    /// The part of the path that has not been walked yet.
    pub closed spec fn remaining_view(&self) -> Seq<char> {
        self.remaining@
    }

    /// Starts walking at the beginning of `path`, past a leading slash.
    pub fn new(path: &'a str) -> (r: Self)
        ensures
            r.full_view() == path@,
            r.remaining_view() == strip_lead_slash(path@),
    {
        let n = path.unicode_len();
        let remaining = if n > 0 && path.get_char(0) == '/' {
            let rest = path.substring_char(1, n);
            proof {
                assert(path@.subrange(1, n as int) =~= path@.drop_first());
            }
            rest
        } else {
            path
        };
        PathIter { full: path, remaining }
    }

    /// The whole path this iterator was started on.
    pub fn full(&self) -> (r: &'a str)
        ensures
            r@ == self.full_view(),
    {
        self.full
    }

    /// The part of the path that has not been walked yet.
    pub fn remaining(&self) -> (r: &'a str)
        ensures
            r@ == self.remaining_view(),
    {
        self.remaining
    }

    /// The length, in characters, of the part not walked yet.
    pub fn len(&self) -> (r: usize)
        ensures
            r == self.remaining_view().len(),
    {
        self.remaining.unicode_len()
    }

    /// True when the whole path has been walked.
    pub fn is_empty(&self) -> (r: bool)
        ensures
            r == (self.remaining_view().len() == 0),
    {
        self.len() == 0
    }

    /// The next segment: everything up to the next slash, which is
    /// consumed with it, or all that remains when no slash is left.
    /// `None` once nothing remains.
    pub fn next(&mut self) -> (r: Option<&'a str>)
        ensures
            final(self).full_view() == old(self).full_view(),
            old(self).remaining_view().len() == 0 ==> r is None && final(self).remaining_view()
                == old(self).remaining_view(),
            old(self).remaining_view().len() > 0 ==> r is Some && {
                let rem = old(self).remaining_view();
                let k = find_char(rem, '/');
                if k < 0 {
                    r.unwrap()@ == rem && final(self).remaining_view().len() == 0
                } else {
                    r.unwrap()@ == rem.subrange(0, k) && final(self).remaining_view()
                        == rem.subrange(k + 1, rem.len() as int)
                }
            },
    {
        let n = self.remaining.unicode_len();
        if n == 0 {
            return None;
        }
        let mut i: usize = 0;
        while i < n
            invariant
                self.full == old(self).full,
                self.remaining == old(self).remaining,
                n == self.remaining@.len(),
                i <= n,
                forall|j: int| 0 <= j < i ==> self.remaining@[j] != '/',
            decreases n - i,
        {
            if self.remaining.get_char(i) == '/' {
                let res = self.remaining.substring_char(0, i);
                let rest = self.remaining.substring_char(i + 1, n);
                proof {
                    lemma_find_char_at(self.remaining@, '/', i as int);
                }
                self.remaining = rest;
                return Some(res);
            }
            i += 1;
        }
        let res = self.remaining;
        let empty_rest = self.remaining.substring_char(n, n);
        proof {
            lemma_find_char_none(self.remaining@, '/');
            assert(self.remaining@.subrange(n as int, n as int) =~= Seq::<char>::empty());
        }
        self.remaining = empty_rest;
        Some(res)
    }
}

//------------ QueryValue ----------------------------------------------------

/// The value of one query key: one text, or several for a key that the
/// query names more than once.
#[derive(Clone, Debug, Eq, PartialEq)]
pub enum QueryValue {
    Single(String),
    Multi(Vec<String>),
}

impl View for QueryValue {
    type V = Seq<Seq<char>>;

    closed spec fn view(&self) -> Seq<Seq<char>> {
        match self {
            QueryValue::Single(s) => seq![s@],
            QueryValue::Multi(v) => v.deep_view(),
        }
    }
}

impl QueryValue {
    /// The values as a list, whether one or several.
    pub fn into_multi(self) -> (r: Vec<String>)
        ensures
            r.deep_view() == self@,
    {
        match self {
            QueryValue::Single(s) => {
                let mut v = Vec::new();
                v.push(s);
                proof {
                    assert(v.deep_view() =~~= self@);
                }
                v
            },
            QueryValue::Multi(v) => v,
        }
    }
}

//------------ RequestQuery --------------------------------------------------

/// The value list of the first entry with the given key, if any.
pub open spec fn lookup(entries: Seq<(Seq<char>, Seq<Seq<char>>)>, key: Seq<char>) -> Option<
    Seq<Seq<char>>,
>
    decreases entries.len(),
{
    if entries.len() == 0 {
        Option::None
    } else if entries[0].0 == key {
        Option::Some(entries[0].1)
    } else {
        lookup(entries.drop_first(), key)
    }
}

/// Adding one value: appended to the value list of the first entry with
/// that key, or a new entry at the end for an unseen key.
pub open spec fn with_value(
    entries: Seq<(Seq<char>, Seq<Seq<char>>)>,
    key: Seq<char>,
    value: Seq<char>,
) -> Seq<(Seq<char>, Seq<Seq<char>>)>
    decreases entries.len(),
{
    if entries.len() == 0 {
        seq![(key, seq![value])]
    } else if entries[0].0 == key {
        seq![(entries[0].0, entries[0].1.push(value))] + entries.drop_first()
    } else {
        seq![entries[0]] + with_value(entries.drop_first(), key, value)
    }
}

/// The entries with the first occurrence of the given key removed.
pub open spec fn without_key(
    entries: Seq<(Seq<char>, Seq<Seq<char>>)>,
    key: Seq<char>,
) -> Seq<(Seq<char>, Seq<Seq<char>>)>
    decreases entries.len(),
{
    if entries.len() == 0 {
        entries
    } else if entries[0].0 == key {
        entries.drop_first()
    } else {
        seq![entries[0]] + without_key(entries.drop_first(), key)
    }
}

/// The query part of a request: keys with their decoded values, in the
/// order in which each key first appears.
pub struct RequestQuery {
    query: Vec<(String, QueryValue)>,
}

impl RequestQuery {
    /// The entries as key/value-list pairs, in order.
    pub closed spec fn entries(&self) -> Seq<(Seq<char>, Seq<Seq<char>>)> {
        self.query@.map(|i: int, kv: (String, QueryValue)| (kv.0@, kv.1@))
    }

    /// Records one key/value pair: the value is appended to the values of
    /// the key's entry, or starts a new entry for an unseen key.
    pub fn insert(&mut self, key: String, value: String)
        ensures
            final(self).entries() == with_value(old(self).entries(), key@, value@),
    {
        let ghost entries0 = self.entries();
        let n = self.query.len();
        let mut i: usize = 0;
        while i < n
            invariant
                entries0 == old(self).entries(),
                entries0.len() == n,
                n == self.query.len(),
                i <= n,
                self.query == old(self).query,
                forall|j: int| 0 <= j < i ==> #[trigger] entries0[j].0 != key@,
            decreases n - i,
        {
            proof {
                assert(entries0[i as int].0 == self.query@[i as int].0@);
            }
            if self.query[i].0 == key {
                let (k, v) = self.query.remove(i);
                let mut vs = v.into_multi();
                vs.push(value);
                self.query.insert(i, (k, QueryValue::Multi(vs)));
                proof {
                    lemma_with_value_found(entries0, key@, value@, i as int);
                    assert(vs.deep_view() =~~= entries0[i as int].1.push(value@));
                    assert(self.entries() =~~= entries0.update(
                        i as int,
                        (entries0[i as int].0, entries0[i as int].1.push(value@)),
                    ));
                    assert(entries0[i as int].0 == key@);
                }
                return ;
            }
            i += 1;
        }
        self.query.push((key, QueryValue::Single(value)));
        proof {
            lemma_with_value_missing(entries0, key@, value@);
            assert(self.entries() =~~= entries0.push((key@, seq![value@])));
        }
    }

    /// All values recorded for the key, or `None` when the query does not
    /// name it.
    pub fn get(&self, key: &str) -> (r: Option<&[String]>)
        ensures
            r is Some <==> lookup(self.entries(), key@) is Some,
            r is Some ==> r.unwrap().deep_view() == lookup(self.entries(), key@).unwrap(),
    {
        let key_owned = key.to_owned();
        let n = self.query.len();
        let mut i: usize = 0;
        while i < n
            invariant
                key_owned@ == key@,
                n == self.query.len(),
                i <= n,
                forall|j: int| 0 <= j < i ==> #[trigger] self.entries()[j].0 != key@,
            decreases n - i,
        {
            proof {
                assert(self.entries()[i as int].0 == self.query@[i as int].0@);
            }
            if self.query[i].0 == key_owned {
                proof {
                    lemma_lookup_found(self.entries(), key@, i as int);
                }
                let r = match &self.query[i].1 {
                    QueryValue::Single(s) => slice_from_single(s),
                    QueryValue::Multi(v) => v.as_slice(),
                };
                proof {
                    assert(r.deep_view() =~~= self.entries()[i as int].1);
                }
                return Some(r);
            }
            i += 1;
        }
        proof {
            lemma_lookup_none(self.entries(), key@);
        }
        None
    }

    /// Removes and returns the key's entry, or `None` when the query does
    /// not name it.
    pub fn take(&mut self, key: &str) -> (r: Option<QueryValue>)
        ensures
            final(self).entries() == without_key(old(self).entries(), key@),
            r is Some <==> lookup(old(self).entries(), key@) is Some,
            r is Some ==> r.unwrap()@ == lookup(old(self).entries(), key@).unwrap(),
    {
        let ghost entries0 = self.entries();
        let key_owned = key.to_owned();
        let n = self.query.len();
        let mut i: usize = 0;
        while i < n
            invariant
                entries0 == old(self).entries(),
                entries0.len() == n,
                key_owned@ == key@,
                n == self.query.len(),
                i <= n,
                self.query == old(self).query,
                forall|j: int| 0 <= j < i ==> #[trigger] entries0[j].0 != key@,
            decreases n - i,
        {
            proof {
                assert(entries0[i as int].0 == self.query@[i as int].0@);
            }
            if self.query[i].0 == key_owned {
                let (_, v) = self.query.remove(i);
                proof {
                    lemma_lookup_found(entries0, key@, i as int);
                    lemma_without_key_found(entries0, key@, i as int);
                    assert(self.entries() =~~= entries0.remove(i as int));
                }
                return Some(v);
            }
            i += 1;
        }
        proof {
            lemma_lookup_none(entries0, key@);
            lemma_without_key_missing(entries0, key@);
        }
        None
    }

    /// The first value recorded for the key, or `None` when the query
    /// does not name it or its entry holds no value.
    pub fn get_first(&self, key: &str) -> (r: Option<&str>)
        ensures
            match lookup(self.entries(), key@) {
                Option::Some(vals) => if vals.len() > 0 {
                    r is Some && r.unwrap()@ == vals[0]
                } else {
                    r is None
                },
                Option::None => r is None,
            },
    {
        let key_owned = key.to_owned();
        let n = self.query.len();
        let mut i: usize = 0;
        while i < n
            invariant
                key_owned@ == key@,
                n == self.query.len(),
                i <= n,
                forall|j: int| 0 <= j < i ==> #[trigger] self.entries()[j].0 != key@,
            decreases n - i,
        {
            proof {
                assert(self.entries()[i as int].0 == self.query@[i as int].0@);
            }
            if self.query[i].0 == key_owned {
                proof {
                    lemma_lookup_found(self.entries(), key@, i as int);
                }
                return match &self.query[i].1 {
                    QueryValue::Single(s) => Some(s.as_str()),
                    QueryValue::Multi(v) => if v.len() > 0 {
                        Some(v[0].as_str())
                    } else {
                        None
                    },
                };
            }
            i += 1;
        }
        proof {
            lemma_lookup_none(self.entries(), key@);
        }
        None
    }
}

impl Default for RequestQuery {
    /// An empty query.
    fn default() -> (r: Self)
        ensures
            r.entries().len() == 0,
    {
        let r = RequestQuery { query: Vec::new() };
        proof {
            assert(r.entries() =~= Seq::<(Seq<char>, Seq<Seq<char>>)>::empty());
        }
        r
    }
}

/// Relies on `core::slice::from_ref`: a slice of length one holding the
/// referenced value.
#[verifier::external_body]
fn slice_from_single<'a>(s: &'a String) -> (r: &'a [String])
    ensures
        r@ == seq![*s],
{
    core::slice::from_ref(s)
}

proof fn lemma_lookup_found(entries: Seq<(Seq<char>, Seq<Seq<char>>)>, key: Seq<char>, i: int)
    requires
        0 <= i < entries.len(),
        entries[i].0 == key,
        forall|j: int| 0 <= j < i ==> entries[j].0 != key,
    ensures
        lookup(entries, key) == Option::Some(entries[i].1),
    decreases i,
{
    if i > 0 {
        lemma_lookup_found(entries.drop_first(), key, i - 1);
    }
}

proof fn lemma_lookup_none(entries: Seq<(Seq<char>, Seq<Seq<char>>)>, key: Seq<char>)
    requires
        forall|j: int| 0 <= j < entries.len() ==> entries[j].0 != key,
    ensures
        lookup(entries, key) is None,
    decreases entries.len(),
{
    if entries.len() > 0 {
        lemma_lookup_none(entries.drop_first(), key);
    }
}

proof fn lemma_with_value_found(
    entries: Seq<(Seq<char>, Seq<Seq<char>>)>,
    key: Seq<char>,
    value: Seq<char>,
    i: int,
)
    requires
        0 <= i < entries.len(),
        entries[i].0 == key,
        forall|j: int| 0 <= j < i ==> entries[j].0 != key,
    ensures
        with_value(entries, key, value) == entries.update(
            i,
            (entries[i].0, entries[i].1.push(value)),
        ),
    decreases i,
{
    if i == 0 {
        assert(with_value(entries, key, value) =~= entries.update(
            0,
            (entries[0].0, entries[0].1.push(value)),
        ));
    } else {
        lemma_with_value_found(entries.drop_first(), key, value, i - 1);
        assert(with_value(entries, key, value) =~= entries.update(
            i,
            (entries[i].0, entries[i].1.push(value)),
        ));
    }
}

proof fn lemma_with_value_missing(
    entries: Seq<(Seq<char>, Seq<Seq<char>>)>,
    key: Seq<char>,
    value: Seq<char>,
)
    requires
        forall|j: int| 0 <= j < entries.len() ==> entries[j].0 != key,
    ensures
        with_value(entries, key, value) == entries.push((key, seq![value])),
    decreases entries.len(),
{
    if entries.len() == 0 {
        assert(with_value(entries, key, value) =~= entries.push((key, seq![value])));
    } else {
        lemma_with_value_missing(entries.drop_first(), key, value);
        assert(with_value(entries, key, value) =~= entries.push((key, seq![value])));
    }
}

proof fn lemma_without_key_found(
    entries: Seq<(Seq<char>, Seq<Seq<char>>)>,
    key: Seq<char>,
    i: int,
)
    requires
        0 <= i < entries.len(),
        entries[i].0 == key,
        forall|j: int| 0 <= j < i ==> entries[j].0 != key,
    ensures
        without_key(entries, key) == entries.remove(i),
    decreases i,
{
    if i == 0 {
        assert(without_key(entries, key) =~= entries.remove(0));
    } else {
        lemma_without_key_found(entries.drop_first(), key, i - 1);
        assert(without_key(entries, key) =~= entries.remove(i));
    }
}

proof fn lemma_without_key_missing(entries: Seq<(Seq<char>, Seq<Seq<char>>)>, key: Seq<char>)
    requires
        forall|j: int| 0 <= j < entries.len() ==> entries[j].0 != key,
    ensures
        without_key(entries, key) == entries,
    decreases entries.len(),
{
    if entries.len() == 0 {
    } else {
        lemma_without_key_missing(entries.drop_first(), key);
        assert(without_key(entries, key) =~= entries);
    }
}

//------------ Parsing a query string ---------------------------------------

/// The key/value pairs that parsing a query string in the
/// `application/x-www-form-urlencoded` syntax yields, in order.
pub uninterp spec fn parsed_query(s: Seq<char>) -> Seq<(Seq<char>, Seq<char>)>;

/// Relies on `form_urlencoded::parse`: splits the input on `&` and `=`,
/// percent-decodes names and values and turns `+` into a space; an empty
/// input yields no pairs.
#[verifier::external_body]
fn parse_query_pairs(query: &str) -> (r: Vec<(String, String)>)
    ensures
        r.deep_view() == parsed_query(query@),
        query@.len() == 0 ==> r@.len() == 0,
{
    form_urlencoded::parse(query.as_bytes()).into_owned().collect()
}

/// The entries that recording the given pairs one by one builds up.
pub open spec fn collected(pairs: Seq<(Seq<char>, Seq<char>)>) -> Seq<
    (Seq<char>, Seq<Seq<char>>),
>
    decreases pairs.len(),
{
    if pairs.len() == 0 {
        Seq::<(Seq<char>, Seq<Seq<char>>)>::empty()
    } else {
        with_value(collected(pairs.drop_last()), pairs.last().0, pairs.last().1)
    }
}

impl RequestQuery {
    /// Decodes a raw query string into its keys and values.
    pub fn from_query_str(query: &str) -> (r: RequestQuery)
        ensures
            r.entries() == collected(parsed_query(query@)),
    {
        let pairs = parse_query_pairs(query);
        let mut res = RequestQuery::default();
        proof {
            assert(res.entries() =~= Seq::<(Seq<char>, Seq<Seq<char>>)>::empty());
            assert(parsed_query(query@).take(0) =~= Seq::<(Seq<char>, Seq<char>)>::empty());
        }
        let n = pairs.len();
        let mut i: usize = 0;
        while i < n
            invariant
                n == pairs@.len(),
                pairs.deep_view() == parsed_query(query@),
                i <= n,
                res.entries() == collected(parsed_query(query@).take(i as int)),
            decreases n - i,
        {
            let key = pairs[i].0.clone();
            let value = pairs[i].1.clone();
            res.insert(key, value);
            proof {
                let ghost parsed = parsed_query(query@);
                assert(pairs.deep_view()[i as int] == (pairs@[i as int].0@, pairs@[i as int].1@));
                assert(parsed.take(i + 1).drop_last() =~= parsed.take(i as int));
                assert(parsed.take(i + 1).last() == parsed[i as int]);
            }
            i += 1;
        }
        proof {
            assert(parsed_query(query@).take(n as int) =~= parsed_query(query@));
        }
        res
    }
}

//------------ Decoding a request path ---------------------------------------

/// True for the bytes standing for the hexadecimal digits, in either case.
pub open spec fn is_hex_digit(b: u8) -> bool {
    (48 <= b <= 57) || (65 <= b <= 70) || (97 <= b <= 102)
}

/// The numeric value of a hexadecimal digit byte.
pub open spec fn hex_digit_value(b: u8) -> u8 {
    if 48 <= b <= 57 {
        (b - 48) as u8
    } else if 65 <= b <= 70 {
        (b - 55) as u8
    } else {
        (b - 87) as u8
    }
}

/// The percent-decoded form of a byte sequence: every `%` followed by two
/// hexadecimal digits becomes the byte they name; everything else stands
/// as it is.
pub open spec fn pct_decoded(s: Seq<u8>) -> Seq<u8>
    decreases s.len(),
{
    if s.len() == 0 {
        Seq::<u8>::empty()
    } else if s[0] == 37 && s.len() >= 3 && is_hex_digit(s[1]) && is_hex_digit(s[2]) {
        seq![(hex_digit_value(s[1]) * 16 + hex_digit_value(s[2])) as u8] + pct_decoded(s.skip(3))
    } else {
        seq![s[0]] + pct_decoded(s.skip(1))
    }
}

/// Relies on `percent_encoding::percent_decode`: replaces every `%`
/// followed by two hexadecimal digits by the byte they name and leaves
/// all other bytes alone.
#[verifier::external_body]
fn percent_decode_bytes(s: &[u8]) -> (r: Vec<u8>)
    ensures
        r@ == pct_decoded(s@),
{
    percent_encoding::percent_decode(s).collect()
}

/// Relies on `String::from_utf8`: the bytes as a text when they are
/// valid UTF-8, and nothing otherwise.
#[verifier::external_body]
fn string_from_utf8(bytes: Vec<u8>) -> (r: Option<String>)
    ensures
        r is Some <==> valid_utf8(bytes@),
        r is Some ==> r.unwrap()@ == decode_utf8(bytes@),
{
    match String::from_utf8(bytes) {
        Ok(s) => Some(s),
        Err(_) => None,
    }
}

/// A request path that is not valid after percent-decoding.
#[derive(Debug)]
pub struct InvalidPath;

/// Percent-decodes a raw request path.
///
/// Returns the decoded path exactly when the decoded bytes are valid
/// UTF-8, and `InvalidPath` otherwise.
pub fn decode_path(path: &str) -> (r: Result<String, InvalidPath>)
    ensures
        r is Ok <==> valid_utf8(pct_decoded(path.spec_bytes())),
        r is Ok ==> r.unwrap()@ == decode_utf8(pct_decoded(path.spec_bytes())),
{
    let bytes = percent_decode_bytes(path.as_bytes());
    match string_from_utf8(bytes) {
        Some(s) => Ok(s),
        None => Err(InvalidPath),
    }
}

} // verus!
