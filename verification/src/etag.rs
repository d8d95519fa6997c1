//! Reading the entity tags of an `If-None-Match` header value.

use vstd::prelude::*;
use crate::request::{find_char, lemma_find_char_at, lemma_find_char_none};

verus! {

/// True for the characters treated as padding between entity tags.
pub open spec fn is_ws(c: char) -> bool {
    c == ' ' || c == '\t'
}

/// The text with its leading padding removed.
pub open spec fn skip_ws(s: Seq<char>) -> Seq<char>
    decreases s.len(),
{
    if s.len() > 0 && is_ws(s[0]) {
        skip_ws(s.drop_first())
    } else {
        s
    }
}

/// The text with one leading comma, and the padding after it, removed.
pub open spec fn strip_comma(s: Seq<char>) -> Seq<char> {
    if s.len() > 0 && s[0] == ',' {
        skip_ws(s.drop_first())
    } else {
        s
    }
}

/// The length of an entity tag's opening: one character for a bare
/// double quote, three for a weak tag opened by `W/"`, negative when the
/// text starts with neither.
pub open spec fn tag_open_len(s: Seq<char>) -> int {
    if s.len() > 0 && s[0] == '"' {
        1
    } else if s.len() >= 3 && s[0] == 'W' && s[1] == '/' && s[2] == '"' {
        3
    } else {
        -1
    }
}

proof fn lemma_skip_ws_at(s: Seq<char>, i: int)
    requires
        0 <= i <= s.len(),
        forall|j: int| 0 <= j < i ==> is_ws(s[j]),
        i < s.len() ==> !is_ws(s[i]),
    ensures
        skip_ws(s) == s.skip(i),
    decreases i,
{
    if i == 0 {
        assert(s.skip(0) =~= s);
    } else {
        lemma_skip_ws_at(s.drop_first(), i - 1);
        assert(s.drop_first().skip(i - 1) =~= s.skip(i));
    }
}


/// True when the character at `i` is padding.
fn ws_at(s: &str, i: usize) -> (r: bool)
    requires
        i < s@.len(),
    ensures
        r == is_ws(s@[i as int]),
{
    let c = s.get_char(i);
    c == ' ' || c == '\t'
}

/// The character at `i`.
fn char_at(s: &str, i: usize) -> (r: char)
    requires
        i < s@.len(),
    ensures
        r == s@[i as int],
{
    s.get_char(i)
}

/// Walks the entity tags in an `If-None-Match` header value, strong ones
/// like `"foo"` and weak ones like `W/"bar"`, separated by commas.
///
/// The walk ends at the first stretch of text that is not an entity tag,
/// which makes bad formatting indistinguishable from the end of the
/// value.  The lone value `*` is not handled here.
pub struct EtagsIter<'a>(pub &'a str);

impl<'a> EtagsIter<'a> {
    /// The part of the header value that has not been walked yet.
    pub closed spec fn rest_view(&self) -> Seq<char> {
        self.0@
    }

    /// The next entity tag, quotes and any `W/` marker kept, or `None`
    /// at the end of the value or at text that is no entity tag.
    pub fn next(&mut self) -> (r: Option<&'a str>)
        ensures
            ({
                let t = skip_ws(old(self).rest_view());
                let p = tag_open_len(t);
                &&& (r is None <==> (t.len() == 0 || p < 0 || find_char(t.skip(p), '"') < 0))
                &&& (r is None ==> final(self).rest_view() == t)
                &&& (r is Some ==> {
                    let end = p + find_char(t.skip(p), '"') + 1;
                    &&& r.unwrap()@ == t.subrange(0, end)
                    &&& final(self).rest_view() == strip_comma(
                        skip_ws(t.subrange(end, t.len() as int)),
                    )
                })
            }),
    {
        let s = self.0;
        let n = s.unicode_len();

        // Skip padding and check whether we are done.
        let mut i: usize = 0;
        while i < n && ws_at(s, i)
            invariant
                n == s@.len(),
                i <= n,
                forall|j: int| 0 <= j < i ==> is_ws(s@[j]),
            decreases n - i,
        {
            i += 1;
        }
        let t = s.substring_char(i, n);
        proof {
            lemma_skip_ws_at(s@, i as int);
            assert(s@.subrange(i as int, n as int) =~= s@.skip(i as int));
        }
        let tn = n - i;
        self.0 = t;
        if tn == 0 {
            return None;
        }
        // A tag opens with a lone double quote or one prefixed by W/.
        let open_len: usize = if t.get_char(0) == '"' {
            1
        } else if tn >= 3 && t.get_char(0) == 'W' && t.get_char(1) == '/' && t.get_char(2)
            == '"' {
            3
        } else {
            return None;
        };
        // The tag ends after the next double quote.
        let mut j: usize = open_len;
        while j < tn && char_at(t, j) != '"'
            invariant
                tn == t@.len(),
                open_len <= j <= tn,
                forall|m: int| open_len <= m < j ==> t@[m] != '"',
            decreases tn - j,
        {
            j += 1;
        }
        if j == tn {
            proof {
                lemma_find_char_none(t@.skip(open_len as int), '"');
            }
            return None;
        }
        proof {
            lemma_find_char_at(t@.skip(open_len as int), '"', j - open_len);
        }
        let end = j + 1;
        let res = t.substring_char(0, end);

        // Move past the closing quote, padding, and one separating comma.
        let mut k: usize = end;
        while k < tn && ws_at(t, k)
            invariant
                tn == t@.len(),
                end <= k <= tn,
                forall|m: int| end <= m < k ==> is_ws(t@[m]),
            decreases tn - k,
        {
            k += 1;
        }
        proof {
            lemma_skip_ws_at(t@.subrange(end as int, tn as int), k - end);
            assert(t@.subrange(end as int, tn as int).skip(k - end) =~= t@.subrange(
                k as int,
                tn as int,
            ));
        }
        let ghost after_ws = t@.subrange(k as int, tn as int);
        if k < tn && t.get_char(k) == ',' {
            let mut m: usize = k + 1;
            while m < tn && ws_at(t, m)
                invariant
                    tn == t@.len(),
                    k + 1 <= m <= tn,
                    forall|x: int| k + 1 <= x < m ==> is_ws(t@[x]),
                decreases tn - m,
            {
                m += 1;
            }
            proof {
                lemma_skip_ws_at(t@.subrange(k + 1 as int, tn as int), m - (k + 1));
                assert(t@.subrange(k + 1 as int, tn as int).skip(m - (k + 1)) =~= t@.subrange(
                    m as int,
                    tn as int,
                ));
                assert(after_ws.drop_first() =~= t@.subrange(k + 1 as int, tn as int));
            }
            self.0 = t.substring_char(m, tn);
        } else {
            self.0 = t.substring_char(k, tn);
        }
        Some(res)
    }
}

/// The tag that one step of the walk yields and the text it leaves, or
/// `None` at the end of the value or at text that is no entity tag.
pub open spec fn tag_step(s: Seq<char>) -> Option<(Seq<char>, Seq<char>)> {
    let t = skip_ws(s);
    let p = tag_open_len(t);
    let q = find_char(t.skip(p), '"');
    if t.len() == 0 || p < 0 || q < 0 {
        Option::None
    } else {
        let end = p + q + 1;
        Option::Some((t.subrange(0, end), strip_comma(skip_ws(t.subrange(end, t.len() as int)))))
    }
}

proof fn lemma_skip_ws_len(s: Seq<char>)
    ensures
        skip_ws(s).len() <= s.len(),
    decreases s.len(),
{
    if s.len() > 0 && is_ws(s[0]) {
        lemma_skip_ws_len(s.drop_first());
    }
}

proof fn lemma_find_char_range(s: Seq<char>, c: char)
    ensures
        find_char(s, c) < s.len(),
    decreases s.len(),
{
    if s.len() > 0 && s[0] != c {
        lemma_find_char_range(s.drop_first(), c);
    }
}

proof fn lemma_tag_step_shrinks(s: Seq<char>)
    requires
        tag_step(s) is Some,
    ensures
        tag_step(s).unwrap().1.len() < s.len(),
{
    let t = skip_ws(s);
    lemma_find_char_range(t.skip(tag_open_len(t)), '"');
    let p = tag_open_len(t);
    let q = find_char(t.skip(p), '"');
    let end = p + q + 1;
    lemma_skip_ws_len(s);
    lemma_skip_ws_len(t.subrange(end, t.len() as int));
    let after = skip_ws(t.subrange(end, t.len() as int));
    if after.len() > 0 && after[0] == ',' {
        lemma_skip_ws_len(after.drop_first());
    }
}

/// All entity tags in a header value, in order, up to the first stretch
/// of text that is not an entity tag.
pub open spec fn tags_of(s: Seq<char>) -> Seq<Seq<char>>
    decreases s.len(),
    when s.len() >= 0
    via tags_of_decreases
{
    match tag_step(s) {
        Option::None => Seq::<Seq<char>>::empty(),
        Option::Some((tag, rest)) => seq![tag] + tags_of(rest),
    }
}

#[via_fn]
proof fn tags_of_decreases(s: Seq<char>) {
    if tag_step(s) is Some {
        lemma_tag_step_shrinks(s);
    }
}

/// True when the header value names the given entity tag: some tag in
/// the walk is, character for character, the tag asked about.
pub fn names_etag(value: &str, etag: &str) -> (r: bool)
    ensures
        r == tags_of(value@).contains(etag@),
{
    let etag_owned = etag.to_owned();
    let mut iter = EtagsIter(value);
    let ghost mut seen: Seq<Seq<char>> = Seq::empty();
    loop
        invariant
            etag_owned@ == etag@,
            tags_of(value@) == seen + tags_of(iter.rest_view()),
            forall|i: int| 0 <= i < seen.len() ==> seen[i] != etag@,
        decreases iter.rest_view().len(),
    {
        let ghost rest0 = iter.rest_view();
        match iter.next() {
            Some(tag) => {
                proof {
                    assert(tag_step(rest0) == Option::Some((tag@, iter.rest_view())));
                    lemma_tag_step_shrinks(rest0);
                    assert(tags_of(rest0) == seq![tag@] + tags_of(iter.rest_view()));
                }
                if tag.to_owned() == etag_owned {
                    proof {
                        let idx = seen.len() as int;
                        assert(tags_of(value@)[idx] == etag@);
                    }
                    return true;
                }
                proof {
                    seen = seen.push(tag@);
                    assert(tags_of(value@) =~~= seen + tags_of(iter.rest_view()));
                }
            },
            None => {
                proof {
                    assert(tags_of(rest0) =~~= Seq::<Seq<char>>::empty());
                    assert(tags_of(value@) =~~= seen);
                    if tags_of(value@).contains(etag@) {
                        let i = choose|i: int|
                            0 <= i < seen.len() && seen[i] == etag@;
                        assert(false);
                    }
                }
                return false;
            },
        }
    }
}

} // verus!
