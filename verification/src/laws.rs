//! Properties of the JSON builder that hold for every input: the escaper
//! never lets a string literal end early, members are separated by exactly
//! one comma between neighbours, indentation is three spaces per level,
//! and members appear in the order they were written.

use vstd::prelude::*;
use crate::json::{escaped, escaped_char, indent_text, key_lead, quoted, sep_text};

verus! {

/// The index at which a JSON string lexer, scanning `t` from the start,
/// finds the closing double quote: a backslash always consumes the
/// character after it, any other character but `"` is content.  Negative
/// when the scan runs off the end without finding one.
pub open spec fn scan_string_end(t: Seq<char>) -> int
    decreases t.len(),
{
    if t.len() == 0 {
        -1
    } else if t[0] == '"' {
        0
    } else if t[0] == '\\' {
        if t.len() == 1 {
            -1
        } else {
            let r = scan_string_end(t.skip(2));
            if r < 0 {
                -1
            } else {
                r + 2
            }
        }
    } else {
        let r = scan_string_end(t.skip(1));
        if r < 0 {
            -1
        } else {
            r + 1
        }
    }
}

/// How often the character `c` occurs in `t`.
pub open spec fn count_char(t: Seq<char>, c: char) -> nat
    decreases t.len(),
{
    if t.len() == 0 {
        0
    } else {
        (if t[0] == c {
            1nat
        } else {
            0nat
        }) + count_char(t.drop_first(), c)
    }
}

/// The text an object scope at the given depth emits for the given
/// members, written in order; a member is its key and the already
/// rendered text of its value.
pub open spec fn members_text(depth: nat, ms: Seq<(Seq<char>, Seq<char>)>) -> Seq<char>
    decreases ms.len(),
{
    if ms.len() == 0 {
        Seq::<char>::empty()
    } else {
        members_text(depth, ms.drop_last()) + key_lead(depth, ms.len() == 1, ms.last().0)
            + ms.last().1
    }
}

/// Writing one more member appends its lead and value text and changes
/// nothing before it; the separator appears exactly when the member is
/// not the first.  This is the shape of every member write's contract.
pub proof fn lemma_members_snoc(depth: nat, ms: Seq<(Seq<char>, Seq<char>)>, k: Seq<char>, v: Seq<char>)
    ensures
        members_text(depth, ms.push((k, v))) == members_text(depth, ms)
            + key_lead(depth, ms.len() == 0, k) + v,
{
    let pushed = ms.push((k, v));
    assert(pushed.drop_last() =~= ms);
    assert(pushed.last() == (k, v));
}

/// Wrapping in quotes adds the two delimiters and nothing else, so the
/// lexer scanning the escaped text followed by the closing quote stops
/// exactly at that closing quote: escaping leaves no way to end the
/// string literal early.
pub proof fn lemma_escaped_closes_at_delimiter(s: Seq<char>)
    ensures
        scan_string_end(escaped(s) + seq!['"']) == escaped(s).len(),
    decreases s.len(),
{
    let t = escaped(s) + seq!['"'];
    if s.len() == 0 {
        assert(escaped(s) =~= Seq::<char>::empty());
        assert(t =~= seq!['"']);
    } else {
        let c = s[0];
        let rest = s.drop_first();
        lemma_escaped_closes_at_delimiter(rest);
        if c == '"' || c == '\\' {
            assert(escaped(s) =~= seq!['\\', c] + escaped(rest));
            assert(t[0] == '\\');
            assert(t.len() >= 2);
            assert(t.skip(2) =~= escaped(rest) + seq!['"']);
            assert(scan_string_end(t) == scan_string_end(t.skip(2)) + 2);
        } else {
            assert(escaped(s) =~= seq![c] + escaped(rest));
            assert(t[0] == c);
            assert(t.skip(1) =~= escaped(rest) + seq!['"']);
            assert(scan_string_end(t) == scan_string_end(t.skip(1)) + 1);
        }
    }
}


/// The text a JSON string lexer reads back from an escaped form: a
/// backslash yields the character after it, any other character yields
/// itself.
pub open spec fn unescaped(t: Seq<char>) -> Seq<char>
    decreases t.len(),
{
    if t.len() == 0 {
        Seq::<char>::empty()
    } else if t[0] == '\\' {
        if t.len() == 1 {
            seq![t[0]]
        } else {
            seq![t[1]] + unescaped(t.skip(2))
        }
    } else {
        seq![t[0]] + unescaped(t.skip(1))
    }
}

/// Escaping loses nothing: reading the escaped form back yields the
/// input, character for character, for every input.
pub proof fn lemma_escaped_round_trip(s: Seq<char>)
    ensures
        unescaped(escaped(s)) == s,
    decreases s.len(),
{
    if s.len() == 0 {
        assert(escaped(s) =~= Seq::<char>::empty());
        assert(unescaped(escaped(s)) =~= s);
    } else {
        let c = s[0];
        let rest = s.drop_first();
        lemma_escaped_round_trip(rest);
        if c == '"' || c == '\\' {
            assert(escaped(s) =~= seq!['\\', c] + escaped(rest));
            assert(escaped(s).skip(2) =~= escaped(rest));
            assert(unescaped(escaped(s)) =~= seq![c] + rest);
        } else {
            assert(escaped(s) =~= seq![c] + escaped(rest));
            assert(escaped(s).skip(1) =~= escaped(rest));
            assert(unescaped(escaped(s)) =~= seq![c] + rest);
        }
        assert(seq![c] + rest =~= s);
    }
}

proof fn lemma_count_char_append(a: Seq<char>, b: Seq<char>, c: char)
    ensures
        count_char(a + b, c) == count_char(a, c) + count_char(b, c),
    decreases a.len(),
{
    if a.len() == 0 {
        assert(a + b =~= b);
    } else {
        lemma_count_char_append(a.drop_first(), b, c);
        assert((a + b).drop_first() =~= a.drop_first() + b);
        assert((a + b)[0] == a[0]);
    }
}

proof fn lemma_count_char_indent(depth: nat, c: char)
    requires
        c != ' ',
    ensures
        count_char(indent_text(depth), c) == 0,
    decreases depth,
{
    if depth == 0 {
    } else {
        lemma_count_char_indent((depth - 1) as nat, c);
        lemma_count_char_append(indent_text((depth - 1) as nat), seq![' ', ' ', ' '], c);
        assert(count_char(seq![' ', ' ', ' '], c) == 0) by {
            reveal_with_fuel(count_char, 4);
        }
    }
}

/// Escaping does not add or remove any character other than backslashes:
/// for every character that the escaper does not act on, the count is
/// unchanged.
pub proof fn lemma_escaped_count(s: Seq<char>, c: char)
    requires
        c != '"',
        c != '\\',
    ensures
        count_char(escaped(s), c) == count_char(s, c),
    decreases s.len(),
{
    if s.len() == 0 {
    } else {
        let rest = s.drop_first();
        lemma_escaped_count(rest, c);
        lemma_count_char_append(escaped_char(s[0]), escaped(rest), c);
        assert(count_char(escaped_char(s[0]), c) == (if s[0] == c {
            1nat
        } else {
            0nat
        })) by {
            reveal_with_fuel(count_char, 3);
        }
        assert(count_char(s, c) == (if s[0] == c {
            1nat
        } else {
            0nat
        }) + count_char(rest, c));
    }
}

proof fn lemma_count_char_key_lead(depth: nat, first: bool, k: Seq<char>)
    requires
        count_char(k, ',') == 0,
    ensures
        count_char(key_lead(depth, first, k), ',') == (if first {
            0nat
        } else {
            1nat
        }),
{
    lemma_count_char_append(sep_text(first), indent_text(depth), ',');
    lemma_count_char_append(sep_text(first) + indent_text(depth), quoted(escaped(k)), ',');
    lemma_count_char_append(
        sep_text(first) + indent_text(depth) + quoted(escaped(k)),
        seq![':', ' '],
        ',',
    );
    lemma_count_char_indent(depth, ',');
    lemma_escaped_count(k, ',');
    lemma_count_char_append(seq!['"'], escaped(k), ',');
    lemma_count_char_append(seq!['"'] + escaped(k), seq!['"'], ',');
    assert(count_char(seq!['"'], ',') == 0) by {
        reveal_with_fuel(count_char, 2);
    }
    assert(quoted(escaped(k)) =~= seq!['"'] + escaped(k) + seq!['"']);
    assert(count_char(seq![':', ' '], ',') == 0) by {
        reveal_with_fuel(count_char, 3);
    }
    if first {
        assert(count_char(sep_text(first), ',') == 0);
    } else {
        assert(count_char(sep_text(first), ',') == 1) by {
            reveal_with_fuel(count_char, 3);
        }
    }
}

/// Writing `N` members whose keys and value texts are free of commas
/// emits exactly `N - 1` separating commas, and none when `N` is zero or
/// one: the separator stands between neighbours and nowhere else.
pub proof fn lemma_member_separators(depth: nat, ms: Seq<(Seq<char>, Seq<char>)>)
    requires
        forall|i: int|
            0 <= i < ms.len() ==> count_char(#[trigger] ms[i].0, ',') == 0 && count_char(
                ms[i].1,
                ',',
            ) == 0,
    ensures
        count_char(members_text(depth, ms), ',') == (if ms.len() == 0 {
            0nat
        } else {
            (ms.len() - 1) as nat
        }),
    decreases ms.len(),
{
    if ms.len() == 0 {
    } else {
        let head = ms.drop_last();
        lemma_member_separators(depth, head);
        lemma_count_char_append(
            members_text(depth, head),
            key_lead(depth, ms.len() == 1, ms.last().0),
            ',',
        );
        lemma_count_char_append(
            members_text(depth, head) + key_lead(depth, ms.len() == 1, ms.last().0),
            ms.last().1,
            ',',
        );
        lemma_count_char_key_lead(depth, ms.len() == 1, ms.last().0);
        assert(members_text(depth, ms) =~= members_text(depth, head) + key_lead(
            depth,
            ms.len() == 1,
            ms.last().0,
        ) + ms.last().1);
    }
}

/// One indent unit is three spaces, so nesting depth `d` puts exactly
/// `3 * d` spaces, and nothing else, before a structural token.
pub proof fn lemma_indent_units(depth: nat)
    ensures
        indent_text(depth).len() == 3 * depth,
        forall|i: int| 0 <= i < 3 * depth ==> indent_text(depth)[i] == ' ',
    decreases depth,
{
    if depth == 0 {
    } else {
        lemma_indent_units((depth - 1) as nat);
    }
}

/// Earlier member writes are never disturbed by later ones: the text for
/// the first `i` members is a prefix of the text for all of them,
/// whatever the keys hold, so members appear exactly in write order.
pub proof fn lemma_members_written_in_order(
    depth: nat,
    ms: Seq<(Seq<char>, Seq<char>)>,
    i: int,
)
    requires
        0 <= i <= ms.len(),
    ensures
        members_text(depth, ms.take(i)).is_prefix_of(members_text(depth, ms)),
    decreases ms.len(),
{
    if i == ms.len() {
        assert(ms.take(i) =~= ms);
    } else {
        let head = ms.drop_last();
        lemma_members_written_in_order(depth, head, i);
        assert(ms.take(i) =~= head.take(i));
        let a = members_text(depth, ms.take(i));
        let b = members_text(depth, head);
        let tail = key_lead(depth, ms.len() == 1, ms.last().0) + ms.last().1;
        assert(members_text(depth, ms) == b + tail);
        assert(a.is_prefix_of(b));
        assert((b + tail).take(a.len() as int) =~= a);
    }
}

} // verus!
