//! Building pretty-printed JSON text on the fly.
//!
//! The builder hands the caller a hierarchy of short-lived scope values.
//! Each scope offers exactly the write operations that are valid at its
//! point in the JSON structure, so the finished text is well formed by
//! construction.  Strings are escaped so that `"` and `\` never appear
//! unescaped inside a string literal; control characters are passed
//! through unchanged and must not occur in the input.

use vstd::prelude::*;

verus! {

/// One indent unit: three spaces per nesting level.
pub open spec fn indent_text(n: nat) -> Seq<char>
    decreases n,
{
    if n == 0 {
        Seq::<char>::empty()
    } else {
        indent_text((n - 1) as nat) + seq![' ', ' ', ' ']
    }
}

/// The escaped form of one character: `"` and `\` gain a leading backslash,
/// every other character stands as it is.
pub open spec fn escaped_char(c: char) -> Seq<char> {
    if c == '"' || c == '\\' {
        seq!['\\', c]
    } else {
        seq![c]
    }
}

/// The escaped form of a text: each character replaced by its escaped form.
pub open spec fn escaped(s: Seq<char>) -> Seq<char>
    decreases s.len(),
{
    if s.len() == 0 {
        Seq::<char>::empty()
    } else {
        escaped_char(s[0]) + escaped(s.drop_first())
    }
}

/// A text wrapped in the two delimiting double quotes.
pub open spec fn quoted(s: Seq<char>) -> Seq<char> {
    seq!['"'] + s + seq!['"']
}

/// The separator written before a member or element: nothing before the
/// first one, a comma and a line break before every later one.
pub open spec fn sep_text(first: bool) -> Seq<char> {
    if first {
        Seq::<char>::empty()
    } else {
        seq![',', '\n']
    }
}

/// Everything an object scope writes before a member's value: the
/// separator, the indent, the quoted and escaped key, a colon and a space.
pub open spec fn key_lead(depth: nat, first: bool, key: Seq<char>) -> Seq<char> {
    sep_text(first) + indent_text(depth) + quoted(escaped(key)) + seq![':', ' ']
}

/// Everything an array scope writes before an element's value: the
/// separator and the indent.
pub open spec fn elem_lead(depth: nat, first: bool) -> Seq<char> {
    sep_text(first) + indent_text(depth)
}

/// The opening delimiter of an object body.
pub open spec fn open_obj() -> Seq<char> {
    seq!['{', '\n']
}

/// The closing of an object body: a line break, the closing indent, `}`.
pub open spec fn close_obj(depth: nat) -> Seq<char> {
    seq!['\n'] + indent_text(depth) + seq!['}']
}

/// The opening delimiter of an array body.
pub open spec fn open_arr() -> Seq<char> {
    seq!['[', '\n']
}

/// The closing of an array body: a line break, the closing indent, `]`.
pub open spec fn close_arr(depth: nat) -> Seq<char> {
    seq!['\n'] + indent_text(depth) + seq![']']
}

/// Relies on `String::push`: appends the given character at the end.
#[verifier::external_body]
fn push_char(target: &mut String, c: char)
    ensures
        final(target)@ == old(target)@.push(c),
{
    target.push(c);
}

proof fn lemma_escaped_append(a: Seq<char>, b: Seq<char>)
    ensures
        escaped(a + b) == escaped(a) + escaped(b),
    decreases a.len(),
{
    if a.len() == 0 {
        assert(a + b =~= b);
        assert(escaped(a) + escaped(b) =~= escaped(b));
    } else {
        lemma_escaped_append(a.drop_first(), b);
        assert((a + b).drop_first() =~= a.drop_first() + b);
        assert(escaped(a + b) =~= escaped(a) + escaped(b));
    }
}

proof fn lemma_escaped_snoc(s: Seq<char>, c: char)
    ensures
        escaped(s.push(c)) == escaped(s) + escaped_char(c),
{
    lemma_escaped_append(s, seq![c]);
    assert(s.push(c) =~= s + seq![c]);
    assert(seq![c].drop_first() =~= Seq::<char>::empty());
    assert(escaped(seq![c]) == escaped_char(seq![c][0]) + escaped(seq![c].drop_first()));
    assert(escaped(Seq::<char>::empty()) == Seq::<char>::empty());
    assert(escaped(seq![c]) =~= escaped_char(c));
}

/// Appends the escaped form of `value` to `target`.
fn append_escaped(target: &mut String, value: &str)
    ensures
        final(target)@ == old(target)@ + escaped(value@),
{
    let n = value.unicode_len();
    let mut i: usize = 0;
    while i < n
        invariant
            n == value@.len(),
            i <= n,
            target@ == old(target)@ + escaped(value@.subrange(0, i as int)),
        decreases n - i,
    {
        let c = value.get_char(i);
        if c == '"' || c == '\\' {
            push_char(target, '\\');
        }
        push_char(target, c);
        proof {
            let pre = value@.subrange(0, i as int);
            lemma_escaped_snoc(pre, c);
            assert(value@.subrange(0, i + 1 as int) =~= pre.push(c));
        }
        i += 1;
    }
    proof {
        assert(value@.subrange(0, n as int) =~= value@);
    }
}

/// Returns the escaped form of `val`, suitable for placing between the
/// double quotes of a JSON string literal.
pub fn json_str(val: &str) -> (r: String)
    ensures
        r@ == escaped(val@),
{
    let mut target = String::new();
    append_escaped(&mut target, val);
    target
}

/// Appends `levels` indent units to `target`.
fn append_indent(target: &mut String, levels: usize)
    ensures
        final(target)@ == old(target)@ + indent_text(levels as nat),
{
    let mut i: usize = 0;
    while i < levels
        invariant
            i <= levels,
            target@ == old(target)@ + indent_text(i as nat),
        decreases levels - i,
    {
        push_char(target, ' ');
        push_char(target, ' ');
        push_char(target, ' ');
        proof {
            assert(old(target)@ + indent_text(i as nat) + seq![' ', ' ', ' ']
                =~= old(target)@ + indent_text((i + 1) as nat));
        }
        i += 1;
    }
}

/// Appends the quoted, escaped form of `value` to `target`.
fn append_quoted(target: &mut String, value: &str)
    ensures
        final(target)@ == old(target)@ + quoted(escaped(value@)),
{
    push_char(target, '"');
    append_escaped(target, value);
    push_char(target, '"');
    proof {
        assert(old(target)@.push('"') + escaped(value@)
            =~= old(target)@ + seq!['"'] + escaped(value@));
        assert((old(target)@ + seq!['"'] + escaped(value@)).push('"')
            =~= old(target)@ + quoted(escaped(value@)));
    }
}

/// Appends a raw text to `target`, verbatim.
///
/// Relies on the specification of `String::append` from vstd.
fn append_raw(target: &mut String, value: &str)
    ensures
        final(target)@ == old(target)@ + value@,
{
    target.append(value);
}

/// Appends the closing of a container body: a line break, the indent of
/// the closing delimiter, and the delimiter itself.
fn append_close(target: &mut String, levels: usize, delim: char)
    ensures
        final(target)@ == old(target)@ + seq!['\n'] + indent_text(levels as nat) + seq![delim],
{
    push_char(target, '\n');
    append_indent(target, levels);
    push_char(target, delim);
    proof {
        assert(old(target)@.push('\n') =~= old(target)@ + seq!['\n']);
        assert((old(target)@ + seq!['\n'] + indent_text(levels as nat)).push(delim)
            =~= old(target)@ + seq!['\n'] + indent_text(levels as nat) + seq![delim]);
    }
}

/// Appends a container's opening delimiter followed by a line break.
fn append_open(target: &mut String, delim: char)
    ensures
        final(target)@ == old(target)@ + seq![delim, '\n'],
{
    push_char(target, delim);
    push_char(target, '\n');
    proof {
        assert(old(target)@.push(delim).push('\n') =~= old(target)@ + seq![delim, '\n']);
    }
}

//------------ JsonValueDone -------------------------------------------------

/// Witness that the single value of a [`JsonValue`] scope has been written.
///
/// A caller can only obtain one by invoking one of the scope's terminal
/// operations, so handing it back proves that exactly one write happened.
pub struct JsonValueDone {
    target: String,
}

impl JsonValueDone {
    /// The output text accumulated so far.
    pub closed spec fn text(&self) -> Seq<char> {
        self.target@
    }
}

//------------ JsonValue -----------------------------------------------------

/// The scope in which exactly one JSON value must be written.
///
/// Every operation consumes the scope and returns a [`JsonValueDone`], so
/// no second value can be written through the same scope.
pub struct JsonValue {
    target: String,
    indent: usize,
}

impl JsonValue {
    /// The output text accumulated so far.
    pub closed spec fn text(&self) -> Seq<char> {
        self.target@
    }

    /// The nesting depth of this slot: members of a container written here
    /// are indented by this many units, and the container's closing
    /// delimiter by one unit less.
    pub closed spec fn depth(&self) -> nat {
        self.indent as nat
    }

    /// Writes the value as a quoted, escaped JSON string.
    pub fn string(self, value: &str) -> (r: JsonValueDone)
        ensures
            r.text() == self.text() + quoted(escaped(value@)),
    {
        let JsonValue { mut target, indent: _ } = self;
        append_quoted(&mut target, value);
        JsonValueDone { target }
    }

    /// Writes the value verbatim; the caller vouches that it is valid JSON.
    pub fn raw(self, value: &str) -> (r: JsonValueDone)
        ensures
            r.text() == self.text() + value@,
    {
        let JsonValue { mut target, indent: _ } = self;
        append_raw(&mut target, value);
        JsonValueDone { target }
    }

    /// Writes the value as an object whose members `op` emits into the
    /// child scope.
    pub fn object<F: FnOnce(JsonObject) -> JsonObject>(self, op: F) -> (r: JsonValueDone)
        requires
            self.depth() >= 1,
            forall|o: JsonObject|
                (o.text() == self.text() + open_obj() && o.depth() == self.depth()
                    && o.fresh()) ==> #[trigger] call_requires(op, (o,)),
        ensures
            exists|o1: JsonObject, o2: JsonObject|
                o1.text() == self.text() + open_obj() && o1.depth() == self.depth()
                    && o1.fresh() && #[trigger] call_ensures(op, (o1,), o2)
                    && r.text() == o2.text() + close_obj((self.depth() - 1) as nat),
    {
        let JsonValue { mut target, indent } = self;
        append_open(&mut target, '{');
        let o1 = JsonObject { target, indent, empty: true };
        let o2 = op(o1);
        let JsonObject { mut target, .. } = o2;
        append_close(&mut target, indent - 1, '}');
        JsonValueDone { target }
    }

    /// Writes the value as an array whose elements `op` emits into the
    /// child scope.
    pub fn array<F: FnOnce(JsonArray) -> JsonArray>(self, op: F) -> (r: JsonValueDone)
        requires
            self.depth() >= 1,
            forall|a: JsonArray|
                (a.text() == self.text() + open_arr() && a.depth() == self.depth()
                    && a.fresh()) ==> #[trigger] call_requires(op, (a,)),
        ensures
            exists|a1: JsonArray, a2: JsonArray|
                a1.text() == self.text() + open_arr() && a1.depth() == self.depth()
                    && a1.fresh() && #[trigger] call_ensures(op, (a1,), a2)
                    && r.text() == a2.text() + close_arr((self.depth() - 1) as nat),
    {
        let JsonValue { mut target, indent } = self;
        append_open(&mut target, '[');
        let a1 = JsonArray { target, indent, empty: true };
        let a2 = op(a1);
        let JsonArray { mut target, .. } = a2;
        append_close(&mut target, indent - 1, ']');
        JsonValueDone { target }
    }
}

//------------ JsonObject ----------------------------------------------------

/// The scope inside an object body: zero or more key/value members may be
/// written, in the order of the calls.
pub struct JsonObject {
    target: String,
    indent: usize,
    empty: bool,
}

impl JsonObject {
    /// The output text accumulated so far.
    pub closed spec fn text(&self) -> Seq<char> {
        self.target@
    }

    /// The nesting depth: members of this object are indented by this many
    /// units.
    pub closed spec fn depth(&self) -> nat {
        self.indent as nat
    }

    /// True while no member has been written: the next member needs no
    /// separator before it.
    pub closed spec fn fresh(&self) -> bool {
        self.empty
    }

    /// Writes the separator if needed, the indent, and the quoted and
    /// escaped key followed by a colon and a space.
    fn append_key(self, key: &str) -> (r: JsonObject)
        ensures
            r.depth() == self.depth(),
            !r.fresh(),
            r.text() == self.text() + key_lead(self.depth(), self.fresh(), key@),
    {
        let JsonObject { mut target, indent, empty } = self;
        if !empty {
            push_char(&mut target, ',');
            push_char(&mut target, '\n');
        }
        proof {
            assert(target@ =~= self.text() + sep_text(self.fresh()));
        }
        append_indent(&mut target, indent);
        append_quoted(&mut target, key);
        push_char(&mut target, ':');
        push_char(&mut target, ' ');
        proof {
            assert(target@ =~= self.text() + key_lead(self.depth(), self.fresh(), key@));
        }
        JsonObject { target, indent, empty: false }
    }

    /// Writes a member whose value is the quoted, escaped form of `value`.
    pub fn string(self, key: &str, value: &str) -> (r: JsonObject)
        ensures
            r.depth() == self.depth(),
            !r.fresh(),
            r.text() == self.text() + key_lead(self.depth(), self.fresh(), key@)
                + quoted(escaped(value@)),
    {
        let r = self.append_key(key);
        let JsonObject { mut target, indent, empty } = r;
        append_quoted(&mut target, value);
        JsonObject { target, indent, empty }
    }

    /// Writes a member whose value is `value` verbatim; the caller vouches
    /// that it is valid JSON.
    pub fn raw(self, key: &str, value: &str) -> (r: JsonObject)
        ensures
            r.depth() == self.depth(),
            !r.fresh(),
            r.text() == self.text() + key_lead(self.depth(), self.fresh(), key@) + value@,
    {
        let r = self.append_key(key);
        let JsonObject { mut target, indent, empty } = r;
        append_raw(&mut target, value);
        JsonObject { target, indent, empty }
    }

    /// Writes a member whose value `op` emits into a fresh value scope.
    pub fn value<F: FnOnce(JsonValue) -> JsonValueDone>(self, key: &str, op: F) -> (r:
        JsonObject)
        requires
            self.depth() < usize::MAX,
            forall|v: JsonValue|
                (v.text() == self.text() + key_lead(self.depth(), self.fresh(), key@)
                    && v.depth() == self.depth() + 1) ==> #[trigger] call_requires(op, (v,)),
        ensures
            r.depth() == self.depth(),
            !r.fresh(),
            exists|v1: JsonValue, v2: JsonValueDone|
                v1.text() == self.text() + key_lead(self.depth(), self.fresh(), key@)
                    && v1.depth() == self.depth() + 1
                    && #[trigger] call_ensures(op, (v1,), v2) && r.text() == v2.text(),
    {
        let r = self.append_key(key);
        let JsonObject { target, indent, .. } = r;
        let v1 = JsonValue { target, indent: indent + 1 };
        let v2 = op(v1);
        let JsonValueDone { target } = v2;
        JsonObject { target, indent, empty: false }
    }

    /// Writes a member whose value is a nested object, one level deeper.
    pub fn object<F: FnOnce(JsonObject) -> JsonObject>(self, key: &str, op: F) -> (r:
        JsonObject)
        requires
            self.depth() < usize::MAX,
            forall|o: JsonObject|
                (o.text() == self.text() + key_lead(self.depth(), self.fresh(), key@)
                    + open_obj() && o.depth() == self.depth() + 1 && o.fresh())
                    ==> #[trigger] call_requires(op, (o,)),
        ensures
            r.depth() == self.depth(),
            !r.fresh(),
            exists|o1: JsonObject, o2: JsonObject|
                o1.text() == self.text() + key_lead(self.depth(), self.fresh(), key@)
                    + open_obj() && o1.depth() == self.depth() + 1 && o1.fresh()
                    && #[trigger] call_ensures(op, (o1,), o2)
                    && r.text() == o2.text() + close_obj(self.depth()),
    {
        let r = self.append_key(key);
        let JsonObject { mut target, indent, .. } = r;
        append_open(&mut target, '{');
        let o1 = JsonObject { target, indent: indent + 1, empty: true };
        let o2 = op(o1);
        let JsonObject { mut target, .. } = o2;
        append_close(&mut target, indent, '}');
        JsonObject { target, indent, empty: false }
    }

    /// Writes a member whose value is a nested array, one level deeper.
    pub fn array<F: FnOnce(JsonArray) -> JsonArray>(self, key: &str, op: F) -> (r: JsonObject)
        requires
            self.depth() < usize::MAX,
            forall|a: JsonArray|
                (a.text() == self.text() + key_lead(self.depth(), self.fresh(), key@)
                    + open_arr() && a.depth() == self.depth() + 1 && a.fresh())
                    ==> #[trigger] call_requires(op, (a,)),
        ensures
            r.depth() == self.depth(),
            !r.fresh(),
            exists|a1: JsonArray, a2: JsonArray|
                a1.text() == self.text() + key_lead(self.depth(), self.fresh(), key@)
                    + open_arr() && a1.depth() == self.depth() + 1 && a1.fresh()
                    && #[trigger] call_ensures(op, (a1,), a2)
                    && r.text() == a2.text() + close_arr(self.depth()),
    {
        let r = self.append_key(key);
        let JsonObject { mut target, indent, .. } = r;
        append_open(&mut target, '[');
        let a1 = JsonArray { target, indent: indent + 1, empty: true };
        let a2 = op(a1);
        let JsonArray { mut target, .. } = a2;
        append_close(&mut target, indent, ']');
        JsonObject { target, indent, empty: false }
    }
}

//------------ JsonArray -----------------------------------------------------

/// The scope inside an array body: zero or more elements may be written,
/// in the order of the calls.
pub struct JsonArray {
    target: String,
    indent: usize,
    empty: bool,
}

impl JsonArray {
    /// The output text accumulated so far.
    pub closed spec fn text(&self) -> Seq<char> {
        self.target@
    }

    /// The nesting depth: elements of this array are indented by this many
    /// units.
    pub closed spec fn depth(&self) -> nat {
        self.indent as nat
    }

    /// True while no element has been written: the next element needs no
    /// separator before it.
    pub closed spec fn fresh(&self) -> bool {
        self.empty
    }

    /// Writes the separator if needed and the element's indent.
    fn append_array_head(self) -> (r: JsonArray)
        ensures
            r.depth() == self.depth(),
            !r.fresh(),
            r.text() == self.text() + elem_lead(self.depth(), self.fresh()),
    {
        let JsonArray { mut target, indent, empty } = self;
        if !empty {
            push_char(&mut target, ',');
            push_char(&mut target, '\n');
        }
        proof {
            assert(target@ =~= self.text() + sep_text(self.fresh()));
        }
        append_indent(&mut target, indent);
        proof {
            assert(target@ =~= self.text() + elem_lead(self.depth(), self.fresh()));
        }
        JsonArray { target, indent, empty: false }
    }

    /// Writes an element that is the quoted, escaped form of `value`.
    pub fn string(self, value: &str) -> (r: JsonArray)
        ensures
            r.depth() == self.depth(),
            !r.fresh(),
            r.text() == self.text() + elem_lead(self.depth(), self.fresh())
                + quoted(escaped(value@)),
    {
        let r = self.append_array_head();
        let JsonArray { mut target, indent, empty } = r;
        append_quoted(&mut target, value);
        JsonArray { target, indent, empty }
    }

    /// Writes an element that is `value` verbatim; the caller vouches that
    /// it is valid JSON.
    pub fn raw(self, value: &str) -> (r: JsonArray)
        ensures
            r.depth() == self.depth(),
            !r.fresh(),
            r.text() == self.text() + elem_lead(self.depth(), self.fresh()) + value@,
    {
        let r = self.append_array_head();
        let JsonArray { mut target, indent, empty } = r;
        append_raw(&mut target, value);
        JsonArray { target, indent, empty }
    }

    /// Writes an element whose value `op` emits into a fresh value scope.
    pub fn value<F: FnOnce(JsonValue) -> JsonValueDone>(self, op: F) -> (r: JsonArray)
        requires
            self.depth() < usize::MAX,
            forall|v: JsonValue|
                (v.text() == self.text() + elem_lead(self.depth(), self.fresh())
                    && v.depth() == self.depth() + 1) ==> #[trigger] call_requires(op, (v,)),
        ensures
            r.depth() == self.depth(),
            !r.fresh(),
            exists|v1: JsonValue, v2: JsonValueDone|
                v1.text() == self.text() + elem_lead(self.depth(), self.fresh())
                    && v1.depth() == self.depth() + 1
                    && #[trigger] call_ensures(op, (v1,), v2) && r.text() == v2.text(),
    {
        let r = self.append_array_head();
        let JsonArray { target, indent, .. } = r;
        let v1 = JsonValue { target, indent: indent + 1 };
        let v2 = op(v1);
        let JsonValueDone { target } = v2;
        JsonArray { target, indent, empty: false }
    }

    /// Writes an element that is a nested object, one level deeper.
    pub fn object<F: FnOnce(JsonObject) -> JsonObject>(self, op: F) -> (r: JsonArray)
        requires
            self.depth() < usize::MAX,
            forall|o: JsonObject|
                (o.text() == self.text() + elem_lead(self.depth(), self.fresh())
                    + open_obj() && o.depth() == self.depth() + 1 && o.fresh())
                    ==> #[trigger] call_requires(op, (o,)),
        ensures
            r.depth() == self.depth(),
            !r.fresh(),
            exists|o1: JsonObject, o2: JsonObject|
                o1.text() == self.text() + elem_lead(self.depth(), self.fresh())
                    + open_obj() && o1.depth() == self.depth() + 1 && o1.fresh()
                    && #[trigger] call_ensures(op, (o1,), o2)
                    && r.text() == o2.text() + close_obj(self.depth()),
    {
        let r = self.append_array_head();
        let JsonArray { mut target, indent, .. } = r;
        append_open(&mut target, '{');
        let o1 = JsonObject { target, indent: indent + 1, empty: true };
        let o2 = op(o1);
        let JsonObject { mut target, .. } = o2;
        append_close(&mut target, indent, '}');
        JsonArray { target, indent, empty: false }
    }

    /// Writes an element that is a nested array, one level deeper.
    pub fn array<F: FnOnce(JsonArray) -> JsonArray>(self, op: F) -> (r: JsonArray)
        requires
            self.depth() < usize::MAX,
            forall|a: JsonArray|
                (a.text() == self.text() + elem_lead(self.depth(), self.fresh())
                    + open_arr() && a.depth() == self.depth() + 1 && a.fresh())
                    ==> #[trigger] call_requires(op, (a,)),
        ensures
            r.depth() == self.depth(),
            !r.fresh(),
            exists|a1: JsonArray, a2: JsonArray|
                a1.text() == self.text() + elem_lead(self.depth(), self.fresh())
                    + open_arr() && a1.depth() == self.depth() + 1 && a1.fresh()
                    && #[trigger] call_ensures(op, (a1,), a2)
                    && r.text() == a2.text() + close_arr(self.depth()),
    {
        let r = self.append_array_head();
        let JsonArray { mut target, indent, .. } = r;
        append_open(&mut target, '[');
        let a1 = JsonArray { target, indent: indent + 1, empty: true };
        let a2 = op(a1);
        let JsonArray { mut target, .. } = a2;
        append_close(&mut target, indent, ']');
        JsonArray { target, indent, empty: false }
    }
}

//------------ JsonBuilder ---------------------------------------------------

/// The entry point: owns the output buffer for the duration of one build
/// and returns the finished text.
///
/// The builder only supports strings without control characters.
pub struct JsonBuilder {
    target: String,
}

impl JsonBuilder {
    /// The output text accumulated so far.
    pub closed spec fn text(&self) -> Seq<char> {
        self.target@
    }

    /// Creates an empty buffer, lets `op` write into it, and returns the
    /// finished text.
    pub fn build<F: FnOnce(JsonBuilder) -> JsonBuilder>(op: F) -> (r: String)
        requires
            forall|b: JsonBuilder|
                b.text() == Seq::<char>::empty() ==> #[trigger] call_requires(op, (b,)),
        ensures
            exists|b1: JsonBuilder, b2: JsonBuilder|
                b1.text() == Seq::<char>::empty() && #[trigger] call_ensures(op, (b1,), b2)
                    && r@ == b2.text(),
    {
        let b1 = JsonBuilder { target: String::new() };
        proof {
            assert(b1.text() =~= Seq::<char>::empty());
        }
        let b2 = op(b1);
        b2.target
    }

    /// Writes one top-level value through a fresh value scope at depth one.
    pub fn value<F: FnOnce(JsonValue) -> JsonValueDone>(self, op: F) -> (r: JsonBuilder)
        requires
            forall|v: JsonValue|
                (v.text() == self.text() && v.depth() == 1) ==> #[trigger] call_requires(
                    op,
                    (v,),
                ),
        ensures
            exists|v1: JsonValue, v2: JsonValueDone|
                v1.text() == self.text() && v1.depth() == 1 && #[trigger] call_ensures(
                    op,
                    (v1,),
                    v2,
                ) && r.text() == v2.text(),
    {
        let JsonBuilder { target } = self;
        let v1 = JsonValue { target, indent: 1 };
        let v2 = op(v1);
        let JsonValueDone { target } = v2;
        JsonBuilder { target }
    }

    /// Writes the top-level value as an object.
    pub fn object<F: FnOnce(JsonObject) -> JsonObject>(self, op: F) -> (r: JsonBuilder)
        requires
            forall|o: JsonObject|
                (o.text() == self.text() + open_obj() && o.depth() == 1 && o.fresh())
                    ==> #[trigger] call_requires(op, (o,)),
        ensures
            exists|o1: JsonObject, o2: JsonObject|
                o1.text() == self.text() + open_obj() && o1.depth() == 1 && o1.fresh()
                    && #[trigger] call_ensures(op, (o1,), o2)
                    && r.text() == o2.text() + close_obj(0),
    {
        let JsonBuilder { mut target } = self;
        append_open(&mut target, '{');
        let o1 = JsonObject { target, indent: 1, empty: true };
        let o2 = op(o1);
        let JsonObject { mut target, .. } = o2;
        append_close(&mut target, 0, '}');
        JsonBuilder { target }
    }

    /// Writes the top-level value as an array.
    pub fn array<F: FnOnce(JsonArray) -> JsonArray>(self, op: F) -> (r: JsonBuilder)
        requires
            forall|a: JsonArray|
                (a.text() == self.text() + open_arr() && a.depth() == 1 && a.fresh())
                    ==> #[trigger] call_requires(op, (a,)),
        ensures
            exists|a1: JsonArray, a2: JsonArray|
                a1.text() == self.text() + open_arr() && a1.depth() == 1 && a1.fresh()
                    && #[trigger] call_ensures(op, (a1,), a2)
                    && r.text() == a2.text() + close_arr(0),
    {
        let JsonBuilder { mut target } = self;
        append_open(&mut target, '[');
        let a1 = JsonArray { target, indent: 1, empty: true };
        let a2 = op(a1);
        let JsonArray { mut target, .. } = a2;
        append_close(&mut target, 0, ']');
        JsonBuilder { target }
    }

    /// Writes the top-level value as a quoted, escaped JSON string.
    pub fn string(self, value: &str) -> (r: JsonBuilder)
        ensures
            r.text() == self.text() + quoted(escaped(value@)),
    {
        let JsonBuilder { mut target } = self;
        append_quoted(&mut target, value);
        JsonBuilder { target }
    }

    /// Writes the top-level value verbatim; the caller vouches that it is
    /// valid JSON.
    pub fn raw(self, value: &str) -> (r: JsonBuilder)
        ensures
            r.text() == self.text() + value@,
    {
        let JsonBuilder { mut target } = self;
        append_raw(&mut target, value);
        JsonBuilder { target }
    }
}

//------------ BuildJson -----------------------------------------------------

/// A type that knows how to render itself as one JSON value.
pub trait BuildJson {
    /// Writes the value of `self` into the given value scope.
    fn build_json(&self, value: JsonValue) -> JsonValueDone;
}

} // verus!
