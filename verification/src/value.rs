//! The values that a run context holds, the lookup of a dotted or indexed path in
//! them, and their rendering as text.

use crate::text::{all_digits, chars_of, digits_value, is_digit, string_of, text_eq};
use crate::text::lemma_digits_value_grows;
use vstd::prelude::*;

verus! {

/// A JSON-like value.
#[derive(Debug, PartialEq)]
pub enum Value {
    /// The absent value.
    Null,
    /// `true` or `false`.
    Bool(bool),
    /// A number, in its canonical decimal notation.
    Number(String),
    /// A string.
    Text(String),
    /// A sequence of values.
    Array(Vec<Value>),
    /// Named fields, in the order in which they are written out.
    Object(Vec<(String, Value)>),
}

/// The mathematical content of a `Value`.
pub enum ValueView {
    Null,
    Bool(bool),
    Number(Seq<char>),
    Text(Seq<char>),
    Array(Seq<ValueView>),
    Object(Seq<(Seq<char>, ValueView)>),
}

/// The content of a value.
pub open spec fn content(v: Value) -> ValueView
    decreases v,
{
    match v {
        Value::Null => ValueView::Null,
        Value::Bool(b) => ValueView::Bool(b),
        Value::Number(s) => ValueView::Number(s@),
        Value::Text(s) => ValueView::Text(s@),
        Value::Array(items) => ValueView::Array(contents(items@)),
        Value::Object(fields) => ValueView::Object(field_contents(fields@)),
    }
}

/// The contents of a list of values, item by item.
pub open spec fn contents(items: Seq<Value>) -> Seq<ValueView>
    decreases items,
{
    if items.len() == 0 {
        Seq::empty()
    } else {
        contents(items.drop_last()).push(content(items.last()))
    }
}

/// The contents of a list of named fields, field by field.
pub open spec fn field_contents(fields: Seq<(String, Value)>) -> Seq<(Seq<char>, ValueView)>
    decreases fields,
{
    if fields.len() == 0 {
        Seq::empty()
    } else {
        field_contents(fields.drop_last()).push((fields.last().0@, content(fields.last().1)))
    }
}

impl View for Value {
    type V = ValueView;

    open spec fn view(&self) -> ValueView {
        content(*self)
    }
}

impl DeepView for Value {
    type V = ValueView;

    open spec fn deep_view(&self) -> ValueView {
        self@
    }
}

proof fn lemma_contents(items: Seq<Value>)
    ensures
        contents(items).len() == items.len(),
        forall|i: int| 0 <= i < items.len() ==> (#[trigger] contents(items)[i]) == items[i]@,
    decreases items.len(),
{
    if items.len() > 0 {
        lemma_contents(items.drop_last());
    }
}

proof fn lemma_field_contents(fields: Seq<(String, Value)>)
    ensures
        field_contents(fields).len() == fields.len(),
        forall|i: int|
            0 <= i < fields.len() ==> (#[trigger] field_contents(fields)[i]) == (
                fields[i].0@,
                fields[i].1@,
            ),
    decreases fields.len(),
{
    if fields.len() > 0 {
        lemma_field_contents(fields.drop_last());
    }
}

/// The view of an array is the sequence of its items' views.
pub proof fn lemma_array_view(items: Vec<Value>)
    ensures
        Value::Array(items)@ == ValueView::Array(items.deep_view()),
{
    lemma_contents(items@);
    assert(contents(items@) =~= items.deep_view());
}

/// The view of an object is the sequence of its fields' views.
pub proof fn lemma_object_view(fields: Vec<(String, Value)>)
    ensures
        Value::Object(fields)@ == ValueView::Object(fields.deep_view()),
{
    lemma_field_contents(fields@);
    assert(field_contents(fields@) =~= fields.deep_view());
}

/// The value that a list of fields gives to `key`: that of the last field with
/// this name.
pub open spec fn field(fields: Seq<(Seq<char>, ValueView)>, key: Seq<char>) -> Option<ValueView>
    decreases fields.len(),
{
    if fields.len() == 0 {
        None
    } else if fields.last().0 == key {
        Some(fields.last().1)
    } else {
        field(fields.drop_last(), key)
    }
}

/// The position in an array that a path segment names: digits only, without a
/// leading zero unless it is the single digit `0`, and within the machine's range.
pub open spec fn array_index(segment: Seq<char>) -> Option<int> {
    if segment.len() > 0 && all_digits(segment) && !(segment[0] == '0' && segment.len() != 1)
        && digits_value(segment) <= usize::MAX {
        Some(digits_value(segment))
    } else {
        None
    }
}

impl ValueView {
    /// The value one segment below this one.
    pub open spec fn child(self, segment: Seq<char>) -> Option<ValueView> {
        match self {
            ValueView::Object(fields) => field(fields, segment),
            ValueView::Array(items) => match array_index(segment) {
                Some(i) => if i < items.len() {
                    Some(items[i])
                } else {
                    None
                },
                None => None,
            },
            _ => None,
        }
    }

    /// The value reached by following `segments` from this one.
    pub open spec fn descend(self, segments: Seq<Seq<char>>) -> Option<ValueView>
        decreases segments.len(),
    {
        if segments.len() == 0 {
            Some(self)
        } else {
            match self.child(segments[0]) {
                Some(next) => next.descend(segments.drop_first()),
                None => None,
            }
        }
    }
}

/// The pieces of a path: a `.`, a `[` or a `/` starts a new piece, a `]` is
/// dropped.
pub open spec fn raw_segments(path: Seq<char>) -> Seq<Seq<char>>
    decreases path.len(),
{
    if path.len() == 0 {
        seq![Seq::<char>::empty()]
    } else {
        let before = raw_segments(path.drop_last());
        let c = path.last();
        if c == '.' || c == '[' || c == '/' {
            before.push(Seq::<char>::empty())
        } else if c == ']' {
            before
        } else {
            before.drop_last().push(before.last().push(c))
        }
    }
}

/// `s` with `with` in place of each `~` that `second` follows, taken from left to
/// right.
pub open spec fn replaced(s: Seq<char>, second: char, with: char) -> Seq<char>
    decreases s.len(),
{
    if s.len() < 2 {
        s
    } else if s[0] == '~' && s[1] == second {
        seq![with] + replaced(s.skip(2), second, with)
    } else {
        seq![s[0]] + replaced(s.skip(1), second, with)
    }
}

/// A piece of a path as the name that it stands for: `~1` stands for `/`, and
/// after that `~0` for `~`.
pub open spec fn unescaped(piece: Seq<char>) -> Seq<char> {
    replaced(replaced(piece, '1', '/'), '0', '~')
}

/// The segments of a path: its pieces, each as the name that it stands for.
pub open spec fn path_segments(path: Seq<char>) -> Seq<Seq<char>> {
    raw_segments(path).map_values(|piece: Seq<char>| unescaped(piece))
}

proof fn lemma_raw_segments_nonempty(path: Seq<char>)
    ensures
        raw_segments(path).len() >= 1,
    decreases path.len(),
{
    if path.len() > 0 {
        lemma_raw_segments_nonempty(path.drop_last());
    }
}

/// A path has at least one segment.
pub proof fn lemma_path_segments_nonempty(path: Seq<char>)
    ensures
        path_segments(path).len() >= 1,
{
    lemma_raw_segments_nonempty(path);
}

fn hrw_raw_segments(path: &Vec<char>) -> (segments: Vec<Vec<char>>)
    ensures
        segments.deep_view() == raw_segments(path@),
{
    let mut done: Vec<Vec<char>> = Vec::new();
    let mut current: Vec<char> = Vec::new();
    let mut i: usize = 0;
    assert(path@.take(0) =~= Seq::<char>::empty());
    assert(done.deep_view().push(current@) =~~= seq![Seq::<char>::empty()]);
    while i < path.len()
        invariant
            i <= path.len(),
            done.deep_view().push(current@) == raw_segments(path@.take(i as int)),
        decreases path.len() - i,
    {
        let ghost before = done.deep_view().push(current@);
        let ghost next = path@.take(i as int + 1);
        assert(next.drop_last() =~= path@.take(i as int));
        assert(next.last() == path@[i as int]);
        let c = path[i];
        if c == '.' || c == '[' || c == '/' {
            done.push(current);
            current = Vec::new();
            assert(done.deep_view().push(current@) =~~= before.push(Seq::<char>::empty()));
        } else if c == ']' {
        } else {
            current.push(c);
            assert(done.deep_view().push(current@) =~~= before.drop_last().push(
                before.last().push(c),
            ));
        }
        i += 1;
    }
    assert(path@.take(i as int) =~= path@);
    let ghost all = done.deep_view().push(current@);
    done.push(current);
    assert(done.deep_view() =~~= all);
    done
}

/// Puts `with` in place of each `~` that `second` follows.
pub fn hrw_replace(s: &Vec<char>, second: char, with: char) -> (out: Vec<char>)
    ensures
        out@ == replaced(s@, second, with),
{
    let mut out: Vec<char> = Vec::new();
    let mut i: usize = 0;
    assert(s@.skip(0) =~= s@);
    assert(out@ + replaced(s@, second, with) =~= replaced(s@, second, with));
    while i < s.len()
        invariant
            i <= s.len(),
            replaced(s@, second, with) == out@ + replaced(s@.skip(i as int), second, with),
        decreases s.len() - i,
    {
        let ghost before = out@;
        let ghost rest = s@.skip(i as int);
        assert(rest[0] == s@[i as int]);
        if s.len() - i >= 2 && s[i] == '~' && s[i + 1] == second {
            assert(rest[1] == s@[i as int + 1]);
            assert(rest.skip(2) =~= s@.skip(i as int + 2));
            out.push(with);
            assert(before + (seq![with] + replaced(rest.skip(2), second, with)) =~= out@
                + replaced(rest.skip(2), second, with));
            i += 2;
        } else {
            if s.len() - i >= 2 {
                assert(rest[1] == s@[i as int + 1]);
                assert(rest.skip(1) =~= s@.skip(i as int + 1));
                assert(before + (seq![rest[0]] + replaced(rest.skip(1), second, with)) =~= before.push(
                    rest[0],
                ) + replaced(rest.skip(1), second, with));
            } else {
                assert(rest =~= seq![s@[i as int]]);
                assert(s@.skip(i as int + 1) =~= Seq::<char>::empty());
                assert(before + rest =~= before.push(rest[0]) + Seq::<char>::empty());
            }
            out.push(s[i]);
            i += 1;
        }
    }
    assert(s@.skip(i as int) =~= Seq::<char>::empty());
    assert(out@ + Seq::<char>::empty() =~= out@);
    out
}

/// Cuts a path into its segments.
pub fn hrw_path_segments(path: &Vec<char>) -> (segments: Vec<Vec<char>>)
    ensures
        segments.deep_view() == path_segments(path@),
{
    let pieces = hrw_raw_segments(path);
    let mut segments: Vec<Vec<char>> = Vec::new();
    let mut i: usize = 0;
    while i < pieces.len()
        invariant
            i <= pieces.len(),
            pieces.deep_view() == raw_segments(path@),
            segments.deep_view() == path_segments(path@).take(i as int),
        decreases pieces.len() - i,
    {
        let ghost before = segments.deep_view();
        let name = hrw_replace(&hrw_replace(&pieces[i], '1', '/'), '0', '~');
        assert(pieces@[i as int]@ =~= pieces.deep_view()[i as int]);
        segments.push(name);
        assert(segments.deep_view() =~~= before.push(unescaped(pieces.deep_view()[i as int])));
        assert(segments.deep_view() =~~= path_segments(path@).take(i as int + 1));
        i += 1;
    }
    assert(path_segments(path@).take(i as int) =~= path_segments(path@));
    segments
}

proof fn lemma_field_after(fields: Seq<(Seq<char>, ValueView)>, key: Seq<char>, k: int)
    requires
        0 <= k <= fields.len(),
        forall|j: int| k <= j < fields.len() ==> (#[trigger] fields[j]).0 != key,
    ensures
        field(fields, key) == field(fields.take(k), key),
    decreases fields.len() - k,
{
    if k < fields.len() {
        assert(fields[fields.len() - 1].0 != key);
        assert(fields.drop_last().take(k) =~= fields.take(k));
        assert forall|j: int| k <= j < fields.drop_last().len() implies (
        #[trigger] fields.drop_last()[j]).0 != key by {
            assert(fields.drop_last()[j] == fields[j]);
        }
        lemma_field_after(fields.drop_last(), key, k);
    } else {
        assert(fields.take(k) =~= fields);
    }
}

/// The last field named `key`.
pub fn find_field<'a>(fields: &'a Vec<(String, Value)>, key: &str) -> (r: Option<usize>)
    ensures
        match r {
            Some(i) => i < fields.len() && fields@[i as int].0@ == key@ && field(
                fields.deep_view(),
                key@,
            ) == Some(fields@[i as int].1@) && forall|j: int|
                i < j < fields.len() ==> (#[trigger] fields@[j]).0@ != key@,
            None => field(fields.deep_view(), key@) is None && forall|j: int|
                0 <= j < fields.len() ==> (#[trigger] fields@[j]).0@ != key@,
        },
{
    let mut i: usize = fields.len();
    while i > 0
        invariant
            i <= fields.len(),
            forall|j: int| i <= j < fields.len() ==> (#[trigger] fields@[j]).0@ != key@,
        decreases i,
    {
        if text_eq(fields[i - 1].0.as_str(), key) {
            proof {
                let all = fields.deep_view();
                assert forall|j: int| i <= j < all.len() implies (#[trigger] all[j]).0 != key@ by {
                    assert(fields@[j].0@ != key@);
                }
                lemma_field_after(all, key@, i as int);
                assert(all.take(i as int).last() == all[i - 1]);
            }
            return Some(i - 1);
        }
        i -= 1;
    }
    proof {
        let all = fields.deep_view();
        assert forall|j: int| 0 <= j < all.len() implies (#[trigger] all[j]).0 != key@ by {
            assert(fields@[j].0@ != key@);
        }
        lemma_field_after(all, key@, 0);
    }
    None
}

/// Reads a path segment as a position in an array.
pub fn hrw_array_index(segment: &Vec<char>) -> (r: Option<usize>)
    ensures
        match r {
            Some(i) => array_index(segment@) == Some(i as int),
            None => array_index(segment@) is None,
        },
{
    if segment.len() == 0 {
        return None;
    }
    if segment[0] == '0' && segment.len() != 1 {
        return None;
    }
    let mut acc: usize = 0;
    let mut i: usize = 0;
    assert(segment@.take(0) =~= Seq::<char>::empty());
    while i < segment.len()
        invariant
            i <= segment.len(),
            all_digits(segment@.take(i as int)),
            acc == digits_value(segment@.take(i as int)),
        decreases segment.len() - i,
    {
        let c = segment[i];
        let ghost seen = segment@.take(i as int);
        let ghost next = segment@.take(i as int + 1);
        assert(next.drop_last() =~= seen);
        assert(next.last() == c);
        if !('0' <= c && c <= '9') {
            assert(!is_digit(segment@[i as int]));
            return None;
        }
        assert forall|j: int| 0 <= j < next.len() implies is_digit(#[trigger] next[j]) by {
            if j < seen.len() {
                assert(is_digit(seen[j]));
            }
        }
        let d: usize = ((c as u32) - ('0' as u32)) as usize;
        let grown = match acc.checked_mul(10) {
            Some(m) => m.checked_add(d),
            None => None,
        };
        match grown {
            Some(g) => {
                acc = g;
            },
            None => {
                proof {
                    if all_digits(segment@) {
                        lemma_digits_value_grows(segment@, i as int + 1);
                    }
                }
                return None;
            },
        }
        i += 1;
    }
    assert(segment@.take(i as int) =~= segment@);
    Some(acc)
}

impl Value {
    /// The value one segment below this one.
    pub fn child(&self, segment: &Vec<char>) -> (r: Option<&Value>)
        ensures
            r.deep_view() == self@.child(segment@),
    {
        match self {
            Value::Object(fields) => {
                proof {
                    lemma_object_view(*fields);
                }
                let key = string_of(segment);
                match find_field(fields, key.as_str()) {
                    Some(i) => Some(&fields[i].1),
                    None => None,
                }
            },
            Value::Array(items) => {
                proof {
                    lemma_array_view(*items);
                }
                match hrw_array_index(segment) {
                    Some(i) => if i < items.len() {
                        Some(&items[i])
                    } else {
                        None
                    },
                    None => None,
                }
            },
            _ => None,
        }
    }
}

/// The character that writes the hexadecimal digit `d` in lower case.
pub open spec fn hex_digit(d: int) -> char {
    if d < 10 {
        (('0' as int) + d) as char
    } else {
        (('a' as int) + d - 10) as char
    }
}

/// How a character stands inside a JSON string literal: the double quote and the
/// backslash behind a backslash, the control characters below U+0020 by their
/// short escapes or as `\u00` and two hexadecimal digits, any other character as
/// itself.
pub open spec fn escaped(c: char) -> Seq<char> {
    let n = c as u32;
    if c == '"' {
        seq!['\\', '"']
    } else if c == '\\' {
        seq!['\\', '\\']
    } else if n == 0x8 {
        seq!['\\', 'b']
    } else if n == 0x9 {
        seq!['\\', 't']
    } else if n == 0xa {
        seq!['\\', 'n']
    } else if n == 0xc {
        seq!['\\', 'f']
    } else if n == 0xd {
        seq!['\\', 'r']
    } else if n < 0x20 {
        seq!['\\', 'u', '0', '0', hex_digit(n as int / 16), hex_digit(n as int % 16)]
    } else {
        seq![c]
    }
}

/// The characters of `s`, each as it stands inside a JSON string literal.
pub open spec fn escaped_text(s: Seq<char>) -> Seq<char>
    decreases s.len(),
{
    if s.len() == 0 {
        Seq::empty()
    } else {
        escaped_text(s.drop_last()) + escaped(s.last())
    }
}

/// The JSON string literal that writes `s`: the escaped characters between two
/// double quotes.
pub open spec fn json_quoted(s: Seq<char>) -> Seq<char> {
    seq!['"'] + escaped_text(s) + seq!['"']
}

/// `serde_json::to_string` on a string: the JSON string literal of the string.
/// The call writes into memory and cannot fail.
#[verifier::external_body]
pub(crate) fn json_quote(s: &str) -> (r: String)
    ensures
        r@ == json_quoted(s@),
{
    serde_json::to_string(s).unwrap_or_default()
}

/// The compact JSON text of a value: no whitespace, items separated by commas,
/// fields written as a quoted name, a colon and the value.
pub open spec fn compact(v: ValueView) -> Seq<char>
    decreases v,
{
    match v {
        ValueView::Null => seq!['n', 'u', 'l', 'l'],
        ValueView::Bool(b) => if b {
            seq!['t', 'r', 'u', 'e']
        } else {
            seq!['f', 'a', 'l', 's', 'e']
        },
        ValueView::Number(t) => t,
        ValueView::Text(s) => json_quoted(s),
        ValueView::Array(items) => seq!['['] + compact_items(items) + seq![']'],
        ValueView::Object(fields) => seq!['{'] + compact_fields(fields) + seq!['}'],
    }
}

/// The compact texts of `items`, separated by commas.
pub open spec fn compact_items(items: Seq<ValueView>) -> Seq<char>
    decreases items,
{
    if items.len() == 0 {
        Seq::empty()
    } else if items.len() == 1 {
        compact(items.last())
    } else {
        compact_items(items.drop_last()) + seq![','] + compact(items.last())
    }
}

/// The compact texts of `fields`, separated by commas.
pub open spec fn compact_fields(fields: Seq<(Seq<char>, ValueView)>) -> Seq<char>
    decreases fields,
{
    if fields.len() == 0 {
        Seq::empty()
    } else if fields.len() == 1 {
        json_quoted(fields.last().0) + seq![':'] + compact(fields.last().1)
    } else {
        compact_fields(fields.drop_last()) + seq![','] + json_quoted(fields.last().0) + seq![':']
            + compact(fields.last().1)
    }
}

/// What a value contributes to an interpolated text: nothing for `Null`, the
/// canonical notation of a boolean or a number, the characters of a string, and
/// the compact JSON text of an array or an object.
pub open spec fn rendered(v: ValueView) -> Seq<char> {
    match v {
        ValueView::Null => Seq::empty(),
        ValueView::Text(s) => s,
        _ => compact(v),
    }
}

/// Appends the characters of `more` to `out`.
pub fn push_all(out: &mut Vec<char>, more: &Vec<char>)
    ensures
        final(out)@ == old(out)@ + more@,
{
    let mut i: usize = 0;
    while i < more.len()
        invariant
            i <= more.len(),
            out@ == old(out)@ + more@.take(i as int),
        decreases more.len() - i,
    {
        out.push(more[i]);
        assert(more@.take(i as int + 1) =~= more@.take(i as int).push(more@[i as int]));
        i += 1;
    }
    assert(more@.take(i as int) =~= more@);
}

impl Value {
    /// Appends the compact JSON text of this value to `out`.
    pub fn write_compact(&self, out: &mut Vec<char>)
        ensures
            final(out)@ == old(out)@ + compact(self@),
        decreases self,
    {
        match self {
            Value::Null => {
                out.push('n');
                out.push('u');
                out.push('l');
                out.push('l');
                assert(out@ =~= old(out)@ + seq!['n', 'u', 'l', 'l']);
            },
            Value::Bool(b) => {
                if *b {
                    out.push('t');
                    out.push('r');
                    out.push('u');
                    out.push('e');
                    assert(out@ =~= old(out)@ + seq!['t', 'r', 'u', 'e']);
                } else {
                    out.push('f');
                    out.push('a');
                    out.push('l');
                    out.push('s');
                    out.push('e');
                    assert(out@ =~= old(out)@ + seq!['f', 'a', 'l', 's', 'e']);
                }
            },
            Value::Number(t) => {
                let chars = chars_of(t.as_str());
                push_all(out, &chars);
            },
            Value::Text(s) => {
                let chars = chars_of(json_quote(s.as_str()).as_str());
                push_all(out, &chars);
            },
            Value::Array(items) => {
                proof {
                    lemma_array_view(*items);
                }
                out.push('[');
                let ghost start = out@;
                let mut i: usize = 0;
                assert(items.deep_view().take(0) =~= Seq::<ValueView>::empty());
                assert(out@ =~= start + Seq::<char>::empty());
                while i < items.len()
                    invariant
                        i <= items.len(),
                        *self matches Value::Array(v) && v == *items,
                        out@ == start + compact_items(items.deep_view().take(i as int)),
                    decreases items.len() - i,
                {
                    let ghost seen = items.deep_view().take(i as int);
                    let ghost next = items.deep_view().take(i as int + 1);
                    assert(next.drop_last() =~= seen);
                    assert(next.last() == items@[i as int]@);
                    if i > 0 {
                        out.push(',');
                    }
                    items[i].write_compact(out);
                    proof {
                        let item = compact(items@[i as int]@);
                        if i > 0 {
                            assert(out@ =~= start + (compact_items(seen) + seq![','] + item));
                        } else {
                            assert(compact_items(seen) =~= Seq::<char>::empty());
                            assert(out@ =~= start + item);
                        }
                    }
                    i += 1;
                }
                assert(items.deep_view().take(i as int) =~= items.deep_view());
                out.push(']');
                assert(out@ =~= old(out)@ + (seq!['['] + compact_items(items.deep_view())
                    + seq![']']));
            },
            Value::Object(fields) => {
                proof {
                    lemma_object_view(*fields);
                }
                out.push('{');
                let ghost start = out@;
                let mut i: usize = 0;
                assert(fields.deep_view().take(0) =~= Seq::<(Seq<char>, ValueView)>::empty());
                assert(out@ =~= start + Seq::<char>::empty());
                while i < fields.len()
                    invariant
                        i <= fields.len(),
                        *self matches Value::Object(v) && v == *fields,
                        out@ == start + compact_fields(fields.deep_view().take(i as int)),
                    decreases fields.len() - i,
                {
                    let ghost seen = fields.deep_view().take(i as int);
                    let ghost next = fields.deep_view().take(i as int + 1);
                    assert(next.drop_last() =~= seen);
                    assert(next.last() == (fields@[i as int].0@, fields@[i as int].1@));
                    if i > 0 {
                        out.push(',');
                    }
                    let name = chars_of(json_quote(fields[i].0.as_str()).as_str());
                    push_all(out, &name);
                    out.push(':');
                    fields[i].1.write_compact(out);
                    proof {
                        let name = json_quoted(fields@[i as int].0@);
                        let item = compact(fields@[i as int].1@);
                        if i > 0 {
                            assert(out@ =~= start + (compact_fields(seen) + seq![','] + name
                                + seq![':'] + item));
                        } else {
                            assert(compact_fields(seen) =~= Seq::<char>::empty());
                            assert(out@ =~= start + (name + seq![':'] + item));
                        }
                    }
                    i += 1;
                }
                assert(fields.deep_view().take(i as int) =~= fields.deep_view());
                out.push('}');
                assert(out@ =~= old(out)@ + (seq!['{'] + compact_fields(fields.deep_view())
                    + seq!['}']));
            },
        }
    }

    /// The text that this value contributes to an interpolated string.
    pub fn hrw_render(&self) -> (r: Vec<char>)
        ensures
            r@ == rendered(self@),
    {
        match self {
            Value::Null => Vec::new(),
            Value::Text(s) => chars_of(s.as_str()),
            _ => {
                let mut out: Vec<char> = Vec::new();
                self.write_compact(&mut out);
                assert(out@ =~= compact(self@));
                out
            },
        }
    }
}

} // verus!
