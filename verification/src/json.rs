//! JSON as the review index reads and writes it.
//!
//! A review is a flat JSON object whose members are strings and unsigned
//! numbers. This module writes such objects in one exact form, the compact
//! form, and reads that form back with a scanner of its own, of which it is
//! proved that it returns what was written. Any other text goes to
//! `serde_json`, whose answer is taken as it comes.

use crate::text::{chars_of, decimal, occurs_at, push_decimal, string_of};
use vstd::prelude::*;

verus! {

// ---------------------------------------------------------------------------
// The model
// ---------------------------------------------------------------------------

/// The value of a member, as far as a review reads it: a string, a number
/// from 0 to `u64::MAX` written as an integer, or anything else.
#[derive(Debug, PartialEq, Eq)]
pub enum JsonValue {
    Text(String),
    Unsigned(u64),
    Other,
}

/// The view of `JsonValue`.
pub enum JsonValueView {
    Text(Seq<char>),
    Unsigned(u64),
    Other,
}

impl View for JsonValue {
    type V = JsonValueView;

    open spec fn view(&self) -> JsonValueView {
        match self {
            JsonValue::Text(t) => JsonValueView::Text(t@),
            JsonValue::Unsigned(n) => JsonValueView::Unsigned(*n),
            JsonValue::Other => JsonValueView::Other,
        }
    }
}

/// A member of an object.
#[derive(Debug, PartialEq, Eq)]
pub struct JsonMember {
    pub name: String,
    pub value: JsonValue,
}

/// The view of `JsonMember`.
pub struct JsonMemberView {
    pub name: Seq<char>,
    pub value: JsonValueView,
}

impl View for JsonMember {
    type V = JsonMemberView;

    open spec fn view(&self) -> JsonMemberView {
        JsonMemberView { name: self.name@, value: self.value@ }
    }
}

impl DeepView for JsonMember {
    type V = JsonMemberView;

    open spec fn deep_view(&self) -> JsonMemberView {
        self@
    }
}

/// A JSON value that may be a review: an object with its members, or
/// anything else.
#[derive(Debug, PartialEq, Eq)]
pub enum JsonItem {
    Object(Vec<JsonMember>),
    Other,
}

/// The view of `JsonItem`.
pub enum JsonItemView {
    Object(Seq<JsonMemberView>),
    Other,
}

impl View for JsonItem {
    type V = JsonItemView;

    open spec fn view(&self) -> JsonItemView {
        match self {
            JsonItem::Object(members) => JsonItemView::Object(members.deep_view()),
            JsonItem::Other => JsonItemView::Other,
        }
    }
}

impl DeepView for JsonItem {
    type V = JsonItemView;

    open spec fn deep_view(&self) -> JsonItemView {
        self@
    }
}

// ---------------------------------------------------------------------------
// Writing
// ---------------------------------------------------------------------------

/// The character of the hexadecimal digit `d`, in lower case.
pub open spec fn hex_char(d: int) -> char
    recommends
        0 <= d < 16,
{
    if d < 10 {
        (48 + d) as char
    } else {
        (87 + d) as char
    }
}

/// A character as it stands inside a JSON string: the quote and the
/// backslash behind a backslash, the control characters below U+0020 by
/// their short names or as `\u00..`, every other character as itself.
pub open spec fn escape_char(c: char) -> Seq<char> {
    if c == '"' {
        seq!['\\', '"']
    } else if c == '\\' {
        seq!['\\', '\\']
    } else if c == '\u{8}' {
        seq!['\\', 'b']
    } else if c == '\u{c}' {
        seq!['\\', 'f']
    } else if c == '\n' {
        seq!['\\', 'n']
    } else if c == '\r' {
        seq!['\\', 'r']
    } else if c == '\t' {
        seq!['\\', 't']
    } else if (c as u32) < 0x20 {
        seq!['\\', 'u', '0', '0', hex_char((c as u32 / 16) as int), hex_char((c as u32 % 16) as int)]
    } else {
        seq![c]
    }
}

/// A text as it stands inside a JSON string.
pub open spec fn escaped(s: Seq<char>) -> Seq<char>
    decreases s.len(),
{
    if s.len() == 0 {
        Seq::empty()
    } else {
        escaped(s.drop_last()) + escape_char(s.last())
    }
}

/// A text as a JSON string.
pub open spec fn quoted(s: Seq<char>) -> Seq<char> {
    seq!['"'] + escaped(s) + seq!['"']
}

/// A string or a number as JSON. Nothing is written for any other value.
pub open spec fn value_text(v: JsonValueView) -> Seq<char> {
    match v {
        JsonValueView::Text(t) => quoted(t),
        JsonValueView::Unsigned(n) => decimal(n as nat),
        JsonValueView::Other => Seq::empty(),
    }
}

/// A member as JSON: its name, a colon, its value.
pub open spec fn member_text(m: JsonMemberView) -> Seq<char> {
    quoted(m.name) + seq![':'] + value_text(m.value)
}

/// Members as JSON, each with a comma behind it.
pub open spec fn listed(members: Seq<JsonMemberView>) -> Seq<char>
    decreases members.len(),
{
    if members.len() == 0 {
        Seq::empty()
    } else {
        listed(members.drop_last()) + member_text(members.last()) + seq![',']
    }
}

/// An object as JSON in the compact form: no white space, the members in
/// the given order.
pub open spec fn object_text(members: Seq<JsonMemberView>) -> Seq<char> {
    if members.len() == 0 {
        seq!['{', '}']
    } else {
        seq!['{'] + listed(members.drop_last()) + member_text(members.last()) + seq!['}']
    }
}

/// Whether the scanner of this module reads the value back: every value
/// but `Other`.
pub open spec fn is_plain(members: Seq<JsonMemberView>) -> bool {
    forall|i: int| 0 <= i < members.len() ==> !((#[trigger] members[i]).value is Other)
}

/// The character of the hexadecimal digit `d`.
fn hex_digit(d: u8) -> (c: char)
    requires
        d < 16,
    ensures
        c == hex_char(d as int),
{
    if d < 10 {
        (48u8 + d) as char
    } else {
        (87u8 + d) as char
    }
}

/// Appends one character as it stands inside a JSON string.
fn push_escaped_char(buf: &mut Vec<char>, c: char)
    ensures
        final(buf)@ == old(buf)@ + escape_char(c),
{
    let n: u32 = c as u32;
    if c == '"' {
        buf.push('\\');
        buf.push('"');
    } else if c == '\\' {
        buf.push('\\');
        buf.push('\\');
    } else if c == '\u{8}' {
        buf.push('\\');
        buf.push('b');
    } else if c == '\u{c}' {
        buf.push('\\');
        buf.push('f');
    } else if c == '\n' {
        buf.push('\\');
        buf.push('n');
    } else if c == '\r' {
        buf.push('\\');
        buf.push('r');
    } else if c == '\t' {
        buf.push('\\');
        buf.push('t');
    } else if n < 0x20 {
        buf.push('\\');
        buf.push('u');
        buf.push('0');
        buf.push('0');
        buf.push(hex_digit((n / 16) as u8));
        buf.push(hex_digit((n % 16) as u8));
    } else {
        buf.push(c);
    }
    assert(buf@ =~= old(buf)@ + escape_char(c));
}

/// Appends `s` as a JSON string.
pub fn push_quoted(buf: &mut Vec<char>, s: &str)
    ensures
        final(buf)@ == old(buf)@ + quoted(s@),
{
    buf.push('"');
    let ghost start = buf@;
    for c in it: s.chars()
        invariant
            it.seq() == s@,
            buf@ == start + escaped(s@.take(it.index())),
    {
        let ghost before = buf@;
        let ghost k = it.index();
        push_escaped_char(buf, c);
        proof {
            assert(s@.take(k + 1).drop_last() =~= s@.take(k));
            assert(s@.take(k + 1).last() == c);
            assert(buf@ =~= start + escaped(s@.take(k + 1)));
        }
    }
    assert(s@.take(s@.len() as int) =~= s@);
    buf.push('"');
    assert(buf@ =~= old(buf)@ + quoted(s@));
}

/// Appends a member whose value is the string `value`.
pub fn push_text_member(buf: &mut Vec<char>, name: &str, value: &str)
    ensures
        final(buf)@ == old(buf)@ + member_text(
            JsonMemberView { name: name@, value: JsonValueView::Text(value@) },
        ),
{
    push_quoted(buf, name);
    buf.push(':');
    push_quoted(buf, value);
    assert(buf@ =~= old(buf)@ + member_text(
        JsonMemberView { name: name@, value: JsonValueView::Text(value@) },
    ));
}

/// Appends a member whose value is the number `value`.
pub fn push_number_member(buf: &mut Vec<char>, name: &str, value: u64)
    ensures
        final(buf)@ == old(buf)@ + member_text(
            JsonMemberView { name: name@, value: JsonValueView::Unsigned(value) },
        ),
{
    push_quoted(buf, name);
    buf.push(':');
    push_decimal(buf, value);
    assert(buf@ =~= old(buf)@ + member_text(
        JsonMemberView { name: name@, value: JsonValueView::Unsigned(value) },
    ));
}

// ---------------------------------------------------------------------------
// Reading the compact form: strings
// ---------------------------------------------------------------------------

/// The value of a hexadecimal digit in lower case, or -1.
pub open spec fn hex_value(c: char) -> int {
    let n = c as u32;
    if 48 <= n <= 57 {
        n - 48
    } else if 97 <= n <= 102 {
        n - 87
    } else {
        -1
    }
}

/// The character that stands at `s[i..]` inside a JSON string, and the
/// index behind it; nothing where no character is written there in the way
/// that `escape_char` writes it.
pub open spec fn unescape_step(s: Seq<char>, i: int) -> Option<(char, int)> {
    if !(0 <= i < s.len()) {
        None
    } else if s[i] == '"' || (s[i] as u32) < 0x20 {
        None
    } else if s[i] != '\\' {
        Some((s[i], i + 1))
    } else if i + 1 >= s.len() {
        None
    } else if s[i + 1] == '"' {
        Some(('"', i + 2))
    } else if s[i + 1] == '\\' {
        Some(('\\', i + 2))
    } else if s[i + 1] == 'b' {
        Some(('\u{8}', i + 2))
    } else if s[i + 1] == 'f' {
        Some(('\u{c}', i + 2))
    } else if s[i + 1] == 'n' {
        Some(('\n', i + 2))
    } else if s[i + 1] == 'r' {
        Some(('\r', i + 2))
    } else if s[i + 1] == 't' {
        Some(('\t', i + 2))
    } else if s[i + 1] == 'u' && i + 5 < s.len() && s[i + 2] == '0' && s[i + 3] == '0' {
        let hi = hex_value(s[i + 4]);
        let lo = hex_value(s[i + 5]);
        let code = 16 * hi + lo;
        if 0 <= hi < 2 && 0 <= lo && code != 8 && code != 9 && code != 10 && code != 12 && code
            != 13 {
            Some((code as char, i + 6))
        } else {
            None
        }
    } else {
        None
    }
}

/// The text of the JSON string whose inside starts at `s[i]`, behind `acc`,
/// and the index behind its closing quote.
pub open spec fn string_body(s: Seq<char>, i: int, acc: Seq<char>) -> Option<(Seq<char>, int)>
    decreases s.len() - i,
{
    if !(0 <= i < s.len()) {
        None
    } else if s[i] == '"' {
        Some((acc, i + 1))
    } else {
        match unescape_step(s, i) {
            Some((c, next)) => string_body(s, next, acc.push(c)),
            None => None,
        }
    }
}

/// The text of the JSON string that starts at `s[i]`, and the index behind
/// it.
pub open spec fn string_at(s: Seq<char>, i: int) -> Option<(Seq<char>, int)> {
    if 0 <= i < s.len() && s[i] == '"' {
        string_body(s, i + 1, Seq::empty())
    } else {
        None
    }
}

/// The value of a hexadecimal digit in lower case.
fn hex_digit_value(c: char) -> (v: Option<u32>)
    ensures
        match v {
            Some(n) => n == hex_value(c) && n < 16,
            None => hex_value(c) == -1,
        },
{
    let n: u32 = c as u32;
    if 48 <= n && n <= 57 {
        Some(n - 48)
    } else if 97 <= n && n <= 102 {
        Some(n - 87)
    } else {
        None
    }
}

/// Reads one character inside a JSON string.
fn read_char(s: &Vec<char>, i: usize) -> (r: Option<(char, usize)>)
    ensures
        match r {
            Some((c, next)) => unescape_step(s@, i as int) == Some((c, next as int)) && i < next
                <= s.len(),
            None => unescape_step(s@, i as int) is None,
        },
{
    let n = s.len();
    if i >= n {
        return None;
    }
    let c = s[i];
    if c == '"' || (c as u32) < 0x20 {
        return None;
    }
    if c != '\\' {
        return Some((c, i + 1));
    }
    if n - i < 2 {
        return None;
    }
    let e = s[i + 1];
    if e == '"' {
        Some(('"', i + 2))
    } else if e == '\\' {
        Some(('\\', i + 2))
    } else if e == 'b' {
        Some(('\u{8}', i + 2))
    } else if e == 'f' {
        Some(('\u{c}', i + 2))
    } else if e == 'n' {
        Some(('\n', i + 2))
    } else if e == 'r' {
        Some(('\r', i + 2))
    } else if e == 't' {
        Some(('\t', i + 2))
    } else if e == 'u' && n - i >= 6 && s[i + 2] == '0' && s[i + 3] == '0' {
        match (hex_digit_value(s[i + 4]), hex_digit_value(s[i + 5])) {
            (Some(hi), Some(lo)) => {
                let code: u32 = 16 * hi + lo;
                if hi < 2 && code != 8 && code != 9 && code != 10 && code != 12 && code != 13 {
                    Some(((code as u8) as char, i + 6))
                } else {
                    None
                }
            },
            _ => None,
        }
    } else {
        None
    }
}

/// Reads the JSON string that starts at `s[i]`.
fn read_string(s: &Vec<char>, i: usize) -> (r: Option<(String, usize)>)
    ensures
        match r {
            Some((text, next)) => string_at(s@, i as int) == Some((text@, next as int)) && i < next
                <= s.len(),
            None => string_at(s@, i as int) is None,
        },
{
    if i >= s.len() || s[i] != '"' {
        return None;
    }
    let mut out = String::new();
    let mut k: usize = i + 1;
    loop
        invariant
            i < k <= s.len(),
            string_at(s@, i as int) == string_body(s@, k as int, out@),
        decreases s.len() - k,
    {
        if k >= s.len() {
            return None;
        }
        if s[k] == '"' {
            return Some((out, k + 1));
        }
        match read_char(s, k) {
            Some((c, next)) => {
                out.push(c);
                k = next;
            },
            None => {
                return None;
            },
        }
    }
}

// ---------------------------------------------------------------------------
// Reading the compact form: numbers
// ---------------------------------------------------------------------------

/// Whether `c` is a decimal digit.
pub open spec fn is_digit(c: char) -> bool {
    48 <= c as u32 <= 57
}

/// The first index at or after `i` that holds no digit, or the length of `s`.
pub open spec fn digits_end(s: Seq<char>, i: int) -> int
    decreases s.len() - i,
{
    if 0 <= i < s.len() && is_digit(s[i]) {
        digits_end(s, i + 1)
    } else {
        i
    }
}

/// The number that the digits `s[from..to]` write.
pub open spec fn digits_value(s: Seq<char>, from: int, to: int) -> nat
    decreases to - from,
{
    if to <= from {
        0
    } else {
        (digits_value(s, from, to - 1) * 10 + (s[to - 1] as u32 - 48)) as nat
    }
}

/// The number written at `s[i..]` and the index behind it: a run of digits
/// that starts with no needless zero and writes at most `u64::MAX`.
pub open spec fn number_at(s: Seq<char>, i: int) -> Option<(u64, int)> {
    let e = digits_end(s, i);
    if !(0 <= i < s.len()) || e == i {
        None
    } else if s[i] == '0' && e > i + 1 {
        None
    } else if digits_value(s, i, e) > u64::MAX {
        None
    } else {
        Some((digits_value(s, i, e) as u64, e))
    }
}

/// What `digits_end` finds: only digits lie before it, and none at it.
pub proof fn lemma_digits_end(s: Seq<char>, i: int)
    requires
        0 <= i <= s.len(),
    ensures
        i <= digits_end(s, i) <= s.len(),
        forall|k: int| i <= k < digits_end(s, i) ==> is_digit(#[trigger] s[k]),
        digits_end(s, i) < s.len() ==> !is_digit(s[digits_end(s, i)]),
    decreases s.len() - i,
{
    if i < s.len() && is_digit(s[i]) {
        lemma_digits_end(s, i + 1);
    }
}

/// More digits write no smaller number.
proof fn lemma_digits_value_grows(s: Seq<char>, from: int, mid: int, to: int)
    requires
        0 <= from <= mid <= to <= s.len(),
        forall|k: int| from <= k < to ==> is_digit(#[trigger] s[k]),
    ensures
        digits_value(s, from, mid) <= digits_value(s, from, to),
    decreases to - mid,
{
    if mid < to {
        lemma_digits_value_grows(s, from, mid, to - 1);
        assert(is_digit(s[to - 1]));
    }
}

/// Reads the number written at `s[i..]`.
fn read_number(s: &Vec<char>, i: usize) -> (r: Option<(u64, usize)>)
    ensures
        match r {
            Some((n, next)) => number_at(s@, i as int) == Some((n, next as int)) && i < next
                <= s.len(),
            None => number_at(s@, i as int) is None,
        },
{
    let len = s.len();
    if i >= len {
        return None;
    }
    let mut e: usize = i;
    while e < len && 48 <= s[e] as u32 && s[e] as u32 <= 57
        invariant
            i <= e <= len == s.len(),
            digits_end(s@, i as int) == digits_end(s@, e as int),
            forall|k: int| i <= k < e ==> is_digit(#[trigger] s@[k]),
        decreases len - e,
    {
        e += 1;
    }
    if e == i {
        return None;
    }
    if s[i] == '0' && e > i + 1 {
        return None;
    }
    let mut value: u128 = 0;
    let mut k: usize = i;
    while k < e
        invariant
            i <= k <= e <= len == s.len(),
            i < e,
            digits_end(s@, i as int) == e,
            !(s@[i as int] == '0' && e > i + 1),
            forall|j: int| i <= j < e ==> is_digit(#[trigger] s@[j]),
            value == digits_value(s@, i as int, k as int),
            value <= u64::MAX,
        decreases e - k,
    {
        assert(is_digit(s@[k as int]));
        let d: u128 = (s[k] as u32 - 48) as u128;
        let next: u128 = value * 10 + d;
        assert(next == digits_value(s@, i as int, k + 1));
        if next > u64::MAX as u128 {
            proof {
                lemma_digits_value_grows(s@, i as int, k + 1, e as int);
            }
            return None;
        }
        value = next;
        k += 1;
    }
    Some((value as u64, e))
}

// ---------------------------------------------------------------------------
// Reading the compact form: members and objects
// ---------------------------------------------------------------------------

/// The value written at `s[i..]`, a string or a number, and the index
/// behind it.
pub open spec fn value_at(s: Seq<char>, i: int) -> Option<(JsonValueView, int)> {
    if 0 <= i < s.len() && s[i] == '"' {
        match string_at(s, i) {
            Some((text, next)) => Some((JsonValueView::Text(text), next)),
            None => None,
        }
    } else {
        match number_at(s, i) {
            Some((n, next)) => Some((JsonValueView::Unsigned(n), next)),
            None => None,
        }
    }
}

/// The member written at `s[i..]` and the index behind it.
pub open spec fn member_at(s: Seq<char>, i: int) -> Option<(JsonMemberView, int)> {
    match string_at(s, i) {
        Some((name, colon)) => if 0 <= colon < s.len() && s[colon] == ':' {
            match value_at(s, colon + 1) {
                Some((value, next)) => Some((JsonMemberView { name, value }, next)),
                None => None,
            }
        } else {
            None
        },
        None => None,
    }
}

/// A string that is read ends behind its start and within the text.
pub proof fn lemma_string_body_advances(s: Seq<char>, i: int, acc: Seq<char>)
    ensures
        string_body(s, i, acc) matches Some((_, next)) ==> i < next <= s.len(),
    decreases s.len() - i,
{
    if 0 <= i < s.len() && s[i] != '"' {
        match unescape_step(s, i) {
            Some((c, next)) => {
                lemma_string_body_advances(s, next, acc.push(c));
            },
            None => {},
        }
    }
}

/// A member that is read ends behind its start and within the text.
pub proof fn lemma_member_at_advances(s: Seq<char>, i: int)
    ensures
        member_at(s, i) matches Some((_, next)) ==> i < next <= s.len(),
{
    if 0 <= i < s.len() {
        lemma_string_body_advances(s, i + 1, Seq::empty());
        match string_at(s, i) {
            Some((name, colon)) => {
                if 0 <= colon < s.len() && s[colon] == ':' {
                    if colon + 1 < s.len() {
                        lemma_string_body_advances(s, colon + 2, Seq::empty());
                        lemma_digits_end(s, colon + 1);
                    }
                }
            },
            None => {},
        }
    }
}

/// The members written from `s[i]` on, behind `acc`, up to the closing
/// brace, and the index behind that brace. A comma stands between two
/// members.
pub open spec fn members_at(s: Seq<char>, i: int, acc: Seq<JsonMemberView>) -> Option<
    (Seq<JsonMemberView>, int),
>
    decreases s.len() - i,
    via members_at_decreases
{
    match member_at(s, i) {
        Some((m, next)) => if 0 <= next < s.len() && s[next] == ',' {
            members_at(s, next + 1, acc.push(m))
        } else if 0 <= next < s.len() && s[next] == '}' {
            Some((acc.push(m), next + 1))
        } else {
            None
        },
        None => None,
    }
}

#[via_fn]
proof fn members_at_decreases(s: Seq<char>, i: int, acc: Seq<JsonMemberView>) {
    lemma_member_at_advances(s, i);
}

/// Whether no two members have the same name.
pub open spec fn distinct_names(members: Seq<JsonMemberView>) -> bool {
    forall|i: int, j: int|
        0 <= i < j < members.len() ==> (#[trigger] members[i]).name != (#[trigger] members[j]).name
}

/// The members of the object that `s` is in the compact form, if it is one
/// and no two of its members have the same name.
pub open spec fn compact_object(s: Seq<char>) -> Option<Seq<JsonMemberView>> {
    match compact_members(s) {
        Some(members) => if distinct_names(members) {
            Some(members)
        } else {
            None
        },
        None => None,
    }
}

/// The members that `s` lists in the compact form, if it is an object in
/// that form.
pub open spec fn compact_members(s: Seq<char>) -> Option<Seq<JsonMemberView>> {
    if s.len() < 2 || s[0] != '{' {
        None
    } else if s[1] == '}' {
        if s.len() == 2 {
            Some(Seq::empty())
        } else {
            None
        }
    } else {
        match members_at(s, 1, Seq::empty()) {
            Some((members, end)) => if end == s.len() {
                Some(members)
            } else {
                None
            },
            None => None,
        }
    }
}

/// Reads the value written at `s[i..]`.
fn read_value(s: &Vec<char>, i: usize) -> (r: Option<(JsonValue, usize)>)
    ensures
        match r {
            Some((v, next)) => value_at(s@, i as int) == Some((v@, next as int)) && i < next
                <= s.len(),
            None => value_at(s@, i as int) is None,
        },
{
    if i < s.len() && s[i] == '"' {
        match read_string(s, i) {
            Some((text, next)) => Some((JsonValue::Text(text), next)),
            None => None,
        }
    } else {
        match read_number(s, i) {
            Some((n, next)) => Some((JsonValue::Unsigned(n), next)),
            None => None,
        }
    }
}

/// Reads the member written at `s[i..]`.
fn read_member(s: &Vec<char>, i: usize) -> (r: Option<(JsonMember, usize)>)
    ensures
        match r {
            Some((m, next)) => member_at(s@, i as int) == Some((m@, next as int)) && i < next
                <= s.len(),
            None => member_at(s@, i as int) is None,
        },
{
    match read_string(s, i) {
        Some((name, colon)) => {
            if colon < s.len() && s[colon] == ':' {
                match read_value(s, colon + 1) {
                    Some((value, next)) => Some((JsonMember { name, value }, next)),
                    None => None,
                }
            } else {
                None
            }
        },
        None => None,
    }
}

/// Whether no two members have the same name.
fn has_distinct_names(members: &Vec<JsonMember>) -> (distinct: bool)
    ensures
        distinct == distinct_names(members.deep_view()),
{
    let ghost all = members.deep_view();
    let mut j: usize = 0;
    while j < members.len()
        invariant
            j <= members.len(),
            all == members.deep_view(),
            forall|a: int, b: int| 0 <= a < b < j ==> all[a].name != all[b].name,
        decreases members.len() - j,
    {
        let mut i: usize = 0;
        while i < j
            invariant
                i <= j < members.len(),
                all == members.deep_view(),
                forall|a: int| 0 <= a < i ==> all[a].name != all[j as int].name,
            decreases j - i,
        {
            assert(all[i as int] == members[i as int]@);
            assert(all[j as int] == members[j as int]@);
            if members[i].name == members[j].name {
                return false;
            }
            i += 1;
        }
        j += 1;
    }
    true
}

/// Reads `s` as an object in the compact form.
pub fn read_compact_object(s: &Vec<char>) -> (r: Option<Vec<JsonMember>>)
    ensures
        match r {
            Some(members) => compact_object(s@) == Some(members.deep_view()),
            None => compact_object(s@) is None,
        },
{
    match scan_compact_object(s) {
        Some(members) => if has_distinct_names(&members) {
            Some(members)
        } else {
            None
        },
        None => None,
    }
}

/// Reads the members that `s` lists in the compact form.
fn scan_compact_object(s: &Vec<char>) -> (r: Option<Vec<JsonMember>>)
    ensures
        match r {
            Some(members) => compact_members(s@) == Some(members.deep_view()),
            None => compact_members(s@) is None,
        },
{
    let len = s.len();
    let mut members: Vec<JsonMember> = Vec::new();
    if len < 2 || s[0] != '{' {
        return None;
    }
    if s[1] == '}' {
        if len == 2 {
            assert(members.deep_view() =~= Seq::<JsonMemberView>::empty());
            return Some(members);
        }
        return None;
    }
    assert(members.deep_view() =~= Seq::<JsonMemberView>::empty());
    let mut i: usize = 1;
    loop
        invariant
            1 <= i <= len == s.len(),
            len >= 2,
            s@[0] == '{',
            s@[1] != '}',
            members_at(s@, 1, Seq::empty()) == members_at(s@, i as int, members.deep_view()),
        decreases len - i,
    {
        match read_member(s, i) {
            Some((m, next)) => {
                let ghost before = members.deep_view();
                let ghost before_members = members@;
                let ghost mv = m@;
                assert(member_at(s@, i as int) == Some((mv, next as int)));
                members.push(m);
                assert(members.deep_view() =~= before.push(mv)) by {
                    assert forall|k: int| 0 <= k < members.len() implies #[trigger] members.deep_view()[k]
                        == before.push(mv)[k] by {
                        if k < members.len() - 1 {
                            assert(members@[k] == before_members[k]);
                        }
                    }
                }
                if next < len && s[next] == ',' {
                    assert(members_at(s@, i as int, before) == members_at(
                        s@,
                        next + 1,
                        before.push(mv),
                    ));
                    i = next + 1;
                } else if next < len && s[next] == '}' {
                    assert(members_at(s@, i as int, before) == Some(
                        (before.push(mv), next + 1),
                    ));
                    if next + 1 == len {
                        return Some(members);
                    }
                    return None;
                } else {
                    assert(members_at(s@, i as int, before) is None);
                    return None;
                }
            },
            None => {
                return None;
            },
        }
    }
}

// ---------------------------------------------------------------------------
// What is written is read back
// ---------------------------------------------------------------------------

/// Where a text stands that is made of two parts, both parts stand, one
/// behind the other.
pub proof fn lemma_occurs_parts(s: Seq<char>, a: Seq<char>, b: Seq<char>, i: int)
    requires
        occurs_at(s, a + b, i),
    ensures
        occurs_at(s, a, i),
        occurs_at(s, b, i + a.len()),
{
    let whole = s.subrange(i, i + (a + b).len());
    assert(s.subrange(i, i + a.len()) =~= a) by {
        assert forall|k: int| 0 <= k < a.len() implies s.subrange(i, i + a.len())[k] == a[k] by {
            assert(whole[k] == (a + b)[k]);
        }
    }
    assert(s.subrange(i + a.len(), i + a.len() + b.len()) =~= b) by {
        assert forall|k: int| 0 <= k < b.len() implies s.subrange(
            i + a.len(),
            i + a.len() + b.len(),
        )[k] == b[k] by {
            assert(whole[a.len() + k] == (a + b)[a.len() + k]);
        }
    }
}

/// Where a text stands, each of its characters stands.
pub proof fn lemma_occurs_char(s: Seq<char>, t: Seq<char>, i: int, k: int)
    requires
        occurs_at(s, t, i),
        0 <= k < t.len(),
    ensures
        s[i + k] == t[k],
{
    assert(s.subrange(i, i + t.len())[k] == t[k]);
}

/// A character that was written is read back.
proof fn lemma_unescape_escaped(s: Seq<char>, i: int, c: char)
    requires
        occurs_at(s, escape_char(c), i),
    ensures
        unescape_step(s, i) == Some((c, i + escape_char(c).len())),
        s[i] != '"',
        escape_char(c).len() >= 1,
{
    let e = escape_char(c);
    lemma_occurs_char(s, e, i, 0);
    if e.len() >= 2 {
        lemma_occurs_char(s, e, i, 1);
    }
    if e.len() == 6 {
        lemma_occurs_char(s, e, i, 2);
        lemma_occurs_char(s, e, i, 3);
        lemma_occurs_char(s, e, i, 4);
        lemma_occurs_char(s, e, i, 5);
        let n = c as u32;
        let hi = (n / 16) as int;
        let lo = (n % 16) as int;
        assert(hex_value(hex_char(hi)) == hi);
        assert(hex_value(hex_char(lo)) == lo);
        assert(16 * hi + lo == n);
        assert((n as int) as char == c);
    }
}

/// A text that was written is read back, whatever was read before it.
proof fn lemma_string_body_escaped(s: Seq<char>, i: int, acc: Seq<char>, t: Seq<char>)
    requires
        occurs_at(s, escaped(t), i),
        i + escaped(t).len() < s.len(),
    ensures
        string_body(s, i, acc) == string_body(s, i + escaped(t).len(), acc + t),
    decreases t.len(),
{
    if t.len() == 0 {
        assert(acc + t =~= acc);
    } else {
        let head = t.drop_last();
        let c = t.last();
        lemma_occurs_parts(s, escaped(head), escape_char(c), i);
        let j = i + escaped(head).len();
        lemma_unescape_escaped(s, j, c);
        lemma_string_body_escaped(s, i, acc, head);
        assert((acc + head).push(c) =~= acc + t);
    }
}

/// A string that was written is read back.
pub proof fn lemma_string_at_quoted(s: Seq<char>, i: int, t: Seq<char>)
    requires
        occurs_at(s, quoted(t), i),
    ensures
        string_at(s, i) == Some((t, i + quoted(t).len())),
        s[i] == '"',
{
    lemma_occurs_parts(s, seq!['"'] + escaped(t), seq!['"'], i);
    lemma_occurs_parts(s, seq!['"'], escaped(t), i);
    lemma_occurs_char(s, seq!['"'], i, 0);
    let end = i + 1 + escaped(t).len();
    lemma_occurs_char(s, seq!['"'], end, 0);
    lemma_string_body_escaped(s, i + 1, Seq::empty(), t);
    assert(Seq::<char>::empty() + t =~= t);
}

/// The decimal form of a number is made of digits, starts with a zero only
/// for 0, and writes that number.
proof fn lemma_decimal_read(s: Seq<char>, i: int, n: nat)
    requires
        occurs_at(s, decimal(n), i),
    ensures
        decimal(n).len() >= 1,
        forall|k: int| i <= k < i + decimal(n).len() ==> is_digit(#[trigger] s[k]),
        digits_value(s, i, i + decimal(n).len()) == n,
        s[i] == '0' ==> n == 0,
        n < 10 ==> decimal(n).len() == 1,
    decreases n,
{
    if n < 10 {
        lemma_occurs_char(s, decimal(n), i, 0);
        assert(digits_value(s, i, i) == 0);
    } else {
        let head = decimal(n / 10);
        let last = seq![crate::text::digit_char((n % 10) as int)];
        assert(decimal(n) =~= head + last);
        lemma_occurs_parts(s, head, last, i);
        lemma_decimal_read(s, i, n / 10);
        lemma_occurs_char(s, last, i + head.len(), 0);
        assert forall|k: int| i <= k < i + decimal(n).len() implies is_digit(#[trigger] s[k]) by {
            if k < i + head.len() {
            } else {
            }
        }
    }
}

/// A run of digits ends where the digits end.
proof fn lemma_digits_end_run(s: Seq<char>, i: int, e: int)
    requires
        0 <= i <= e <= s.len(),
        forall|k: int| i <= k < e ==> is_digit(#[trigger] s[k]),
        e < s.len() ==> !is_digit(s[e]),
    ensures
        digits_end(s, i) == e,
    decreases e - i,
{
    if i < e {
        assert(is_digit(s[i]));
        lemma_digits_end_run(s, i + 1, e);
    }
}

/// A number that was written is read back, where no digit follows it.
pub proof fn lemma_number_at_decimal(s: Seq<char>, i: int, n: u64)
    requires
        occurs_at(s, decimal(n as nat), i),
        i + decimal(n as nat).len() < s.len() ==> !is_digit(s[i + decimal(n as nat).len()]),
    ensures
        number_at(s, i) == Some((n, i + decimal(n as nat).len())),
        s[i] != '"',
{
    lemma_decimal_read(s, i, n as nat);
    lemma_digits_end_run(s, i, i + decimal(n as nat).len());
    assert(is_digit(s[i]));
}

/// A value that was written is read back, where no digit follows it.
pub proof fn lemma_value_at_written(s: Seq<char>, i: int, v: JsonValueView)
    requires
        !(v is Other),
        occurs_at(s, value_text(v), i),
        i + value_text(v).len() < s.len() ==> !is_digit(s[i + value_text(v).len()]),
    ensures
        value_at(s, i) == Some((v, i + value_text(v).len())),
{
    match v {
        JsonValueView::Text(t) => {
            lemma_string_at_quoted(s, i, t);
        },
        JsonValueView::Unsigned(n) => {
            lemma_number_at_decimal(s, i, n);
        },
        JsonValueView::Other => {},
    }
}

/// A member that was written is read back, where no digit follows it.
pub proof fn lemma_member_at_written(s: Seq<char>, i: int, m: JsonMemberView)
    requires
        !(m.value is Other),
        occurs_at(s, member_text(m), i),
        i + member_text(m).len() < s.len() ==> !is_digit(s[i + member_text(m).len()]),
    ensures
        member_at(s, i) == Some((m, i + member_text(m).len())),
        s[i] == '"',
{
    lemma_occurs_parts(s, quoted(m.name) + seq![':'], value_text(m.value), i);
    lemma_occurs_parts(s, quoted(m.name), seq![':'], i);
    lemma_string_at_quoted(s, i, m.name);
    let colon = i + quoted(m.name).len();
    lemma_occurs_char(s, seq![':'], colon, 0);
    lemma_value_at_written(s, colon + 1, m.value);
}

/// Members that were written, each with its comma, are read back, whatever
/// was read before them.
proof fn lemma_members_at_listed(
    s: Seq<char>,
    i: int,
    acc: Seq<JsonMemberView>,
    members: Seq<JsonMemberView>,
)
    requires
        is_plain(members),
        occurs_at(s, listed(members), i),
    ensures
        members_at(s, i, acc) == members_at(s, i + listed(members).len(), acc + members),
    decreases members.len(),
{
    if members.len() == 0 {
        assert(acc + members =~= acc);
    } else {
        let head = members.drop_last();
        let m = members.last();
        assert(is_plain(head)) by {
            assert forall|k: int| 0 <= k < head.len() implies !((#[trigger] head[k]).value
                is Other) by {
                assert(head[k] == members[k]);
            }
        }
        assert(!(m.value is Other)) by {
            assert(m == members[members.len() - 1]);
        }
        lemma_occurs_parts(s, listed(head) + member_text(m), seq![','], i);
        lemma_occurs_parts(s, listed(head), member_text(m), i);
        lemma_members_at_listed(s, i, acc, head);
        let j = i + listed(head).len();
        let comma = j + member_text(m).len();
        lemma_occurs_char(s, seq![','], comma, 0);
        lemma_member_at_written(s, j, m);
        assert(members_at(s, j, acc + head) == members_at(s, comma + 1, (acc + head).push(m)));
        assert((acc + head).push(m) =~= acc + members);
    }
}

/// The text of members with their commas starts with a quote.
proof fn lemma_listed_starts(members: Seq<JsonMemberView>)
    requires
        members.len() > 0,
    ensures
        listed(members).len() > 0,
        listed(members)[0] == '"',
    decreases members.len(),
{
    let head = members.drop_last();
    if head.len() > 0 {
        lemma_listed_starts(head);
    } else {
        assert(listed(head).len() == 0);
    }
}

/// An object that was written in the compact form is read back: the law on
/// which the log rests.
pub proof fn lemma_compact_object_written(members: Seq<JsonMemberView>)
    requires
        is_plain(members),
        distinct_names(members),
    ensures
        compact_object(object_text(members)) == Some(members),
        object_text(members).len() >= 2,
        object_text(members)[0] == '{',
{
    lemma_compact_members_written(members);
}

/// The members of an object that was written in the compact form are read
/// back.
proof fn lemma_compact_members_written(members: Seq<JsonMemberView>)
    requires
        is_plain(members),
    ensures
        compact_members(object_text(members)) == Some(members),
        object_text(members).len() >= 2,
        object_text(members)[0] == '{',
{
    let s = object_text(members);
    if members.len() > 0 {
        let head = members.drop_last();
        let m = members.last();
        assert(is_plain(head)) by {
            assert forall|k: int| 0 <= k < head.len() implies !((#[trigger] head[k]).value
                is Other) by {
                assert(head[k] == members[k]);
            }
        }
        assert(!(m.value is Other)) by {
            assert(m == members[members.len() - 1]);
        }
        let open = seq!['{'];
        let close = seq!['}'];
        assert(s == open + listed(head) + member_text(m) + close);
        assert(occurs_at(s, s, 0)) by {
            assert(s.subrange(0, s.len() as int) =~= s);
        }
        lemma_occurs_parts(s, open + listed(head) + member_text(m), close, 0);
        lemma_occurs_parts(s, open + listed(head), member_text(m), 0);
        lemma_occurs_parts(s, open, listed(head), 0);
        let j: int = 1 + listed(head).len() as int;
        let end: int = j + member_text(m).len();
        lemma_occurs_char(s, open, 0, 0);
        lemma_occurs_char(s, close, end, 0);
        lemma_members_at_listed(s, 1, Seq::empty(), head);
        lemma_member_at_written(s, j, m);
        assert(Seq::<JsonMemberView>::empty() + head =~= head);
        assert(head.push(m) =~= members);
        assert(members_at(s, j, head) == Some((head.push(m), end + 1)));
        assert(s[1] == '"') by {
            if head.len() > 0 {
                lemma_listed_starts(head);
                lemma_occurs_char(s, listed(head), 1, 0);
            }
        }
        assert(end + 1 == s.len());
    }
}

// ---------------------------------------------------------------------------
// Reading any JSON
// ---------------------------------------------------------------------------

/// What `serde_json` makes of a text: for a JSON object its members, in the
/// order in which `serde_json::Map` walks them, each value a string, an
/// unsigned number or `Other`; `Other` for any other JSON value; and for a
/// text that is no JSON the message of `serde_json`'s error.
pub uninterp spec fn parsed_json(text: Seq<char>) -> Result<JsonItemView, Seq<char>>;

/// The outcome of reading an item, by its views.
pub open spec fn item_outcome(r: Result<JsonItem, String>) -> Result<JsonItemView, Seq<char>> {
    match r {
        Ok(item) => Ok(item@),
        Err(message) => Err(message@),
    }
}

/// `serde_json::from_str` at the type `serde_json::Value`, and `as_u64` on
/// each number of an object: the result is `parsed_json` of the text, and
/// depends on nothing else.
#[verifier::external_body]
pub(crate) fn parse_json(text: &str) -> (r: Result<JsonItem, String>)
    ensures
        item_outcome(r) == parsed_json(text@),
{
    match serde_json::from_str::<serde_json::Value>(text) {
        Ok(serde_json::Value::Object(map)) => Ok(JsonItem::Object(map.into_iter().map(|(name, v)| JsonMember {
            name,
            value: match v {
                serde_json::Value::String(t) => JsonValue::Text(t),
                serde_json::Value::Number(n) => n.as_u64().map_or(JsonValue::Other, JsonValue::Unsigned),
                _ => JsonValue::Other,
            },
        }).collect())),
        Ok(_) => Ok(JsonItem::Other),
        Err(e) => Err(e.to_string()),
    }
}

/// What a text is read as: the object that it is in the compact form, or
/// else what `serde_json` makes of it.
pub open spec fn item_of(text: Seq<char>) -> Result<JsonItemView, Seq<char>> {
    match compact_object(text) {
        Some(members) => Ok(JsonItemView::Object(members)),
        None => parsed_json(text),
    }
}

/// Reads a text as JSON.
pub fn read_item(text: &str) -> (r: Result<JsonItem, String>)
    ensures
        item_outcome(r) == item_of(text@),
{
    let chars = chars_of(text);
    match read_compact_object(&chars) {
        Some(members) => Ok(JsonItem::Object(members)),
        None => parse_json(text),
    }
}

/// Reads a text, given by its characters, as JSON.
pub fn read_item_chars(chars: &Vec<char>) -> (r: Result<JsonItem, String>)
    ensures
        item_outcome(r) == item_of(chars@),
{
    match read_compact_object(chars) {
        Some(members) => Ok(JsonItem::Object(members)),
        None => {
            let text = string_of(chars);
            parse_json(text.as_str())
        },
    }
}

} // verus!
