//! Reviews and records as JSON objects: which members make a record, how a
//! record is written as one line, and how a line is read as a record.

use crate::json::{
    distinct_names, escape_char, escaped, is_plain, item_of, lemma_compact_object_written, listed, member_text,
    object_text, push_number_member, push_text_member, quoted, read_item, read_item_chars,
    value_text, JsonItem,
    JsonItemView, JsonMember, JsonMemberView, JsonValue, JsonValueView,
};
use crate::models::{ReviewData, ReviewDataView, ReviewMetadata, ReviewMetadataView};
use crate::stamp::{is_utc_instant, parses_as_instant};
use crate::text::{chars_of, decimal, push_decimal, push_str, string_of};
use vstd::prelude::*;

verus! {

// ---------------------------------------------------------------------------
// Looking up members
// ---------------------------------------------------------------------------

/// The value of the first member at or after `i` that is called `name`.
pub open spec fn find_member(members: Seq<JsonMemberView>, name: Seq<char>, i: int) -> Option<
    JsonValueView,
>
    decreases members.len() - i,
{
    if 0 <= i < members.len() {
        if members[i].name == name {
            Some(members[i].value)
        } else {
            find_member(members, name, i + 1)
        }
    } else {
        None
    }
}

/// The words for a member that is not there.
pub open spec fn missing_field(name: Seq<char>) -> Seq<char> {
    "missing field `"@ + name + "`"@
}

/// The words for a member that should hold a string and holds none.
pub open spec fn not_a_string(name: Seq<char>) -> Seq<char> {
    "field `"@ + name + "` is not a string"@
}

/// The words for a member that should hold a number up to `max` and holds none.
pub open spec fn not_in_range(name: Seq<char>, max: u64) -> Seq<char> {
    "field `"@ + name + "` is not an integer from 0 to "@ + decimal(max as nat)
}

/// The string that the member `name` holds, or why there is none.
pub open spec fn text_field(members: Seq<JsonMemberView>, name: Seq<char>) -> Result<
    Seq<char>,
    Seq<char>,
> {
    match find_member(members, name, 0) {
        None => Err(missing_field(name)),
        Some(JsonValueView::Text(t)) => Ok(t),
        Some(_) => Err(not_a_string(name)),
    }
}

/// The number up to `max` that the member `name` holds, or why there is
/// none.
pub open spec fn number_field(members: Seq<JsonMemberView>, name: Seq<char>, max: u64) -> Result<
    u64,
    Seq<char>,
> {
    match find_member(members, name, 0) {
        None => Err(missing_field(name)),
        Some(JsonValueView::Unsigned(n)) => if n <= max {
            Ok(n)
        } else {
            Err(not_in_range(name, max))
        },
        Some(_) => Err(not_in_range(name, max)),
    }
}

/// Whether two texts are the same.
pub fn same_text(a: &str, b: &str) -> (same: bool)
    ensures
        same == (a@ == b@),
{
    let x = chars_of(a);
    let y = chars_of(b);
    if x.len() != y.len() {
        return false;
    }
    let mut i: usize = 0;
    while i < x.len()
        invariant
            i <= x.len() == y.len(),
            x@ == a@,
            y@ == b@,
            forall|k: int| 0 <= k < i ==> x@[k] == y@[k],
        decreases x.len() - i,
    {
        if x[i] != y[i] {
            return false;
        }
        i += 1;
    }
    assert(x@ =~= y@);
    true
}

/// The place of the first member that is called `name`.
fn find(members: &Vec<JsonMember>, name: &str) -> (r: Option<usize>)
    ensures
        match r {
            Some(at) => at < members.len() && find_member(members.deep_view(), name@, 0) == Some(
                members[at as int].value@,
            ),
            None => find_member(members.deep_view(), name@, 0) is None,
        },
{
    let mut i: usize = 0;
    while i < members.len()
        invariant
            i <= members.len(),
            find_member(members.deep_view(), name@, 0) == find_member(
                members.deep_view(),
                name@,
                i as int,
            ),
        decreases members.len() - i,
    {
        assert(members.deep_view()[i as int] == members[i as int]@);
        if same_text(members[i].name.as_str(), name) {
            return Some(i);
        }
        i += 1;
    }
    None
}

/// The outcome of looking up a string, by its views.
pub open spec fn text_outcome(r: Result<String, String>) -> Result<Seq<char>, Seq<char>> {
    match r {
        Ok(t) => Ok(t@),
        Err(m) => Err(m@),
    }
}

/// The outcome of looking up a number, by its views.
pub open spec fn number_outcome(r: Result<u64, String>) -> Result<u64, Seq<char>> {
    match r {
        Ok(n) => Ok(n),
        Err(m) => Err(m@),
    }
}

/// The words for a member that is not there.
fn missing(name: &str) -> (out: String)
    ensures
        out@ == missing_field(name@),
{
    let mut buf: Vec<char> = Vec::new();
    push_str(&mut buf, "missing field `");
    push_str(&mut buf, name);
    push_str(&mut buf, "`");
    assert(buf@ =~= missing_field(name@));
    string_of(&buf)
}

/// The string that the member `name` holds.
fn get_text(members: &Vec<JsonMember>, name: &str) -> (r: Result<String, String>)
    ensures
        text_outcome(r) == text_field(members.deep_view(), name@),
{
    match find(members, name) {
        None => Err(missing(name)),
        Some(at) => match &members[at].value {
            JsonValue::Text(t) => Ok(t.clone()),
            _ => {
                let mut buf: Vec<char> = Vec::new();
                push_str(&mut buf, "field `");
                push_str(&mut buf, name);
                push_str(&mut buf, "` is not a string");
                assert(buf@ =~= not_a_string(name@));
                Err(string_of(&buf))
            },
        },
    }
}

/// The number up to `max` that the member `name` holds.
fn get_number(members: &Vec<JsonMember>, name: &str, max: u64) -> (r: Result<u64, String>)
    ensures
        number_outcome(r) == number_field(members.deep_view(), name@, max),
{
    match find(members, name) {
        None => Err(missing(name)),
        Some(at) => {
            if let JsonValue::Unsigned(n) = &members[at].value {
                if *n <= max {
                    return Ok(*n);
                }
            }
            let mut buf: Vec<char> = Vec::new();
            push_str(&mut buf, "field `");
            push_str(&mut buf, name);
            push_str(&mut buf, "` is not an integer from 0 to ");
            push_decimal(&mut buf, max);
            assert(buf@ =~= not_in_range(name@, max));
            Err(string_of(&buf))
        },
    }
}

// ---------------------------------------------------------------------------
// Reviews
// ---------------------------------------------------------------------------

/// The review that an item is: an object with the strings `title`, `body`
/// and `product_id` and the number `rating` up to 255. Other members do not
/// count. The first of these that is missing or of another kind, in this
/// order, is the failure.
pub open spec fn review_of(item: JsonItemView) -> Result<ReviewDataView, Seq<char>> {
    match item {
        JsonItemView::Other => Err("expected a JSON object"@),
        JsonItemView::Object(members) => match text_field(members, "title"@) {
            Err(e) => Err(e),
            Ok(title) => match text_field(members, "body"@) {
                Err(e) => Err(e),
                Ok(body) => match text_field(members, "product_id"@) {
                    Err(e) => Err(e),
                    Ok(product_id) => match number_field(members, "rating"@, 255) {
                        Err(e) => Err(e),
                        Ok(rating) => Ok(
                            ReviewDataView { title, body, product_id, rating: rating as u8 },
                        ),
                    },
                },
            },
        },
    }
}

/// The outcome of reading a review, by its views.
pub open spec fn review_outcome(r: Result<ReviewData, String>) -> Result<
    ReviewDataView,
    Seq<char>,
> {
    match r {
        Ok(review) => Ok(review@),
        Err(m) => Err(m@),
    }
}

/// Reads an item as a review.
pub fn review_from_item(item: &JsonItem) -> (r: Result<ReviewData, String>)
    ensures
        review_outcome(r) == review_of(item@),
{
    match item {
        JsonItem::Other => Err("expected a JSON object".to_owned()),
        JsonItem::Object(members) => {
            let title = match get_text(members, "title") {
                Ok(t) => t,
                Err(e) => {
                    return Err(e);
                },
            };
            let body = match get_text(members, "body") {
                Ok(t) => t,
                Err(e) => {
                    return Err(e);
                },
            };
            let product_id = match get_text(members, "product_id") {
                Ok(t) => t,
                Err(e) => {
                    return Err(e);
                },
            };
            let rating = match get_number(members, "rating", 255) {
                Ok(n) => n,
                Err(e) => {
                    return Err(e);
                },
            };
            Ok(ReviewData { title, body, product_id, rating: rating as u8 })
        },
    }
}

// ---------------------------------------------------------------------------
// Records
// ---------------------------------------------------------------------------

/// The record that an item is: an object with the strings `id`, `title`,
/// `body`, `product_id` and `timestamp`, the last an instant, and the
/// numbers `rating` up to 255 and `vector_index` up to `usize::MAX`. Other
/// members do not count. The first of these that is missing or of another
/// kind, in the order in which a record is written, is the failure.
pub open spec fn record_of(item: JsonItemView) -> Result<ReviewMetadataView, Seq<char>> {
    match item {
        JsonItemView::Other => Err("expected a JSON object"@),
        JsonItemView::Object(members) => match text_field(members, "id"@) {
            Err(e) => Err(e),
            Ok(id) => match review_of(item) {
                Err(e) => Err(e),
                Ok(review) => match text_field(members, "timestamp"@) {
                    Err(e) => Err(e),
                    Ok(timestamp) => if !is_utc_instant(timestamp) {
                        Err("field `timestamp` is not an RFC 3339 date and time"@)
                    } else {
                        match number_field(members, "vector_index"@, usize::MAX as u64) {
                            Err(e) => Err(e),
                            Ok(vector_index) => Ok(
                                ReviewMetadataView {
                                    id,
                                    title: review.title,
                                    body: review.body,
                                    product_id: review.product_id,
                                    rating: review.rating,
                                    timestamp,
                                    vector_index: vector_index as usize,
                                },
                            ),
                        }
                    },
                },
            },
        },
    }
}

/// The outcome of reading a record, by its views.
pub open spec fn record_outcome(r: Result<ReviewMetadata, String>) -> Result<
    ReviewMetadataView,
    Seq<char>,
> {
    match r {
        Ok(record) => Ok(record@),
        Err(m) => Err(m@),
    }
}

/// Reads an item as a record.
pub fn record_from_item(item: &JsonItem) -> (r: Result<ReviewMetadata, String>)
    ensures
        record_outcome(r) == record_of(item@),
{
    match item {
        JsonItem::Other => Err("expected a JSON object".to_owned()),
        JsonItem::Object(members) => {
            let id = match get_text(members, "id") {
                Ok(t) => t,
                Err(e) => {
                    return Err(e);
                },
            };
            let review = match review_from_item(item) {
                Ok(r) => r,
                Err(e) => {
                    return Err(e);
                },
            };
            let timestamp = match get_text(members, "timestamp") {
                Ok(t) => t,
                Err(e) => {
                    return Err(e);
                },
            };
            if !parses_as_instant(timestamp.as_str()) {
                return Err("field `timestamp` is not an RFC 3339 date and time".to_owned());
            }
            let vector_index = match get_number(members, "vector_index", usize::MAX as u64) {
                Ok(n) => n,
                Err(e) => {
                    return Err(e);
                },
            };
            Ok(
                ReviewMetadata {
                    id,
                    title: review.title,
                    body: review.body,
                    product_id: review.product_id,
                    rating: review.rating,
                    timestamp,
                    vector_index: vector_index as usize,
                },
            )
        },
    }
}

/// The record that a line of the log holds, or why it holds none.
pub open spec fn decoded(line: Seq<char>) -> Result<ReviewMetadataView, Seq<char>> {
    match item_of(line) {
        Ok(item) => record_of(item),
        Err(e) => Err(e),
    }
}

/// Reads a line of the log as a record.
pub fn decode_record(line: &str) -> (r: Result<ReviewMetadata, String>)
    ensures
        record_outcome(r) == decoded(line@),
{
    match read_item(line) {
        Ok(item) => record_from_item(&item),
        Err(e) => Err(e),
    }
}

/// Reads a line of the log, given by its characters, as a record.
pub fn decode_record_chars(line: &Vec<char>) -> (r: Result<ReviewMetadata, String>)
    ensures
        record_outcome(r) == decoded(line@),
{
    match read_item_chars(line) {
        Ok(item) => record_from_item(&item),
        Err(e) => Err(e),
    }
}

/// The review that a text holds, or why it holds none.
pub open spec fn decoded_review(text: Seq<char>) -> Result<ReviewDataView, Seq<char>> {
    match item_of(text) {
        Ok(item) => review_of(item),
        Err(e) => Err(e),
    }
}

/// Reads a text as a review.
pub fn decode_review(text: &str) -> (r: Result<ReviewData, String>)
    ensures
        review_outcome(r) == decoded_review(text@),
{
    match read_item(text) {
        Ok(item) => review_from_item(&item),
        Err(e) => Err(e),
    }
}

/// Reads a text, given by its characters, as a review.
pub fn decode_review_chars(text: &Vec<char>) -> (r: Result<ReviewData, String>)
    ensures
        review_outcome(r) == decoded_review(text@),
{
    match read_item_chars(text) {
        Ok(item) => review_from_item(&item),
        Err(e) => Err(e),
    }
}

// ---------------------------------------------------------------------------
// Writing records
// ---------------------------------------------------------------------------

/// A member that holds a string.
pub open spec fn text_member(name: Seq<char>, value: Seq<char>) -> JsonMemberView {
    JsonMemberView { name, value: JsonValueView::Text(value) }
}

/// A member that holds a number.
pub open spec fn number_member(name: Seq<char>, value: u64) -> JsonMemberView {
    JsonMemberView { name, value: JsonValueView::Unsigned(value) }
}

/// The members of a record, in the order in which they are written.
pub open spec fn record_members(r: ReviewMetadataView) -> Seq<JsonMemberView> {
    seq![
        text_member("id"@, r.id),
        text_member("title"@, r.title),
        text_member("body"@, r.body),
        text_member("product_id"@, r.product_id),
        number_member("rating"@, r.rating as u64),
        text_member("timestamp"@, r.timestamp),
        number_member("vector_index"@, r.vector_index as u64),
    ]
}

/// The line of the log that holds a record: the record as a JSON object in
/// the compact form.
pub open spec fn record_line(r: ReviewMetadataView) -> Seq<char> {
    object_text(record_members(r))
}

/// The text of members with one more member behind them.
proof fn lemma_listed_push(members: Seq<JsonMemberView>, m: JsonMemberView)
    ensures
        listed(members.push(m)) == listed(members) + member_text(m) + seq![','],
{
    assert(members.push(m).drop_last() =~= members);
}

/// The line of a record, member by member.
proof fn lemma_record_line(r: ReviewMetadataView)
    ensures
        record_line(r) == seq!['{'] + member_text(text_member("id"@, r.id)) + seq![',']
            + member_text(text_member("title"@, r.title)) + seq![','] + member_text(
            text_member("body"@, r.body),
        ) + seq![','] + member_text(text_member("product_id"@, r.product_id)) + seq![',']
            + member_text(number_member("rating"@, r.rating as u64)) + seq![','] + member_text(
            text_member("timestamp"@, r.timestamp),
        ) + seq![','] + member_text(number_member("vector_index"@, r.vector_index as u64))
            + seq!['}'],
{
    let m0 = text_member("id"@, r.id);
    let m1 = text_member("title"@, r.title);
    let m2 = text_member("body"@, r.body);
    let m3 = text_member("product_id"@, r.product_id);
    let m4 = number_member("rating"@, r.rating as u64);
    let m5 = text_member("timestamp"@, r.timestamp);
    let m6 = number_member("vector_index"@, r.vector_index as u64);
    let e = Seq::<JsonMemberView>::empty();
    assert(record_members(r).drop_last() =~= e.push(m0).push(m1).push(m2).push(m3).push(m4).push(
        m5,
    ));
    assert(record_members(r).last() == m6);
    assert(listed(e) =~= Seq::<char>::empty());
    lemma_listed_push(e, m0);
    lemma_listed_push(e.push(m0), m1);
    lemma_listed_push(e.push(m0).push(m1), m2);
    lemma_listed_push(e.push(m0).push(m1).push(m2), m3);
    lemma_listed_push(e.push(m0).push(m1).push(m2).push(m3), m4);
    lemma_listed_push(e.push(m0).push(m1).push(m2).push(m3).push(m4), m5);
    let c = seq![','];
    let l5 = listed(e.push(m0).push(m1).push(m2).push(m3).push(m4).push(m5));
    assert(l5 =~= member_text(m0) + c + member_text(m1) + c + member_text(m2) + c + member_text(m3)
        + c + member_text(m4) + c + member_text(m5) + c);
    assert(record_line(r) =~= seq!['{'] + l5 + member_text(m6) + seq!['}']);
    assert(seq!['{'] + l5 + member_text(m6) + seq!['}'] =~= seq!['{'] + member_text(m0) + c
        + member_text(m1) + c + member_text(m2) + c + member_text(m3) + c + member_text(m4) + c
        + member_text(m5) + c + member_text(m6) + seq!['}']);
}

/// Writes a record as a line of the log, without the line feed.
pub fn encode_record(record: &ReviewMetadata) -> (line: String)
    ensures
        line@ == record_line(record@),
{
    let mut buf: Vec<char> = Vec::new();
    push_record(&mut buf, record);
    assert(buf@ =~= record_line(record@));
    string_of(&buf)
}

/// Appends a record as a line of the log, without the line feed.
pub fn push_record(out: &mut Vec<char>, record: &ReviewMetadata)
    ensures
        final(out)@ == old(out)@ + record_line(record@),
{
    let mut buf: Vec<char> = Vec::new();
    buf.push('{');
    push_text_member(&mut buf, "id", record.id.as_str());
    buf.push(',');
    push_text_member(&mut buf, "title", record.title.as_str());
    buf.push(',');
    push_text_member(&mut buf, "body", record.body.as_str());
    buf.push(',');
    push_text_member(&mut buf, "product_id", record.product_id.as_str());
    buf.push(',');
    push_number_member(&mut buf, "rating", record.rating as u64);
    buf.push(',');
    push_text_member(&mut buf, "timestamp", record.timestamp.as_str());
    buf.push(',');
    push_number_member(&mut buf, "vector_index", record.vector_index as u64);
    buf.push('}');
    proof {
        lemma_record_line(record@);
        assert(buf@ =~= record_line(record@));
    }
    crate::text::push_all(out, &buf);
}

/// A record that is written as a line and read back is the same record: the
/// line is read in the compact form, which gives back every member.
pub proof fn lemma_record_round_trip(r: ReviewMetadataView)
    requires
        r.well_formed(),
    ensures
        decoded(record_line(r)) == Ok::<ReviewMetadataView, Seq<char>>(r),
{
    let members = record_members(r);
    assert(is_plain(members));
    reveal_strlit("id");
    reveal_strlit("title");
    reveal_strlit("body");
    reveal_strlit("product_id");
    reveal_strlit("rating");
    reveal_strlit("timestamp");
    reveal_strlit("vector_index");
    reveal_with_fuel(find_member, 8);
    assert(members.len() == 7);
    assert(members[0].name == "id"@ && members[0].name.len() == 2);
    assert(members[1].name == "title"@ && members[1].name.len() == 5);
    assert(members[2].name == "body"@ && members[2].name.len() == 4);
    assert(members[3].name == "product_id"@ && members[3].name.len() == 10);
    assert(members[4].name == "rating"@ && members[4].name.len() == 6);
    assert(members[5].name == "timestamp"@ && members[5].name.len() == 9);
    assert(members[6].name == "vector_index"@ && members[6].name.len() == 12);
    assert(distinct_names(members));
    lemma_compact_object_written(members);
    assert(find_member(members, "id"@, 0) == Some(JsonValueView::Text(r.id)));
    assert(find_member(members, "title"@, 0) == Some(JsonValueView::Text(r.title)));
    assert(find_member(members, "body"@, 0) == Some(JsonValueView::Text(r.body)));
    assert(find_member(members, "product_id"@, 0) == Some(JsonValueView::Text(r.product_id)));
    assert(find_member(members, "rating"@, 0) == Some(JsonValueView::Unsigned(r.rating as u64)));
    assert(find_member(members, "timestamp"@, 0) == Some(JsonValueView::Text(r.timestamp)));
    assert(find_member(members, "vector_index"@, 0) == Some(
        JsonValueView::Unsigned(r.vector_index as u64),
    ));
}

/// No character of an escaped text is a control character.
proof fn lemma_escaped_clean(t: Seq<char>)
    ensures
        is_clean(escaped(t)),
    decreases t.len(),
{
    if t.len() > 0 {
        lemma_escaped_clean(t.drop_last());
        let e = escape_char(t.last());
        assert(is_clean(e)) by {
            assert forall|k: int| 0 <= k < e.len() implies (#[trigger] e[k]) as u32 >= 0x20 by {
                if e.len() == 6 {
                    assert(k == 0 || k == 1 || k == 2 || k == 3 || k == 4 || k == 5);
                } else if e.len() == 2 {
                    assert(k == 0 || k == 1);
                }
            }
        }
        lemma_clean_join(escaped(t.drop_last()), e);
    }
}

/// No character of a number in decimal is a control character.
proof fn lemma_decimal_clean(n: nat)
    ensures
        is_clean(decimal(n)),
    decreases n,
{
    if n >= 10 {
        lemma_decimal_clean(n / 10);
        let d = seq![crate::text::digit_char((n % 10) as int)];
        assert(decimal(n) =~= decimal(n / 10) + d);
        lemma_clean_join(decimal(n / 10), d);
    }
}

/// No character of a member as JSON is a control character.
proof fn lemma_member_clean(m: JsonMemberView)
    ensures
        is_clean(member_text(m)),
{
    lemma_escaped_clean(m.name);
    lemma_clean_join(seq!['"'], escaped(m.name));
    lemma_clean_join(seq!['"'] + escaped(m.name), seq!['"']);
    lemma_clean_join(quoted(m.name), seq![':']);
    match m.value {
        JsonValueView::Text(t) => {
            lemma_escaped_clean(t);
            lemma_clean_join(seq!['"'], escaped(t));
            lemma_clean_join(seq!['"'] + escaped(t), seq!['"']);
        },
        JsonValueView::Unsigned(n) => {
            lemma_decimal_clean(n as nat);
        },
        JsonValueView::Other => {},
    }
    lemma_clean_join(quoted(m.name) + seq![':'], value_text(m.value));
}

/// The line of a record starts with a brace and holds no control
/// character: no line feed and no carriage return among them.
pub proof fn lemma_record_line_clean(r: ReviewMetadataView)
    ensures
        record_line(r).len() >= 2,
        record_line(r)[0] == '{',
        is_clean(record_line(r)),
{
    lemma_record_line(r);
    let m0 = member_text(text_member("id"@, r.id));
    let m1 = member_text(text_member("title"@, r.title));
    let m2 = member_text(text_member("body"@, r.body));
    let m3 = member_text(text_member("product_id"@, r.product_id));
    let m4 = member_text(number_member("rating"@, r.rating as u64));
    let m5 = member_text(text_member("timestamp"@, r.timestamp));
    let m6 = member_text(number_member("vector_index"@, r.vector_index as u64));
    lemma_member_clean(text_member("id"@, r.id));
    lemma_member_clean(text_member("title"@, r.title));
    lemma_member_clean(text_member("body"@, r.body));
    lemma_member_clean(text_member("product_id"@, r.product_id));
    lemma_member_clean(number_member("rating"@, r.rating as u64));
    lemma_member_clean(text_member("timestamp"@, r.timestamp));
    lemma_member_clean(number_member("vector_index"@, r.vector_index as u64));
    lemma_clean_join(seq!['{'], m0);
    lemma_clean_join(seq!['{'] + m0, seq![',']);
    lemma_clean_join(seq!['{'] + m0 + seq![','], m1);
    lemma_clean_join(seq!['{'] + m0 + seq![','] + m1, seq![',']);
    lemma_clean_join(seq!['{'] + m0 + seq![','] + m1 + seq![','], m2);
    lemma_clean_join(seq!['{'] + m0 + seq![','] + m1 + seq![','] + m2, seq![',']);
    lemma_clean_join(seq!['{'] + m0 + seq![','] + m1 + seq![','] + m2 + seq![','], m3);
    lemma_clean_join(seq!['{'] + m0 + seq![','] + m1 + seq![','] + m2 + seq![','] + m3, seq![',']);
    lemma_clean_join(
        seq!['{'] + m0 + seq![','] + m1 + seq![','] + m2 + seq![','] + m3 + seq![','],
        m4,
    );
    lemma_clean_join(
        seq!['{'] + m0 + seq![','] + m1 + seq![','] + m2 + seq![','] + m3 + seq![','] + m4,
        seq![','],
    );
    lemma_clean_join(
        seq!['{'] + m0 + seq![','] + m1 + seq![','] + m2 + seq![','] + m3 + seq![','] + m4
            + seq![','],
        m5,
    );
    lemma_clean_join(
        seq!['{'] + m0 + seq![','] + m1 + seq![','] + m2 + seq![','] + m3 + seq![','] + m4
            + seq![','] + m5,
        seq![','],
    );
    lemma_clean_join(
        seq!['{'] + m0 + seq![','] + m1 + seq![','] + m2 + seq![','] + m3 + seq![','] + m4
            + seq![','] + m5 + seq![','],
        m6,
    );
    lemma_clean_join(
        seq!['{'] + m0 + seq![','] + m1 + seq![','] + m2 + seq![','] + m3 + seq![','] + m4
            + seq![','] + m5 + seq![','] + m6,
        seq!['}'],
    );
}

/// Whether no character of a text is a control character.
pub open spec fn is_clean(t: Seq<char>) -> bool {
    forall|k: int| 0 <= k < t.len() ==> (#[trigger] t[k]) as u32 >= 0x20
}

/// Two texts without control characters make one without.
proof fn lemma_clean_join(a: Seq<char>, b: Seq<char>)
    requires
        is_clean(a),
        is_clean(b),
    ensures
        is_clean(a + b),
        (a + b).len() == a.len() + b.len(),
        a.len() > 0 ==> (a + b)[0] == a[0],
{
    assert forall|k: int| 0 <= k < (a + b).len() implies (#[trigger] (a + b)[k]) as u32
        >= 0x20 by {
        if k < a.len() {
            assert((a + b)[k] == a[k]);
        } else {
            assert((a + b)[k] == b[k - a.len()]);
        }
    }
}

} // verus!
