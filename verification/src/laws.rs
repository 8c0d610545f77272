//! What holds of the log and of the scorer over any run of operations.
//!
//! The laws are stated over the text of the log, which is what the
//! operations of `JsonlStorage` and of the coordinators are stated over.

use crate::models::{AppErrorView, ReviewMetadataView, ValidationErrorView};
use crate::record::{is_clean, lemma_record_line_clean, lemma_record_round_trip, record_line};
use crate::search::search_hits;
use crate::storage::{batch_text, entries, line_faults, lookup, stored_lines, valid_count};
use crate::text::{
    is_blank, is_space, lemma_blank_is_all_space, lemma_line_end, line_end, lines_from, lines_of,
    strip_cr,
};
use vstd::prelude::*;

verus! {

// ---------------------------------------------------------------------------
// Lines
// ---------------------------------------------------------------------------

/// Whether a text ends where a line ends: it is empty, or its last
/// character is a line feed.
pub open spec fn is_terminated(text: Seq<char>) -> bool {
    text.len() == 0 || text.last() == '\n'
}

/// Whether every record of `records` has a timestamp that is an instant.
pub open spec fn all_well_formed(records: Seq<ReviewMetadataView>) -> bool {
    forall|k: int| 0 <= k < records.len() ==> (#[trigger] records[k]).well_formed()
}

/// The lines of records.
pub open spec fn record_lines(records: Seq<ReviewMetadataView>) -> Seq<Seq<char>> {
    Seq::new(records.len(), |k: int| record_line(records[k]))
}

/// The index at which a line ends is where the first line feed stands.
proof fn lemma_line_end_is(s: Seq<char>, i: int, e: int)
    requires
        0 <= i <= e <= s.len(),
        forall|k: int| i <= k < e ==> #[trigger] s[k] != '\n',
        e < s.len() ==> s[e] == '\n',
    ensures
        line_end(s, i) == e,
    decreases e - i,
{
    if i < e {
        assert(s[i] != '\n');
        lemma_line_end_is(s, i + 1, e);
    }
}

/// A line written behind a text that ends where a line ends is one more
/// line, and changes none of the lines before it.
proof fn lemma_lines_from_append(text: Seq<char>, line: Seq<char>, i: int)
    requires
        is_terminated(text),
        is_clean(line),
        0 <= i <= text.len(),
    ensures
        lines_from(text + line + seq!['\n'], i) == lines_from(text, i).push(line),
    decreases text.len() - i,
{
    let more = text + line + seq!['\n'];
    assert(more.len() == text.len() + line.len() + 1);
    assert forall|k: int| 0 <= k < text.len() implies #[trigger] more[k] == text[k] by {}
    assert forall|k: int| 0 <= k < line.len() implies #[trigger] more[text.len() + k]
        == line[k] by {}
    assert(more[(text.len() + line.len()) as int] == '\n');
    if i == text.len() {
        let e: int = (text.len() + line.len()) as int;
        assert forall|k: int| i <= k < e implies #[trigger] more[k] != '\n' by {
            assert(more[k] == line[k - text.len()]);
            assert(line[k - text.len()] as u32 >= 0x20);
        }
        lemma_line_end_is(more, i, e);
        assert(more.subrange(i, e) =~= line);
        assert(strip_cr(line) == line) by {
            if line.len() > 0 {
                assert(line[line.len() - 1] as u32 >= 0x20);
            }
        }
        assert(lines_from(more, e + 1) =~= Seq::<Seq<char>>::empty());
        assert(lines_from(text, i) =~= Seq::<Seq<char>>::empty());
        assert(lines_from(more, i) =~= seq![line] + Seq::<Seq<char>>::empty());
        assert(lines_from(more, i) =~= lines_from(text, i).push(line));
    } else {
        lemma_line_end(text, i);
        let e = line_end(text, i);
        assert(e < text.len()) by {
            if e == text.len() {
                assert(text[text.len() - 1] != '\n');
            }
        }
        assert forall|k: int| i <= k < e implies #[trigger] more[k] != '\n' by {
            assert(more[k] == text[k]);
        }
        assert(more[e] == text[e]);
        lemma_line_end_is(more, i, e);
        assert(more.subrange(i, e) =~= text.subrange(i, e));
        lemma_lines_from_append(text, line, e + 1);
        let first = seq![strip_cr(text.subrange(i, e))];
        assert(lines_from(text, i) == first + lines_from(text, e + 1));
        assert(lines_from(more, i) == first + lines_from(more, e + 1));
        assert((first + lines_from(text, e + 1)).push(line) =~= first + lines_from(
            text,
            e + 1,
        ).push(line));
    }
}

/// A line that is written behind a log is one more line of the log.
pub proof fn lemma_lines_append(text: Seq<char>, line: Seq<char>)
    requires
        is_terminated(text),
        is_clean(line),
    ensures
        lines_of(text + line + seq!['\n']) == lines_of(text).push(line),
        is_terminated(text + line + seq!['\n']),
{
    lemma_lines_from_append(text, line, 0);
}

/// A line counts among the entries where it is not blank.
pub proof fn lemma_stored_lines_push(lines: Seq<Seq<char>>, line: Seq<char>)
    ensures
        stored_lines(lines.push(line)) == if is_blank(line) {
            stored_lines(lines)
        } else {
            stored_lines(lines).push(line)
        },
{
    assert(lines.push(line).drop_last() =~= lines);
}

/// The line of a record is not blank.
pub proof fn lemma_record_line_not_blank(r: ReviewMetadataView)
    ensures
        !is_blank(record_line(r)),
{
    lemma_record_line_clean(r);
    lemma_blank_is_all_space(record_line(r));
    assert(!is_space(record_line(r)[0]));
}

// ---------------------------------------------------------------------------
// Appending
// ---------------------------------------------------------------------------

/// Records that are appended to a log that ends where a line ends are the
/// last lines and the last entries of the log, in their order, and leave
/// all that was there as it was. An append never takes a record away.
pub proof fn lemma_append_batch(text: Seq<char>, records: Seq<ReviewMetadataView>)
    requires
        is_terminated(text),
    ensures
        lines_of(text + batch_text(records)) == lines_of(text) + record_lines(records),
        entries(text + batch_text(records)) == entries(text) + record_lines(records),
        entries(text + batch_text(records)).len() == entries(text).len() + records.len(),
        is_terminated(text + batch_text(records)),
    decreases records.len(),
{
    if records.len() == 0 {
        assert(text + batch_text(records) =~= text);
        assert(lines_of(text) + record_lines(records) =~= lines_of(text));
        assert(entries(text) + record_lines(records) =~= entries(text));
    } else {
        let head = records.drop_last();
        let last = records.last();
        let line = record_line(last);
        lemma_append_batch(text, head);
        let before = text + batch_text(head);
        assert(text + batch_text(records) =~= before + line + seq!['\n']);
        lemma_record_line_clean(last);
        lemma_record_line_not_blank(last);
        lemma_lines_append(before, line);
        lemma_stored_lines_push(lines_of(before), line);
        assert(record_lines(records) =~= record_lines(head).push(line));
        assert((lines_of(text) + record_lines(head)).push(line) =~= lines_of(text) + record_lines(
            records,
        ));
        assert((entries(text) + record_lines(head)).push(line) =~= entries(text) + record_lines(
            records,
        ));
    }
}

/// A record that is written at a position is the record that is found
/// there, whatever is appended behind it: looking up the position of the
/// `k`-th record of a batch gives that record.
pub proof fn lemma_written_record_is_found(
    text: Seq<char>,
    records: Seq<ReviewMetadataView>,
    k: int,
)
    requires
        is_terminated(text),
        0 <= k < records.len(),
        records[k].well_formed(),
    ensures
        lookup(text + batch_text(records), entries(text).len() + k) == Ok::<
            Option<ReviewMetadataView>,
            AppErrorView,
        >(Some(records[k])),
{
    lemma_append_batch(text, records);
    lemma_record_round_trip(records[k]);
    let all = entries(text + batch_text(records));
    assert(all[entries(text).len() + k] == record_lines(records)[k]);
}

/// What was in a log stays where it was when records are appended: every
/// position that held a record holds the same record.
pub proof fn lemma_append_keeps_positions(
    text: Seq<char>,
    records: Seq<ReviewMetadataView>,
    p: int,
)
    requires
        is_terminated(text),
        0 <= p < entries(text).len(),
    ensures
        lookup(text + batch_text(records), p) == lookup(text, p),
{
    lemma_append_batch(text, records);
    assert(entries(text + batch_text(records))[p] == entries(text)[p]);
}

/// After any number of records were appended to an empty log, each with the
/// position that the log had for it, the log holds as many records, and the
/// record at each position knows its position.
pub proof fn lemma_positions_of_inserts(records: Seq<ReviewMetadataView>)
    requires
        all_well_formed(records),
        forall|k: int| 0 <= k < records.len() ==> (#[trigger] records[k]).vector_index == k,
    ensures
        entries(batch_text(records)).len() == records.len(),
        forall|k: int|
            0 <= k < records.len() ==> lookup(batch_text(records), k) == Ok::<
                Option<ReviewMetadataView>,
                AppErrorView,
            >(Some(#[trigger] records[k])) && records[k].vector_index == k,
{
    let empty = Seq::<char>::empty();
    assert(lines_of(empty) =~= Seq::<Seq<char>>::empty());
    assert(entries(empty) =~= Seq::<Seq<char>>::empty());
    lemma_append_batch(empty, records);
    assert(empty + batch_text(records) =~= batch_text(records));
    assert forall|k: int| 0 <= k < records.len() implies lookup(batch_text(records), k) == Ok::<
        Option<ReviewMetadataView>,
        AppErrorView,
    >(Some(#[trigger] records[k])) by {
        lemma_written_record_is_found(empty, records, k);
    }
}

/// After any number of reviews were taken in one by one, starting from an
/// empty log, each taken in as `create_review` takes it in, the log holds as
/// many records, and the record at each position knows its position.
/// `texts[i]` is the log before the `i`-th review and `records[i]` the record
/// made of it.
pub proof fn lemma_single_inserts(texts: Seq<Seq<char>>, records: Seq<ReviewMetadataView>)
    requires
        texts.len() == records.len() + 1,
        texts[0] == Seq::<char>::empty(),
        forall|i: int|
            0 <= i < records.len() ==> {
                &&& (#[trigger] records[i]).well_formed()
                &&& records[i].vector_index == entries(texts[i]).len()
                &&& texts[i + 1] == texts[i] + batch_text(seq![records[i]])
            },
    ensures
        entries(texts.last()).len() == records.len(),
        forall|i: int|
            0 <= i < records.len() ==> lookup(texts.last(), i) == Ok::<
                Option<ReviewMetadataView>,
                AppErrorView,
            >(Some(#[trigger] records[i])) && records[i].vector_index == i,
{
    lemma_inserts_are_a_batch(texts, records, records.len() as int);
    assert(records.take(records.len() as int) =~= records);
    assert(all_well_formed(records));
    lemma_positions_of_inserts(records);
}

/// The log after the first `n` single inserts is the text of their records,
/// and each of them stands at its place.
proof fn lemma_inserts_are_a_batch(
    texts: Seq<Seq<char>>,
    records: Seq<ReviewMetadataView>,
    n: int,
)
    requires
        texts.len() == records.len() + 1,
        texts[0] == Seq::<char>::empty(),
        0 <= n <= records.len(),
        forall|i: int|
            0 <= i < records.len() ==> {
                &&& (#[trigger] records[i]).well_formed()
                &&& records[i].vector_index == entries(texts[i]).len()
                &&& texts[i + 1] == texts[i] + batch_text(seq![records[i]])
            },
    ensures
        texts[n] == batch_text(records.take(n)),
        entries(texts[n]).len() == n,
        forall|i: int| 0 <= i < n ==> (#[trigger] records[i]).vector_index == i,
    decreases n,
{
    let empty = Seq::<char>::empty();
    if n == 0 {
        assert(records.take(0) =~= Seq::<ReviewMetadataView>::empty());
        assert(lines_of(empty) =~= Seq::<Seq<char>>::empty());
        assert(entries(empty) =~= Seq::<Seq<char>>::empty());
    } else {
        lemma_inserts_are_a_batch(texts, records, n - 1);
        let last = records[n - 1];
        assert(last.well_formed());
        assert(texts[n - 1 + 1] == texts[n - 1] + batch_text(seq![last]));
        lemma_batch_text_add(records.take(n - 1), seq![last]);
        assert(records.take(n - 1) + seq![last] =~= records.take(n));
        assert(lines_of(empty) =~= Seq::<Seq<char>>::empty());
        assert(entries(empty) =~= Seq::<Seq<char>>::empty());
        lemma_append_batch(empty, records.take(n));
        assert(empty + batch_text(records.take(n)) =~= batch_text(records.take(n)));
    }
}

// ---------------------------------------------------------------------------
// Checking
// ---------------------------------------------------------------------------

/// Lines that are the lines of records have no fault, and each holds a record.
proof fn lemma_no_faults(lines: Seq<Seq<char>>, records: Seq<ReviewMetadataView>, n: int)
    requires
        lines == record_lines(records),
        all_well_formed(records),
        0 <= n <= lines.len(),
    ensures
        line_faults(lines, n) == Seq::<ValidationErrorView>::empty(),
        valid_count(lines, n) == n,
    decreases n,
{
    if n > 0 {
        lemma_no_faults(lines, records, n - 1);
        lemma_record_round_trip(records[n - 1]);
        lemma_record_line_not_blank(records[n - 1]);
        assert(lines[n - 1] == record_line(records[n - 1]));
    }
}

/// A log that was written by appends alone has no fault: every line holds
/// a record.
pub proof fn lemma_appended_log_is_valid(records: Seq<ReviewMetadataView>)
    requires
        all_well_formed(records),
    ensures
        lines_of(batch_text(records)).len() == records.len(),
        line_faults(lines_of(batch_text(records)), records.len() as int) == Seq::<
            ValidationErrorView,
        >::empty(),
        valid_count(lines_of(batch_text(records)), records.len() as int) == records.len(),
{
    let empty = Seq::<char>::empty();
    assert(lines_of(empty) =~= Seq::<Seq<char>>::empty());
    lemma_append_batch(empty, records);
    assert(empty + batch_text(records) =~= batch_text(records));
    assert(lines_of(empty) + record_lines(records) =~= record_lines(records));
    lemma_no_faults(record_lines(records), records, records.len() as int);
}

/// One batch behind another is the batch of both: what `append_review` and
/// `append_reviews` write, in any mix, is the text of all their records.
pub proof fn lemma_batch_text_add(a: Seq<ReviewMetadataView>, b: Seq<ReviewMetadataView>)
    ensures
        batch_text(a + b) == batch_text(a) + batch_text(b),
    decreases b.len(),
{
    if b.len() == 0 {
        assert(a + b =~= a);
        assert(batch_text(a) + batch_text(b) =~= batch_text(a));
    } else {
        lemma_batch_text_add(a, b.drop_last());
        assert((a + b).drop_last() =~= a + b.drop_last());
        assert((a + b).last() == b.last());
        assert(batch_text(a + b) =~= batch_text(a) + batch_text(b));
    }
}

// ---------------------------------------------------------------------------
// Ranking
// ---------------------------------------------------------------------------

/// The same corpus and the same query give the same results: a ranking
/// depends on nothing else.
pub proof fn lemma_ranking_is_determined(
    query_a: Seq<char>,
    corpus_a: Seq<ReviewMetadataView>,
    limit_a: usize,
    query_b: Seq<char>,
    corpus_b: Seq<ReviewMetadataView>,
    limit_b: usize,
)
    requires
        query_a == query_b,
        corpus_a == corpus_b,
        limit_a == limit_b,
    ensures
        search_hits(query_a, corpus_a, limit_a) == search_hits(query_b, corpus_b, limit_b),
{
}

} // verus!
