//! The address table: rows found by postcode and number, written by
//! insert-or-update.
//!
//! [`AddressTable`] keeps its rows in memory. It states what a store of
//! addresses does on a write and on a lookup. What this module proves, it
//! proves of this table: that the last record of a batch stands, that a
//! batch written twice changes nothing, what a lookup returns. A service
//! that keeps its rows in a database runs statements of its own, and
//! nothing here holds that database to the table.

use vstd::prelude::*;
use vstd::string::*;
use crate::models::{Address, AddressRecord, AddressRecordView, AddressView, NewAddress};
use crate::outside::{fresh_id, is_random_id};
use crate::reconcile::{
    deduplicate,
    lemma_survivors_distinct,
    new_views,
    record_views,
    referred_views,
    survivors,
};
use crate::text::{
    chars_of,
    fold,
    lemma_precedes_asymmetric,
    lemma_precedes_irreflexive,
    lemma_precedes_total,
    lemma_precedes_transitive,
    precedes,
    starts_with_ignore_case,
    text_equal,
    text_precedes,
};

verus! {

/// What each row of a list holds.
pub open spec fn address_views(rows: Seq<Address>) -> Seq<AddressView> {
    Seq::new(rows.len(), |i: int| rows[i]@)
}

/// Whether no two rows are for the same address.
pub open spec fn unique_keys(rows: Seq<AddressView>) -> bool {
    forall|i: int, j: int|
        0 <= i < j < rows.len() ==> (#[trigger] rows[i]).key() != (#[trigger] rows[j]).key()
}

/// Whether a row for the address `key` is among `rows`.
pub open spec fn has_key(rows: Seq<AddressView>, key: (Seq<char>, Seq<char>)) -> bool {
    exists|i: int| 0 <= i < rows.len() && (#[trigger] rows[i]).key() == key
}

/// The position of a row for the address `key`.
pub open spec fn position_of(rows: Seq<AddressView>, key: (Seq<char>, Seq<char>)) -> int {
    choose|i: int| 0 <= i < rows.len() && (#[trigger] rows[i]).key() == key
}

/// The row `row` after an update from `new`: the coordinates, street,
/// city and region are taken from `new`; the identifier, postcode and
/// number stay.
pub open spec fn updated(row: AddressView, new: AddressView) -> AddressView {
    AddressView {
        id: row.id,
        lat: new.lat,
        lon: new.lon,
        number: row.number,
        street: new.street,
        city: new.city,
        region: new.region,
        postcode: row.postcode,
    }
}

/// The rows after `new` is written: where a row for its address exists,
/// that row is updated in place; where none does, `new` is appended.
pub open spec fn upsert_row(rows: Seq<AddressView>, new: AddressView) -> Seq<AddressView> {
    if has_key(rows, new.key()) {
        let at = position_of(rows, new.key());
        rows.update(at, updated(rows[at], new))
    } else {
        rows.push(new)
    }
}

/// The rows after each of `news` is written, in order.
pub open spec fn upsert_all(rows: Seq<AddressView>, news: Seq<AddressView>) -> Seq<AddressView>
    decreases news.len(),
{
    if news.len() == 0 {
        rows
    } else {
        upsert_row(upsert_all(rows, news.drop_last()), news.last())
    }
}

/// Whether `news` are the rows that `records` make, each under an
/// identifier that was drawn for it: the number of a random UUID.
pub open spec fn made_from(news: Seq<AddressView>, records: Seq<AddressRecordView>) -> bool {
    &&& news.len() == records.len()
    &&& forall|k: int|
        0 <= k < news.len() ==> #[trigger] news[k] == records[k].row(news[k].id) && is_random_id(
            news[k].id,
        )
}

/// Whether `after` is what the table `before` becomes when `batch` is
/// reconciled into it: the records that stand are written in order, a new
/// row under an identifier of its own.
pub open spec fn upserted(
    before: Seq<AddressView>,
    after: Seq<AddressView>,
    batch: Seq<AddressRecordView>,
) -> bool {
    exists|news: Seq<AddressView>|
        #[trigger] made_from(news, survivors(batch)) && after == upsert_all(before, news)
}

/// Whether the table holds a row for the address of `new` with the
/// coordinates, street, city and region of `new`.
pub open spec fn reflects(rows: Seq<AddressView>, new: AddressView) -> bool {
    exists|i: int|
        0 <= i < rows.len() && (#[trigger] rows[i]).key() == new.key() && rows[i] == updated(
            rows[i],
            new,
        )
}

/// Writing a row keeps the addresses of the table distinct.
pub proof fn lemma_upsert_row_unique(rows: Seq<AddressView>, new: AddressView)
    requires
        unique_keys(rows),
    ensures
        unique_keys(upsert_row(rows, new)),
        upsert_row(rows, new).len() >= rows.len(),
{
    let after = upsert_row(rows, new);
    if has_key(rows, new.key()) {
        let at = position_of(rows, new.key());
        assert forall|i: int, j: int| 0 <= i < j < after.len() implies (#[trigger] after[i]).key()
            != (#[trigger] after[j]).key() by {
            assert(after[i].key() == rows[i].key());
            assert(after[j].key() == rows[j].key());
        }
    } else {
        assert forall|i: int, j: int| 0 <= i < j < after.len() implies (#[trigger] after[i]).key()
            != (#[trigger] after[j]).key() by {
            if j == rows.len() {
                assert(rows[i].key() != new.key());
            } else {
                assert(rows[i].key() != rows[j].key());
            }
        }
    }
}

/// Writing rows keeps the addresses of the table distinct.
pub proof fn lemma_upsert_all_unique(rows: Seq<AddressView>, news: Seq<AddressView>)
    requires
        unique_keys(rows),
    ensures
        unique_keys(upsert_all(rows, news)),
        upsert_all(rows, news).len() >= rows.len(),
    decreases news.len(),
{
    if news.len() > 0 {
        lemma_upsert_all_unique(rows, news.drop_last());
        lemma_upsert_row_unique(upsert_all(rows, news.drop_last()), news.last());
    }
}

/// A write removes no row and leaves to every row its identifier, its
/// postcode and its number.
pub proof fn lemma_upsert_row_keeps_identity(rows: Seq<AddressView>, new: AddressView)
    ensures
        upsert_row(rows, new).len() >= rows.len(),
        forall|i: int|
            0 <= i < rows.len() ==> (#[trigger] upsert_row(rows, new)[i]).id == rows[i].id
                && upsert_row(rows, new)[i].key() == rows[i].key(),
{
    if has_key(rows, new.key()) {
        let at = position_of(rows, new.key());
        assert(0 <= at < rows.len());
    }
}

/// Writes remove no row and leave to every row its identifier, its
/// postcode and its number.
pub proof fn lemma_upsert_all_keeps_identity(rows: Seq<AddressView>, news: Seq<AddressView>)
    ensures
        upsert_all(rows, news).len() >= rows.len(),
        forall|i: int|
            0 <= i < rows.len() ==> (#[trigger] upsert_all(rows, news)[i]).id == rows[i].id
                && upsert_all(rows, news)[i].key() == rows[i].key(),
    decreases news.len(),
{
    if news.len() > 0 {
        let middle = upsert_all(rows, news.drop_last());
        lemma_upsert_all_keeps_identity(rows, news.drop_last());
        lemma_upsert_row_keeps_identity(middle, news.last());
        assert forall|i: int| 0 <= i < rows.len() implies (#[trigger] upsert_all(rows, news)[i]).id
            == rows[i].id && upsert_all(rows, news)[i].key() == rows[i].key() by {
            assert(upsert_row(middle, news.last())[i].id == middle[i].id);
            assert(middle[i].id == rows[i].id);
        }
    }
}

/// Writing a row that the table already reflects changes nothing.
pub proof fn lemma_upsert_row_again(rows: Seq<AddressView>, new: AddressView)
    requires
        unique_keys(rows),
        reflects(rows, new),
    ensures
        upsert_row(rows, new) == rows,
{
    let i = choose|i: int|
        0 <= i < rows.len() && (#[trigger] rows[i]).key() == new.key() && rows[i] == updated(
            rows[i],
            new,
        );
    assert(has_key(rows, new.key()));
    let at = position_of(rows, new.key());
    if at < i {
        assert(rows[at].key() != rows[i].key());
    } else if i < at {
        assert(rows[i].key() != rows[at].key());
    }
    assert(upsert_row(rows, new) =~= rows);
}

/// After a row is written the table reflects it.
pub proof fn lemma_upsert_row_reflects(rows: Seq<AddressView>, new: AddressView)
    ensures
        reflects(upsert_row(rows, new), new),
{
    let after = upsert_row(rows, new);
    if has_key(rows, new.key()) {
        let at = position_of(rows, new.key());
        assert(after[at].key() == new.key() && after[at] == updated(after[at], new));
    } else {
        let at = rows.len() as int;
        assert(after[at].key() == new.key() && after[at] == updated(after[at], new));
    }
}

/// Writing a row for one address leaves what the table reflects of
/// another address.
pub proof fn lemma_upsert_row_keeps(rows: Seq<AddressView>, new: AddressView, other: AddressView)
    requires
        reflects(rows, other),
        other.key() != new.key(),
    ensures
        reflects(upsert_row(rows, new), other),
{
    let after = upsert_row(rows, new);
    let i = choose|i: int|
        0 <= i < rows.len() && (#[trigger] rows[i]).key() == other.key() && rows[i] == updated(
            rows[i],
            other,
        );
    if has_key(rows, new.key()) {
        let at = position_of(rows, new.key());
        assert(at != i);
    }
    assert(after[i] == rows[i]);
    assert(after[i].key() == other.key() && after[i] == updated(after[i], other));
}

/// After rows for distinct addresses are written the table reflects each
/// of them.
pub proof fn lemma_upsert_all_reflects(rows: Seq<AddressView>, news: Seq<AddressView>)
    requires
        unique_keys(news),
    ensures
        forall|k: int| 0 <= k < news.len() ==> reflects(upsert_all(rows, news), #[trigger] news[k]),
    decreases news.len(),
{
    if news.len() > 0 {
        let head = news.drop_last();
        assert(unique_keys(head)) by {
            assert forall|i: int, j: int| 0 <= i < j < head.len() implies (#[trigger] head[i]).key()
                != (#[trigger] head[j]).key() by {
                assert(news[i].key() != news[j].key());
            }
        }
        lemma_upsert_all_reflects(rows, head);
        let middle = upsert_all(rows, head);
        lemma_upsert_row_reflects(middle, news.last());
        assert forall|k: int| 0 <= k < news.len() implies reflects(
            upsert_all(rows, news),
            #[trigger] news[k],
        ) by {
            if k < head.len() {
                assert(head[k] == news[k]);
                assert(news[k].key() != news[news.len() - 1].key());
                lemma_upsert_row_keeps(middle, news.last(), news[k]);
            }
        }
    }
}

/// Writing rows that the table already reflects changes nothing.
pub proof fn lemma_upsert_all_again(rows: Seq<AddressView>, news: Seq<AddressView>)
    requires
        unique_keys(rows),
        forall|k: int| 0 <= k < news.len() ==> reflects(rows, #[trigger] news[k]),
    ensures
        upsert_all(rows, news) == rows,
    decreases news.len(),
{
    if news.len() > 0 {
        let head = news.drop_last();
        assert forall|k: int| 0 <= k < head.len() implies reflects(rows, #[trigger] head[k]) by {
            assert(head[k] == news[k]);
        }
        lemma_upsert_all_again(rows, head);
        assert(reflects(rows, news[news.len() - 1]));
        lemma_upsert_row_again(rows, news.last());
    }
}

/// The rows that records for distinct addresses make are for distinct
/// addresses.
pub proof fn lemma_made_from_distinct(news: Seq<AddressView>, records: Seq<AddressRecordView>)
    requires
        made_from(news, records),
        forall|a: int, b: int|
            0 <= a < b < records.len() ==> (#[trigger] records[a]).key() != (
            #[trigger] records[b]).key(),
    ensures
        unique_keys(news),
{
    assert forall|i: int, j: int| 0 <= i < j < news.len() implies (#[trigger] news[i]).key() != (
    #[trigger] news[j]).key() by {
        assert(news[i] == records[i].row(news[i].id));
        assert(news[j] == records[j].row(news[j].id));
        assert(records[i].key() != records[j].key());
    }
}

/// Reconciling a batch into the table a second time changes nothing:
/// no row is added and no column of any row changes, whatever
/// identifiers the second pass draws.
pub proof fn lemma_upsert_idempotent(
    table: Seq<AddressView>,
    once: Seq<AddressView>,
    twice: Seq<AddressView>,
    batch: Seq<AddressRecordView>,
)
    requires
        unique_keys(table),
        upserted(table, once, batch),
        upserted(once, twice, batch),
    ensures
        twice == once,
{
    let kept = survivors(batch);
    let first = choose|news: Seq<AddressView>|
        #[trigger] made_from(news, kept) && once == upsert_all(table, news);
    let second = choose|news: Seq<AddressView>|
        #[trigger] made_from(news, kept) && twice == upsert_all(once, news);
    lemma_survivors_distinct(batch, batch.len() as int);
    lemma_made_from_distinct(first, kept);
    lemma_upsert_all_unique(table, first);
    lemma_upsert_all_reflects(table, first);
    assert forall|k: int| 0 <= k < second.len() implies reflects(once, #[trigger] second[k]) by {
        assert(reflects(once, first[k]));
        assert(first[k] == kept[k].row(first[k].id));
        assert(second[k] == kept[k].row(second[k].id));
        let i = choose|i: int|
            0 <= i < once.len() && (#[trigger] once[i]).key() == first[k].key() && once[i]
                == updated(once[i], first[k]);
        assert(once[i].key() == second[k].key() && once[i] == updated(once[i], second[k]));
    }
    lemma_upsert_all_again(once, second);
}

/// The most rows that a lookup returns.
pub const ADDRESSES_RESULT_LIMIT: usize = 200;

/// Whether a lookup for `postcode` and, where one is given, for numbers
/// that begin with `number` finds the row: the postcode is the same, and
/// the row's number begins with `number` when ASCII letters are compared
/// without regard to case. Only the letters `A` to `Z` are folded: any
/// other character, a letter outside ASCII too, matches itself alone.
/// Every character of `number` stands for itself; none is a wildcard.
pub open spec fn is_match(row: AddressView, postcode: Seq<char>, number: Option<Seq<char>>) -> bool {
    &&& row.postcode == postcode
    &&& match number {
        Some(prefix) => fold(prefix).is_prefix_of(fold(row.number)),
        None => true,
    }
}

/// Whether `c` has a meaning of its own in the pattern of an SQL `LIKE`:
/// the two wildcards and the escape character.
pub open spec fn is_like_special(c: char) -> bool {
    c == '%' || c == '_' || c == '\\'
}

/// `text` as it is written in the pattern of an SQL `LIKE` to stand for
/// itself: with the escape character, a backslash, before each character
/// that has a meaning of its own.
pub open spec fn like_escaped(text: Seq<char>) -> Seq<char>
    decreases text.len(),
{
    if text.len() == 0 {
        Seq::empty()
    } else if is_like_special(text.last()) {
        like_escaped(text.drop_last()).push('\\').push(text.last())
    } else {
        like_escaped(text.drop_last()).push(text.last())
    }
}

/// The pattern of an SQL `LIKE` for the texts that begin with `prefix`:
/// the prefix, escaped, and after it the wildcard for any rest. What the
/// pattern matches is shown in [`lemma_like_pattern_is_prefix`].
pub fn like_pattern(prefix: &str) -> (pattern: String)
    ensures
        pattern@ == like_escaped(prefix@).push('%'),
{
    let chars = chars_of(prefix);
    let mut pattern = String::new();
    let mut at: usize = 0;
    proof {
        reveal_strlit("\\");
        reveal_strlit("%");
        assert("\\"@ =~= seq!['\\']);
        assert("%"@ =~= seq!['%']);
        assert(prefix@.take(0) =~= Seq::<char>::empty());
    }
    while at < chars.len()
        invariant
            at <= chars.len(),
            chars@ == prefix@,
            "\\"@ == seq!['\\'],
            pattern@ == like_escaped(prefix@.take(at as int)),
        decreases chars.len() - at,
    {
        let c = chars[at];
        proof {
            let longer = prefix@.take(at as int + 1);
            assert(longer.drop_last() =~= prefix@.take(at as int));
            assert(longer.last() == c);
            assert(prefix@.subrange(at as int, at as int + 1) =~= seq![c]);
        }
        let ghost before = pattern@;
        if c == '%' || c == '_' || c == '\\' {
            pattern.append("\\");
            assert(pattern@ =~= before.push('\\'));
        }
        let ghost escaped = pattern@;
        pattern.append(prefix.substring_char(at, at + 1));
        assert(pattern@ =~= escaped.push(c));
        at += 1;
    }
    assert(prefix@.take(at as int) =~= prefix@);
    let ghost escaped = pattern@;
    pattern.append("%");
    assert(pattern@ =~= escaped.push('%'));
    pattern
}

/// Whether `text` matches `pattern` as an SQL `LIKE` with the backslash
/// for its escape character reads the pattern: `%` stands for any run of
/// characters, `_` for any one character, a character after a backslash
/// for itself, and any other character for itself. (A backslash at the
/// end of a pattern is read as itself here; [`like_pattern`] writes none.)
pub open spec fn like_matches(pattern: Seq<char>, text: Seq<char>) -> bool
    decreases pattern.len(), text.len(),
{
    if pattern.len() == 0 {
        text.len() == 0
    } else if pattern[0] == '%' {
        like_matches(pattern.skip(1), text) || (text.len() > 0 && like_matches(
            pattern,
            text.skip(1),
        ))
    } else if pattern[0] == '_' {
        text.len() > 0 && like_matches(pattern.skip(1), text.skip(1))
    } else if pattern[0] == '\\' && pattern.len() > 1 {
        text.len() > 0 && text[0] == pattern[1] && like_matches(pattern.skip(2), text.skip(1))
    } else {
        text.len() > 0 && text[0] == pattern[0] && like_matches(pattern.skip(1), text.skip(1))
    }
}

/// How one character is written in a pattern to stand for itself.
pub open spec fn like_escaped_char(c: char) -> Seq<char> {
    if is_like_special(c) {
        seq!['\\', c]
    } else {
        seq![c]
    }
}

proof fn lemma_like_any_rest(text: Seq<char>)
    ensures
        like_matches(seq!['%'], text),
    decreases text.len(),
{
    let pattern = seq!['%'];
    assert(pattern.skip(1) =~= Seq::<char>::empty());
    if text.len() > 0 {
        lemma_like_any_rest(text.skip(1));
    } else {
        assert(like_matches(pattern.skip(1), text));
    }
}

proof fn lemma_like_escaped_front(text: Seq<char>)
    requires
        text.len() > 0,
    ensures
        like_escaped(text) == like_escaped_char(text[0]) + like_escaped(text.skip(1)),
    decreases text.len(),
{
    let head = text.drop_last();
    if head.len() == 0 {
        assert(text.skip(1) =~= Seq::<char>::empty());
        assert(like_escaped(head) =~= Seq::<char>::empty());
        assert(like_escaped(text.skip(1)) =~= Seq::<char>::empty());
        assert(text.last() == text[0]);
        assert(like_escaped(text) =~= like_escaped_char(text[0]) + like_escaped(text.skip(1)));
    } else {
        lemma_like_escaped_front(head);
        assert(text.skip(1).drop_last() =~= head.skip(1));
        assert(text.skip(1).last() == text.last());
        assert(head[0] == text[0]);
        assert(like_escaped(text) =~= like_escaped_char(text[0]) + like_escaped(text.skip(1)));
    }
}

/// The pattern that [`like_pattern`] writes for a prefix matches the
/// texts that begin with the prefix, and no others: every character of
/// the prefix stands for itself.
pub proof fn lemma_like_pattern_is_prefix(prefix: Seq<char>, text: Seq<char>)
    ensures
        like_matches(like_escaped(prefix).push('%'), text) == prefix.is_prefix_of(text),
    decreases prefix.len(),
{
    let pattern = like_escaped(prefix).push('%');
    if prefix.len() == 0 {
        assert(pattern =~= seq!['%']);
        lemma_like_any_rest(text);
        assert(text.subrange(0, 0) =~= prefix);
    } else {
        let c = prefix[0];
        let rest = prefix.skip(1);
        let tail = like_escaped(rest).push('%');
        lemma_like_escaped_front(prefix);
        assert(pattern =~= like_escaped_char(c) + tail);
        if is_like_special(c) {
            assert(pattern[0] == '\\' && pattern[1] == c);
            assert(pattern.skip(2) =~= tail);
        } else {
            assert(pattern[0] == c);
            assert(pattern.skip(1) =~= tail);
        }
        if text.len() > 0 {
            lemma_like_pattern_is_prefix(rest, text.skip(1));
            if text[0] == c && rest.is_prefix_of(text.skip(1)) {
                assert(text.subrange(0, prefix.len() as int) =~= prefix) by {
                    assert(text.skip(1).subrange(0, rest.len() as int) == rest);
                    assert forall|i: int| 0 <= i < prefix.len() implies text[i] == prefix[i] by {
                        if i > 0 {
                            assert(text.skip(1).subrange(0, rest.len() as int)[i - 1] == rest[i
                                - 1]);
                        }
                    }
                }
            }
            if prefix.is_prefix_of(text) {
                assert(text.subrange(0, prefix.len() as int)[0] == prefix[0]);
                assert(text.skip(1).subrange(0, rest.len() as int) =~= rest) by {
                    assert forall|i: int| 0 <= i < rest.len() implies text.skip(1)[i]
                        == rest[i] by {
                        assert(text.subrange(0, prefix.len() as int)[i + 1] == prefix[i + 1]);
                    }
                }
            }
        }
    }
}

/// Whether `row` is among `rows`.
pub open spec fn listed(rows: Seq<AddressView>, row: AddressView) -> bool {
    exists|i: int| 0 <= i < rows.len() && #[trigger] rows[i] == row
}

/// Whether `rows` stand in ascending order of their numbers.
pub open spec fn ascending(rows: Seq<AddressView>) -> bool {
    forall|a: int, b: int|
        0 <= a < b < rows.len() ==> precedes((#[trigger] rows[a]).number, (#[trigger] rows[b]).number)
}

/// Whether `found` answers the lookup on `table`: the rows that match, in
/// ascending order of their numbers, cut off after the first
/// [`ADDRESSES_RESULT_LIMIT`] of them.
pub open spec fn answers(
    table: Seq<AddressView>,
    found: Seq<AddressView>,
    postcode: Seq<char>,
    number: Option<Seq<char>>,
) -> bool {
    &&& found.len() <= ADDRESSES_RESULT_LIMIT
    &&& ascending(found)
    &&& forall|k: int|
        0 <= k < found.len() ==> listed(table, #[trigger] found[k]) && is_match(
            found[k],
            postcode,
            number,
        )
    &&& forall|i: int|
        0 <= i < table.len() && is_match(#[trigger] table[i], postcode, number) ==> listed(
            found,
            table[i],
        ) || (found.len() == ADDRESSES_RESULT_LIMIT && precedes(
            found[found.len() - 1].number,
            table[i].number,
        ))
}

/// Two answers to one lookup hold the same row at every position that
/// both have.
pub proof fn lemma_answers_agree(
    table: Seq<AddressView>,
    first: Seq<AddressView>,
    second: Seq<AddressView>,
    postcode: Seq<char>,
    number: Option<Seq<char>>,
    at: int,
)
    requires
        answers(table, first, postcode, number),
        answers(table, second, postcode, number),
        0 <= at < first.len(),
        at < second.len(),
    ensures
        first[at] == second[at],
    decreases at,
{
    let ours = first[at];
    let theirs = second[at];
    if ours != theirs {
        // Their row at this position comes before ours, or ours before theirs.
        assert(listed(table, ours) && is_match(ours, postcode, number));
        let i = choose|i: int| 0 <= i < table.len() && #[trigger] table[i] == ours;
        assert(is_match(table[i], postcode, number));
        if listed(second, ours) {
            let m = choose|m: int| 0 <= m < second.len() && #[trigger] second[m] == ours;
            if m < at {
                lemma_answers_agree(table, first, second, postcode, number, m);
                assert(precedes(first[m].number, first[at].number));
                lemma_precedes_irreflexive(ours.number);
            } else {
                assert(precedes(second[at].number, second[m].number));
            }
        } else {
            let last = second[second.len() - 1];
            assert(precedes(last.number, ours.number));
            if at < second.len() - 1 {
                assert(precedes(second[at].number, second[second.len() - 1].number));
                lemma_precedes_transitive(theirs.number, last.number, ours.number);
            }
        }
        assert(precedes(theirs.number, ours.number));
        lemma_precedes_asymmetric(theirs.number, ours.number);
        assert(listed(table, theirs) && is_match(theirs, postcode, number));
        let j = choose|j: int| 0 <= j < table.len() && #[trigger] table[j] == theirs;
        assert(is_match(table[j], postcode, number));
        if listed(first, theirs) {
            let m = choose|m: int| 0 <= m < first.len() && #[trigger] first[m] == theirs;
            if m < at {
                lemma_answers_agree(table, first, second, postcode, number, m);
                assert(precedes(second[m].number, second[at].number));
                lemma_precedes_irreflexive(theirs.number);
            } else {
                assert(precedes(first[at].number, first[m].number));
            }
        } else {
            let last = first[first.len() - 1];
            assert(precedes(last.number, theirs.number));
            if at < first.len() - 1 {
                assert(precedes(first[at].number, first[first.len() - 1].number));
                lemma_precedes_transitive(ours.number, last.number, theirs.number);
            }
        }
    }
}

/// A lookup has one answer: two lists that answer the same lookup on a
/// table are the same list.
pub proof fn lemma_answer_is_unique(
    table: Seq<AddressView>,
    first: Seq<AddressView>,
    second: Seq<AddressView>,
    postcode: Seq<char>,
    number: Option<Seq<char>>,
)
    requires
        answers(table, first, postcode, number),
        answers(table, second, postcode, number),
    ensures
        first == second,
{
    if first.len() < second.len() {
        lemma_answer_is_no_shorter(table, first, second, postcode, number);
    } else if second.len() < first.len() {
        lemma_answer_is_no_shorter(table, second, first, postcode, number);
    }
    assert forall|at: int| 0 <= at < first.len() implies first[at] == second[at] by {
        lemma_answers_agree(table, first, second, postcode, number, at);
    }
    assert(first =~= second);
}

proof fn lemma_answer_is_no_shorter(
    table: Seq<AddressView>,
    shorter: Seq<AddressView>,
    longer: Seq<AddressView>,
    postcode: Seq<char>,
    number: Option<Seq<char>>,
)
    requires
        answers(table, shorter, postcode, number),
        answers(table, longer, postcode, number),
    ensures
        shorter.len() >= longer.len(),
{
    if shorter.len() < longer.len() {
        let extra = longer[shorter.len() as int];
        assert(listed(table, extra) && is_match(extra, postcode, number));
        let i = choose|i: int| 0 <= i < table.len() && #[trigger] table[i] == extra;
        assert(is_match(table[i], postcode, number));
        assert(listed(shorter, extra));
        let m = choose|m: int| 0 <= m < shorter.len() && #[trigger] shorter[m] == extra;
        lemma_answers_agree(table, shorter, longer, postcode, number, m);
        assert(precedes(longer[m].number, longer[shorter.len() as int].number));
        lemma_precedes_irreflexive(extra.number);
    }
}

/// The address table: its rows, no two of them for the same postcode and
/// number.
pub struct AddressTable {
    rows: Vec<Address>,
}

impl View for AddressTable {
    type V = Seq<AddressView>;

    closed spec fn view(&self) -> Seq<AddressView> {
        address_views(self.rows@)
    }
}

impl AddressTable {
    /// Whether the table is valid: no two rows are for the same address.
    pub open spec fn wf(&self) -> bool {
        unique_keys(self@)
    }

    /// A table without rows.
    pub fn new() -> (table: Self)
        ensures
            table@ == Seq::<AddressView>::empty(),
            table.wf(),
    {
        let table = AddressTable { rows: Vec::new() };
        assert(table@ =~= Seq::<AddressView>::empty());
        table
    }

    /// The number of rows.
    pub fn len(&self) -> (count: usize)
        ensures
            count == self@.len(),
    {
        self.rows.len()
    }

    /// The rows, in the order in which they were first written.
    pub fn rows(&self) -> (rows: &Vec<Address>)
        ensures
            address_views(rows@) == self@,
    {
        &self.rows
    }

    /// The position of the row for an address.
    fn find(&self, postcode: &str, number: &str) -> (found: Option<usize>)
        ensures
            match found {
                Some(at) => at < self@.len() && self@[at as int].key() == (postcode@, number@),
                None => !has_key(self@, (postcode@, number@)),
            },
    {
        let mut at: usize = 0;
        while at < self.rows.len()
            invariant
                at <= self.rows.len(),
                forall|i: int| 0 <= i < at ==> (#[trigger] self@[i]).key() != (postcode@, number@),
            decreases self.rows.len() - at,
        {
            let row = &self.rows[at];
            assert(self@[at as int] == row@);
            if text_equal(row.postcode.as_str(), postcode) && text_equal(row.number.as_str(), number) {
                return Some(at);
            }
            at += 1;
        }
        None
    }

    /// Writes one row: updates the row for its address where there is
    /// one, keeping that row's identifier, and appends it where there is
    /// none.
    pub fn upsert(&mut self, new: &NewAddress)
        requires
            old(self).wf(),
        ensures
            final(self).wf(),
            final(self)@ == upsert_row(old(self)@, new@),
    {
        proof {
            lemma_upsert_row_unique(self@, new@);
        }
        match self.find(new.postcode, new.number) {
            Some(at) => {
                proof {
                    let chosen = position_of(self@, new@.key());
                    assert(has_key(self@, new@.key()));
                    if chosen < at {
                        assert(self@[chosen].key() != self@[at as int].key());
                    } else if at < chosen {
                        assert(self@[at as int].key() != self@[chosen].key());
                    }
                }
                let row = &self.rows[at];
                assert(self@[at as int] == row@);
                let changed = Address {
                    id: row.id,
                    lat: new.lat,
                    lon: new.lon,
                    number: row.number.clone(),
                    street: new.street.to_owned(),
                    city: new.city.to_owned(),
                    region: new.region.to_owned(),
                    postcode: row.postcode.clone(),
                };
                self.rows.set(at, changed);
                assert(self@ =~= upsert_row(old(self)@, new@));
            },
            None => {
                let added = Address {
                    id: new.id,
                    lat: new.lat,
                    lon: new.lon,
                    number: new.number.to_owned(),
                    street: new.street.to_owned(),
                    city: new.city.to_owned(),
                    region: new.region.to_owned(),
                    postcode: new.postcode.to_owned(),
                };
                self.rows.push(added);
                assert(self@ =~= upsert_row(old(self)@, new@));
            },
        }
    }

    /// Writes rows in order, each as [`AddressTable::upsert`] does, and
    /// returns how many were written.
    pub fn upsert_all(&mut self, news: &Vec<NewAddress>) -> (count: usize)
        requires
            old(self).wf(),
        ensures
            final(self).wf(),
            final(self)@ == upsert_all(old(self)@, new_views(news@)),
            count == news.len(),
    {
        let ghost views = new_views(news@);
        let mut at: usize = 0;
        assert(views.take(0) =~= Seq::<AddressView>::empty());
        while at < news.len()
            invariant
                at <= news.len(),
                views == new_views(news@),
                self.wf(),
                self@ == upsert_all(old(self)@, views.take(at as int)),
            decreases news.len() - at,
        {
            proof {
                let longer = views.take(at as int + 1);
                assert(longer.drop_last() =~= views.take(at as int));
                assert(longer.last() == news@[at as int]@);
            }
            self.upsert(&news[at]);
            at += 1;
        }
        assert(views.take(at as int) =~= views);
        at
    }
}

/// The rows that a batch makes: one for each record that stands, in the
/// order of the batch, each under an identifier drawn for it.
pub fn new_addresses<'a>(records: &'a Vec<AddressRecord>) -> (news: Vec<NewAddress<'a>>)
    ensures
        made_from(new_views(news@), survivors(record_views(records@))),
{
    let kept = deduplicate(records);
    let ghost standing = survivors(record_views(records@));
    let mut news: Vec<NewAddress<'a>> = Vec::new();
    let mut at: usize = 0;
    while at < kept.len()
        invariant
            at <= kept.len(),
            referred_views(kept@) == standing,
            news.len() == at,
            forall|k: int|
                0 <= k < at ==> (#[trigger] news@[k])@ == standing[k].row(news@[k].id)
                    && is_random_id(news@[k].id),
        decreases kept.len() - at,
    {
        let record: &'a AddressRecord = kept[at];
        assert(standing[at as int] == record@);
        news.push(
            NewAddress {
                id: fresh_id(),
                lat: record.lat,
                lon: record.lon,
                number: record.number.as_str(),
                street: record.street.as_str(),
                city: record.city.as_str(),
                region: record.region.as_str(),
                postcode: record.postcode.as_str(),
            },
        );
        at += 1;
    }
    news
}

/// Reconciles a batch into the table: of several records for one
/// address the last stands; each record that stands updates the row for
/// its address or, where there is none, becomes a new row under a fresh
/// identifier. Returns the number of rows written.
pub fn create_or_update_addresses(table: &mut AddressTable, records: &Vec<AddressRecord>) -> (count:
    usize)
    requires
        old(table).wf(),
    ensures
        final(table).wf(),
        upserted(old(table)@, final(table)@, record_views(records@)),
        count == survivors(record_views(records@)).len(),
{
    let news = new_addresses(records);
    let count = table.upsert_all(&news);
    assert(made_from(new_views(news@), survivors(record_views(records@))));
    count
}

/// Whether a lookup finds the row.
fn row_matches(row: &Address, pcode: &str, house_number: Option<&str>) -> (matched: bool)
    ensures
        matched == is_match(
            row@,
            pcode@,
            match house_number {
                Some(prefix) => Some(prefix@),
                None => None,
            },
        ),
{
    if !text_equal(row.postcode.as_str(), pcode) {
        return false;
    }
    match house_number {
        Some(prefix) => starts_with_ignore_case(row.number.as_str(), prefix),
        None => true,
    }
}

/// Looks addresses up by postcode and, where `house_number` is given, by
/// the beginning of the number, the case of ASCII letters set aside. The
/// rows come in ascending order of their numbers, at most
/// [`ADDRESSES_RESULT_LIMIT`] of them.
pub fn get_addresses(table: &AddressTable, pcode: &str, house_number: Option<&str>) -> (found: Vec<
    Address,
>)
    requires
        table.wf(),
    ensures
        answers(
            table@,
            address_views(found@),
            pcode@,
            match house_number {
                Some(prefix) => Some(prefix@),
                None => None,
            },
        ),
{
    let ghost number = match house_number {
        Some(prefix) => Some(prefix@),
        None => None,
    };
    let ghost all = table@;
    let rows = table.rows();
    let mut found: Vec<Address> = Vec::new();
    let mut exhausted = false;
    while found.len() < ADDRESSES_RESULT_LIMIT && !exhausted
        invariant
            all == table@,
            address_views(rows@) == all,
            unique_keys(all),
            number == (match house_number {
                Some(prefix) => Some(prefix@),
                None => None,
            }),
            found.len() <= ADDRESSES_RESULT_LIMIT,
            ascending(address_views(found@)),
            forall|k: int|
                0 <= k < found.len() ==> listed(all, #[trigger] address_views(found@)[k])
                    && is_match(address_views(found@)[k], pcode@, number),
            forall|i: int|
                0 <= i < all.len() && is_match(#[trigger] all[i], pcode@, number) && found.len() > 0
                    && !precedes(found@[found.len() - 1]@.number, all[i].number) ==> listed(
                    address_views(found@),
                    all[i],
                ),
            exhausted ==> forall|i: int|
                0 <= i < all.len() && is_match(#[trigger] all[i], pcode@, number) ==> listed(
                    address_views(found@),
                    all[i],
                ),
        decreases ADDRESSES_RESULT_LIMIT - found.len() + (if exhausted { 0int } else { 1int }),
    {
        let ghost so_far = address_views(found@);
        let mut best: Option<usize> = None;
        let mut at: usize = 0;
        while at < rows.len()
            invariant
                at <= rows.len(),
                address_views(rows@) == all,
                so_far == address_views(found@),
                number == (match house_number {
                    Some(prefix) => Some(prefix@),
                    None => None,
                }),
                best matches Some(b) ==> b < at && is_candidate(all, so_far, pcode@, number, b as int),
                forall|i: int|
                    0 <= i < at && #[trigger] is_candidate(all, so_far, pcode@, number, i)
                        ==> best is Some && !precedes(all[i].number, all[best->0 as int].number),
            decreases rows.len() - at,
        {
            let row = &rows[at];
            assert(all[at as int] == row@);
            let after_last = if found.len() == 0 {
                true
            } else {
                let last = &found[found.len() - 1];
                assert(so_far[found.len() - 1] == last@);
                text_precedes(last.number.as_str(), row.number.as_str())
            };
            if after_last && row_matches(row, pcode, house_number) {
                assert(is_candidate(all, so_far, pcode@, number, at as int));
                let better = match best {
                    Some(b) => {
                        assert(all[b as int] == rows@[b as int]@);
                        text_precedes(row.number.as_str(), rows[b].number.as_str())
                    },
                    None => true,
                };
                if better {
                    proof {
                        if best is Some {
                            let b = best->0 as int;
                            assert forall|i: int|
                                0 <= i < at && #[trigger] is_candidate(
                                    all,
                                    so_far,
                                    pcode@,
                                    number,
                                    i,
                                ) implies !precedes(all[i].number, row@.number) by {
                                if precedes(all[i].number, row@.number) {
                                    lemma_precedes_transitive(
                                        all[i].number,
                                        row@.number,
                                        all[b].number,
                                    );
                                }
                            }
                        }
                        lemma_precedes_irreflexive(row@.number);
                    }
                    best = Some(at);
                }
            }
            at += 1;
        }
        match best {
            None => {
                proof {
                    assert forall|i: int|
                        0 <= i < all.len() && is_match(
                            #[trigger] all[i],
                            pcode@,
                            number,
                        ) implies listed(so_far, all[i]) by {
                        assert(!is_candidate(all, so_far, pcode@, number, i));
                    }
                }
                exhausted = true;
            },
            Some(b) => {
                let next = rows[b].clone();
                assert(next@ == all[b as int]);
                found.push(next);
                proof {
                    let now = address_views(found@);
                    assert(now =~= so_far.push(all[b as int]));
                    assert forall|x: int, y: int| 0 <= x < y < now.len() implies precedes(
                        (#[trigger] now[x]).number,
                        (#[trigger] now[y]).number,
                    ) by {
                        if y == so_far.len() {
                            if x < so_far.len() - 1 {
                                assert(precedes(so_far[x].number, so_far[so_far.len() - 1].number));
                                lemma_precedes_transitive(
                                    so_far[x].number,
                                    so_far[so_far.len() - 1].number,
                                    all[b as int].number,
                                );
                            }
                        } else {
                            assert(precedes(so_far[x].number, so_far[y].number));
                        }
                    }
                    assert forall|k: int| 0 <= k < now.len() implies listed(all, #[trigger] now[k])
                        && is_match(now[k], pcode@, number) by {
                        if k < so_far.len() {
                            assert(now[k] == so_far[k]);
                        }
                    }
                    assert forall|i: int|
                        0 <= i < all.len() && is_match(#[trigger] all[i], pcode@, number)
                            && !precedes(all[b as int].number, all[i].number) implies listed(
                        now,
                        all[i],
                    ) by {
                        if is_candidate(all, so_far, pcode@, number, i) {
                            lemma_precedes_total(all[i].number, all[b as int].number);
                            assert(all[i].key() == all[b as int].key());
                            if i < b {
                                assert(all[i].key() != all[b as int].key());
                            } else if b < i {
                                assert(all[b as int].key() != all[i].key());
                            }
                            assert(now[so_far.len() as int] == all[i]);
                        } else {
                            assert(listed(so_far, all[i]));
                            let k = choose|k: int| 0 <= k < so_far.len() && #[trigger] so_far[k] == all[i];
                            assert(now[k] == all[i]);
                        }
                    }
                }
            },
        }
    }
    proof {
        let result = address_views(found@);
        assert forall|i: int|
            0 <= i < all.len() && is_match(#[trigger] all[i], pcode@, number) implies listed(
            result,
            all[i],
        ) || (result.len() == ADDRESSES_RESULT_LIMIT && precedes(
            result[result.len() - 1].number,
            all[i].number,
        )) by {}
    }
    found
}

/// Whether row `at` of the table is still to be returned: the lookup
/// finds it, and its number comes after that of the last row found.
pub open spec fn is_candidate(
    all: Seq<AddressView>,
    so_far: Seq<AddressView>,
    postcode: Seq<char>,
    number: Option<Seq<char>>,
    at: int,
) -> bool {
    &&& 0 <= at < all.len()
    &&& is_match(all[at], postcode, number)
    &&& so_far.len() > 0 ==> precedes(so_far[so_far.len() - 1].number, all[at].number)
}

} // verus!
