//! Character-level operations on text: prefixes, ASCII case folding,
//! lexicographic order and decimal counts.

use vstd::prelude::*;

verus! {

/// The characters of `text`, in order.
pub fn chars_of(text: &str) -> (chars: Vec<char>)
    ensures
        chars@ == text@,
{
    let mut chars: Vec<char> = Vec::new();
    for c in it: text.chars()
        invariant
            it.seq() == text@,
            chars@ == it.seq().take(it.index() as int),
    {
        chars.push(c);
    }
    chars
}

/// `c` with an ASCII capital letter replaced by its small letter.
pub open spec fn fold_char(c: char) -> char {
    if 'A' <= c && c <= 'Z' {
        ((c as u8) + 32) as char
    } else {
        c
    }
}

/// `text` with every ASCII capital letter replaced by its small letter.
pub open spec fn fold(text: Seq<char>) -> Seq<char> {
    Seq::new(text.len(), |i: int| fold_char(text[i]))
}

/// Computes [`fold_char`].
pub fn fold_char_exec(c: char) -> (folded: char)
    ensures
        folded == fold_char(c),
{
    if 'A' <= c && c <= 'Z' {
        ((c as u8) + 32) as char
    } else {
        c
    }
}

/// Whether `text` begins with `prefix`, character for character.
pub fn starts_with(text: &str, prefix: &str) -> (found: bool)
    ensures
        found == prefix@.is_prefix_of(text@),
{
    let text_chars = chars_of(text);
    let prefix_chars = chars_of(prefix);
    if prefix_chars.len() > text_chars.len() {
        return false;
    }
    let mut at: usize = 0;
    while at < prefix_chars.len()
        invariant
            at <= prefix_chars.len() <= text_chars.len(),
            text_chars@ == text@,
            prefix_chars@ == prefix@,
            forall|i: int| 0 <= i < at ==> text@[i] == prefix@[i],
        decreases prefix_chars.len() - at,
    {
        if text_chars[at] != prefix_chars[at] {
            assert(text@.subrange(0, prefix@.len() as int)[at as int] != prefix@[at as int]);
            return false;
        }
        at += 1;
    }
    assert(text@.subrange(0, prefix@.len() as int) =~= prefix@);
    true
}

/// Whether two texts are the same, character for character.
pub fn text_equal(left: &str, right: &str) -> (same: bool)
    ensures
        same == (left@ == right@),
{
    let left_chars = chars_of(left);
    let right_chars = chars_of(right);
    if left_chars.len() != right_chars.len() {
        return false;
    }
    let mut at: usize = 0;
    while at < left_chars.len()
        invariant
            at <= left_chars.len(),
            left_chars.len() == right_chars.len(),
            left_chars@ == left@,
            right_chars@ == right@,
            forall|i: int| 0 <= i < at ==> left@[i] == right@[i],
        decreases left_chars.len() - at,
    {
        if left_chars[at] != right_chars[at] {
            return false;
        }
        at += 1;
    }
    assert(left@ =~= right@);
    true
}

/// Whether `text` begins with `prefix` when ASCII letters are compared
/// without regard to case.
pub fn starts_with_ignore_case(text: &str, prefix: &str) -> (found: bool)
    ensures
        found == fold(prefix@).is_prefix_of(fold(text@)),
{
    let text_chars = chars_of(text);
    let prefix_chars = chars_of(prefix);
    if prefix_chars.len() > text_chars.len() {
        return false;
    }
    let mut at: usize = 0;
    while at < prefix_chars.len()
        invariant
            at <= prefix_chars.len() <= text_chars.len(),
            text_chars@ == text@,
            prefix_chars@ == prefix@,
            forall|i: int| 0 <= i < at ==> fold(text@)[i] == fold(prefix@)[i],
        decreases prefix_chars.len() - at,
    {
        if fold_char_exec(text_chars[at]) != fold_char_exec(prefix_chars[at]) {
            assert(fold(text@).subrange(0, prefix@.len() as int)[at as int] != fold(
                prefix@,
            )[at as int]);
            return false;
        }
        at += 1;
    }
    assert(fold(text@).subrange(0, prefix@.len() as int) =~= fold(prefix@));
    true
}

/// Whether two texts are equal when ASCII letters are compared without
/// regard to case.
pub fn eq_ignore_case(left: &str, right: &str) -> (same: bool)
    ensures
        same == (fold(left@) == fold(right@)),
{
    let left_chars = chars_of(left);
    let right_chars = chars_of(right);
    if left_chars.len() != right_chars.len() {
        assert(fold(left@).len() != fold(right@).len());
        return false;
    }
    let mut at: usize = 0;
    while at < left_chars.len()
        invariant
            at <= left_chars.len(),
            left_chars.len() == right_chars.len(),
            left_chars@ == left@,
            right_chars@ == right@,
            forall|i: int| 0 <= i < at ==> fold(left@)[i] == fold(right@)[i],
        decreases left_chars.len() - at,
    {
        if fold_char_exec(left_chars[at]) != fold_char_exec(right_chars[at]) {
            assert(fold(left@)[at as int] != fold(right@)[at as int]);
            return false;
        }
        at += 1;
    }
    assert(fold(left@) =~= fold(right@));
    true
}

/// Lexicographic order on texts by character code: whether `left` comes
/// strictly before `right`.
pub open spec fn precedes(left: Seq<char>, right: Seq<char>) -> bool
    decreases left.len(),
{
    if right.len() == 0 {
        false
    } else if left.len() == 0 {
        true
    } else if left[0] != right[0] {
        left[0] < right[0]
    } else {
        precedes(left.skip(1), right.skip(1))
    }
}

/// No text comes before itself.
pub proof fn lemma_precedes_irreflexive(text: Seq<char>)
    ensures
        !precedes(text, text),
    decreases text.len(),
{
    if text.len() > 0 {
        lemma_precedes_irreflexive(text.skip(1));
    }
}

/// Of two different texts one comes before the other.
pub proof fn lemma_precedes_total(left: Seq<char>, right: Seq<char>)
    ensures
        precedes(left, right) || precedes(right, left) || left == right,
    decreases left.len(),
{
    if left.len() == 0 || right.len() == 0 {
        if left.len() == 0 && right.len() == 0 {
            assert(left =~= right);
        }
    } else if left[0] == right[0] {
        lemma_precedes_total(left.skip(1), right.skip(1));
        if left.skip(1) == right.skip(1) {
            assert(left =~= seq![left[0]] + left.skip(1));
            assert(right =~= seq![right[0]] + right.skip(1));
        }
    }
}

/// The order is transitive.
pub proof fn lemma_precedes_transitive(first: Seq<char>, second: Seq<char>, third: Seq<char>)
    requires
        precedes(first, second),
        precedes(second, third),
    ensures
        precedes(first, third),
    decreases first.len(),
{
    if first.len() > 0 && first[0] == second[0] && second[0] == third[0] {
        lemma_precedes_transitive(first.skip(1), second.skip(1), third.skip(1));
    }
}

/// The order is asymmetric.
pub proof fn lemma_precedes_asymmetric(left: Seq<char>, right: Seq<char>)
    requires
        precedes(left, right),
    ensures
        !precedes(right, left),
    decreases left.len(),
{
    if left.len() > 0 && right.len() > 0 && left[0] == right[0] {
        lemma_precedes_asymmetric(left.skip(1), right.skip(1));
    }
}

/// Whether `left` comes strictly before `right` in lexicographic order.
pub fn text_precedes(left: &str, right: &str) -> (before: bool)
    ensures
        before == precedes(left@, right@),
{
    let left_chars = chars_of(left);
    let right_chars = chars_of(right);
    let mut at: usize = 0;
    assert(left@.skip(0) =~= left@ && right@.skip(0) =~= right@);
    while at < left_chars.len() && at < right_chars.len()
        invariant
            at <= left_chars.len(),
            at <= right_chars.len(),
            left_chars@ == left@,
            right_chars@ == right@,
            precedes(left@, right@) == precedes(left@.skip(at as int), right@.skip(at as int)),
        decreases left_chars.len() - at,
    {
        let l = left_chars[at];
        let r = right_chars[at];
        proof {
            let ls = left@.skip(at as int);
            let rs = right@.skip(at as int);
            assert(ls[0] == l && rs[0] == r);
            assert(ls.skip(1) =~= left@.skip(at as int + 1));
            assert(rs.skip(1) =~= right@.skip(at as int + 1));
        }
        if l != r {
            return l < r;
        }
        at += 1;
    }
    at < right_chars.len()
}

/// Whether `c` is one of the ten decimal digits.
pub open spec fn is_digit(c: char) -> bool {
    '0' <= c && c <= '9'
}

/// The number that a run of decimal digits writes.
pub open spec fn digits_value(digits: Seq<char>) -> nat
    decreases digits.len(),
{
    if digits.len() == 0 {
        0
    } else {
        (digits_value(digits.drop_last()) * 10 + (digits.last() as u8 - '0' as u8)) as nat
    }
}

/// The digits of a count: the text without one leading plus sign.
pub open spec fn count_digits(text: Seq<char>) -> Seq<char> {
    if text.len() > 0 && text[0] == '+' {
        text.skip(1)
    } else {
        text
    }
}

/// The count that `text` writes: one or more decimal digits, with an
/// optional plus sign in front, whose value fits a `usize`.
pub open spec fn count_value(text: Seq<char>) -> Option<nat> {
    let digits = count_digits(text);
    if digits.len() > 0 && (forall|i: int| 0 <= i < digits.len() ==> is_digit(#[trigger] digits[i]))
        && digits_value(digits) <= usize::MAX {
        Some(digits_value(digits))
    } else {
        None
    }
}

/// A longer run of digits writes no smaller a number than its beginning.
pub proof fn lemma_digits_value_grows(digits: Seq<char>, shorter: int)
    requires
        0 <= shorter <= digits.len(),
        forall|i: int| 0 <= i < digits.len() ==> is_digit(#[trigger] digits[i]),
    ensures
        digits_value(digits.take(shorter)) <= digits_value(digits),
    decreases digits.len(),
{
    if shorter == digits.len() {
        assert(digits.take(shorter) =~= digits);
    } else {
        lemma_digits_value_grows(digits.drop_last(), shorter);
        assert(digits.drop_last().take(shorter) =~= digits.take(shorter));
    }
}

/// Reads a count as [`count_value`] defines it.
pub fn parse_count(text: &str) -> (count: Option<usize>)
    ensures
        match count {
            Some(n) => count_value(text@) == Some(n as nat),
            None => count_value(text@) is None,
        },
{
    let chars = chars_of(text);
    let start: usize = if chars.len() > 0 && chars[0] == '+' {
        1
    } else {
        0
    };
    let ghost digits = count_digits(text@);
    assert(digits =~= text@.skip(start as int));
    if chars.len() == start {
        return None;
    }
    let mut value: usize = 0;
    let mut at: usize = start;
    while at < chars.len()
        invariant
            start <= at <= chars.len(),
            chars@ == text@,
            digits == count_digits(text@),
            digits == text@.skip(start as int),
            forall|i: int| 0 <= i < at - start ==> is_digit(#[trigger] digits[i]),
            value == digits_value(digits.take(at - start)),
        decreases chars.len() - at,
    {
        let c = chars[at];
        assert(digits[at - start] == c);
        if !('0' <= c && c <= '9') {
            assert(!is_digit(digits[at - start]));
            return None;
        }
        let digit: usize = ((c as u8) - ('0' as u8)) as usize;
        proof {
            let longer = digits.take(at - start + 1);
            assert(longer.drop_last() =~= digits.take(at - start));
            assert(longer.last() == c);
            assert(digits_value(longer) == value * 10 + digit);
        }
        let grown = match value.checked_mul(10) {
            Some(tenfold) => tenfold.checked_add(digit),
            None => None,
        };
        match grown {
            Some(next) => {
                value = next;
            },
            None => {
                proof {
                    let longer = digits.take(at - start + 1);
                    assert(digits_value(longer) > usize::MAX);
                    if forall|i: int| 0 <= i < digits.len() ==> is_digit(#[trigger] digits[i]) {
                        lemma_digits_value_grows(digits, at - start + 1);
                        assert(digits_value(digits) > usize::MAX);
                    }
                }
                return None;
            },
        }
        at += 1;
    }
    assert(digits.take(at - start) =~= digits);
    Some(value)
}

} // verus!
