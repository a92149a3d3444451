//! What holds of every numeral and of every comparison.

use vstd::prelude::*;

use crate::text::{
    all_digits, digit, digits, integer, listed, number, padded, padded_integer,
    padded_reads_back, push_digits, push_integer, push_list, push_padded, push_padded_integer,
    same_bytes, same_text, starts_with,
};

verus! {

/// A row of digits is read from the left, each digit worth ten times the next.
pub proof fn rows_of_digits_are_decimal(numeral: Seq<char>, last: char)
    ensures
        number(Seq::empty()) == 0,
        number(numeral.push(last)) == 10 * number(numeral) + (last as int - 48),
{
    assert(numeral.push(last).drop_last() =~= numeral);
}

/// Whether a text is the decimal numeral of a number: digits that read as the
/// number, at least `width` of them, and no more leading zeros than that takes.
pub open spec fn is_numeral(text: Seq<char>, n: int, width: int) -> bool {
    &&& 1 <= text.len()
    &&& width <= text.len()
    &&& forall|i: int| 0 <= i < text.len() ==> '0' <= #[trigger] text[i] <= '9'
    &&& number(text) == n
    &&& 1 < text.len() && width < text.len() ==> text[0] != '0'
}

/// Whether a text is the numeral of an integer, with a sign where it is negative.
pub open spec fn is_integer(text: Seq<char>, n: int, width: int) -> bool {
    if n < 0 {
        &&& text.len() > 0
        &&& text[0] == '-'
        &&& is_numeral(text.skip(1), -n, width - 1)
    } else {
        is_numeral(text, n, width)
    }
}

proof fn lemma_first_digit(n: nat)
    ensures
        digits(n).len() > 0,
        n > 0 ==> digits(n)[0] != '0',
        n < 10 <==> digits(n).len() == 1,
    decreases n,
{
    if n >= 10 {
        lemma_first_digit(n / 10);
    } else {
        assert(digits(n)[0] == digit(n));
    }
}

/// Padded numerals are numerals of that width.
pub proof fn padded_is_a_numeral(n: nat, width: nat)
    ensures
        is_numeral(padded(n, width), n as int, width as int),
{
    padded_reads_back(n, width);
    lemma_first_digit(n);
    assert(all_digits(padded(n, width)));
    if padded(n, width).len() > width {
        assert(padded(n, width) =~= digits(n));
    }
}

/// Numerals are numerals of no least width.
pub proof fn digits_are_a_numeral(n: nat)
    ensures
        is_numeral(digits(n), n as int, 0),
        is_numeral(digits(n), n as int, 1),
{
    lemma_first_digit(n);
    padded_reads_back(n, 0);
    assert(padded(n, 0) =~= digits(n));
}

/// Integers are written as integers, padded or not.
pub proof fn integers_are_integers(n: int, width: nat)
    ensures
        is_integer(integer(n), n, 1),
        width > 0 ==> is_integer(padded_integer(n, width), n, width as int),
{
    if n < 0 {
        digits_are_a_numeral((-n) as nat);
        assert(integer(n).skip(1) =~= digits((-n) as nat));
        if width > 0 {
            padded_is_a_numeral((-n) as nat, (width - 1) as nat);
            assert(padded_integer(n, width).skip(1) =~= padded(
                (-n) as nat,
                (width - 1) as nat,
            ));
        }
    } else {
        digits_are_a_numeral(n as nat);
        padded_is_a_numeral(n as nat, width);
    }
}

/// Two numbers that share a numeral are the same, whatever the widths.
pub proof fn numerals_tell_numbers_apart(text: Seq<char>, n: int, m: int, width: int, other: int)
    requires
        is_integer(text, n, width),
        is_integer(text, m, other),
    ensures
        n == m,
{
    if n < 0 && m >= 0 {
        assert('0' <= text[0]);
    }
    if m < 0 && n >= 0 {
        assert('0' <= text[0]);
    }
}

/// Whatever `push_digits` and `push_padded` do, the text keeps what it holds, and
/// the numeral of the number comes behind it.
pub proof fn numerals_are_appended(
    n: u64,
    width: u64,
    before: String,
    after: String,
    after_padded: String,
)
    requires
        exists|out: &mut String|
            *out == before && *final(out) == after && #[trigger] call_ensures(
                push_digits,
                (out, n),
                (),
            ),
        exists|out: &mut String|
            *out == before && *final(out) == after_padded && #[trigger] call_ensures(
                push_padded,
                (out, n, width),
                (),
            ),
    ensures
        before@.is_prefix_of(after@),
        is_numeral(after@.skip(before@.len() as int), n as int, 1),
        before@.is_prefix_of(after_padded@),
        is_numeral(after_padded@.skip(before@.len() as int), n as int, width as int),
{
    digits_are_a_numeral(n as nat);
    padded_is_a_numeral(n as nat, width as nat);
    assert(after@.skip(before@.len() as int) =~= digits(n as nat));
    assert(after_padded@.skip(before@.len() as int) =~= padded(n as nat, width as nat));
    assert(before@ =~= after@.subrange(0, before@.len() as int));
    assert(before@ =~= after_padded@.subrange(0, before@.len() as int));
}

/// Whatever `push_integer` and `push_padded_integer` do, the text keeps what it
/// holds, and the numeral of the integer comes behind it.
pub proof fn integers_are_appended(
    n: i64,
    width: u64,
    before: String,
    after: String,
    after_padded: String,
)
    requires
        width > 0,
        exists|out: &mut String|
            *out == before && *final(out) == after && #[trigger] call_ensures(
                push_integer,
                (out, n),
                (),
            ),
        exists|out: &mut String|
            *out == before && *final(out) == after_padded && #[trigger] call_ensures(
                push_padded_integer,
                (out, n, width),
                (),
            ),
    ensures
        before@.is_prefix_of(after@),
        is_integer(after@.skip(before@.len() as int), n as int, 1),
        before@.is_prefix_of(after_padded@),
        is_integer(after_padded@.skip(before@.len() as int), n as int, width as int),
{
    integers_are_integers(n as int, width as nat);
    assert(after@.skip(before@.len() as int) =~= integer(n as int));
    assert(after_padded@.skip(before@.len() as int) =~= padded_integer(n as int, width as nat));
    assert(before@ =~= after@.subrange(0, before@.len() as int));
    assert(before@ =~= after_padded@.subrange(0, before@.len() as int));
}

/// Whether a text holds the numerals of bytes, one after the other, with a comma
/// and a space between any two.
pub open spec fn is_listing(text: Seq<char>, bytes: Seq<u8>) -> bool
    decreases bytes.len(),
{
    if bytes.len() == 0 {
        text.len() == 0
    } else if bytes.len() == 1 {
        is_numeral(text, bytes[0] as int, 1)
    } else {
        exists|k: int|
            0 <= k && k + 2 <= text.len() && #[trigger] text.subrange(k, k + 2) == seq![',', ' ']
                && is_listing(text.take(k), bytes.drop_last()) && is_numeral(
                text.skip(k + 2),
                bytes.last() as int,
                1,
            )
    }
}

/// Bytes are listed by their numerals.
pub proof fn listed_is_a_listing(bytes: Seq<u8>)
    ensures
        is_listing(listed(bytes), bytes),
    decreases bytes.len(),
{
    if bytes.len() == 1 {
        digits_are_a_numeral(bytes[0] as nat);
    } else if bytes.len() > 1 {
        reveal_strlit(", ");
        listed_is_a_listing(bytes.drop_last());
        digits_are_a_numeral(bytes.last() as nat);
        let text = listed(bytes);
        let k = listed(bytes.drop_last()).len() as int;
        assert(text.subrange(k, k + 2) =~= seq![',', ' ']);
        assert(text.take(k) =~= listed(bytes.drop_last()));
        assert(text.skip(k + 2) =~= digits(bytes.last() as nat));
    }
}

/// Whether a text is a listing of bytes in brackets.
pub open spec fn is_bracketed(text: Seq<char>, bytes: Seq<u8>) -> bool {
    &&& text.len() >= 2
    &&& text[0] == '['
    &&& text.last() == ']'
    &&& is_listing(text.subrange(1, text.len() - 1), bytes)
}

/// Bytes are listed in brackets.
pub proof fn brackets_hold_a_listing(bytes: Seq<u8>)
    ensures
        is_bracketed("["@ + listed(bytes) + "]"@, bytes),
{
    reveal_strlit("[");
    reveal_strlit("]");
    listed_is_a_listing(bytes);
    let text = "["@ + listed(bytes) + "]"@;
    assert(text.subrange(1, text.len() - 1) =~= listed(bytes));
}

/// Whatever `push_list` does, the text keeps what it holds, and the listing of the
/// bytes comes behind it, in brackets.
pub proof fn lists_are_appended(bytes: &[u8], before: String, after: String)
    requires
        exists|out: &mut String|
            *out == before && *final(out) == after && #[trigger] call_ensures(
                push_list,
                (out, bytes),
                (),
            ),
    ensures
        before@.is_prefix_of(after@),
        is_bracketed(after@.skip(before@.len() as int), bytes@),
{
    brackets_hold_a_listing(bytes@);
    assert(after@.skip(before@.len() as int) =~= "["@ + listed(bytes@) + "]"@);
    assert(before@ =~= after@.subrange(0, before@.len() as int));
}

/// Whatever `starts_with` returns, it is true of a text that some rest completes
/// from the prefix, and of no other.
pub proof fn prefixes_are_found(text: &str, prefix: &str, found: bool)
    requires
        call_ensures(starts_with, (text, prefix), found),
    ensures
        found <==> exists|rest: Seq<char>| text@ == #[trigger] (prefix@ + rest),
{
    if found {
        assert(text@ =~= prefix@ + text@.skip(prefix@.len() as int));
    }
    if exists|rest: Seq<char>| text@ == #[trigger] (prefix@ + rest) {
        assert(text@.subrange(0, prefix@.len() as int) =~= prefix@);
    }
}

/// Whatever `same_text` and `same_bytes` return, they are true where all characters
/// and all bytes are the same, and nowhere else.
pub proof fn equals_are_told(
    left: &str,
    right: &str,
    same: bool,
    left_bytes: &[u8],
    right_bytes: &[u8],
    same_too: bool,
)
    requires
        call_ensures(same_text, (left, right), same),
        call_ensures(same_bytes, (left_bytes, right_bytes), same_too),
    ensures
        same <==> left@ == right@,
        same_too <==> left_bytes@ == right_bytes@,
{
}

} // verus!
