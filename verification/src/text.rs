//! Text: decimal numerals, padding, whitespace, and comparisons of strings.

use vstd::prelude::*;

verus! {

/// The decimal digit of value `d`.
pub open spec fn digit(d: nat) -> char {
    ('0' as u32 + d) as char
}

/// The decimal numeral of `n`, without leading zeros.
pub open spec fn digits(n: nat) -> Seq<char>
    decreases n,
{
    if n < 10 {
        seq![digit(n)]
    } else {
        digits(n / 10).push(digit(n % 10))
    }
}

/// `count` zeros.
pub open spec fn zeros(count: int) -> Seq<char> {
    Seq::new(
        if count > 0 {
            count as nat
        } else {
            0
        },
        |i: int| '0',
    )
}

/// The decimal numeral of `n`, filled up with leading zeros to `width` digits.
pub open spec fn padded(n: nat, width: nat) -> Seq<char> {
    zeros(width - digits(n).len()) + digits(n)
}

/// The decimal numeral of an integer.
pub open spec fn integer(n: int) -> Seq<char> {
    if n < 0 {
        seq!['-'] + digits((-n) as nat)
    } else {
        digits(n as nat)
    }
}

/// The decimal numeral of an integer, filled up with zeros between the sign and
/// the digits so that it takes at least `width` characters, the sign among them.
pub open spec fn padded_integer(n: int, width: nat) -> Seq<char>
    recommends
        width > 0,
{
    if n < 0 {
        seq!['-'] + padded((-n) as nat, (width - 1) as nat)
    } else {
        padded(n as nat, width)
    }
}

/// The numeral that stands for one digit.
fn digit_text(d: u64) -> (r: &'static str)
    requires
        d < 10,
    ensures
        r@ == seq![digit(d as nat)],
{
    proof {
        reveal_strlit("0");
        reveal_strlit("1");
        reveal_strlit("2");
        reveal_strlit("3");
        reveal_strlit("4");
        reveal_strlit("5");
        reveal_strlit("6");
        reveal_strlit("7");
        reveal_strlit("8");
        reveal_strlit("9");
    }
    match d {
        0 => "0",
        1 => "1",
        2 => "2",
        3 => "3",
        4 => "4",
        5 => "5",
        6 => "6",
        7 => "7",
        8 => "8",
        _ => "9",
    }
}

/// Appends the decimal numeral of `n`.
pub fn push_digits(out: &mut String, n: u64)
    ensures
        final(out)@ == old(out)@ + digits(n as nat),
    decreases n,
{
    if n >= 10 {
        push_digits(out, n / 10);
    }
    out.append(digit_text(n % 10));
    proof {
        if n < 10 {
            assert(digits(n as nat) == seq![digit(n as nat)]);
        } else {
            assert(digits(n as nat) == digits(n as nat / 10).push(digit(n as nat % 10)));
        }
    }
}

/// The number of digits in the decimal numeral of `n`.
fn count_digits(n: u64) -> (r: u64)
    ensures
        r == digits(n as nat).len(),
        1 <= r <= n + 1,
    decreases n,
{
    if n < 10 {
        1
    } else {
        1 + count_digits(n / 10)
    }
}

/// Appends the decimal numeral of `n`, filled up with leading zeros to `width`
/// digits.
pub fn push_padded(out: &mut String, n: u64, width: u64)
    ensures
        final(out)@ == old(out)@ + padded(n as nat, width as nat),
{
    let mut count: u64 = count_digits(n);
    let ghost start = out@;
    let ghost written = digits(n as nat).len();
    assert(start + zeros(0) =~= start);
    while count < width
        invariant
            written == digits(n as nat).len(),
            written <= count,
            count <= width || count == written,
            out@ == start + zeros(count - written),
        decreases width - count,
    {
        proof {
            reveal_strlit("0");
            assert(zeros(count - written) + seq!['0'] =~= zeros(count - written + 1));
        }
        out.append("0");
        count = count + 1;
    }
    push_digits(out, n);
    proof {
        assert(zeros(count - written) =~= zeros(width - written));
        assert(start + zeros(count - written) + digits(n as nat) =~= start + padded(
            n as nat,
            width as nat,
        ));
    }
}

/// The magnitude of a negative number.
fn magnitude(n: i64) -> (r: u64)
    requires
        n < 0,
    ensures
        r == -n,
{
    ((-(n + 1)) as u64) + 1
}

/// Appends the decimal numeral of `n`.
pub fn push_integer(out: &mut String, n: i64)
    ensures
        final(out)@ == old(out)@ + integer(n as int),
{
    if n < 0 {
        proof {
            reveal_strlit("-");
        }
        out.append("-");
        push_digits(out, magnitude(n));
        assert(out@ =~= old(out)@ + integer(n as int));
    } else {
        push_digits(out, n as u64);
    }
}

/// Appends the decimal numeral of `n`, filled up with zeros behind the sign to
/// `width` characters.
pub fn push_padded_integer(out: &mut String, n: i64, width: u64)
    requires
        width > 0,
    ensures
        final(out)@ == old(out)@ + padded_integer(n as int, width as nat),
{
    if n < 0 {
        proof {
            reveal_strlit("-");
        }
        out.append("-");
        push_padded(out, magnitude(n), width - 1);
        assert(out@ =~= old(out)@ + padded_integer(n as int, width as nat));
    } else {
        push_padded(out, n as u64, width);
    }
}

/// The numerals of bytes, with commas between them.
pub open spec fn listed(bytes: Seq<u8>) -> Seq<char>
    decreases bytes.len(),
{
    if bytes.len() == 0 {
        Seq::empty()
    } else if bytes.len() == 1 {
        digits(bytes[0] as nat)
    } else {
        listed(bytes.drop_last()) + ", "@ + digits(bytes.last() as nat)
    }
}

/// Appends the numerals of bytes, in brackets and with commas between them.
pub fn push_list(out: &mut String, bytes: &[u8])
    ensures
        final(out)@ == old(out)@ + "["@ + listed(bytes@) + "]"@,
{
    out.append("[");
    let ghost start = out@;
    let mut i: usize = 0;
    assert(start + listed(bytes@.take(0)) =~= start);
    while i < bytes.len()
        invariant
            i <= bytes@.len(),
            out@ == start + listed(bytes@.take(i as int)),
        decreases bytes@.len() - i,
    {
        proof {
            let next = bytes@.take(i + 1);
            assert(next.drop_last() =~= bytes@.take(i as int));
            assert(next.last() == bytes@[i as int]);
            assert(i == 0 ==> listed(next) =~= listed(bytes@.take(0)) + digits(next[0] as nat));
        }
        if i > 0 {
            out.append(", ");
        }
        push_digits(out, bytes[i] as u64);
        assert(out@ =~= start + listed(bytes@.take(i + 1)));
        i = i + 1;
    }
    assert(bytes@.take(i as int) =~= bytes@);
    out.append("]");
}

/// Whether `text` begins with `prefix`.
pub fn starts_with(text: &str, prefix: &str) -> (r: bool)
    ensures
        r == prefix@.is_prefix_of(text@),
{
    let n = prefix.unicode_len();
    if text.unicode_len() < n {
        return false;
    }
    let mut i: usize = 0;
    while i < n
        invariant
            i <= n,
            n == prefix@.len(),
            n <= text@.len(),
            forall|j: int| 0 <= j < i ==> text@[j] == prefix@[j],
        decreases n - i,
    {
        if text.get_char(i) != prefix.get_char(i) {
            assert(text@.subrange(0, n as int)[i as int] == text@[i as int]);
            return false;
        }
        i = i + 1;
    }
    assert(prefix@ =~= text@.subrange(0, n as int));
    true
}

/// Whether two strings are the same.
pub fn same_text(left: &str, right: &str) -> (r: bool)
    ensures
        r == (left@ == right@),
{
    if left.unicode_len() != right.unicode_len() {
        return false;
    }
    let same = starts_with(left, right);
    proof {
        if right@.is_prefix_of(left@) {
            assert(left@ =~= right@);
        }
    }
    same
}

/// Whether two byte strings are the same.
pub fn same_bytes(left: &[u8], right: &[u8]) -> (r: bool)
    ensures
        r == (left@ == right@),
{
    if left.len() != right.len() {
        return false;
    }
    let mut i: usize = 0;
    while i < left.len()
        invariant
            i <= left@.len(),
            left@.len() == right@.len(),
            forall|j: int| 0 <= j < i ==> left@[j] == right@[j],
        decreases left@.len() - i,
    {
        if left[i] != right[i] {
            return false;
        }
        i = i + 1;
    }
    assert(left@ =~= right@);
    true
}

/// The ASCII whitespace: tab, line feed, form feed, carriage return and space.
pub open spec fn is_space(byte: u8) -> bool {
    byte == 9 || byte == 10 || byte == 12 || byte == 13 || byte == 32
}

/// Bytes without the whitespace at their beginning.
pub open spec fn trimmed_start(bytes: Seq<u8>) -> Seq<u8>
    decreases bytes.len(),
{
    if bytes.len() > 0 && is_space(bytes[0]) {
        trimmed_start(bytes.drop_first())
    } else {
        bytes
    }
}

/// Bytes without the whitespace at their end.
pub open spec fn trimmed_end(bytes: Seq<u8>) -> Seq<u8>
    decreases bytes.len(),
{
    if bytes.len() > 0 && is_space(bytes.last()) {
        trimmed_end(bytes.drop_last())
    } else {
        bytes
    }
}

/// Whether a byte is ASCII whitespace.
pub(crate) fn space(byte: u8) -> (r: bool)
    ensures
        r == is_space(byte),
{
    byte == 9 || byte == 10 || byte == 12 || byte == 13 || byte == 32
}

/// The number that a row of digits stands for.
pub open spec fn number(numeral: Seq<char>) -> int
    decreases numeral.len(),
{
    if numeral.len() == 0 {
        0
    } else {
        10 * number(numeral.drop_last()) + (numeral.last() as int - '0' as int)
    }
}

/// Whether all characters are decimal digits.
pub open spec fn all_digits(numeral: Seq<char>) -> bool {
    forall|i: int| 0 <= i < numeral.len() ==> '0' <= #[trigger] numeral[i] <= '9'
}

proof fn lemma_digits(n: nat)
    ensures
        all_digits(digits(n)),
        digits(n).len() > 0,
        number(digits(n)) == n,
        n < 100 ==> digits(n).len() <= 2,
    decreases n,
{
    if n < 10 {
        assert(digits(n).drop_last() =~= Seq::<char>::empty());
        assert(digits(n).last() == digit(n));
        assert(number(Seq::<char>::empty()) == 0);
    } else {
        lemma_digits(n / 10);
        assert(digits(n).drop_last() =~= digits(n / 10));
        assert(digits(n).last() == digit(n % 10));
    }
}

proof fn lemma_leading_zeros(count: int, numeral: Seq<char>)
    ensures
        number(zeros(count) + numeral) == number(numeral),
    decreases numeral.len(), count,
{
    if numeral.len() > 0 {
        assert((zeros(count) + numeral).drop_last() =~= zeros(count) + numeral.drop_last());
        lemma_leading_zeros(count, numeral.drop_last());
    } else if count > 0 {
        assert((zeros(count) + numeral).drop_last() =~= zeros(count - 1) + numeral);
        assert((zeros(count) + numeral).last() == '0');
        lemma_leading_zeros(count - 1, numeral);
    } else {
        assert(zeros(count) + numeral =~= numeral);
    }
}

/// A padded numeral is a row of digits that reads back as its number.
pub proof fn padded_reads_back(n: nat, width: nat)
    ensures
        all_digits(padded(n, width)),
        padded(n, width).len() > 0,
        padded(n, width).len() >= width,
        number(padded(n, width)) == n,
        n < 100 ==> padded(n, 2).len() == 2,
{
    lemma_digits(n);
    lemma_leading_zeros(width - digits(n).len(), digits(n));
}

/// Two integers with the same padded numeral are the same.
pub proof fn padded_integers_differ(left: int, right: int, width: nat)
    requires
        width > 0,
        padded_integer(left, width) == padded_integer(right, width),
    ensures
        left == right,
{
    lemma_sign(left, width);
    lemma_sign(right, width);
}

/// The sign and the digits of a padded integer.
proof fn lemma_sign(n: int, width: nat)
    requires
        width > 0,
    ensures
        padded_integer(n, width).len() > 0,
        n < 0 <==> padded_integer(n, width)[0] == '-',
        n < 0 ==> number(padded_integer(n, width).drop_first()) == -n,
        n >= 0 ==> number(padded_integer(n, width)) == n,
{
    if n < 0 {
        padded_reads_back((-n) as nat, (width - 1) as nat);
        assert(padded_integer(n, width).drop_first() =~= padded(
            (-n) as nat,
            (width - 1) as nat,
        ));
    } else {
        padded_reads_back(n as nat, width);
        assert(padded(n as nat, width)[0] >= '0');
    }
}

} // verus!
