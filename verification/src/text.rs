//! Decimal numbers and generated values as text.
use vstd::arithmetic::div_mod::{lemma_div_basics, lemma_div_denominator};
use vstd::prelude::*;
use vstd::utf8::{encode_utf8, is_ascii_chars_encode_utf8};

verus! {

/// `String::clear` is taken to leave the string empty.
pub assume_specification[ String::clear ](s: &mut String)
    ensures
        final(s)@ == Seq::<char>::empty(),
;

/// `String::push` is taken to append the character. It panics where the string's
/// allocation would exceed `isize::MAX` bytes. A character takes at most four
/// bytes, and an allocation that is full at most doubles, so a string within
/// [`max_bytes`] is safe.
pub assume_specification[ String::push ](s: &mut String, c: char)
    requires
        encode_utf8(old(s)@).len() <= max_bytes(),
    ensures
        final(s)@ == old(s)@.push(c),
;

/// The bytes up to which every string can grow, one character at a time.
pub open spec fn max_bytes() -> int {
    isize::MAX / 2 - 4
}

/// Ten to the power `k`.
pub open spec fn pow10(k: nat) -> nat
    decreases k,
{
    if k == 0 {
        1
    } else {
        10 * pow10((k - 1) as nat)
    }
}

/// The character of the decimal digit `d`.
pub open spec fn digit(d: nat) -> char {
    (48 + d) as char
}

/// `n` in decimal, without leading zeros.
pub open spec fn decimal_text(n: nat) -> Seq<char>
    decreases n,
{
    if n < 10 {
        seq![digit(n)]
    } else {
        decimal_text(n / 10).push(digit(n % 10))
    }
}

/// The last `width` digits of `n` in decimal, with zeros on the left where `n` has
/// fewer.
pub open spec fn zero_padded(n: nat, width: nat) -> Seq<char>
    decreases width,
{
    if width == 0 {
        Seq::empty()
    } else {
        zero_padded(n / 10, (width - 1) as nat).push(digit(n % 10))
    }
}

/// The value of `len` characters for counter `n`: the twenty digits of the counter,
/// padded with zeros, and a cycle of the letters `a` to `z` behind them.
pub open spec fn value_text(n: u64, len: nat) -> Seq<char> {
    Seq::new(
        len,
        |i: int|
            if i < 20 {
                zero_padded(n as nat, 20)[i]
            } else {
                (97 + i % 26) as char
            },
    )
}

/// There are `width` digits.
proof fn lemma_zero_padded_len(n: nat, width: nat)
    ensures
        zero_padded(n, width).len() == width,
    decreases width,
{
    if width > 0 {
        lemma_zero_padded_len(n / 10, (width - 1) as nat);
    }
}

/// Each digit is the one of its place.
proof fn lemma_zero_padded_digit(n: nat, width: nat, i: int)
    requires
        0 <= i < width,
    ensures
        zero_padded(n, width)[i] == digit((n / pow10((width - 1 - i) as nat)) % 10),
    decreases width,
{
    let rest = (width - 1) as nat;
    lemma_zero_padded_len(n / 10, rest);
    if i < rest {
        let k = (rest - 1 - i) as nat;
        lemma_zero_padded_digit(n / 10, rest, i);
        lemma_pow10_positive(k);
        lemma_div_denominator(n as int, 10, pow10(k) as int);
        assert(pow10((rest - i) as nat) == 10 * pow10(k));
    } else {
        assert(pow10(0) == 1);
        lemma_div_basics(n as int);
    }
}

/// A number below `10^k` has at most `k` digits.
proof fn lemma_decimal_len(n: nat, k: nat)
    requires
        n < pow10(k),
        k > 0,
    ensures
        1 <= decimal_text(n).len() <= k,
    decreases k,
{
    if n >= 10 {
        assert(pow10(k) == 10 * pow10((k - 1) as nat));
        if k == 1 {
            assert(pow10(0) == 1);
        }
        lemma_decimal_len(n / 10, (k - 1) as nat);
    }
}

proof fn lemma_pow10_positive(k: nat)
    ensures
        pow10(k) > 0,
    decreases k,
{
    if k > 0 {
        lemma_pow10_positive((k - 1) as nat);
    }
}

proof fn lemma_pow10_values()
    ensures
        pow10(19) == 10_000_000_000_000_000_000,
        pow10(20) == 100_000_000_000_000_000_000,
{
    reveal_with_fuel(pow10, 21);
}

/// Two digits with the same character are the same.
proof fn lemma_digit_injective(a: nat, b: nat)
    requires
        a < 10,
        b < 10,
        digit(a) == digit(b),
    ensures
        a == b,
{
    assert(digit(a) as int == 48 + a);
    assert(digit(b) as int == 48 + b);
}

/// Numbers of at most `width` digits with the same digits are the same.
proof fn lemma_zero_padded_injective(n: nat, m: nat, width: nat)
    requires
        n < pow10(width),
        m < pow10(width),
        zero_padded(n, width) == zero_padded(m, width),
    ensures
        n == m,
    decreases width,
{
    if width > 0 {
        let a = zero_padded(n, width);
        let b = zero_padded(m, width);
        let rest = (width - 1) as nat;
        assert(pow10(width) == 10 * pow10(rest));
        assert(a.last() == digit(n % 10) && b.last() == digit(m % 10));
        lemma_digit_injective(n % 10, m % 10);
        assert(a.drop_last() =~= zero_padded(n / 10, rest));
        assert(b.drop_last() =~= zero_padded(m / 10, rest));
        lemma_zero_padded_injective(n / 10, m / 10, rest);
    }
}

/// Values of at least twenty characters are distinct: equal values come from equal
/// counters.
pub proof fn law_values_are_distinct(n: u64, m: u64, len: nat)
    requires
        len >= 20,
        value_text(n, len) == value_text(m, len),
    ensures
        n == m,
{
    lemma_zero_padded_len(n as nat, 20);
    lemma_zero_padded_len(m as nat, 20);
    assert(value_text(n, len).take(20) =~= zero_padded(n as nat, 20));
    assert(value_text(m, len).take(20) =~= zero_padded(m as nat, 20));
    lemma_pow10_values();
    lemma_zero_padded_injective(n as nat, m as nat, 20);
}

/// A value of `len` characters is `len` bytes long, one for each character.
pub proof fn law_value_len_in_bytes(n: u64, len: nat)
    ensures
        encode_utf8(value_text(n, len)).len() == len,
        forall|i: int|
            0 <= i < len ==> #[trigger] encode_utf8(value_text(n, len))[i] == value_text(
                n,
                len,
            )[i] as u8,
{
    assert forall|i: int| 0 <= i < len implies '\0' <= #[trigger] value_text(n, len)[i]
        <= '\u{7f}' by {
        if i < 20 {
            lemma_zero_padded_digit(n as nat, 20, i);
            assert(digit((n as nat / pow10((19 - i) as nat)) % 10) as int <= 57);
        }
    }
    is_ascii_chars_encode_utf8(value_text(n, len));
}

/// Whether `a` comes before `b` byte by byte, as in a dictionary.
pub open spec fn precedes(a: Seq<u8>, b: Seq<u8>) -> bool {
    exists|i: int|
        0 <= i < b.len() && i <= a.len() && #[trigger] a.take(i) == b.take(i) && (i == a.len()
            || a[i] < b[i])
}

/// Where the digits of two numbers first differ, the smaller number has the smaller
/// digit.
proof fn lemma_first_difference(n: nat, m: nat, width: nat) -> (i: int)
    requires
        n < m < pow10(width),
    ensures
        0 <= i < width,
        forall|j: int| 0 <= j < i ==> zero_padded(n, width)[j] == zero_padded(m, width)[j],
        zero_padded(n, width)[i] < zero_padded(m, width)[i],
    decreases width,
{
    let rest = (width - 1) as nat;
    assert(pow10(0) == 1);
    assert(pow10(width) == 10 * pow10(rest));
    lemma_zero_padded_len(n / 10, rest);
    lemma_zero_padded_len(m / 10, rest);
    if n / 10 < m / 10 {
        lemma_first_difference(n / 10, m / 10, rest)
    } else {
        assert(digit(n % 10) as int == 48 + n % 10);
        assert(digit(m % 10) as int == 48 + m % 10);
        rest as int
    }
}

/// The bytes of the smaller counter's value come first.
proof fn lemma_smaller_precedes(n: u64, m: u64, len: nat) -> (i: int)
    requires
        len >= 20,
        n < m,
    ensures
        ({
            let a = encode_utf8(value_text(n, len));
            let b = encode_utf8(value_text(m, len));
            &&& 0 <= i < 20
            &&& a.take(i) == b.take(i)
            &&& a[i] < b[i]
        }),
{
    lemma_pow10_values();
    let i = lemma_first_difference(n as nat, m as nat, 20);
    law_value_len_in_bytes(n, len);
    law_value_len_in_bytes(m, len);
    let a = encode_utf8(value_text(n, len));
    let b = encode_utf8(value_text(m, len));
    lemma_value_digit(n, len, i);
    lemma_value_digit(m, len, i);
    assert(a.take(i) =~= b.take(i)) by {
        assert forall|j: int| 0 <= j < i implies a[j] == b[j] by {
            assert(zero_padded(n as nat, 20)[j] == zero_padded(m as nat, 20)[j]);
        }
    }
    i
}

/// The first twenty bytes of a value are digits.
proof fn lemma_value_digit(n: u64, len: nat, i: int)
    requires
        0 <= i < 20 <= len,
    ensures
        48 <= encode_utf8(value_text(n, len))[i] <= 57,
        encode_utf8(value_text(n, len))[i] == zero_padded(n as nat, 20)[i] as int,
{
    law_value_len_in_bytes(n, len);
    lemma_zero_padded_digit(n as nat, 20, i);
    let d = (n as nat / pow10((19 - i) as nat)) % 10;
    assert(digit(d) as int == 48 + d);
}

/// Values of at least twenty characters are ordered as their counters, byte by byte.
pub proof fn law_values_are_ordered(n: u64, m: u64, len: nat)
    requires
        len >= 20,
    ensures
        precedes(encode_utf8(value_text(n, len)), encode_utf8(value_text(m, len))) <==> n < m,
        value_text(n, len) == value_text(m, len) <==> n == m,
{
    let a = encode_utf8(value_text(n, len));
    let b = encode_utf8(value_text(m, len));
    law_value_len_in_bytes(n, len);
    law_value_len_in_bytes(m, len);
    if n < m {
        let i = lemma_smaller_precedes(n, m, len);
        assert(a.take(i) == b.take(i));
    } else if precedes(a, b) {
        let i = choose|i: int|
            0 <= i < b.len() && i <= a.len() && #[trigger] a.take(i) == b.take(i) && (i == a.len()
                || a[i] < b[i]);
        if m < n {
            let j = lemma_smaller_precedes(m, n, len);
            if i < j {
                assert(a.take(j)[i] == b.take(j)[i]);
            } else if j < i {
                assert(a.take(i)[j] == b.take(i)[j]);
            }
        }
    }
    if value_text(n, len) == value_text(m, len) {
        law_values_are_distinct(n, m, len);
    }
}

/// Whether all bytes are decimal digits.
pub open spec fn all_digits(bytes: Seq<u8>) -> bool {
    forall|i: int| 0 <= i < bytes.len() ==> 48 <= #[trigger] bytes[i] <= 57
}

/// The number that decimal digits write.
pub open spec fn number(digits: Seq<u8>) -> int
    decreases digits.len(),
{
    if digits.len() == 0 {
        0
    } else {
        10 * number(digits.drop_last()) + (digits.last() - 48)
    }
}

/// The digits of a number write that number.
proof fn lemma_number_of_digits(n: nat, width: nat, bytes: Seq<u8>)
    requires
        n < pow10(width),
        bytes.len() == width,
        forall|i: int| 0 <= i < width ==> #[trigger] bytes[i] == zero_padded(n, width)[i] as int,
    ensures
        number(bytes) == n,
    decreases width,
{
    if width > 0 {
        let rest = (width - 1) as nat;
        assert(pow10(width) == 10 * pow10(rest));
        lemma_zero_padded_len(n / 10, rest);
        assert(bytes[rest as int] == zero_padded(n, width)[rest as int] as int);
        assert(digit(n % 10) as int == 48 + n % 10);
        assert forall|i: int| 0 <= i < rest implies #[trigger] bytes.drop_last()[i] == zero_padded(
            n / 10,
            rest,
        )[i] as int by {
            assert(bytes[i] == zero_padded(n, width)[i] as int);
        }
        lemma_number_of_digits(n / 10, rest, bytes.drop_last());
    }
}

/// The counter can be recovered: the first twenty bytes of a value are digits, and the
/// number that they write is the counter.
pub proof fn law_counter_is_recovered(n: u64, len: nat)
    requires
        len >= 20,
    ensures
        encode_utf8(value_text(n, len)).len() == len,
        all_digits(encode_utf8(value_text(n, len)).take(20)),
        number(encode_utf8(value_text(n, len)).take(20)) == n,
{
    law_value_len_in_bytes(n, len);
    let bytes = encode_utf8(value_text(n, len)).take(20);
    assert forall|i: int| 0 <= i < 20 implies 48 <= #[trigger] bytes[i] <= 57 && bytes[i]
        == zero_padded(n as nat, 20)[i] as int by {
        lemma_value_digit(n, len, i);
    }
    lemma_pow10_values();
    lemma_number_of_digits(n as nat, 20, bytes);
}

/// Numbers with the same decimal text are the same.
pub proof fn law_decimal_text_is_injective(n: nat, m: nat)
    requires
        decimal_text(n) == decimal_text(m),
    ensures
        n == m,
    decreases n,
{
    lemma_decimal_text_nonempty(n / 10);
    lemma_decimal_text_nonempty(m / 10);
    assert(decimal_text(n).last() == digit(n % 10));
    assert(decimal_text(m).last() == digit(m % 10));
    lemma_digit_injective(n % 10, m % 10);
    if n >= 10 && m >= 10 {
        assert(decimal_text(n).drop_last() =~= decimal_text(n / 10));
        assert(decimal_text(m).drop_last() =~= decimal_text(m / 10));
        law_decimal_text_is_injective(n / 10, m / 10);
    } else {
        assert(n < 10 <==> decimal_text(n).len() == 1);
        assert(m < 10 <==> decimal_text(m).len() == 1);
    }
}

proof fn lemma_decimal_text_nonempty(n: nat)
    ensures
        decimal_text(n).len() >= 1,
{
}

/// A character takes at most four bytes.
pub proof fn lemma_encoded_len(s: Seq<char>)
    ensures
        encode_utf8(s).len() <= 4 * s.len(),
    decreases s.len(),
{
    if s.len() > 0 {
        lemma_encoded_len(s.drop_first());
    }
}

/// An ASCII character takes one byte.
proof fn lemma_encoded_len_push(s: Seq<char>, c: char)
    requires
        c <= '\u{7f}',
    ensures
        encode_utf8(s.push(c)).len() == encode_utf8(s).len() + 1,
    decreases s.len(),
{
    if s.len() == 0 {
        assert(s.push(c).drop_first() =~= Seq::empty());
        assert(encode_utf8(Seq::<char>::empty()).len() == 0);
    } else {
        assert(s.push(c).drop_first() =~= s.drop_first().push(c));
        lemma_encoded_len_push(s.drop_first(), c);
    }
}

/// A decimal digit takes one byte.
proof fn lemma_encoded_len_decimal(s: Seq<char>, n: nat)
    ensures
        encode_utf8(s + decimal_text(n)).len() == encode_utf8(s).len() + decimal_text(n).len(),
    decreases n,
{
    if n < 10 {
        assert(s + decimal_text(n) =~= s.push(digit(n)));
        assert(digit(n) as int == 48 + n);
        lemma_encoded_len_push(s, digit(n));
    } else {
        assert(s + decimal_text(n) =~= (s + decimal_text(n / 10)).push(digit(n % 10)));
        assert(digit(n % 10) as int == 48 + n % 10);
        lemma_encoded_len_decimal(s, n / 10);
        lemma_encoded_len_push(s + decimal_text(n / 10), digit(n % 10));
    }
}

/// Append `n` in decimal.
pub fn push_decimal(buf: &mut String, n: u64)
    requires
        encode_utf8(old(buf)@).len() + 20 <= max_bytes(),
    ensures
        final(buf)@ == old(buf)@ + decimal_text(n as nat),
    decreases n,
{
    proof {
        lemma_pow10_values();
        lemma_decimal_len(n as nat / 10, 20);
        lemma_encoded_len_decimal(buf@, n as nat / 10);
    }
    if n >= 10 {
        push_decimal(buf, n / 10);
    }
    buf.push((48u8 + (n % 10) as u8) as char);
}

/// The effect of filling a buffer that held `pre`.
pub open spec fn fill_effect(pre: Seq<char>, n: u64, len: nat, post: Seq<char>) -> bool {
    post == value_text(n, len)
}

/// The value depends on the counter and the length alone: nothing of what a buffer
/// held before survives.
pub proof fn law_value_replaces_the_buffer(
    pre: Seq<char>,
    other: Seq<char>,
    n: u64,
    len: nat,
    post: Seq<char>,
    other_post: Seq<char>,
)
    requires
        fill_effect(pre, n, len, post),
        fill_effect(other, n, len, other_post),
    ensures
        post == other_post,
        post == value_text(n, len),
        post.len() == len,
{
}

/// Fill `buf` with a deterministic value of exactly `len` bytes derived from the
/// counter `n`.
///
/// The counter with its leading zeros makes every value distinct; the remainder is
/// padded with a fixed `a` to `z` cycle.
pub fn fill_value(buf: &mut String, n: u64, len: usize)
    requires
        len <= max_bytes(),
    ensures
        fill_effect(old(buf)@, n, len as nat, final(buf)@),
{
    buf.clear();
    let mut place: u64 = 10_000_000_000_000_000_000;
    proof {
        lemma_pow10_values();
    }
    for at in 0..len
        invariant
            len <= max_bytes(),
            buf@ == value_text(n, at as nat),
            at < 20 ==> place == pow10((19 - at) as nat),
    {
        proof {
            law_value_len_in_bytes(n, at as nat);
        }
        if at < 20 {
            proof {
                lemma_pow10_positive((19 - at) as nat);
                lemma_zero_padded_digit(n as nat, 20, at as int);
            }
            buf.push((48u8 + (n / place % 10) as u8) as char);
            place = place / 10;
        } else {
            buf.push((97u8 + (at % 26) as u8) as char);
        }
        assert(buf@ =~= value_text(n, (at + 1) as nat));
    }
}

/// The padding is one unbroken cycle: behind the counter come small letters, the first
/// is `u`, each next one is the next letter of the alphabet with `a` behind `z`, and
/// none depends on the counter.
pub proof fn law_padding_is_one_cycle(n: u64, m: u64, len: nat, i: int)
    requires
        20 <= i < len,
    ensures
        'a' <= value_text(n, len)[i] <= 'z',
        value_text(n, len)[20] == 'u',
        i + 1 < len ==> value_text(n, len)[i + 1] as int == (if value_text(n, len)[i] == 'z' {
            'a' as int
        } else {
            value_text(n, len)[i] as int + 1
        }),
        i + 26 < len ==> value_text(n, len)[i + 26] == value_text(n, len)[i],
        value_text(m, len)[i] == value_text(n, len)[i],
{
}

/// A shorter value is the beginning of a longer one with the same counter.
pub proof fn law_shorter_values_are_prefixes(n: u64, len: nat, longer: nat)
    requires
        len <= longer,
    ensures
        value_text(n, len) == value_text(n, longer).take(len as int),
{
    assert(value_text(n, len) =~= value_text(n, longer).take(len as int));
}

/// The counter that the first twenty bytes of a value write.
pub open spec fn counter_in(value: Seq<char>) -> int {
    number(encode_utf8(value).take(20))
}

/// The number that characters write, read as decimal digits.
pub open spec fn written_number(text: Seq<char>) -> int
    decreases text.len(),
{
    if text.len() == 0 {
        0
    } else {
        10 * written_number(text.drop_last()) + (text.last() as int - '0' as int)
    }
}

/// Whether the text is how `n` is written in decimal: digits that write `n`, without a
/// leading zero but for zero itself.
pub open spec fn is_decimal(text: Seq<char>, n: nat) -> bool {
    &&& text.len() > 0
    &&& forall|i: int| 0 <= i < text.len() ==> '0' <= #[trigger] text[i] <= '9'
    &&& written_number(text) == n
    &&& text.len() > 1 ==> text[0] != '0'
}

/// A number's text is how it is written in decimal.
pub proof fn law_decimal_text_writes_the_number(n: nat)
    ensures
        is_decimal(decimal_text(n), n),
    decreases n,
{
    let text = decimal_text(n);
    if n < 10 {
        assert(text.drop_last() =~= Seq::empty());
        assert(written_number(text.drop_last()) == 0);
        assert(digit(n) as int == 48 + n);
    } else {
        law_decimal_text_writes_the_number(n / 10);
        assert(text.drop_last() =~= decimal_text(n / 10));
        assert(digit(n % 10) as int == 48 + n % 10);
        assert forall|i: int| 0 <= i < text.len() implies '0' <= #[trigger] text[i] <= '9' by {
            if i < text.len() - 1 {
                assert(text[i] == decimal_text(n / 10)[i]);
            }
        }
        assert(text[0] == decimal_text(n / 10)[0]);
        if decimal_text(n / 10).len() == 1 && text[0] == '0' {
            assert(decimal_text(n / 10).drop_last() =~= Seq::empty());
            assert(written_number(decimal_text(n / 10).drop_last()) == 0);
        }
    }
}

} // verus!
