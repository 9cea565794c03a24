//! Text forms used in queries: percent-encoding and decimal numbers.

use vstd::prelude::*;
use vstd::string::StringSliceAdditionalSpecFns;

verus! {

/// `String::push` of the standard library appends one character to the end
/// of the string and leaves what was there in place.
pub assume_specification[ String::push ](text: &mut String, c: char)
    ensures
        final(text)@ == old(text)@.push(c),
;

/// The bytes that stand for themselves in a query: ASCII letters, digits,
/// and `-`, `.`, `_`, `~`.
pub open spec fn is_unreserved(byte: u8) -> bool {
    ||| 0x41 <= byte <= 0x5a
    ||| 0x61 <= byte <= 0x7a
    ||| 0x30 <= byte <= 0x39
    ||| byte == 0x2d
    ||| byte == 0x2e
    ||| byte == 0x5f
    ||| byte == 0x7e
}

/// The upper-case hexadecimal digit for a value below sixteen.
pub open spec fn hex_digit(value: nat) -> char {
    if value < 10 {
        (0x30 + value) as char
    } else {
        (0x41 + value - 10) as char
    }
}

/// The decimal digit for a value below ten.
pub open spec fn decimal_digit(value: nat) -> char {
    (0x30 + value) as char
}

/// One byte in percent-encoded form: itself if unreserved, else `%` and
/// its two hexadecimal digits.
pub open spec fn encode_byte(byte: u8) -> Seq<char> {
    if is_unreserved(byte) {
        seq![byte as char]
    } else {
        seq!['%', hex_digit((byte / 16) as nat), hex_digit((byte % 16) as nat)]
    }
}

/// The percent-encoded form of a byte string: the forms of its bytes, in
/// order.
pub open spec fn percent_encode(bytes: Seq<u8>) -> Seq<char>
    decreases bytes.len(),
{
    if bytes.len() == 0 {
        Seq::empty()
    } else {
        percent_encode(bytes.drop_last()) + encode_byte(bytes.last())
    }
}

/// The characters that percent-encoded text is made of.
pub open spec fn is_query_safe(c: char) -> bool {
    c == '%' || (c as nat) < 128 && is_unreserved(c as u8)
}

/// The decimal numeral of `n`, without sign or leading zeros.
pub open spec fn decimal(n: nat) -> Seq<char>
    decreases n,
{
    if n < 10 {
        seq![decimal_digit(n)]
    } else {
        decimal(n / 10).push(decimal_digit(n % 10))
    }
}

/// Percent-encoded text holds no character with a meaning of its own in a
/// query: neither `&` nor `=`, nor anything but unreserved characters and
/// `%`.
pub proof fn lemma_percent_encode_is_safe(bytes: Seq<u8>)
    ensures
        forall|i: int|
            0 <= i < percent_encode(bytes).len() ==> is_query_safe(
                #[trigger] percent_encode(bytes)[i],
            ),
    decreases bytes.len(),
{
    if bytes.len() > 0 {
        lemma_percent_encode_is_safe(bytes.drop_last());
        let head = percent_encode(bytes.drop_last());
        let tail = encode_byte(bytes.last());
        assert forall|i: int| 0 <= i < tail.len() implies is_query_safe(#[trigger] tail[i]) by {
            lemma_encode_byte_is_safe(bytes.last(), i);
        }
        assert forall|i: int| 0 <= i < percent_encode(bytes).len() implies is_query_safe(
            #[trigger] percent_encode(bytes)[i],
        ) by {
            if i < head.len() {
                assert(percent_encode(bytes)[i] == head[i]);
            } else {
                assert(percent_encode(bytes)[i] == tail[i - head.len()]);
            }
        }
    }
}

proof fn lemma_encode_byte_is_safe(byte: u8, i: int)
    requires
        0 <= i < encode_byte(byte).len(),
    ensures
        is_query_safe(encode_byte(byte)[i]),
{
    if is_unreserved(byte) {
        assert((byte as char) as nat == byte as nat);
        assert(((byte as char) as u8) == byte);
    } else {
        lemma_hex_digit_is_safe((byte / 16) as nat);
        lemma_hex_digit_is_safe((byte % 16) as nat);
    }
}

proof fn lemma_hex_digit_is_safe(value: nat)
    requires
        value < 16,
    ensures
        is_query_safe(hex_digit(value)),
{
    let c = hex_digit(value);
    if value < 10 {
        assert(c as nat == 0x30 + value);
    } else {
        assert(c as nat == 0x41 + value - 10);
    }
}

/// A decimal numeral is made of decimal digits, at least one.
pub proof fn lemma_decimal_is_digits(n: nat)
    ensures
        decimal(n).len() >= 1,
        forall|i: int|
            0 <= i < decimal(n).len() ==> '0' <= #[trigger] decimal(n)[i] && decimal(n)[i] <= '9',
    decreases n,
{
    if n >= 10 {
        lemma_decimal_is_digits(n / 10);
    }
}

/// A numeral tells its number: two numbers with the same decimal numeral
/// are the same.
pub proof fn lemma_decimal_is_injective(a: nat, b: nat)
    requires
        decimal(a) == decimal(b),
    ensures
        a == b,
    decreases a,
{
    lemma_decimal_is_digits(a / 10);
    lemma_decimal_is_digits(b / 10);
    if a < 10 && b < 10 {
        assert(decimal(a)[0] as int == 0x30 + a);
        assert(decimal(b)[0] as int == 0x30 + b);
    } else if a >= 10 && b >= 10 {
        let front_a = decimal(a / 10);
        let front_b = decimal(b / 10);
        assert(decimal(a).last() as int == 0x30 + a % 10);
        assert(decimal(b).last() as int == 0x30 + b % 10);
        assert(front_a =~= decimal(a).drop_last());
        assert(front_b =~= decimal(b).drop_last());
        lemma_decimal_is_injective(a / 10, b / 10);
    } else {
        assert(decimal(a).len() != decimal(b).len());
    }
}

/// Encoding distributes over appending one byte.
pub proof fn lemma_percent_encode_push(bytes: Seq<u8>, byte: u8)
    ensures
        percent_encode(bytes.push(byte)) == percent_encode(bytes) + encode_byte(byte),
{
    assert(bytes.push(byte).drop_last() == bytes);
}

/// Encoding distributes over putting one byte in front.
pub proof fn lemma_percent_encode_prepend(byte: u8, bytes: Seq<u8>)
    ensures
        percent_encode(seq![byte] + bytes) == encode_byte(byte) + percent_encode(bytes),
    decreases bytes.len(),
{
    let all = seq![byte] + bytes;
    if bytes.len() == 0 {
        assert(all.drop_last() =~= bytes);
        assert(all.last() == byte);
        assert(percent_encode(all) =~= encode_byte(byte) + percent_encode(bytes));
    } else {
        assert(all.drop_last() =~= seq![byte] + bytes.drop_last());
        assert(all.last() == bytes.last());
        lemma_percent_encode_prepend(byte, bytes.drop_last());
        assert(percent_encode(all) =~= encode_byte(byte) + percent_encode(bytes));
    }
}

/// The form of a byte tells the byte, and where the form ends: two texts
/// that begin with the forms of two bytes are equal only if the bytes are
/// equal, and what follows the forms.
proof fn lemma_encode_byte_prefix(a: u8, after_a: Seq<char>, b: u8, after_b: Seq<char>)
    requires
        encode_byte(a) + after_a == encode_byte(b) + after_b,
    ensures
        a == b,
        after_a == after_b,
{
    let left = encode_byte(a) + after_a;
    let right = encode_byte(b) + after_b;
    assert(left[0] == encode_byte(a)[0]);
    assert(right[0] == encode_byte(b)[0]);
    if is_unreserved(a) {
        assert(left[0] as nat == a as nat);
    } else {
        assert(left[1] == encode_byte(a)[1] && left[2] == encode_byte(a)[2]);
    }
    if is_unreserved(b) {
        assert(right[0] as nat == b as nat);
    } else {
        assert(right[1] == encode_byte(b)[1] && right[2] == encode_byte(b)[2]);
    }
    if !is_unreserved(a) && !is_unreserved(b) {
        lemma_hex_digit_tells_value((a / 16) as nat, (b / 16) as nat);
        lemma_hex_digit_tells_value((a % 16) as nat, (b % 16) as nat);
    }
    assert(a == b);
    let n = encode_byte(a).len() as int;
    assert(after_a =~= left.subrange(n, left.len() as int));
    assert(after_b =~= right.subrange(n, right.len() as int));
}

proof fn lemma_hex_digit_tells_value(x: nat, y: nat)
    requires
        x < 16,
        y < 16,
        hex_digit(x) == hex_digit(y),
    ensures
        x == y,
{
    if x < 10 {
        assert(hex_digit(x) as int == 0x30 + x);
    } else {
        assert(hex_digit(x) as int == 0x41 + x - 10);
    }
    if y < 10 {
        assert(hex_digit(y) as int == 0x30 + y);
    } else {
        assert(hex_digit(y) as int == 0x41 + y - 10);
    }
}

/// Percent-encoding loses nothing: two byte strings with the same encoded
/// form are the same.
pub proof fn lemma_percent_encode_is_injective(a: Seq<u8>, b: Seq<u8>)
    requires
        percent_encode(a) == percent_encode(b),
    ensures
        a == b,
    decreases a.len(),
{
    if a.len() == 0 {
        if b.len() > 0 {
            assert(percent_encode(b).len() >= encode_byte(b.last()).len());
        }
        assert(a =~= b);
    } else if b.len() == 0 {
        assert(percent_encode(a).len() >= encode_byte(a.last()).len());
    } else {
        let rest_a = a.drop_first();
        let rest_b = b.drop_first();
        assert(a =~= seq![a[0]] + rest_a);
        assert(b =~= seq![b[0]] + rest_b);
        lemma_percent_encode_prepend(a[0], rest_a);
        lemma_percent_encode_prepend(b[0], rest_b);
        lemma_encode_byte_prefix(a[0], percent_encode(rest_a), b[0], percent_encode(rest_b));
        lemma_percent_encode_is_injective(rest_a, rest_b);
    }
}

/// The upper-case hexadecimal digit for `value`.
fn hex_digit_of(value: u8) -> (c: char)
    requires
        value < 16,
    ensures
        c == hex_digit(value as nat),
{
    if value < 10 {
        (0x30 + value) as char
    } else {
        (0x41 + (value - 10)) as char
    }
}

/// Tells whether `byte` stands for itself in a query.
pub fn unreserved(byte: u8) -> (yes: bool)
    ensures
        yes == is_unreserved(byte),
{
    (0x41 <= byte && byte <= 0x5a) || (0x61 <= byte && byte <= 0x7a) || (0x30 <= byte && byte
        <= 0x39) || byte == 0x2d || byte == 0x2e || byte == 0x5f || byte == 0x7e
}

/// Appends the percent-encoded form of the UTF-8 bytes of `text` to `out`.
pub fn push_encoded(out: &mut String, text: &str)
    ensures
        final(out)@ == old(out)@ + percent_encode(text.spec_bytes()),
{
    let bytes = text.as_bytes();
    let mut i: usize = 0;
    while i < bytes.len()
        invariant
            i <= bytes.len(),
            bytes@ == text.spec_bytes(),
            out@ == old(out)@ + percent_encode(bytes@.take(i as int)),
        decreases bytes.len() - i,
    {
        let byte: u8 = bytes[i];
        proof {
            assert(bytes@.take(i + 1) == bytes@.take(i as int).push(byte));
            lemma_percent_encode_push(bytes@.take(i as int), byte);
        }
        if unreserved(byte) {
            out.push(byte as char);
        } else {
            out.push('%');
            out.push(hex_digit_of(byte / 16));
            out.push(hex_digit_of(byte % 16));
        }
        assert(out@ == old(out)@ + percent_encode(bytes@.take(i as int)) + encode_byte(byte));
        i += 1;
    }
    assert(bytes@.take(i as int) == bytes@);
}

/// Appends the decimal numeral of `n` to `out`.
pub fn push_decimal(out: &mut String, n: usize)
    ensures
        final(out)@ == old(out)@ + decimal(n as nat),
    decreases n,
{
    if n >= 10 {
        push_decimal(out, n / 10);
    }
    let digit: u8 = (n % 10) as u8;
    out.push((0x30 + digit) as char);
    assert(out@ == old(out)@ + decimal(n as nat));
}

} // verus!
