//! Characters and strings.

use vstd::prelude::*;

verus! {

/// `String::push` of std appends one character to the end of the string.
pub assume_specification[ String::push ](s: &mut String, c: char)
    ensures
        final(s)@ == old(s)@.push(c),
;

/// The characters of `s`.
pub fn chars_of(s: &str) -> (chars: Vec<char>)
    ensures
        chars@ == s@,
{
    let mut chars: Vec<char> = Vec::new();
    for c in it: s.chars()
        invariant
            chars@ == it.seq().take(it.index() as int),
            it.seq() == s@,
    {
        chars.push(c);
        assert(it.seq().take(it.index() + 1) == it.seq().take(it.index() as int).push(c));
    }
    chars
}

/// The string made of `chars`.
pub fn string_of(chars: &Vec<char>) -> (s: String)
    ensures
        s@ == chars@,
{
    let mut s = String::new();
    let n: usize = chars.len();
    for i in 0..n
        invariant
            n == chars@.len(),
            s@ == chars@.take(i as int),
    {
        s.push(chars[i]);
        assert(chars@.take(i + 1) == chars@.take(i as int).push(chars@[i as int]));
    }
    assert(chars@.take(n as int) == chars@);
    s
}

/// The characters with the Unicode property `White_Space`.
pub open spec fn white_space(c: char) -> bool {
    ||| '\u{9}' <= c <= '\u{d}'
    ||| c == ' '
    ||| c == '\u{85}'
    ||| c == '\u{a0}'
    ||| c == '\u{1680}'
    ||| '\u{2000}' <= c <= '\u{200a}'
    ||| c == '\u{2028}'
    ||| c == '\u{2029}'
    ||| c == '\u{202f}'
    ||| c == '\u{205f}'
    ||| c == '\u{3000}'
}

/// `s` without the white space at its two ends.
pub open spec fn trimmed(s: Seq<char>) -> Seq<char>
    decreases s.len(),
{
    if s.len() == 0 {
        s
    } else if white_space(s.first()) {
        trimmed(s.drop_first())
    } else if white_space(s.last()) {
        trimmed(s.drop_last())
    } else {
        s
    }
}

/// Trimming takes away all that can be taken away: trimming again changes nothing.
pub proof fn trimming_twice_is_trimming(s: Seq<char>)
    ensures
        trimmed(trimmed(s)) == trimmed(s),
    decreases s.len(),
{
    if s.len() > 0 {
        if white_space(s.first()) {
            trimming_twice_is_trimming(s.drop_first());
        } else if white_space(s.last()) {
            trimming_twice_is_trimming(s.drop_last());
        }
    }
}

/// `str::trim` of std returns the string without the white space, in the sense of Unicode, at
/// its two ends.
pub assume_specification[ str::trim ](s: &str) -> (r: &str)
    ensures
        r@ == trimmed(s@),
;

/// The digit for a value below sixteen, letters in lower case.
pub open spec fn hex_digit(n: int) -> char {
    (if n < 10 {
        '0' as int + n
    } else {
        'a' as int + n - 10
    }) as char
}

/// A natural number in decimal.
pub open spec fn decimal(n: nat) -> Seq<char>
    decreases n,
{
    if n < 10 {
        seq![hex_digit(n as int)]
    } else {
        decimal(n / 10).push(hex_digit((n % 10) as int))
    }
}

/// Bytes in lower-case hexadecimal, two digits each.
pub open spec fn lower_hex(bytes: Seq<u8>) -> Seq<char> {
    Seq::new(
        2 * bytes.len(),
        |i: int|
            hex_digit(
                if i % 2 == 0 {
                    bytes[i / 2] as int / 16
                } else {
                    bytes[i / 2] as int % 16
                },
            ),
    )
}

fn digit_char(n: u8) -> (c: char)
    requires
        n < 16,
    ensures
        c == hex_digit(n as int),
{
    if n < 10 {
        (48 + n) as char
    } else {
        (87 + n) as char
    }
}

/// Appends `n` in decimal.
pub fn append_decimal(s: &mut String, n: u64)
    ensures
        final(s)@ == old(s)@ + decimal(n as nat),
    decreases n,
{
    if n >= 10 {
        append_decimal(s, n / 10);
    }
    let ghost before = s@;
    s.push(digit_char((n % 10) as u8));
    assert(s@ =~= before + seq![hex_digit((n % 10) as int)]);
}

/// `bytes` in lower-case hexadecimal.
pub fn to_lower_hex(bytes: &Vec<u8>) -> (s: String)
    ensures
        s@ == lower_hex(bytes@),
{
    let mut s = String::new();
    let count: usize = bytes.len();
    for i in 0..count
        invariant
            count == bytes@.len(),
            s@ == lower_hex(bytes@.take(i as int)),
    {
        let byte: u8 = bytes[i];
        s.push(digit_char(byte / 16));
        s.push(digit_char(byte % 16));
        assert(s@ =~= lower_hex(bytes@.take(i + 1)));
    }
    assert(bytes@.take(count as int) =~= bytes@);
    s
}

/// Whether two strings hold the same characters.
pub fn same_text(a: &str, b: &str) -> (yes: bool)
    ensures
        yes == (a@ == b@),
{
    a.to_owned() == b.to_owned()
}

/// Whether `wanted` occurs in `s`.
pub fn has_char(s: &str, wanted: char) -> (yes: bool)
    ensures
        yes == s@.contains(wanted),
{
    let chars = chars_of(s);
    let count: usize = chars.len();
    for i in 0..count
        invariant
            count == chars@.len(),
            chars@ == s@,
            forall|j: int| 0 <= j < i ==> chars@[j] != wanted,
    {
        if chars[i] == wanted {
            assert(chars@[i as int] == wanted);
            return true;
        }
    }
    false
}

/// Trimming takes away white space and nothing else, and leaves none at either end.
pub proof fn trimming_takes_white_space_only(s: Seq<char>) -> (ends: (int, int))
    ensures
        0 <= ends.0 <= ends.1 <= s.len(),
        trimmed(s) == s.subrange(ends.0, ends.1),
        forall|i: int| 0 <= i < ends.0 ==> white_space(#[trigger] s[i]),
        forall|i: int| ends.1 <= i < s.len() ==> white_space(#[trigger] s[i]),
        trimmed(s).len() > 0 ==> !white_space(trimmed(s).first()),
        trimmed(s).len() > 0 ==> !white_space(trimmed(s).last()),
    decreases s.len(),
{
    if s.len() == 0 {
        assert(trimmed(s) =~= s.subrange(0, 0));
        (0, 0)
    } else if white_space(s.first()) {
        let rest = s.drop_first();
        let ends = trimming_takes_white_space_only(rest);
        assert(trimmed(s) =~= s.subrange(ends.0 + 1, ends.1 + 1));
        assert forall|i: int| 0 <= i < ends.0 + 1 implies white_space(#[trigger] s[i]) by {
            if i > 0 {
                assert(s[i] == rest[i - 1]);
            }
        }
        assert forall|i: int| ends.1 + 1 <= i < s.len() implies white_space(#[trigger] s[i]) by {
            assert(s[i] == rest[i - 1]);
        }
        (ends.0 + 1, ends.1 + 1)
    } else if white_space(s.last()) {
        let rest = s.drop_last();
        let ends = trimming_takes_white_space_only(rest);
        assert(trimmed(s) =~= s.subrange(ends.0, ends.1));
        assert forall|i: int| 0 <= i < ends.0 implies white_space(#[trigger] s[i]) by {
            assert(s[i] == rest[i]);
        }
        assert forall|i: int| ends.1 <= i < s.len() implies white_space(#[trigger] s[i]) by {
            if i < s.len() - 1 {
                assert(s[i] == rest[i]);
            }
        }
        ends
    } else {
        assert(trimmed(s) =~= s.subrange(0, s.len() as int));
        (0, s.len() as int)
    }
}

/// A text is blank exactly where it is white space throughout: trimming then leaves nothing.
pub proof fn blank_text_is_all_white_space(s: Seq<char>)
    ensures
        trimmed(s).len() == 0 <==> forall|i: int| 0 <= i < s.len() ==> white_space(#[trigger] s[i]),
{
    let ends = trimming_takes_white_space_only(s);
    if trimmed(s).len() > 0 {
        assert(trimmed(s).first() == s[ends.0]);
    }
}

/// The number that a row of decimal digits is read as.
pub open spec fn number_read(digits: Seq<char>) -> int
    decreases digits.len(),
{
    if digits.len() == 0 {
        0
    } else {
        number_read(digits.drop_last()) * 10 + (digits.last() as int - '0' as int)
    }
}

/// A number written in decimal is read back as that number; it is written in digits alone, and
/// without leading zeros.
pub proof fn decimal_is_read_back(n: nat)
    ensures
        number_read(decimal(n)) == n,
        decimal(n).len() > 0,
        forall|i: int| 0 <= i < decimal(n).len() ==> '0' <= #[trigger] decimal(n)[i] <= '9',
        decimal(n).len() > 1 ==> decimal(n)[0] != '0',
    decreases n,
{
    let digits = decimal(n);
    if n < 10 {
        assert(digits.drop_last() =~= Seq::empty());
        assert(number_read(digits.drop_last()) == 0);
        assert(digits.last() as int == '0' as int + n);
    } else {
        decimal_is_read_back(n / 10);
        assert(digits.drop_last() =~= decimal(n / 10));
        assert(digits.last() as int == '0' as int + n % 10);
        if decimal(n / 10).len() == 1 {
            reveal_with_fuel(decimal, 2);
        }
    }
}

/// The value of a hexadecimal digit in lower case.
pub open spec fn hex_value(digit: char) -> int {
    if '0' <= digit <= '9' {
        digit as int - '0' as int
    } else if 'a' <= digit <= 'f' {
        digit as int - 'a' as int + 10
    } else {
        -1
    }
}

/// Every byte is written as two hexadecimal digits in lower case that are read back as it.
pub proof fn hexadecimal_is_read_back(bytes: Seq<u8>)
    ensures
        lower_hex(bytes).len() == 2 * bytes.len(),
        forall|i: int|
            0 <= i < bytes.len() ==> #[trigger] bytes[i] == hex_value(lower_hex(bytes)[2 * i]) * 16
                + hex_value(lower_hex(bytes)[2 * i + 1]),
        forall|i: int|
            0 <= i < 2 * bytes.len() ==> 0 <= hex_value(#[trigger] lower_hex(bytes)[i]) < 16,
{
    assert forall|i: int| 0 <= i < bytes.len() implies #[trigger] bytes[i] == hex_value(
        lower_hex(bytes)[2 * i],
    ) * 16 + hex_value(lower_hex(bytes)[2 * i + 1]) by {
        assert((2 * i) / 2 == i && (2 * i + 1) / 2 == i);
        assert((2 * i) % 2 == 0 && (2 * i + 1) % 2 == 1);
        lemma_hex_digit(bytes[i] as int / 16);
        lemma_hex_digit(bytes[i] as int % 16);
    }
    assert forall|i: int| 0 <= i < 2 * bytes.len() implies 0 <= hex_value(
        #[trigger] lower_hex(bytes)[i],
    ) < 16 by {
        lemma_hex_digit(bytes[i / 2] as int / 16);
        lemma_hex_digit(bytes[i / 2] as int % 16);
    }
}

proof fn lemma_hex_digit(n: int)
    requires
        0 <= n < 16,
    ensures
        hex_value(hex_digit(n)) == n,
{
}

} // verus!
