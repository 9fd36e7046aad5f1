//! Decoding of `%XX` escapes.

use vstd::prelude::*;

use crate::text;

verus! {

/// The value of a hexadecimal digit.
pub open spec fn hex_digit(c: char) -> Option<u8> {
    if '0' <= c <= '9' {
        Some((c as int - 0x30) as u8)
    } else if 'A' <= c <= 'F' {
        Some((c as int - 0x41 + 10) as u8)
    } else if 'a' <= c <= 'f' {
        Some((c as int - 0x61 + 10) as u8)
    } else {
        None
    }
}

/// The value of two hexadecimal digits.
pub open spec fn escape_value(first: char, second: char) -> Option<u8> {
    match (hex_digit(first), hex_digit(second)) {
        (Some(high), Some(low)) => Some((16 * high + low) as u8),
        _ => None,
    }
}

/// `text` starts with a percent sign and two hexadecimal digits.
pub open spec fn starts_with_escape(text: Seq<char>) -> bool {
    text.len() > 2 && text[0] == '%' && escape_value(text[1], text[2]) is Some
}

/// `text` with every escape, found from the left, replaced by the character with its value.
pub open spec fn decoded(text: Seq<char>) -> Seq<char>
    decreases text.len(),
{
    if text.len() == 0 {
        Seq::empty()
    } else if starts_with_escape(text) {
        seq![escape_value(text[1], text[2])->0 as char] + decoded(text.skip(3))
    } else {
        seq![text[0]] + decoded(text.skip(1))
    }
}

/// The value of a hexadecimal digit.
fn hex_value(c: char) -> (res: Option<u8>)
    ensures
        res == hex_digit(c),
{
    if '0' <= c && c <= '9' {
        Some(c as u8 - 0x30)
    } else if 'A' <= c && c <= 'F' {
        Some(c as u8 - 0x41 + 10)
    } else if 'a' <= c && c <= 'f' {
        Some(c as u8 - 0x61 + 10)
    } else {
        None
    }
}

/// The value of two hexadecimal digits.
fn unescape(first: char, second: char) -> (res: Option<u8>)
    ensures
        res == escape_value(first, second),
{
    match (hex_value(first), hex_value(second)) {
        (Some(high), Some(low)) => Some(16 * high + low),
        _ => None,
    }
}

/// Decodes the `%XX` escapes in `s`: each becomes the one character with its value. All other text
/// stays as it is.
pub fn percent_decode(s: &str) -> (res: String)
    ensures
        res@ == decoded(s@),
{
    let chars = text::chars_of(s);
    let mut res = String::new();
    let mut i: usize = 0;
    proof {
        assert(chars@.skip(0) =~= chars@);
    }
    while i < chars.len()
        invariant
            i <= chars@.len(),
            res@ + decoded(chars@.skip(i as int)) == decoded(chars@),
        decreases chars@.len() - i,
    {
        let ghost before = res@;
        let ghost rest = chars@.skip(i as int);
        if chars[i] == '%' && chars.len() - i > 2 {
            if let Some(value) = unescape(chars[i + 1], chars[i + 2]) {
                res.push(value as char);
                i += 3;
                proof {
                    assert(rest.skip(3) =~= chars@.skip(i as int));
                    assert(res@ + decoded(rest.skip(3)) =~= before + decoded(rest));
                }
                continue ;
            }
        }
        res.push(chars[i]);
        i += 1;
        proof {
            assert(rest.skip(1) =~= chars@.skip(i as int));
            assert(res@ + decoded(rest.skip(1)) =~= before + decoded(rest));
        }
    }
    proof {
        assert(decoded(chars@.skip(i as int)) =~= Seq::<char>::empty());
    }
    res
}

/// One character for each byte, with its value.
pub open spec fn byte_chars(bytes: Seq<u8>) -> Seq<char> {
    bytes.map_values(|b: u8| b as char)
}

/// The hexadecimal digit of `d`, a number below sixteen.
pub open spec fn hex_char(d: u8) -> char {
    if d < 10 {
        (0x30 + d) as char
    } else {
        (0x41 + d - 10) as char
    }
}

/// `bytes` with every byte written as an escape.
pub open spec fn escaped(bytes: Seq<u8>) -> Seq<char>
    decreases bytes.len(),
{
    if bytes.len() == 0 {
        Seq::empty()
    } else {
        seq!['%', hex_char(bytes[0] / 16), hex_char(bytes[0] % 16)] + escaped(bytes.skip(1))
    }
}

/// Text without a percent sign stays as it is.
pub proof fn law_plain_text_stays(text: Seq<char>)
    requires
        !text.contains('%'),
    ensures
        decoded(text) == text,
    decreases text.len(),
{
    if text.len() > 0 {
        assert(text[0] != '%');
        let rest = text.skip(1);
        assert(!rest.contains('%')) by {
            if rest.contains('%') {
                let k = choose|k: int| 0 <= k < rest.len() && rest[k] == '%';
                assert(text[k + 1] == '%');
            }
        }
        law_plain_text_stays(rest);
    }
    assert(decoded(text) =~= text);
}

/// Decoding undoes the escaping of every byte.
pub proof fn law_decoding_undoes_escaping(bytes: Seq<u8>)
    ensures
        decoded(escaped(bytes)) == byte_chars(bytes),
    decreases bytes.len(),
{
    if bytes.len() > 0 {
        let b = bytes[0];
        let all = escaped(bytes);
        law_decoding_undoes_escaping(bytes.skip(1));
        assert(all.skip(3) =~= escaped(bytes.skip(1)));
        assert(16 * (b / 16) + b % 16 == b);
        assert(escape_value(all[1], all[2]) == Some(b));
    }
    assert(decoded(escaped(bytes)) =~= byte_chars(bytes));
}

/// What is decoded in two pieces is decoded as in one, if no percent sign stands so close to the end
/// of the first piece that an escape could reach into the second.
pub proof fn law_decoding_in_pieces(first: Seq<char>, second: Seq<char>)
    requires
        forall|i: int| first.len() - 2 <= i < first.len() && 0 <= i ==> #[trigger] first[i] != '%',
    ensures
        decoded(first + second) == decoded(first) + decoded(second),
    decreases first.len(),
{
    let both = first + second;
    if first.len() == 0 {
        assert(both =~= second);
        assert(decoded(first) + decoded(second) =~= decoded(second));
    } else if starts_with_escape(both) {
        assert(first[0] == '%');
        assert(first.len() > 2);
        law_decoding_in_pieces(first.skip(3), second);
        assert(both.skip(3) =~= first.skip(3) + second);
        assert(decoded(both) =~= decoded(first) + decoded(second));
    } else {
        assert(!starts_with_escape(first));
        law_decoding_in_pieces(first.skip(1), second);
        assert(both.skip(1) =~= first.skip(1) + second);
        assert(decoded(both) =~= decoded(first) + decoded(second));
    }
}

/// Decoding makes nothing longer.
pub proof fn law_decoding_never_grows(text: Seq<char>)
    ensures
        decoded(text).len() <= text.len(),
    decreases text.len(),
{
    if text.len() > 0 {
        if starts_with_escape(text) {
            law_decoding_never_grows(text.skip(3));
        } else {
            law_decoding_never_grows(text.skip(1));
        }
    }
}

/// The hexadecimal digits are the decimal ones and the letters from A to F, large or small.
pub proof fn law_hex_digits(c: char, d: int)
    requires
        0 <= d < 16,
    ensures
        hex_digit(c) == Some(d as u8) <==> c == "0123456789ABCDEF"@[d] || c
            == "0123456789abcdef"@[d],
        hex_digit(c) is Some ==> hex_digit(c)->0 < 16,
{
    reveal_strlit("0123456789ABCDEF");
    reveal_strlit("0123456789abcdef");
}

/// A percent sign and two hexadecimal digits are decoded to the character with their value, and
/// decoding goes on behind them.
pub proof fn law_escapes_are_decoded(high: int, low: int, first: char, second: char, rest: Seq<char>)
    requires
        0 <= high < 16,
        0 <= low < 16,
        first == "0123456789ABCDEF"@[high] || first == "0123456789abcdef"@[high],
        second == "0123456789ABCDEF"@[low] || second == "0123456789abcdef"@[low],
    ensures
        decoded(seq!['%', first, second] + rest) == seq![(16 * high + low) as char] + decoded(rest),
{
    law_hex_digits(first, high);
    law_hex_digits(second, low);
    assert((seq!['%', first, second] + rest).skip(3) =~= rest);
}

/// Any other character stays, and so does a percent sign that two hexadecimal digits do not follow.
pub proof fn law_other_text_stays(c: char, rest: Seq<char>)
    requires
        c != '%' || rest.len() < 2 || (!"0123456789ABCDEF"@.contains(rest[0])
            && !"0123456789abcdef"@.contains(rest[0])) || (!"0123456789ABCDEF"@.contains(rest[1])
            && !"0123456789abcdef"@.contains(rest[1])),
    ensures
        decoded(seq![c] + rest) == seq![c] + decoded(rest),
        decoded(Seq::empty()) == Seq::<char>::empty(),
{
    let all = seq![c] + rest;
    assert(all.skip(1) =~= rest);
    if starts_with_escape(all) {
        let high = hex_digit(rest[0])->0 as int;
        let low = hex_digit(rest[1])->0 as int;
        reveal_strlit("0123456789ABCDEF");
        reveal_strlit("0123456789abcdef");
        assert(all[1] == rest[0] && all[2] == rest[1]);
        law_hex_digits(rest[0], 0);
        law_hex_digits(rest[1], 0);
        law_hex_digits(rest[0], high);
        law_hex_digits(rest[1], low);
    }
}

} // verus!
