//! Bytes written as text: hexadecimal and percent encoding.
use vstd::prelude::*;

verus! {

/// The hexadecimal digit of value `n`, with small letters.
pub open spec fn small_hex(n: int) -> char {
    if n < 10 {
        (48 + n) as u8 as char
    } else {
        (87 + n) as u8 as char
    }
}

/// The hexadecimal digit of value `n`, with capital letters.
pub open spec fn capital_hex(n: int) -> char {
    if n < 10 {
        (48 + n) as u8 as char
    } else {
        (55 + n) as u8 as char
    }
}

pub(crate) fn small_hex_digit(n: u8) -> (r: char)
    requires
        n < 16,
    ensures
        r == small_hex(n as int),
{
    if n < 10 {
        (48 + n) as char
    } else {
        (87 + n) as char
    }
}

fn capital_hex_digit(n: u8) -> (r: char)
    requires
        n < 16,
    ensures
        r == capital_hex(n as int),
{
    if n < 10 {
        (48 + n) as char
    } else {
        (55 + n) as char
    }
}

/// The bytes of `data` as two hexadecimal digits each.
pub open spec fn hex_text(data: Seq<u8>) -> Seq<char>
    decreases data.len(),
{
    if data.len() == 0 {
        seq![]
    } else {
        hex_text(data.drop_last()).push(small_hex(data.last() as int / 16)).push(
            small_hex(data.last() as int % 16),
        )
    }
}

/// The bytes of `data` as two hexadecimal digits each.
pub fn bytes_hex(data: &[u8]) -> (r: String)
    ensures
        r@ == hex_text(data@),
        r@.len() == 2 * data@.len(),
{
    let mut out = String::new();
    let mut i: usize = 0;
    while i < data.len()
        invariant
            i <= data@.len(),
            out@ == hex_text(data@.take(i as int)),
        decreases data@.len() - i,
    {
        proof {
            assert(data@.take(i + 1).drop_last() =~= data@.take(i as int));
        }
        let b: u8 = data[i];
        out.push(small_hex_digit(b / 16));
        out.push(small_hex_digit(b % 16));
        i += 1;
    }
    proof {
        assert(data@.take(data@.len() as int) =~= data@);
        lemma_hex_len(data@);
    }
    out
}

proof fn lemma_small_hex_injective(m: int, n: int)
    requires
        0 <= m < 16,
        0 <= n < 16,
        small_hex(m) == small_hex(n),
    ensures
        m == n,
{
}

proof fn lemma_hex_len(a: Seq<u8>)
    ensures
        hex_text(a).len() == 2 * a.len(),
    decreases a.len(),
{
    if a.len() > 0 {
        lemma_hex_len(a.drop_last());
    }
}

/// Each byte takes two digits, and different bytes are written differently.
pub proof fn hex_is_injective(a: Seq<u8>, b: Seq<u8>)
    ensures
        hex_text(a).len() == 2 * a.len(),
        hex_text(a) == hex_text(b) ==> a == b,
    decreases a.len(),
{
    lemma_hex_len(a);
    lemma_hex_len(b);
    if hex_text(a) == hex_text(b) {
        assert(a.len() == b.len());
        if a.len() > 0 {
            let s = hex_text(a);
            let x = a.last() as int;
            let y = b.last() as int;
            assert(hex_text(a.drop_last()) =~= s.take(s.len() - 2));
            assert(hex_text(b.drop_last()) =~= s.take(s.len() - 2));
            hex_is_injective(a.drop_last(), b.drop_last());
            assert(s[s.len() - 1] == small_hex(x % 16));
            assert(s[s.len() - 1] == small_hex(y % 16));
            assert(s[s.len() - 2] == small_hex(x / 16));
            assert(s[s.len() - 2] == small_hex(y / 16));
            lemma_small_hex_injective(x % 16, y % 16);
            lemma_small_hex_injective(x / 16, y / 16);
            assert(x == y);
            assert(a =~= a.drop_last().push(a.last()));
            assert(b =~= b.drop_last().push(b.last()));
        } else {
            assert(a =~= b);
        }
    }
}

/// Whether a byte stands for itself: letters, digits and `-`, `_`, `.`, `~`.
pub open spec fn unreserved(b: u8) -> bool {
    ||| 65 <= b <= 90
    ||| 97 <= b <= 122
    ||| 48 <= b <= 57
    ||| b == 45
    ||| b == 95
    ||| b == 46
    ||| b == 126
}

/// How a byte is written: as itself, as `+` where it is a space in a form, or
/// as `%` and two hexadecimal digits.
pub open spec fn percent_byte(b: u8, form: bool) -> Seq<char> {
    if unreserved(b) {
        seq![b as char]
    } else if form && b == 32 {
        seq!['+']
    } else {
        seq!['%', capital_hex(b as int / 16), capital_hex(b as int % 16)]
    }
}

/// The bytes in percent encoding.
pub open spec fn percent_text(bytes: Seq<u8>, form: bool) -> Seq<char>
    decreases bytes.len(),
{
    if bytes.len() == 0 {
        seq![]
    } else {
        percent_byte(bytes[0], form) + percent_text(bytes.skip(1), form)
    }
}

fn percent_bytes(bytes: &[u8], form: bool) -> (r: String)
    ensures
        r@ == percent_text(bytes@, form),
{
    let mut out = String::new();
    let mut i: usize = 0;
    proof {
        assert(bytes@.skip(0) =~= bytes@);
        assert(out@ + percent_text(bytes@, form) =~= percent_text(bytes@, form));
    }
    while i < bytes.len()
        invariant
            i <= bytes@.len(),
            out@ + percent_text(bytes@.skip(i as int), form) == percent_text(bytes@, form),
        decreases bytes@.len() - i,
    {
        let b: u8 = bytes[i];
        let ghost before = out@;
        let ghost rest = bytes@.skip(i as int);
        if (65 <= b && b <= 90) || (97 <= b && b <= 122) || (48 <= b && b <= 57) || b == 45 || b
            == 95 || b == 46 || b == 126 {
            out.push(b as char);
        } else if form && b == 32 {
            out.push('+');
        } else {
            out.push('%');
            out.push(capital_hex_digit(b / 16));
            out.push(capital_hex_digit(b % 16));
        }
        proof {
            assert(rest[0] == b);
            assert(rest.skip(1) =~= bytes@.skip(i + 1));
            assert(out@ =~= before + percent_byte(b, form));
            let tail = percent_text(bytes@.skip(i + 1), form);
            assert(before + (percent_byte(b, form) + tail) =~= out@ + tail);
        }
        i += 1;
    }
    proof {
        assert(bytes@.skip(i as int).len() == 0);
        assert(out@ + Seq::<char>::empty() =~= out@);
    }
    out
}

/// The text `raw` in percent encoding, as it stands in an address.
pub fn percent_encode(raw: &str) -> (r: String)
    ensures
        r@ == percent_text(vstd::utf8::encode_utf8(raw@), false),
{
    percent_bytes(raw.as_bytes(), false)
}

/// The text `raw` in percent encoding as it stands in a form: a space is `+`.
pub fn percent_encode_form(raw: &str) -> (r: String)
    ensures
        r@ == percent_text(vstd::utf8::encode_utf8(raw@), true),
{
    percent_bytes(raw.as_bytes(), true)
}

/// The value of a hexadecimal digit with capital letters.
pub open spec fn hex_value(c: char) -> int {
    if '0' <= c <= '9' {
        c as int - 48
    } else {
        c as int - 55
    }
}

/// The bytes that a text in percent encoding stands for.
pub open spec fn percent_decoded(s: Seq<char>, form: bool) -> Seq<u8>
    decreases s.len(),
{
    if s.len() == 0 {
        seq![]
    } else if s[0] == '%' && s.len() >= 3 {
        seq![(hex_value(s[1]) * 16 + hex_value(s[2])) as u8] + percent_decoded(s.skip(3), form)
    } else if form && s[0] == '+' {
        seq![32u8] + percent_decoded(s.skip(1), form)
    } else {
        seq![s[0] as u8] + percent_decoded(s.skip(1), form)
    }
}

/// Decoding gives back what was encoded, so that different texts are encoded
/// differently.
pub proof fn percent_encoding_reads_back(bytes: Seq<u8>, form: bool)
    ensures
        percent_decoded(percent_text(bytes, form), form) == bytes,
    decreases bytes.len(),
{
    if bytes.len() > 0 {
        let b = bytes[0];
        let head = percent_byte(b, form);
        let tail = percent_text(bytes.skip(1), form);
        let s = head + tail;
        percent_encoding_reads_back(bytes.skip(1), form);
        if head.len() == 3 {
            assert(s.skip(3) =~= tail);
        } else {
            assert(s.skip(1) =~= tail);
        }
        assert(percent_decoded(s, form) =~= seq![b] + bytes.skip(1));
        assert(seq![b] + bytes.skip(1) =~= bytes);
    }
}

/// Whether `c` can stand in an encoded text.
pub open spec fn encoded_char(c: char, form: bool) -> bool {
    ||| c < '\u{80}' && unreserved(c as u8)
    ||| c == '%'
    ||| form && c == '+'
}

/// An encoded text holds nothing but letters, digits, `-`, `_`, `.`, `~` and
/// `%`, and `+` in a form: none of the characters that part an address.
pub proof fn encoded_text_is_plain(bytes: Seq<u8>, form: bool, i: int)
    requires
        0 <= i < percent_text(bytes, form).len(),
    ensures
        encoded_char(percent_text(bytes, form)[i], form),
    decreases bytes.len(),
{
    if bytes.len() > 0 {
        let head = percent_byte(bytes[0], form);
        if i >= head.len() {
            encoded_text_is_plain(bytes.skip(1), form, i - head.len());
        }
    }
}

} // verus!
