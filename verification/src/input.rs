//! Decoding of string and character literals of the source language.
use vstd::prelude::*;
use vstd::string::StrSliceExecFns;
use vstd::string::StringSliceAdditionalSpecFns;

use crate::diagnostic::push_char;

verus! {

/// A source file of the program, by its index among the program's files.
#[derive(Debug, Clone, Copy, PartialEq, Eq, Structural)]
pub struct Source(pub usize);

/// The value of a hexadecimal digit.
pub open spec fn hex_digit(c: char) -> Option<nat> {
    if '0' <= c && c <= '9' {
        Some((c as nat - '0' as nat) as nat)
    } else if 'a' <= c && c <= 'f' {
        Some((c as nat - 'a' as nat + 10) as nat)
    } else if 'A' <= c && c <= 'F' {
        Some((c as nat - 'A' as nat + 10) as nat)
    } else {
        None
    }
}

/// The value of a sequence of hexadecimal digits, most significant first.
pub open spec fn hex_digits_value(ds: Seq<char>) -> Option<nat>
    decreases ds.len(),
{
    if ds.len() == 0 {
        Some(0)
    } else {
        match (hex_digits_value(ds.drop_last()), hex_digit(ds.last())) {
            (Some(a), Some(d)) => Some(a * 16 + d),
            _ => None,
        }
    }
}

/// A number written with one or more base-16 digits and nothing else;
/// `None` if the text is not such a number.
pub open spec fn parse_hex(src: Seq<char>) -> Option<nat> {
    if src.len() == 0 {
        None
    } else {
        hex_digits_value(src)
    }
}

/// The number of bytes of the UTF-8 encoding of a character.
pub open spec fn char_utf8_len(c: char) -> nat {
    if (c as u32) < 0x80 {
        1
    } else if (c as u32) < 0x800 {
        2
    } else if (c as u32) < 0x10000 {
        3
    } else {
        4
    }
}

/// The number of bytes of the UTF-8 encoding of a text.
pub open spec fn utf8_len(cs: Seq<char>) -> nat
    decreases cs.len(),
{
    if cs.len() == 0 {
        0
    } else {
        utf8_len(cs.drop_last()) + char_utf8_len(cs.last())
    }
}

/// The number of bytes of a text's UTF-8 encoding counted from its first
/// character.
proof fn lemma_utf8_len_first(cs: Seq<char>)
    requires
        cs.len() > 0,
    ensures
        utf8_len(cs) == char_utf8_len(cs[0]) + utf8_len(cs.drop_first()),
    decreases cs.len(),
{
    if cs.len() > 1 {
        lemma_utf8_len_first(cs.drop_last());
        assert(cs.drop_last().drop_first() =~= cs.drop_first().drop_last());
        assert(cs.drop_first().last() == cs.last());
    } else {
        assert(cs.drop_last() =~= Seq::<char>::empty());
        assert(cs.drop_first() =~= Seq::<char>::empty());
    }
}

/// `utf8_len` is the length of the UTF-8 encoding that the standard
/// library gives a text.
pub proof fn lemma_utf8_len_encode(cs: Seq<char>)
    ensures
        vstd::utf8::encode_utf8(cs).len() == utf8_len(cs),
    decreases cs.len(),
{
    if cs.len() > 0 {
        lemma_utf8_len_encode(cs.drop_first());
        lemma_utf8_len_first(cs);
        let v = cs[0] as u32;
        vstd::utf8::char_is_scalar(cs[0]);
        if v < 0x80 {
            assert(vstd::utf8::has_width_1_encoding(v));
        } else if v < 0x800 {
            assert(vstd::utf8::has_width_2_encoding(v));
        } else if v < 0x10000 {
            assert(vstd::utf8::has_width_3_encoding(v));
        }
        assert(vstd::utf8::encode_scalar(v).len() == char_utf8_len(cs[0]));
    }
}

/// The character that an escape `\c` stands for, for the escapes that take
/// no further characters.
pub open spec fn simple_escape(c: char) -> Option<char> {
    if c == '"' {
        Some('"')
    } else if c == '\\' {
        Some('\\')
    } else if c == '/' {
        Some('/')
    } else if c == 'b' {
        Some('\u{0008}')
    } else if c == 'f' {
        Some('\u{000C}')
    } else if c == 'n' {
        Some('\n')
    } else if c == 'r' {
        Some('\r')
    } else if c == 't' {
        Some('\t')
    } else {
        None
    }
}

/// Whether a number is a Unicode scalar value, i.e. a character.
pub open spec fn is_char_value(v: nat) -> bool {
    v <= 0x10FFFF && !(0xD800 <= v <= 0xDFFF)
}

/// Unescaping `raw` from position `i` on, after `acc` was produced from the
/// part before `i`: the text, or the message of the first bad escape.
pub open spec fn unescape_from(raw: Seq<char>, i: int, acc: Seq<char>) -> Result<Seq<char>, Seq<char>>
    decreases raw.len() - i,
{
    if i < 0 || i >= raw.len() {
        Ok(acc)
    } else if raw[i] != '\\' {
        unescape_from(raw, i + 1, acc.push(raw[i]))
    } else if i + 1 >= raw.len() {
        Err("Incomplete escape"@)
    } else {
        let e = raw[i + 1];
        match simple_escape(e) {
            Some(c) => unescape_from(raw, i + 2, acc.push(c)),
            None => if e == 'u' {
                let end = if i + 6 <= raw.len() { i + 6 } else { raw.len() as int };
                let code = raw.subrange(i + 2, end);
                if utf8_len(code) != 4 {
                    Err("Incomplete unicode escape"@)
                } else {
                    match parse_hex(code) {
                        None => Err("Bad hex in unicode escape: "@ + code),
                        Some(v) => if is_char_value(v) {
                            unescape_from(raw, end, acc.push(v as char))
                        } else {
                            Err("Invalid unicode escape: "@ + code)
                        },
                    }
                }
            } else {
                Err("Invalid escape: \\"@ + seq![e])
            },
        }
    }
}

/// The text of a quoted JSON-style string literal `s`: the characters
/// between the quotes, with escapes replaced.
pub open spec fn unescape_spec(s: Seq<char>) -> Result<Seq<char>, Seq<char>> {
    unescape_from(s.subrange(1, s.len() - 1), 0, Seq::empty())
}

/// The escape or character at position `i` of `raw`: how many characters
/// it takes and the character it stands for. A plain character stands for
/// itself; a backslash must be followed by one of `" \ / b f n r t`, or
/// by `u` and four hex digits that name a character; otherwise there is
/// none.
pub open spec fn token_at(raw: Seq<char>, i: int) -> Option<(int, char)> {
    if raw[i] != '\\' {
        Some((1, raw[i]))
    } else if i + 1 >= raw.len() {
        None
    } else {
        match simple_escape(raw[i + 1]) {
            Some(c) => Some((2, c)),
            None => if raw[i + 1] == 'u' && i + 6 <= raw.len() {
                match parse_hex(raw.subrange(i + 2, i + 6)) {
                    Some(v) => if is_char_value(v) {
                        Some((6, v as char))
                    } else {
                        None
                    },
                    None => None,
                }
            } else {
                None
            },
        }
    }
}

/// Whether `raw[i..]` reads as a sequence of characters and well-formed
/// escapes, and what they stand for.
pub open spec fn tokens(raw: Seq<char>, i: int) -> Option<Seq<char>>
    decreases raw.len() - i,
{
    if i < 0 || i >= raw.len() {
        Some(Seq::empty())
    } else {
        match token_at(raw, i) {
            Some((k, c)) => if k > 0 {
                match tokens(raw, i + k) {
                    Some(rest) => Some(seq![c] + rest),
                    None => None,
                }
            } else {
                None
            },
            None => None,
        }
    }
}

/// Hex digits are one byte each.
proof fn lemma_hex_utf8_len(cs: Seq<char>)
    requires
        hex_digits_value(cs) is Some,
    ensures
        utf8_len(cs) == cs.len(),
    decreases cs.len(),
{
    if cs.len() > 0 {
        lemma_hex_utf8_len(cs.drop_last());
    }
}

/// Unescaping fails exactly when some backslash, read from the left,
/// starts no well-formed escape: it is the last character, or is followed
/// by a character outside `" \ / b f n r t u`, or by `u` without four hex
/// digits that name a character. Otherwise the text is what the characters
/// and escapes stand for.
pub proof fn lemma_unescape_tokens(raw: Seq<char>, i: int, acc: Seq<char>)
    requires
        0 <= i <= raw.len(),
    ensures
        match tokens(raw, i) {
            Some(t) => unescape_from(raw, i, acc) == Ok::<Seq<char>, Seq<char>>(acc + t),
            None => unescape_from(raw, i, acc) is Err,
        },
    decreases raw.len() - i,
{
    if i < raw.len() {
        if raw[i] != '\\' {
            lemma_unescape_tokens(raw, i + 1, acc.push(raw[i]));
            if let Some(t) = tokens(raw, i + 1) {
                assert(acc.push(raw[i]) + t =~= acc + (seq![raw[i]] + t));
            }
        } else if i + 1 < raw.len() {
            let e = raw[i + 1];
            match simple_escape(e) {
                Some(c) => {
                    lemma_unescape_tokens(raw, i + 2, acc.push(c));
                    if let Some(t) = tokens(raw, i + 2) {
                        assert(acc.push(c) + t =~= acc + (seq![c] + t));
                    }
                },
                None => if e == 'u' {
                    if i + 6 <= raw.len() {
                        let code = raw.subrange(i + 2, i + 6);
                        if let Some(v) = parse_hex(code) {
                            lemma_hex_utf8_len(code);
                            if is_char_value(v) {
                                lemma_unescape_tokens(raw, i + 6, acc.push(v as char));
                                if let Some(t) = tokens(raw, i + 6) {
                                    assert(acc.push(v as char) + t =~= acc + (seq![v as char] + t));
                                }
                            }
                        }
                    } else {
                        let code = raw.subrange(i + 2, raw.len() as int);
                        if parse_hex(code) is Some {
                            lemma_hex_utf8_len(code);
                        }
                    }
                },
            }
        }
    } else {
        assert(acc + Seq::<char>::empty() =~= acc);
    }
}

/// A quoted literal unescapes to what its characters and escapes stand
/// for, and fails exactly when one of its backslashes starts no
/// well-formed escape.
pub proof fn lemma_unescape_exact(s: Seq<char>)
    requires
        s.len() >= 2,
    ensures
        match tokens(s.subrange(1, s.len() - 1), 0) {
            Some(t) => unescape_spec(s) == Ok::<Seq<char>, Seq<char>>(t),
            None => unescape_spec(s) is Err,
        },
{
    let raw = s.subrange(1, s.len() - 1);
    lemma_unescape_tokens(raw, 0, Seq::empty());
    if let Some(t) = tokens(raw, 0) {
        assert(Seq::<char>::empty() + t =~= t);
    }
}

/// Unescaping text with no backslash from position `i` on just copies it.
proof fn lemma_unescape_from_plain(raw: Seq<char>, i: int)
    requires
        0 <= i <= raw.len(),
        forall|j: int| i <= j < raw.len() ==> raw[j] != '\\',
    ensures
        unescape_from(raw, i, raw.take(i)) == Ok::<Seq<char>, Seq<char>>(raw),
    decreases raw.len() - i,
{
    if i < raw.len() {
        assert(raw.take(i).push(raw[i]) =~= raw.take(i + 1));
        lemma_unescape_from_plain(raw, i + 1);
    } else {
        assert(raw.take(i) =~= raw);
    }
}

/// A string literal without backslashes stands for the text between its
/// quotes.
pub proof fn lemma_unescape_plain(s: Seq<char>)
    requires
        s.len() >= 2,
        forall|j: int| 1 <= j < s.len() - 1 ==> s[j] != '\\',
    ensures
        unescape_spec(s) == Ok::<Seq<char>, Seq<char>>(s.subrange(1, s.len() - 1)),
{
    let raw = s.subrange(1, s.len() - 1);
    assert forall|j: int| 0 <= j < raw.len() implies raw[j] != '\\' by {
        assert(raw[j] == s[j + 1]);
    }
    assert(raw.take(0) =~= Seq::<char>::empty());
    lemma_unescape_from_plain(raw, 0);
}

/// The character with code `v`, if there is one.
#[verifier::external_body]
fn char_from_u32(v: u32) -> (r: Option<char>)
    ensures
        r == (if is_char_value(v as nat) {
            Some(v as char)
        } else {
            None
        }),
{
    char::from_u32(v)
}


/// The text of `lit`, as a string.
fn text(lit: &str) -> (r: String)
    ensures
        r@ == lit@,
{
    lit.to_string()
}

/// The value of a hexadecimal digit.
fn hex_digit_exec(c: char) -> (r: Option<u32>)
    ensures
        match hex_digit(c) {
            Some(d) => r == Some(d as u32),
            None => r is None,
        },
{
    if '0' <= c && c <= '9' {
        Some(c as u32 - '0' as u32)
    } else if 'a' <= c && c <= 'f' {
        Some(c as u32 - 'a' as u32 + 10)
    } else if 'A' <= c && c <= 'F' {
        Some(c as u32 - 'A' as u32 + 10)
    } else {
        None
    }
}

/// 16 to the power `n`.
pub open spec fn pow16(n: nat) -> nat
    decreases n,
{
    if n == 0 {
        1
    } else {
        16 * pow16((n - 1) as nat)
    }
}

pub proof fn lemma_pow16_monotone(i: nat, j: nat)
    requires
        i <= j,
    ensures
        pow16(i) <= pow16(j),
    decreases j,
{
    if i < j {
        lemma_pow16_monotone(i, (j - 1) as nat);
    }
}

pub proof fn lemma_hex_digits_bound(ds: Seq<char>)
    ensures
        hex_digits_value(ds) matches Some(v) ==> v < pow16(ds.len()),
    decreases ds.len(),
{
    if ds.len() > 0 {
        lemma_hex_digits_bound(ds.drop_last());
        if let Some(v) = hex_digits_value(ds) {
            let a = hex_digits_value(ds.drop_last()).unwrap();
            let p = pow16((ds.len() - 1) as nat);
            assert(a < p);
            assert(a * 16 + 15 < p * 16) by (nonlinear_arith)
                requires
                    a < p;
        }
    }
}

/// The value of `src` read as a base-16 number; `src` has at most 4
/// characters.
fn parse_hex_exec(src: &Vec<char>) -> (r: Option<u32>)
    requires
        src@.len() <= 4,
    ensures
        match parse_hex(src@) {
            Some(v) => r == Some(v as u32) && v < 0x10000,
            None => r is None,
        },
{
    let n = src.len();
    if n == 0 {
        return None;
    }
    let start: usize = 0;
    let ghost ds = src@.subrange(start as int, n as int);
    let mut v: u32 = 0;
    for k in start..n
        invariant
            n == src@.len(),
            n <= 4,
            n > 0,
            start <= n,
            start == 0,
            ds == src@.subrange(start as int, n as int),
            hex_digits_value(src@.subrange(start as int, k as int)) == Some(v as nat),
    {
        proof {
            lemma_hex_digits_bound(src@.subrange(start as int, k as int));
            lemma_pow16_monotone((k - start) as nat, 3);
            reveal_with_fuel(pow16, 4);
        }
        let ghost pre = src@.subrange(start as int, k as int);
        assert(src@.subrange(start as int, k + 1).drop_last() =~= pre);
        match hex_digit_exec(src[k]) {
            Some(d) => {
                v = v * 16 + d;
            },
            None => {
                proof {
                    let upto = src@.subrange(start as int, k + 1);
                    assert(upto.last() == src@[k as int]);
                    assert(hex_digits_value(upto) is None);
                    assert(src@.subrange(start as int, n as int).subrange(0, k + 1 - start) =~= upto);
                    lemma_hex_none_extends(src@.subrange(start as int, n as int), (k + 1 - start) as int);
                }
                assert(src@ =~= src@.subrange(0, n as int));
                return None;
            },
        }
    }
    proof {
        lemma_hex_digits_bound(src@.subrange(start as int, n as int));
        lemma_pow16_monotone((n - start) as nat, 4);
        reveal_with_fuel(pow16, 5);
    }
    assert(src@ =~= src@.subrange(0, n as int));
    Some(v)
}

/// Once a prefix of a digit sequence has a non-digit, the whole has no value.
pub proof fn lemma_hex_none_extends(ds: Seq<char>, k: int)
    requires
        0 <= k <= ds.len(),
        hex_digits_value(ds.subrange(0, k)) is None,
    ensures
        hex_digits_value(ds) is None,
    decreases ds.len() - k,
{
    if k < ds.len() {
        assert(ds.subrange(0, k + 1).drop_last() =~= ds.subrange(0, k));
        lemma_hex_none_extends(ds, k + 1);
    } else {
        assert(ds.subrange(0, k) =~= ds);
    }
}


/// The number of UTF-8 bytes of a character.
fn char_utf8_len_exec(c: char) -> (n: usize)
    ensures
        n == char_utf8_len(c),
{
    if (c as u32) < 0x80 {
        1
    } else if (c as u32) < 0x800 {
        2
    } else if (c as u32) < 0x10000 {
        3
    } else {
        4
    }
}

/// The character that a simple escape `\c` stands for.
fn simple_escape_exec(c: char) -> (r: Option<char>)
    ensures
        r == simple_escape(c),
{
    if c == '"' {
        Some('"')
    } else if c == '\\' {
        Some('\\')
    } else if c == '/' {
        Some('/')
    } else if c == 'b' {
        Some('\u{0008}')
    } else if c == 'f' {
        Some('\u{000C}')
    } else if c == 'n' {
        Some('\n')
    } else if c == 'r' {
        Some('\r')
    } else if c == 't' {
        Some('\t')
    } else {
        None
    }
}

/// `prefix` followed by the characters of `cs`.
fn message(prefix: &str, cs: &Vec<char>) -> (m: String)
    ensures
        m@ == prefix@ + cs@,
{
    let mut m = text(prefix);
    for k in 0..cs.len()
        invariant
            m@ == prefix@ + cs@.take(k as int),
    {
        push_char(&mut m, cs[k]);
        assert(cs@.take(k + 1) =~= cs@.take(k as int).push(cs@[k as int]));
        assert(m@ =~= prefix@ + cs@.take(k + 1));
    }
    assert(cs@.take(cs@.len() as int) =~= cs@);
    m
}

/// The text of the quoted string literal `s`: the characters between the
/// quotes with every escape (`\"`, `\\`, `\/`, `\b`, `\f`, `\n`, `\r`,
/// `\t`, `\uXXXX`) replaced by the character it stands for. A bad escape
/// gives an error with a message that names it.
pub fn unescape_json_string(s: &str) -> (r: Result<String, String>)
    requires
        s@.len() >= 2,
        (s@[0] as u32) < 0x80,
        (s@.last() as u32) < 0x80,
    ensures
        match unescape_spec(s@) {
            Ok(t) => r matches Ok(x) && x@ == t,
            Err(m) => r matches Err(x) && x@ == m,
        },
{
    let n = s.unicode_len();
    let end = n - 1;
    let ghost raw = s@.subrange(1, n - 1);
    let mut result = String::new();
    let mut i: usize = 1;
    while i < end
        invariant
            n == s@.len(),
            n >= 2,
            end == n - 1,
            raw == s@.subrange(1, n - 1),
            1 <= i <= end,
            unescape_from(raw, i - 1, result@) == unescape_spec(s@),
        decreases end - i,
    {
        let c = s.get_char(i);
        assert(raw[i - 1] == c);
        if c != '\\' {
            push_char(&mut result, c);
            i = i + 1;
        } else if i + 1 >= end {
            return Err(text("Incomplete escape"));
        } else {
            let e = s.get_char(i + 1);
            assert(raw[i as int] == e);
            match simple_escape_exec(e) {
                Some(x) => {
                    push_char(&mut result, x);
                    i = i + 2;
                },
                None => {
                    if e == 'u' {
                        let stop = if end - i >= 6 { i + 6 } else { end };
                        let mut code: Vec<char> = Vec::new();
                        let mut bytes: usize = 0;
                        let mut k = i + 2;
                        while k < stop
                            invariant
                                n == s@.len(),
                                i + 2 <= k <= stop,
                                stop <= end,
                                end == n - 1,
                                stop <= i + 6,
                                code@ == s@.subrange(i + 2, k as int),
                                bytes == utf8_len(code@),
                                bytes <= 4 * (k - i - 2),
                            decreases stop - k,
                        {
                            let ch = s.get_char(k);
                            code.push(ch);
                            bytes = bytes + char_utf8_len_exec(ch);
                            k = k + 1;
                            assert(code@.drop_last() =~= s@.subrange(i + 2, k - 1));
                            assert(code@ =~= s@.subrange(i + 2, k as int));
                        }
                        assert(code@ =~= raw.subrange(i + 1, stop - 1));
                        if bytes != 4 {
                            return Err(text("Incomplete unicode escape"));
                        }
                        match parse_hex_exec(&code) {
                            None => {
                                return Err(message("Bad hex in unicode escape: ", &code));
                            },
                            Some(v) => match char_from_u32(v) {
                                Some(ch) => {
                                    push_char(&mut result, ch);
                                    i = stop;
                                },
                                None => {
                                    return Err(message("Invalid unicode escape: ", &code));
                                },
                            },
                        }
                    } else {
                        let mut m = text("Invalid escape: \\");
                        push_char(&mut m, e);
                        assert(m@ =~= "Invalid escape: \\"@ + seq![e]);
                        return Err(m);
                    }
                },
            }
        }
    }
    Ok(result)
}


/// The byte that a one-character escape `\e` of a character literal stands for.
pub open spec fn char_escape(e: u8) -> Option<u8> {
    if e == 97 {
        Some(0x07u8)
    } else if e == 98 {
        Some(0x08u8)
    } else if e == 102 {
        Some(0x0Cu8)
    } else if e == 110 {
        Some(0x0Au8)
    } else if e == 114 {
        Some(0x0Du8)
    } else if e == 116 {
        Some(0x09u8)
    } else if e == 118 {
        Some(0x0Bu8)
    } else if e == 92 {
        Some(92u8)
    } else if e == 39 {
        Some(39u8)
    } else if e == 34 {
        Some(34u8)
    } else if e == 63 {
        Some(63u8)
    } else {
        None
    }
}

/// The byte that the character literal with UTF-8 bytes `b` denotes: `'x'`
/// for a single byte, `'\e'` for a one-letter escape and nothing after it,
/// `'\xN'` or `'\xNN'` for a byte in hexadecimal; otherwise the message of
/// what is wrong with it.
pub open spec fn parse_char_spec(b: Seq<u8>) -> Result<u8, Seq<char>> {
    if b.len() == 0 || b[0] != 39 || b.last() != 39 {
        Err("invalid char literal"@)
    } else {
        let inner = b.subrange(1, b.len() - 1);
        if inner.len() == 1 {
            Ok(inner[0])
        } else if inner.len() >= 2 && inner[0] == 92 {
            let e = inner[1];
            match char_escape(e) {
                Some(v) => if inner.len() == 2 {
                    Ok(v)
                } else {
                    Err("invalid char literal format"@)
                },
                None => if e == 120 {
                    let hex = inner.subrange(2, inner.len() as int);
                    if hex.len() == 0 || hex.len() > 2 {
                        Err("invalid hex escape"@)
                    } else {
                        match parse_hex(hex.map_values(|x: u8| x as char)) {
                            Some(v) => Ok(v as u8),
                            None => Err("invalid hex digits"@),
                        }
                    }
                } else {
                    Err("unknown escape"@)
                },
            }
        } else {
            Err("invalid char literal format"@)
        }
    }
}

/// A character literal of one byte denotes that byte, and one of a
/// one-letter escape the byte that the escape stands for.
pub proof fn lemma_char_literal_plain(c: u8, e: u8)
    ensures
        parse_char_spec(seq![39u8, c, 39u8]) == Ok::<u8, Seq<char>>(c),
        char_escape(e) matches Some(v) ==> parse_char_spec(seq![39u8, 92u8, e, 39u8]) == Ok::<u8, Seq<char>>(v),
{
    assert(seq![39u8, c, 39u8].subrange(1, 2) =~= seq![c]);
    assert(seq![39u8, 92u8, e, 39u8].subrange(1, 3) =~= seq![92u8, e]);
}

/// A hexadecimal escape of two digits denotes the byte that they write,
/// the first digit being the more significant.
pub proof fn lemma_char_literal_hex(h: u8, l: u8)
    requires
        hex_digit(h as char) is Some,
        hex_digit(l as char) is Some,
    ensures
        parse_char_spec(seq![39u8, 92u8, 120u8, h, l, 39u8]) == Ok::<u8, Seq<char>>(
            (hex_digit(h as char).unwrap() * 16 + hex_digit(l as char).unwrap()) as u8,
        ),
{
    let b = seq![39u8, 92u8, 120u8, h, l, 39u8];
    let inner = b.subrange(1, 5);
    assert(inner =~= seq![92u8, 120u8, h, l]);
    let hex = inner.subrange(2, 4);
    assert(hex =~= seq![h, l]);
    let cs = hex.map_values(|x: u8| x as char);
    assert(cs =~= seq![h as char, l as char]);
    assert(cs.drop_last() =~= seq![h as char]);
    assert(cs.drop_last().drop_last() =~= Seq::<char>::empty());
    assert(seq![h as char].drop_last() =~= Seq::<char>::empty());
    assert(hex_digits_value(Seq::<char>::empty()) == Some(0nat));
    assert(hex_digits_value(seq![h as char]) == Some(hex_digit(h as char).unwrap()));
}

/// Every character literal of one character: `'c'` gives the byte of `c`
/// when `c` takes one byte in UTF-8, the quote and the backslash included,
/// and is refused as badly formed when `c` takes more.
pub proof fn lemma_char_literal_char(c: char)
    ensures
        parse_char_spec(vstd::utf8::encode_utf8(seq!['\'', c, '\''])) == (if (c as u32) < 0x80 {
            Ok::<u8, Seq<char>>(c as u8)
        } else {
            Err::<u8, Seq<char>>("invalid char literal format"@)
        }),
{
    let cs = seq!['\'', c, '\''];
    let e = vstd::utf8::encode_scalar(c as u32);
    assert(cs.drop_first() =~= seq![c, '\'']);
    assert(cs.drop_first().drop_first() =~= seq!['\'']);
    assert(cs.drop_first().drop_first().drop_first() =~= Seq::<char>::empty());
    reveal_with_fuel(vstd::utf8::encode_utf8, 4);
    let q = vstd::utf8::encode_scalar('\'' as u32);
    assert(q =~= seq![39u8]) by {
        let k: u32 = '\'' as u32;
        assert(k == 39);
        assert(k & 0x7F == 39) by (bit_vector)
            requires
                k == 39,
        ;
    }
    let b = vstd::utf8::encode_utf8(cs);
    assert(b =~= seq![39u8] + e + seq![39u8]);
    let v = c as u32;
    vstd::utf8::char_is_scalar(c);
    let inner = b.subrange(1, b.len() - 1);
    assert(inner =~= e);
    if v < 0x80 {
        assert(vstd::utf8::has_width_1_encoding(v));
        assert(v & 0x7F == v) by (bit_vector)
            requires
                v < 0x80,
        ;
        assert(e =~= seq![c as u8]);
    } else {
        let e0 = e[0];
        if v <= 0x7FF {
            assert(e0 == (0xC0 | ((v >> 6) & 0x1F) as u8));
            assert((0xC0 | ((v >> 6) & 0x1F) as u8) != 92u8) by (bit_vector);
        } else if v <= 0xFFFF {
            assert(e0 == (0xE0 | ((v >> 12) & 0x0F) as u8));
            assert((0xE0 | ((v >> 12) & 0x0F) as u8) != 92u8) by (bit_vector);
        } else {
            assert(e0 == (0xF0 | ((v >> 18) & 0x7) as u8));
            assert((0xF0 | ((v >> 18) & 0x7) as u8) != 92u8) by (bit_vector);
        }
        assert(inner.len() >= 2);
    }
}

/// Hexadecimal escapes: one or two hex digits give the byte that they
/// write; no digit or more than two is refused as a bad escape; one or two
/// characters that are not all hex digits are refused as bad digits.
pub proof fn lemma_char_literal_hex_forms(h: u8, l: u8, hs: Seq<u8>)
    ensures
        parse_char_spec(seq![39u8, 92u8, 120u8, h, 39u8]) == (match hex_digit(h as char) {
            Some(d) => Ok::<u8, Seq<char>>(d as u8),
            None => Err::<u8, Seq<char>>("invalid hex digits"@),
        }),
        (hex_digit(h as char) is None || hex_digit(l as char) is None) ==> parse_char_spec(
            seq![39u8, 92u8, 120u8, h, l, 39u8],
        ) == Err::<u8, Seq<char>>("invalid hex digits"@),
        parse_char_spec(seq![39u8, 92u8, 120u8, 39u8]) == Err::<u8, Seq<char>>("invalid hex escape"@),
        hs.len() > 2 ==> parse_char_spec(seq![39u8, 92u8, 120u8] + hs + seq![39u8]) == Err::<u8, Seq<char>>(
            "invalid hex escape"@,
        ),
{
    let b1 = seq![39u8, 92u8, 120u8, h, 39u8];
    assert(b1.subrange(1, 4) =~= seq![92u8, 120u8, h]);
    assert(b1.subrange(1, 4).subrange(2, 3) =~= seq![h]);
    let c1 = seq![h].map_values(|x: u8| x as char);
    assert(c1 =~= seq![h as char]);
    assert(c1.drop_last() =~= Seq::<char>::empty());
    assert(hex_digits_value(c1.drop_last()) == Some(0nat));
    assert(c1.last() == h as char);
    assert(parse_hex(c1) == (match hex_digit(h as char) {
        Some(d) => Some(d),
        None => None::<nat>,
    }));
    let b2 = seq![39u8, 92u8, 120u8, h, l, 39u8];
    assert(b2.subrange(1, 5) =~= seq![92u8, 120u8, h, l]);
    assert(b2.subrange(1, 5).subrange(2, 4) =~= seq![h, l]);
    let c2 = seq![h, l].map_values(|x: u8| x as char);
    assert(c2 =~= seq![h as char, l as char]);
    assert(c2.drop_last() =~= seq![h as char]);
    assert(seq![h as char].drop_last() =~= Seq::<char>::empty());
    let b0 = seq![39u8, 92u8, 120u8, 39u8];
    assert(b0.subrange(1, 3) =~= seq![92u8, 120u8]);
    assert(b0.subrange(1, 3).subrange(2, 2) =~= Seq::<u8>::empty());
    if hs.len() > 2 {
        let b3 = seq![39u8, 92u8, 120u8] + hs + seq![39u8];
        let inner = b3.subrange(1, b3.len() - 1);
        assert(inner =~= seq![92u8, 120u8] + hs);
        assert(inner.subrange(2, inner.len() as int) =~= hs);
    }
}

/// The one-letter escapes denote the C control codes and the characters
/// they quote: `\a \b \t \n \v \f \r`, in that order, are the consecutive
/// codes 7 (bell) to 13 (carriage return); `\\ \' \" \?` stand for the
/// character after the backslash; any other letter but `x` is unknown.
pub proof fn lemma_char_escapes(k: int, e: u8)
    ensures
        0 <= k < 7 ==> parse_char_spec(seq![39u8, 92u8, ("abtnvfr"@[k] as u32) as u8, 39u8]) == Ok::<u8, Seq<char>>(
            (7 + k) as u8,
        ),
        (e == 92 || e == 39 || e == 34 || e == 63) ==> parse_char_spec(seq![39u8, 92u8, e, 39u8]) == Ok::<
            u8,
            Seq<char>,
        >(e),
        !(e == 92 || e == 39 || e == 34 || e == 63 || e == 120 || e == 97 || e == 98 || e == 116 || e == 110
            || e == 118 || e == 102 || e == 114) ==> parse_char_spec(seq![39u8, 92u8, e, 39u8])
            == Err::<u8, Seq<char>>("unknown escape"@),
{
    reveal_strlit("abtnvfr");
    assert(seq![39u8, 92u8, e, 39u8].subrange(1, 3) =~= seq![92u8, e]);
    if 0 <= k < 7 {
        let c = ("abtnvfr"@[k] as u32) as u8;
        assert(seq![39u8, 92u8, c, 39u8].subrange(1, 3) =~= seq![92u8, c]);
    }
}

/// The byte that a one-character escape stands for.
fn char_escape_exec(e: u8) -> (r: Option<u8>)
    ensures
        r == char_escape(e),
{
    if e == 97 {
        Some(0x07u8)
    } else if e == 98 {
        Some(0x08u8)
    } else if e == 102 {
        Some(0x0Cu8)
    } else if e == 110 {
        Some(0x0Au8)
    } else if e == 114 {
        Some(0x0Du8)
    } else if e == 116 {
        Some(0x09u8)
    } else if e == 118 {
        Some(0x0Bu8)
    } else if e == 92 {
        Some(92u8)
    } else if e == 39 {
        Some(39u8)
    } else if e == 34 {
        Some(34u8)
    } else if e == 63 {
        Some(63u8)
    } else {
        None
    }
}

/// The byte that the character literal `s` (quotes included) denotes.
pub fn parse_char_literal(s: &str) -> (r: Result<u8, String>)
    requires
        !(s.spec_bytes().len() == 1 && s.spec_bytes()[0] == 39),
    ensures
        match parse_char_spec(s.spec_bytes()) {
            Ok(v) => r == Ok::<u8, String>(v),
            Err(m) => r matches Err(x) && x@ == m,
        },
{
    let b = s.as_bytes();
    let n = b.len();
    if n == 0 || b[0] != 39 || b[n - 1] != 39 {
        return Err(text("invalid char literal"));
    }
    let ghost inner = b@.subrange(1, n - 1);
    let m = n - 2;
    if m == 1 {
        return Ok(b[1]);
    }
    if m >= 2 && b[1] == 92 {
        let e = b[2];
        assert(inner[1] == e);
        match char_escape_exec(e) {
            Some(v) => if m == 2 {
                Ok(v)
            } else {
                Err(text("invalid char literal format"))
            },
            None => {
                if e == 120 {
                    let h = m - 2;
                    if h == 0 || h > 2 {
                        return Err(text("invalid hex escape"));
                    }
                    let mut digits: Vec<char> = Vec::new();
                    let ghost hex = inner.subrange(2, inner.len() as int);
                    for k in 0..h
                        invariant
                            n == b@.len(),
                            h == n - 4,
                            hex == b@.subrange(3, n - 1),
                            digits@ == hex.take(k as int).map_values(|x: u8| x as char),
                    {
                        digits.push(b[3 + k] as char);
                        assert(digits@ =~= hex.take(k + 1).map_values(|x: u8| x as char));
                    }
                    assert(hex.take(h as int) =~= hex);
                    assert(hex =~= inner.subrange(2, inner.len() as int));
                    match parse_hex_exec(&digits) {
                        Some(v) => {
                            proof {
                                lemma_hex_digits_bound(digits@);
                                lemma_hex_digits_bound(digits@.drop_first());
                                reveal_with_fuel(pow16, 3);
                            }
                            Ok(v as u8)
                        },
                        None => Err(text("invalid hex digits")),
                    }
                } else {
                    Err(text("unknown escape"))
                }
            },
        }
    } else {
        Err(text("invalid char literal format"))
    }
}

} // verus!
