//! Canonical single-line rendering of GraphQL string values.
use vstd::prelude::*;
use crate::text::{chars_of, push_char};

verus! {

/// The uppercase hexadecimal digit of `d` (`0 <= d < 16`).
pub open spec fn hex_digit(d: int) -> char {
    if d < 10 {
        (d + 48) as char
    } else {
        (d + 55) as char
    }
}

/// Four uppercase hexadecimal digits of `n`, as `{:04X}` writes a number
/// below `0x10000`.
pub open spec fn hex4(n: int) -> Seq<char> {
    seq![hex_digit((n / 4096) % 16), hex_digit((n / 256) % 16), hex_digit((n / 16) % 16), hex_digit(n % 16)]
}

/// Whether `c` is a control character that has no short escape and is
/// written as `\uXXXX`.
pub open spec fn needs_unicode_escape(c: char) -> bool {
    (c as u32) < 0x20 || (0x7F <= (c as u32) && (c as u32) <= 0x9F)
}

/// How one character of a string value is written.
pub open spec fn escape_char(c: char) -> Seq<char> {
    if c == '"' {
        seq!['\\', '"']
    } else if c == '\\' {
        seq!['\\', '\\']
    } else if c == '\u{0008}' {
        seq!['\\', 'b']
    } else if c == '\t' {
        seq!['\\', 't']
    } else if c == '\n' {
        seq!['\\', 'n']
    } else if c == '\u{000C}' {
        seq!['\\', 'f']
    } else if c == '\r' {
        seq!['\\', 'r']
    } else if needs_unicode_escape(c) {
        seq!['\\', 'u'] + hex4(c as int)
    } else {
        seq![c]
    }
}

/// The escaped form of every character of `s`, in order.
pub open spec fn escape_all(s: Seq<char>) -> Seq<char>
    decreases s.len(),
{
    if s.len() == 0 {
        Seq::empty()
    } else {
        escape_all(s.drop_last()) + escape_char(s.last())
    }
}

/// A string value as a canonical GraphQL string: double quotes around the
/// escaped characters.
pub open spec fn canonical(s: Seq<char>) -> Seq<char> {
    seq!['"'] + escape_all(s) + seq!['"']
}

fn push_hex_digit(out: &mut String, d: u32)
    requires
        d < 16,
    ensures
        final(out)@ == old(out)@.push(hex_digit(d as int)),
{
    let b = d as u8;
    if b < 10 {
        push_char(out, (b + 48) as char);
    } else {
        push_char(out, (b + 55) as char);
    }
}

fn push_escape(out: &mut String, c: char)
    ensures
        final(out)@ == old(out)@ + escape_char(c),
{
    let code = c as u32;
    if c == '"' {
        push_char(out, '\\');
        push_char(out, '"');
    } else if c == '\\' {
        push_char(out, '\\');
        push_char(out, '\\');
    } else if c == '\u{0008}' {
        push_char(out, '\\');
        push_char(out, 'b');
    } else if c == '\t' {
        push_char(out, '\\');
        push_char(out, 't');
    } else if c == '\n' {
        push_char(out, '\\');
        push_char(out, 'n');
    } else if c == '\u{000C}' {
        push_char(out, '\\');
        push_char(out, 'f');
    } else if c == '\r' {
        push_char(out, '\\');
        push_char(out, 'r');
    } else if code < 0x20 || (0x7F <= code && code <= 0x9F) {
        push_char(out, '\\');
        push_char(out, 'u');
        push_hex_digit(out, (code / 4096) % 16);
        push_hex_digit(out, (code / 256) % 16);
        push_hex_digit(out, (code / 16) % 16);
        push_hex_digit(out, code % 16);
    } else {
        push_char(out, c);
    }
    assert(final(out)@ =~= old(out)@ + escape_char(c));
}

/// Render a string value as a canonical single-line GraphQL string.
///
/// Wrap in double quotes, escape `"` and `\`, use the short forms for
/// backspace, tab, newline, form feed, and carriage return, and use
/// `\uXXXX` with uppercase hex for the other control characters. Every
/// other character, including non-ASCII, is emitted as is.
pub fn canonical_string(value: &str) -> (out: String)
    ensures
        out@ == canonical(value@),
{
    let chars = chars_of(value);
    let mut out = String::new();
    push_char(&mut out, '"');
    let mut i: usize = 0;
    while i < chars.len()
        invariant
            0 <= i <= chars@.len(),
            chars@ == value@,
            out@ == seq!['"'] + escape_all(chars@.take(i as int)),
        decreases chars.len() - i,
    {
        assert(chars@.take(i + 1).drop_last() =~= chars@.take(i as int));
        push_escape(&mut out, chars[i]);
        assert(out@ =~= seq!['"'] + escape_all(chars@.take(i + 1)));
        i = i + 1;
    }
    assert(chars@.take(chars@.len() as int) =~= chars@);
    push_char(&mut out, '"');
    assert(out@ =~= canonical(value@));
    out
}

/// An escaped character holds no line break and no control character.
proof fn lemma_escape_char_printable(c: char)
    ensures
        forall|k: int| 0 <= k < escape_char(c).len() ==> (#[trigger] escape_char(c)[k] as u32) >= 0x20,
{
}

/// Law: a canonical string holds no line break and no other control
/// character below U+0020, and is wrapped in double quotes.
pub proof fn law_canonical_string_is_single_line(s: Seq<char>)
    ensures
        canonical(s).len() >= 2,
        canonical(s)[0] == '"',
        canonical(s).last() == '"',
        forall|k: int| 0 <= k < canonical(s).len() ==> (#[trigger] canonical(s)[k] as u32) >= 0x20,
        !canonical(s).contains('\n'),
{
    lemma_escape_all_printable(s);
    let c = canonical(s);
    assert forall|k: int| 0 <= k < c.len() implies (#[trigger] c[k] as u32) >= 0x20 by {
        if 0 < k < c.len() - 1 {
            assert(c[k] == escape_all(s)[k - 1]);
        }
    }
    if c.contains('\n') {
        let k = choose|k: int| 0 <= k < c.len() && c[k] == '\n';
        assert((c[k] as u32) >= 0x20);
    }
}

proof fn lemma_escape_all_printable(s: Seq<char>)
    ensures
        forall|k: int| 0 <= k < escape_all(s).len() ==> (#[trigger] escape_all(s)[k] as u32) >= 0x20,
    decreases s.len(),
{
    if s.len() > 0 {
        lemma_escape_all_printable(s.drop_last());
        lemma_escape_char_printable(s.last());
        let a = escape_all(s.drop_last());
        let b = escape_char(s.last());
        assert forall|k: int| 0 <= k < escape_all(s).len() implies (#[trigger] escape_all(s)[k]
            as u32) >= 0x20 by {
            if k < a.len() {
                assert(escape_all(s)[k] == a[k]);
            } else {
                assert(escape_all(s)[k] == b[k - a.len()]);
            }
        }
    }
}

// ---------------------------------------------------------------------------
// Reading a canonical string back
// ---------------------------------------------------------------------------

/// The value of a hexadecimal digit, either case.
pub open spec fn hex_value(c: char) -> Option<int> {
    let n = c as u32;
    if 48 <= n && n <= 57 {
        Some(n - 48)
    } else if 65 <= n && n <= 70 {
        Some(n - 55)
    } else if 97 <= n && n <= 102 {
        Some(n - 87)
    } else {
        None
    }
}

/// The character that a one-letter GraphQL escape `\e` stands for.
pub open spec fn short_escape(e: char) -> Option<char> {
    if e == '"' {
        Some('"')
    } else if e == '\\' {
        Some('\\')
    } else if e == '/' {
        Some('/')
    } else if e == 'b' {
        Some('\u{0008}')
    } else if e == 'f' {
        Some('\u{000C}')
    } else if e == 'n' {
        Some('\n')
    } else if e == 'r' {
        Some('\r')
    } else if e == 't' {
        Some('\t')
    } else {
        None
    }
}

/// The number that the four hexadecimal digits at the start of `t` spell.
pub open spec fn hex4_value(t: Seq<char>) -> Option<int> {
    if t.len() >= 4 && hex_value(t[0]) is Some && hex_value(t[1]) is Some && hex_value(t[2]) is Some
        && hex_value(t[3]) is Some {
        Some(
            hex_value(t[0])->0 * 4096 + hex_value(t[1])->0 * 256 + hex_value(t[2])->0 * 16
                + hex_value(t[3])->0,
        )
    } else {
        None
    }
}

/// The characters that the body of a GraphQL string literal (what stands
/// between its quotes) denotes, or `None` when it is no valid body. A raw
/// character is any but `"`, `\`, line feed and carriage return; the escapes
/// are `\"`, `\\`, `\/`, `\b`, `\f`, `\n`, `\r`, `\t` and `\u` with four
/// hexadecimal digits of a code point outside the surrogates.
pub open spec fn unescape(t: Seq<char>) -> Option<Seq<char>>
    decreases t.len(),
{
    if t.len() == 0 {
        Some(Seq::empty())
    } else if t[0] != '\\' {
        if t[0] == '"' || t[0] == '\n' || t[0] == '\r' {
            None
        } else {
            match unescape(t.drop_first()) {
                Some(r) => Some(seq![t[0]] + r),
                None => None,
            }
        }
    } else if t.len() < 2 {
        None
    } else if short_escape(t[1]) is Some {
        match unescape(t.skip(2)) {
            Some(r) => Some(seq![short_escape(t[1])->0] + r),
            None => None,
        }
    } else if t[1] == 'u' && hex4_value(t.skip(2)) is Some && t.len() >= 6 {
        let v = hex4_value(t.skip(2))->0;
        if (0 <= v && v < 0xD800) || (0xE000 <= v && v <= 0xFFFF) {
            match unescape(t.skip(6)) {
                Some(r) => Some(seq![v as char] + r),
                None => None,
            }
        } else {
            None
        }
    } else {
        None
    }
}

proof fn lemma_escape_all_front(s: Seq<char>)
    requires
        s.len() > 0,
    ensures
        escape_all(s) == escape_char(s[0]) + escape_all(s.drop_first()),
    decreases s.len(),
{
    if s.len() == 1 {
        assert(s.drop_first() =~= Seq::<char>::empty());
        assert(s.drop_last() =~= Seq::<char>::empty());
        assert(escape_all(s.drop_last()) == Seq::<char>::empty());
        assert(s.last() == s[0]);
        assert(escape_all(Seq::<char>::empty()) == Seq::<char>::empty());
        assert(escape_all(s) =~= escape_char(s[0]));
    } else {
        lemma_escape_all_front(s.drop_last());
        assert(s.drop_last().drop_first() =~= s.drop_first().drop_last());
        assert(s.drop_first().last() == s.last());
        assert(escape_all(s) =~= escape_char(s[0]) + escape_all(s.drop_first()));
    }
}

proof fn lemma_hex_digit_value(d: int)
    requires
        0 <= d < 16,
    ensures
        hex_value(hex_digit(d)) == Some(d),
{
}

proof fn lemma_escape_char_reads_back(c: char, rest: Seq<char>)
    ensures
        unescape(escape_char(c) + rest) == match unescape(rest) {
            Some(r) => Some(seq![c] + r),
            None => None::<Seq<char>>,
        },
{
    let t = escape_char(c) + rest;
    if escape_char(c).len() == 1 {
        assert(t.drop_first() =~= rest);
        assert(t[0] == c);
    } else if escape_char(c).len() == 2 {
        assert(t.skip(2) =~= rest);
    } else {
        let n = c as u32;
        assert(needs_unicode_escape(c));
        assert(n / 4096 == 0 && n / 256 == 0) by (nonlinear_arith)
            requires n < 0xA0;
        let h = hex4(c as int);
        lemma_hex_digit_value(((c as int) / 4096) % 16);
        lemma_hex_digit_value(((c as int) / 256) % 16);
        lemma_hex_digit_value(((c as int) / 16) % 16);
        lemma_hex_digit_value((c as int) % 16);
        assert(t.skip(2).take(4) =~= h);
        assert(t.skip(2)[0] == h[0] && t.skip(2)[1] == h[1] && t.skip(2)[2] == h[2] && t.skip(2)[3] == h[3]);
        assert(((c as int) / 16) % 16 * 16 + (c as int) % 16 == c as int) by (nonlinear_arith)
            requires (c as int) < 0xA0, (c as int) >= 0;
        assert(hex4_value(t.skip(2)) == Some(c as int));
        assert(t.skip(6) =~= rest);
        assert((c as int) as char == c);
    }
}

/// Law: a canonical string is a valid GraphQL string literal that reads
/// back as the value it renders: between its quotes stands a body whose
/// escapes decode to exactly `s`.
pub proof fn law_canonical_string_reads_back(s: Seq<char>)
    ensures
        canonical(s) == seq!['"'] + escape_all(s) + seq!['"'],
        unescape(escape_all(s)) == Some(s),
    decreases s.len(),
{
    if s.len() > 0 {
        lemma_escape_all_front(s);
        law_canonical_string_reads_back(s.drop_first());
        lemma_escape_char_reads_back(s[0], escape_all(s.drop_first()));
        assert(seq![s[0]] + s.drop_first() =~= s);
    }
}

/// Law: every character other than `"`, `\` and the control characters
/// (below U+0020 and U+007F..=U+009F) is written as it is; so a string of
/// such characters is written as itself between quotes.
pub proof fn law_plain_characters_are_written_as_is(s: Seq<char>)
    requires
        forall|i: int|
            0 <= i < s.len() ==> (#[trigger] s[i]) != '"' && s[i] != '\\' && (s[i] as u32) >= 0x20
                && !(0x7F <= (s[i] as u32) && (s[i] as u32) <= 0x9F),
    ensures
        forall|i: int| 0 <= i < s.len() ==> escape_char(#[trigger] s[i]) == seq![s[i]],
        canonical(s) == seq!['"'] + s + seq!['"'],
    decreases s.len(),
{
    if s.len() > 0 {
        law_plain_characters_are_written_as_is(s.drop_last());
        assert(escape_char(s.last()) == seq![s.last()]);
        assert(escape_all(s.drop_last()) =~= s.drop_last()) by {
            assert(canonical(s.drop_last()) == seq!['"'] + s.drop_last() + seq!['"']);
            assert(canonical(s.drop_last()).subrange(1, canonical(s.drop_last()).len() - 1) =~= escape_all(s.drop_last()));
            assert(canonical(s.drop_last()).subrange(1, canonical(s.drop_last()).len() - 1) =~= s.drop_last());
        }
        assert(escape_all(s) =~= s);
    } else {
        assert(escape_all(s) =~= s);
    }
    assert(canonical(s) =~= seq!['"'] + s + seq!['"']);
}

/// Law: the characters with a short escape are written with it (`\"`,
/// `\\`, `\b`, `\t`, `\n`, `\f`, `\r`), and every other control character
/// (below U+0020, or U+007F..=U+009F) as `\u` and four uppercase hexadecimal
/// digits of its code point.
pub proof fn law_escape_forms(c: char)
    ensures
        (c == '"' || c == '\\' || c == '\u{0008}' || c == '\t' || c == '\n' || c == '\u{000C}'
            || c == '\r') ==> escape_char(c).len() == 2 && escape_char(c)[0] == '\\'
            && short_escape(escape_char(c)[1]) == Some(c),
        !(c == '"' || c == '\\' || c == '\u{0008}' || c == '\t' || c == '\n' || c == '\u{000C}'
            || c == '\r') && ((c as u32) < 0x20 || (0x7F <= (c as u32) && (c as u32) <= 0x9F))
            ==> escape_char(c).len() == 6 && escape_char(c)[0] == '\\' && escape_char(c)[1] == 'u'
            && hex4_value(escape_char(c).skip(2)) == Some(c as int) && forall|k: int|
            2 <= k < 6 ==> {
                let d = #[trigger] escape_char(c)[k] as u32;
                (48 <= d && d <= 57) || (65 <= d && d <= 70)
            },
{
    if !(c == '"' || c == '\\' || c == '\u{0008}' || c == '\t' || c == '\n' || c == '\u{000C}'
        || c == '\r') && ((c as u32) < 0x20 || (0x7F <= (c as u32) && (c as u32) <= 0x9F)) {
        lemma_escape_char_reads_back(c, Seq::empty());
        let n = c as u32;
        assert(n / 4096 == 0 && n / 256 == 0) by (nonlinear_arith)
            requires n < 0xA0;
        let t = escape_char(c);
        lemma_hex_digit_value(((c as int) / 4096) % 16);
        lemma_hex_digit_value(((c as int) / 256) % 16);
        lemma_hex_digit_value(((c as int) / 16) % 16);
        lemma_hex_digit_value((c as int) % 16);
        assert(((c as int) / 16) % 16 * 16 + (c as int) % 16 == c as int) by (nonlinear_arith)
            requires (c as int) < 0xA0, (c as int) >= 0;
        assert(t.skip(2)[0] == t[2] && t.skip(2)[1] == t[3] && t.skip(2)[2] == t[4] && t.skip(2)[3] == t[5]);
    }
}

} // verus!
