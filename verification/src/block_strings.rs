//! Which sources the parser can take without failing inside block strings.
//!
//! `graphql_parser` strips the common indentation of a block string
//! (`"""..."""`) by measuring it in bytes on some lines and cutting other
//! lines at that byte offset. When the indentation holds whitespace outside
//! ASCII (such as U+00A0), the cut can land inside a character and the parser
//! panics. With only ASCII whitespace in block strings every cut falls on a
//! character boundary. [`block_strings_are_safe`] finds the bodies of the
//! block strings as the parser's tokenizer does and checks that none holds
//! non-ASCII whitespace.
use vstd::prelude::*;
use crate::text::chars_of;

verus! {

/// A character with the Unicode `White_Space` property that lies outside
/// ASCII.
pub open spec fn is_wide_whitespace(c: char) -> bool {
    let n = c as u32;
    ||| n == 0x85
    ||| n == 0xA0
    ||| n == 0x1680
    ||| (0x2000 <= n && n <= 0x200A)
    ||| n == 0x2028
    ||| n == 0x2029
    ||| n == 0x202F
    ||| n == 0x205F
    ||| n == 0x3000
}

/// Whether `s[i..i + 3]` is `"""`.
pub open spec fn triple_quote_at(s: Seq<char>, i: int) -> bool {
    0 <= i && i + 3 <= s.len() && s[i] == '"' && s[i + 1] == '"' && s[i + 2] == '"'
}

/// Where the tokenizer stands: between tokens, in a comment, in a string
/// (just after a backslash, or not), or in the body of a block string.
#[derive(PartialEq, Eq, Structural, Clone, Copy)]
pub enum Lex {
    Normal,
    Comment,
    Str,
    Escaped,
    Block,
}

/// From position `i`, in state `st` (with the current block string's body
/// starting at `start`), no block string body holds non-ASCII whitespace.
///
/// Between tokens, `#` opens a comment up to a line break, `"""` a block
/// string and `"` a string. A string ends at a `"` that no backslash
/// escapes. A block string ends at the first `"""`, searching from its body
/// without overlap, that does not follow a backslash in the body. Where the
/// tokenizer stops with an error this walk goes on, which only ever asks
/// more.
pub open spec fn safe_from(s: Seq<char>, i: int, st: Lex, start: int) -> bool
    decreases s.len() - i,
{
    if i < 0 || i >= s.len() {
        true
    } else {
        match st {
            Lex::Normal => if s[i] == '#' {
                safe_from(s, i + 1, Lex::Comment, start)
            } else if triple_quote_at(s, i) {
                safe_from(s, i + 3, Lex::Block, i + 3)
            } else if s[i] == '"' {
                safe_from(s, i + 1, Lex::Str, start)
            } else {
                safe_from(s, i + 1, Lex::Normal, start)
            },
            Lex::Comment => if s[i] == '\n' || s[i] == '\r' {
                safe_from(s, i + 1, Lex::Normal, start)
            } else {
                safe_from(s, i + 1, Lex::Comment, start)
            },
            Lex::Str => if s[i] == '"' {
                safe_from(s, i + 1, Lex::Normal, start)
            } else if s[i] == '\\' {
                safe_from(s, i + 1, Lex::Escaped, start)
            } else {
                safe_from(s, i + 1, Lex::Str, start)
            },
            Lex::Escaped => safe_from(s, i + 1, Lex::Str, start),
            Lex::Block => if triple_quote_at(s, i) {
                if i > start && s[i - 1] == '\\' {
                    safe_from(s, i + 3, Lex::Block, start)
                } else {
                    safe_from(s, i + 3, Lex::Normal, start)
                }
            } else {
                !is_wide_whitespace(s[i]) && safe_from(s, i + 1, Lex::Block, start)
            },
        }
    }
}

/// No block string of `s` holds a non-ASCII whitespace character in its
/// body.
pub open spec fn block_strings_safe(s: Seq<char>) -> bool {
    safe_from(s, 0, Lex::Normal, 0)
}

fn wide_whitespace(c: char) -> (r: bool)
    ensures
        r == is_wide_whitespace(c),
{
    let n = c as u32;
    n == 0x85 || n == 0xA0 || n == 0x1680 || (0x2000 <= n && n <= 0x200A) || n == 0x2028
        || n == 0x2029 || n == 0x202F || n == 0x205F || n == 0x3000
}

fn triple_at(s: &Vec<char>, i: usize) -> (r: bool)
    requires
        i < s@.len(),
    ensures
        r == triple_quote_at(s@, i as int),
{
    s.len() - i > 2 && s[i] == '"' && s[i + 1] == '"' && s[i + 2] == '"'
}

/// Whether `source` meets [`block_strings_safe`], the condition under which
/// [`crate::parse`] may be called on it.
pub fn block_strings_are_safe(source: &str) -> (r: bool)
    ensures
        r == block_strings_safe(source@),
{
    let s = chars_of(source);
    let mut st = Lex::Normal;
    let mut start: usize = 0;
    let mut i: usize = 0;
    while i < s.len()
        invariant
            s@ == source@,
            0 <= i <= s@.len(),
            start <= i,
            block_strings_safe(source@) == safe_from(s@, i as int, st, start as int),
        decreases s.len() - i,
    {
        let c = s[i];
        match st {
            Lex::Normal => {
                if c == '#' {
                    st = Lex::Comment;
                    i = i + 1;
                } else if triple_at(&s, i) {
                    st = Lex::Block;
                    i = i + 3;
                    start = i;
                } else if c == '"' {
                    st = Lex::Str;
                    i = i + 1;
                } else {
                    i = i + 1;
                }
            },
            Lex::Comment => {
                if c == '\n' || c == '\r' {
                    st = Lex::Normal;
                }
                i = i + 1;
            },
            Lex::Str => {
                if c == '"' {
                    st = Lex::Normal;
                } else if c == '\\' {
                    st = Lex::Escaped;
                }
                i = i + 1;
            },
            Lex::Escaped => {
                st = Lex::Str;
                i = i + 1;
            },
            Lex::Block => {
                if triple_at(&s, i) {
                    if !(i > start && s[i - 1] == '\\') {
                        st = Lex::Normal;
                    }
                    i = i + 3;
                } else {
                    if wide_whitespace(c) {
                        return false;
                    }
                    i = i + 1;
                }
            },
        }
    }
    true
}

} // verus!
