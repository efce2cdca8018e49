//! Small string operations on which the rest of the library builds.
use vstd::prelude::*;
use crate::spreads::str_views;

verus! {

/// Whether two string slices hold the same characters.
pub fn str_eq(a: &str, b: &str) -> (r: bool)
    ensures
        r == (a@ == b@),
{
    let x = chars_of(a);
    let y = chars_of(b);
    if x.len() != y.len() {
        return false;
    }
    let mut i: usize = 0;
    while i < x.len()
        invariant
            x@ == a@,
            y@ == b@,
            x@.len() == y@.len(),
            0 <= i <= x@.len(),
            forall|j: int| 0 <= j < i ==> x@[j] == y@[j],
        decreases x.len() - i,
    {
        if x[i] != y[i] {
            return false;
        }
        i = i + 1;
    }
    assert(x@ =~= y@);
    true
}

/// Whether `name` occurs in `names`.
pub fn contains_name(names: &Vec<&str>, name: &str) -> (r: bool)
    ensures
        r == str_views(names@).contains(name@),
{
    let mut i: usize = 0;
    while i < names.len()
        invariant
            0 <= i <= names.len(),
            forall|j: int| 0 <= j < i ==> (#[trigger] names@[j])@ != name@,
        decreases names.len() - i,
    {
        if str_eq(names[i], name) {
            assert(str_views(names@)[i as int] == name@);
            return true;
        }
        i = i + 1;
    }
    proof {
        if str_views(names@).contains(name@) {
            let k = choose|k: int| 0 <= k < str_views(names@).len() && str_views(names@)[k] == name@;
            assert(names@[k]@ == name@);
        }
    }
    false
}

/// `String::push`: appends one character.
#[verifier::external_body]
pub fn push_char(s: &mut String, c: char)
    ensures
        final(s)@ == old(s)@.push(c),
{
    s.push(c)
}

/// The characters of a string slice.
pub fn chars_of(s: &str) -> (r: Vec<char>)
    ensures
        r@ == s@,
{
    let mut out: Vec<char> = Vec::new();
    for c in it: s.chars()
        invariant
            out@ == it.seq().take(it.index() as int),
    {
        out.push(c);
    }
    out
}

/// The decimal digits of `n`, most significant first.
pub open spec fn decimal(n: nat) -> Seq<char>
    decreases n,
{
    if n < 10 {
        seq![digit_char(n)]
    } else {
        decimal(n / 10).push(digit_char(n % 10))
    }
}

/// The character of a decimal digit.
pub open spec fn digit_char(d: nat) -> char {
    (d + 48) as char
}

/// Appends the decimal digits of `n`.
pub fn push_decimal(out: &mut String, n: usize)
    ensures
        final(out)@ == old(out)@ + decimal(n as nat),
    decreases n,
{
    if n >= 10 {
        push_decimal(out, n / 10);
    }
    let d = (n % 10) as u8;
    push_char(out, (d + 48) as char);
    assert(final(out)@ =~= old(out)@ + decimal(n as nat));
}

/// `n` occurs in `h` at position `i`.
pub open spec fn occurs_at(h: Seq<char>, n: Seq<char>, i: int) -> bool {
    0 <= i && i + n.len() <= h.len() && h.subrange(i, i + n.len()) == n
}

/// The first position at or after `i` where `n` occurs in `h`.
pub open spec fn find_from(h: Seq<char>, n: Seq<char>, i: int) -> Option<int>
    decreases h.len() + 1 - i,
{
    if i < 0 || i + n.len() > h.len() {
        None
    } else if occurs_at(h, n, i) {
        Some(i)
    } else {
        find_from(h, n, i + 1)
    }
}

pub proof fn lemma_find_from_bounds(h: Seq<char>, n: Seq<char>, i: int)
    ensures
        find_from(h, n, i) matches Some(p) ==> i <= p && occurs_at(h, n, p),
    decreases h.len() + 1 - i,
{
    if !(i < 0 || i + n.len() > h.len()) && !occurs_at(h, n, i) {
        lemma_find_from_bounds(h, n, i + 1);
    }
}

/// The first position where `n` occurs in `h`, as `str::find` reports it.
pub open spec fn first_occurrence(h: Seq<char>, n: Seq<char>) -> Option<int> {
    find_from(h, n, 0)
}

/// Whether `needle` occurs in `h` at position `i`.
fn matches_at(h: &Vec<char>, i: usize, needle: &Vec<char>) -> (r: bool)
    requires
        i + needle@.len() <= h@.len(),
    ensures
        r == (h@.subrange(i as int, i + needle@.len()) == needle@),
{
    let hl = h.len();
    let mut j: usize = 0;
    while j < needle.len()
        invariant
            hl == h@.len(),
            i + needle@.len() <= h@.len(),
            0 <= j <= needle.len(),
            forall|k: int| 0 <= k < j ==> h@[i + k] == needle@[k],
        decreases needle.len() - j,
    {
        assert(i + j < h@.len());
        if h[i + j] != needle[j] {
            assert(h@.subrange(i as int, i + needle@.len())[j as int] != needle@[j as int]);
            return false;
        }
        j = j + 1;
    }
    assert(h@.subrange(i as int, i + needle@.len()) =~= needle@);
    true
}

/// The first position at or after `start` where `needle` occurs within
/// `h[start..end]`.
pub fn find_in(h: &Vec<char>, start: usize, end: usize, needle: &Vec<char>) -> (r: Option<usize>)
    requires
        start <= end <= h@.len(),
    ensures
        match first_occurrence(h@.subrange(start as int, end as int), needle@) {
            Some(p) => r == Some((p + start) as usize),
            None => r is None,
        },
{
    let ghost hay = h@.subrange(start as int, end as int);
    let mut i = start;
    while i <= end && needle.len() <= end - i
        invariant
            start <= i,
            start <= end <= h@.len(),
            hay == h@.subrange(start as int, end as int),
            first_occurrence(hay, needle@) == find_from(hay, needle@, i - start),
        decreases end - i + 1,
    {
        assert(hay.subrange(i - start, i - start + needle@.len()) =~= h@.subrange(
            i as int,
            i + needle@.len(),
        ));
        if needle.len() == 0 {
            assert(h@.subrange(i as int, i as int) =~= needle@);
        }
        if matches_at(h, i, needle) {
            return Some(i);
        }
        i = i + 1;
    }
    None
}

/// `s` without its trailing newlines.
pub open spec fn trim_newlines(s: Seq<char>) -> Seq<char>
    decreases s.len(),
{
    if s.len() > 0 && s.last() == '\n' {
        trim_newlines(s.drop_last())
    } else {
        s
    }
}

pub proof fn lemma_trim_newlines_prefix(s: Seq<char>)
    ensures
        trim_newlines(s).len() <= s.len(),
        trim_newlines(s) == s.take(trim_newlines(s).len() as int),
        trim_newlines(s).len() == 0 || trim_newlines(s).last() != '\n',
    decreases s.len(),
{
    if s.len() > 0 && s.last() == '\n' {
        lemma_trim_newlines_prefix(s.drop_last());
        assert(s.drop_last().take(trim_newlines(s).len() as int) =~= s.take(
            trim_newlines(s).len() as int,
        ));
    } else {
        assert(s.take(s.len() as int) =~= s);
    }
}

/// The length of `s` without its trailing newlines, as
/// `trim_end_matches('\n')` leaves it.
pub fn trimmed_len(s: &Vec<char>) -> (r: usize)
    ensures
        r <= s@.len(),
        s@.take(r as int) == trim_newlines(s@),
{
    let mut end = s.len();
    proof {
        assert(s@.take(end as int) =~= s@);
    }
    while end > 0 && s[end - 1] == '\n'
        invariant
            end <= s@.len(),
            trim_newlines(s@) == trim_newlines(s@.take(end as int)),
        decreases end,
    {
        assert(s@.take(end as int).drop_last() =~= s@.take(end - 1));
        end = end - 1;
    }
    proof {
        lemma_trim_newlines_prefix(s@.take(end as int));
    }
    end
}

/// Appends `s[from..to]` to `out`.
pub fn push_chars(out: &mut String, s: &Vec<char>, from: usize, to: usize)
    requires
        from <= to <= s@.len(),
    ensures
        final(out)@ == old(out)@ + s@.subrange(from as int, to as int),
{
    let mut i = from;
    while i < to
        invariant
            from <= i <= to <= s@.len(),
            out@ == old(out)@ + s@.subrange(from as int, i as int),
        decreases to - i,
    {
        push_char(out, s[i]);
        assert(s@.subrange(from as int, i + 1) =~= s@.subrange(from as int, i as int).push(s@[i as int]));
        i = i + 1;
    }
}

} // verus!
