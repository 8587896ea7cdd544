use vstd::prelude::*;

verus! {

/// `String::push` appends one character to the end of the string.
pub assume_specification[ String::push ](s: &mut String, ch: char)
    ensures
        final(s)@ == old(s)@.push(ch),
;

// ---------------------------------------------------------------------------
// Character classes
// ---------------------------------------------------------------------------

/// Unicode `White_Space`: the characters that `char::is_whitespace`, `trim`,
/// `split_whitespace` and the `\s` class of the line grammar treat as blank.
pub open spec fn is_space(c: char) -> bool {
    let u = c as u32;
    ||| (0x9 <= u && u <= 0xD)
    ||| u == 0x20
    ||| u == 0x85
    ||| u == 0xA0
    ||| u == 0x1680
    ||| (0x2000 <= u && u <= 0x200A)
    ||| u == 0x2028
    ||| u == 0x2029
    ||| u == 0x202F
    ||| u == 0x205F
    ||| u == 0x3000
}

pub fn is_space_char(c: char) -> (r: bool)
    ensures
        r == is_space(c),
{
    let u = c as u32;
    (0x9 <= u && u <= 0xD) || u == 0x20 || u == 0x85 || u == 0xA0 || u == 0x1680 || (0x2000 <= u
        && u <= 0x200A) || u == 0x2028 || u == 0x2029 || u == 0x202F || u == 0x205F || u == 0x3000
}

/// Unicode general category `Nd` (decimal numbers, Unicode 16): the `\d`
/// class of the line grammar.
pub open spec fn is_decimal_digit(c: char) -> bool {
    let u = c as u32;
        ||| (0x30 <= u && u <= 0x39)
        ||| (0x660 <= u && u <= 0x669)
        ||| (0x6F0 <= u && u <= 0x6F9)
        ||| (0x7C0 <= u && u <= 0x7C9)
        ||| (0x966 <= u && u <= 0x96F)
        ||| (0x9E6 <= u && u <= 0x9EF)
        ||| (0xA66 <= u && u <= 0xA6F)
        ||| (0xAE6 <= u && u <= 0xAEF)
        ||| (0xB66 <= u && u <= 0xB6F)
        ||| (0xBE6 <= u && u <= 0xBEF)
        ||| (0xC66 <= u && u <= 0xC6F)
        ||| (0xCE6 <= u && u <= 0xCEF)
        ||| (0xD66 <= u && u <= 0xD6F)
        ||| (0xDE6 <= u && u <= 0xDEF)
        ||| (0xE50 <= u && u <= 0xE59)
        ||| (0xED0 <= u && u <= 0xED9)
        ||| (0xF20 <= u && u <= 0xF29)
        ||| (0x1040 <= u && u <= 0x1049)
        ||| (0x1090 <= u && u <= 0x1099)
        ||| (0x17E0 <= u && u <= 0x17E9)
        ||| (0x1810 <= u && u <= 0x1819)
        ||| (0x1946 <= u && u <= 0x194F)
        ||| (0x19D0 <= u && u <= 0x19D9)
        ||| (0x1A80 <= u && u <= 0x1A89)
        ||| (0x1A90 <= u && u <= 0x1A99)
        ||| (0x1B50 <= u && u <= 0x1B59)
        ||| (0x1BB0 <= u && u <= 0x1BB9)
        ||| (0x1C40 <= u && u <= 0x1C49)
        ||| (0x1C50 <= u && u <= 0x1C59)
        ||| (0xA620 <= u && u <= 0xA629)
        ||| (0xA8D0 <= u && u <= 0xA8D9)
        ||| (0xA900 <= u && u <= 0xA909)
        ||| (0xA9D0 <= u && u <= 0xA9D9)
        ||| (0xA9F0 <= u && u <= 0xA9F9)
        ||| (0xAA50 <= u && u <= 0xAA59)
        ||| (0xABF0 <= u && u <= 0xABF9)
        ||| (0xFF10 <= u && u <= 0xFF19)
        ||| (0x104A0 <= u && u <= 0x104A9)
        ||| (0x10D30 <= u && u <= 0x10D39)
        ||| (0x10D40 <= u && u <= 0x10D49)
        ||| (0x11066 <= u && u <= 0x1106F)
        ||| (0x110F0 <= u && u <= 0x110F9)
        ||| (0x11136 <= u && u <= 0x1113F)
        ||| (0x111D0 <= u && u <= 0x111D9)
        ||| (0x112F0 <= u && u <= 0x112F9)
        ||| (0x11450 <= u && u <= 0x11459)
        ||| (0x114D0 <= u && u <= 0x114D9)
        ||| (0x11650 <= u && u <= 0x11659)
        ||| (0x116C0 <= u && u <= 0x116C9)
        ||| (0x116D0 <= u && u <= 0x116E3)
        ||| (0x11730 <= u && u <= 0x11739)
        ||| (0x118E0 <= u && u <= 0x118E9)
        ||| (0x11950 <= u && u <= 0x11959)
        ||| (0x11BF0 <= u && u <= 0x11BF9)
        ||| (0x11C50 <= u && u <= 0x11C59)
        ||| (0x11D50 <= u && u <= 0x11D59)
        ||| (0x11DA0 <= u && u <= 0x11DA9)
        ||| (0x11F50 <= u && u <= 0x11F59)
        ||| (0x16130 <= u && u <= 0x16139)
        ||| (0x16A60 <= u && u <= 0x16A69)
        ||| (0x16AC0 <= u && u <= 0x16AC9)
        ||| (0x16B50 <= u && u <= 0x16B59)
        ||| (0x16D70 <= u && u <= 0x16D79)
        ||| (0x1CCF0 <= u && u <= 0x1CCF9)
        ||| (0x1D7CE <= u && u <= 0x1D7FF)
        ||| (0x1E140 <= u && u <= 0x1E149)
        ||| (0x1E2F0 <= u && u <= 0x1E2F9)
        ||| (0x1E4F0 <= u && u <= 0x1E4F9)
        ||| (0x1E5F1 <= u && u <= 0x1E5FA)
        ||| (0x1E950 <= u && u <= 0x1E959)
        ||| (0x1FBF0 <= u && u <= 0x1FBF9)
}

pub fn is_decimal_digit_char(c: char) -> (r: bool)
    ensures
        r == is_decimal_digit(c),
{
    let u = c as u32;
        (0x30 <= u && u <= 0x39)
        || (0x660 <= u && u <= 0x669)
        || (0x6F0 <= u && u <= 0x6F9)
        || (0x7C0 <= u && u <= 0x7C9)
        || (0x966 <= u && u <= 0x96F)
        || (0x9E6 <= u && u <= 0x9EF)
        || (0xA66 <= u && u <= 0xA6F)
        || (0xAE6 <= u && u <= 0xAEF)
        || (0xB66 <= u && u <= 0xB6F)
        || (0xBE6 <= u && u <= 0xBEF)
        || (0xC66 <= u && u <= 0xC6F)
        || (0xCE6 <= u && u <= 0xCEF)
        || (0xD66 <= u && u <= 0xD6F)
        || (0xDE6 <= u && u <= 0xDEF)
        || (0xE50 <= u && u <= 0xE59)
        || (0xED0 <= u && u <= 0xED9)
        || (0xF20 <= u && u <= 0xF29)
        || (0x1040 <= u && u <= 0x1049)
        || (0x1090 <= u && u <= 0x1099)
        || (0x17E0 <= u && u <= 0x17E9)
        || (0x1810 <= u && u <= 0x1819)
        || (0x1946 <= u && u <= 0x194F)
        || (0x19D0 <= u && u <= 0x19D9)
        || (0x1A80 <= u && u <= 0x1A89)
        || (0x1A90 <= u && u <= 0x1A99)
        || (0x1B50 <= u && u <= 0x1B59)
        || (0x1BB0 <= u && u <= 0x1BB9)
        || (0x1C40 <= u && u <= 0x1C49)
        || (0x1C50 <= u && u <= 0x1C59)
        || (0xA620 <= u && u <= 0xA629)
        || (0xA8D0 <= u && u <= 0xA8D9)
        || (0xA900 <= u && u <= 0xA909)
        || (0xA9D0 <= u && u <= 0xA9D9)
        || (0xA9F0 <= u && u <= 0xA9F9)
        || (0xAA50 <= u && u <= 0xAA59)
        || (0xABF0 <= u && u <= 0xABF9)
        || (0xFF10 <= u && u <= 0xFF19)
        || (0x104A0 <= u && u <= 0x104A9)
        || (0x10D30 <= u && u <= 0x10D39)
        || (0x10D40 <= u && u <= 0x10D49)
        || (0x11066 <= u && u <= 0x1106F)
        || (0x110F0 <= u && u <= 0x110F9)
        || (0x11136 <= u && u <= 0x1113F)
        || (0x111D0 <= u && u <= 0x111D9)
        || (0x112F0 <= u && u <= 0x112F9)
        || (0x11450 <= u && u <= 0x11459)
        || (0x114D0 <= u && u <= 0x114D9)
        || (0x11650 <= u && u <= 0x11659)
        || (0x116C0 <= u && u <= 0x116C9)
        || (0x116D0 <= u && u <= 0x116E3)
        || (0x11730 <= u && u <= 0x11739)
        || (0x118E0 <= u && u <= 0x118E9)
        || (0x11950 <= u && u <= 0x11959)
        || (0x11BF0 <= u && u <= 0x11BF9)
        || (0x11C50 <= u && u <= 0x11C59)
        || (0x11D50 <= u && u <= 0x11D59)
        || (0x11DA0 <= u && u <= 0x11DA9)
        || (0x11F50 <= u && u <= 0x11F59)
        || (0x16130 <= u && u <= 0x16139)
        || (0x16A60 <= u && u <= 0x16A69)
        || (0x16AC0 <= u && u <= 0x16AC9)
        || (0x16B50 <= u && u <= 0x16B59)
        || (0x16D70 <= u && u <= 0x16D79)
        || (0x1CCF0 <= u && u <= 0x1CCF9)
        || (0x1D7CE <= u && u <= 0x1D7FF)
        || (0x1E140 <= u && u <= 0x1E149)
        || (0x1E2F0 <= u && u <= 0x1E2F9)
        || (0x1E4F0 <= u && u <= 0x1E4F9)
        || (0x1E5F1 <= u && u <= 0x1E5FA)
        || (0x1E950 <= u && u <= 0x1E959)
        || (0x1FBF0 <= u && u <= 0x1FBF9)
}

pub open spec fn is_ascii_digit(c: char) -> bool {
    '0' <= c && c <= '9'
}

pub open spec fn to_ascii_lower(c: char) -> char {
    if 'A' <= c && c <= 'Z' {
        ((c as u32) + 32) as char
    } else {
        c
    }
}

pub fn to_ascii_lower_char(c: char) -> (r: char)
    ensures
        r == to_ascii_lower(c),
{
    if 'A' <= c && c <= 'Z' {
        let u: u8 = (c as u8) + 32;
        u as char
    } else {
        c
    }
}

/// ASCII lower-casing of a whole sequence (other characters unchanged).
pub open spec fn ascii_lowercase(s: Seq<char>) -> Seq<char> {
    s.map_values(|c: char| to_ascii_lower(c))
}

/// Number of bytes of the UTF-8 encoding of `c`.
pub open spec fn utf8_width(c: char) -> nat {
    let u = c as u32;
    if u < 0x80 {
        1
    } else if u < 0x800 {
        2
    } else if u < 0x10000 {
        3
    } else {
        4
    }
}

pub fn utf8_width_of(c: char) -> (r: usize)
    ensures
        r == utf8_width(c),
{
    let u = c as u32;
    if u < 0x80 {
        1
    } else if u < 0x800 {
        2
    } else if u < 0x10000 {
        3
    } else {
        4
    }
}

/// Number of bytes of the UTF-8 encoding of `s`.
pub open spec fn utf8_len(s: Seq<char>) -> nat
    decreases s.len(),
{
    if s.len() == 0 {
        0
    } else {
        utf8_len(s.drop_last()) + utf8_width(s.last())
    }
}

// ---------------------------------------------------------------------------
// Sequences of characters
// ---------------------------------------------------------------------------

pub open spec fn starts_with(s: Seq<char>, prefix: Seq<char>) -> bool {
    prefix.len() <= s.len() && s.subrange(0, prefix.len() as int) == prefix
}

/// `needle` occurs in `hay` at position `i`.
pub open spec fn occurs_at(hay: Seq<char>, needle: Seq<char>, i: int) -> bool {
    0 <= i && i + needle.len() <= hay.len() && hay.subrange(i, i + needle.len()) == needle
}

/// `needle` occurs somewhere in `hay` (the empty needle occurs everywhere).
pub open spec fn contains(hay: Seq<char>, needle: Seq<char>) -> bool {
    exists|i: int| occurs_at(hay, needle, i)
}

pub open spec fn no_char(s: Seq<char>, c: char) -> bool {
    forall|i: int| 0 <= i < s.len() ==> s[i] != c
}

/// The characters of `s`, in order.
pub fn chars_of(s: &str) -> (out: Vec<char>)
    ensures
        out@ == s@,
{
    let mut out: Vec<char> = Vec::new();
    for c in it: s.chars()
        invariant
            out@ == it.seq().take(it.index() as int),
            it.seq() == s@,
    {
        out.push(c);
    }
    out
}

/// A `String` holding `cs[lo..hi]`.
pub fn string_of(cs: &[char], lo: usize, hi: usize) -> (out: String)
    requires
        lo <= hi <= cs@.len(),
    ensures
        out@ == cs@.subrange(lo as int, hi as int),
{
    let mut out = String::new();
    let mut i = lo;
    while i < hi
        invariant
            lo <= i <= hi <= cs@.len(),
            out@ == cs@.subrange(lo as int, i as int),
        decreases hi - i,
    {
        out.push(cs[i]);
        i = i + 1;
    }
    out
}

/// `cs[lo..hi]` equals `lit`.
pub fn span_is(cs: &[char], lo: usize, hi: usize, lit: &[char]) -> (r: bool)
    requires
        lo <= hi <= cs@.len(),
    ensures
        r == (cs@.subrange(lo as int, hi as int) == lit@),
{
    if hi - lo != lit.len() {
        return false;
    }
    let mut i: usize = 0;
    while i < lit.len()
        invariant
            hi - lo == lit@.len(),
            lo <= hi <= cs@.len(),
            0 <= i <= lit@.len(),
            forall|k: int| 0 <= k < i ==> cs@[lo + k] == lit@[k],
        decreases lit@.len() - i,
    {
        if cs[lo + i] != lit[i] {
            assert(cs@.subrange(lo as int, hi as int)[i as int] != lit@[i as int]);
            return false;
        }
        i = i + 1;
    }
    assert(cs@.subrange(lo as int, hi as int) =~= lit@);
    true
}

/// `cs[lo..hi]` starts with `lit`.
pub fn span_starts_with(cs: &[char], lo: usize, hi: usize, lit: &[char]) -> (r: bool)
    requires
        lo <= hi <= cs@.len(),
    ensures
        r == starts_with(cs@.subrange(lo as int, hi as int), lit@),
{
    if hi - lo < lit.len() {
        return false;
    }
    let r = span_is(cs, lo, lo + lit.len(), lit);
    assert(cs@.subrange(lo as int, hi as int).subrange(0, lit@.len() as int) =~= cs@.subrange(
        lo as int,
        lo + lit@.len(),
    ));
    r
}

/// Whether `needle` occurs in `hay`.
pub fn contains_chars(hay: &[char], needle: &[char]) -> (r: bool)
    ensures
        r == contains(hay@, needle@),
{
    if needle.len() > hay.len() {
        assert forall|i: int| !occurs_at(hay@, needle@, i) by {}
        return false;
    }
    let last = hay.len() - needle.len();
    let mut i: usize = 0;
    while i < last
        invariant
            last + needle@.len() == hay@.len(),
            last + needle.len() == hay.len(),
            0 <= i <= last,
            forall|k: int| 0 <= k < i ==> !occurs_at(hay@, needle@, k),
        decreases last - i,
    {
        if span_is(hay, i, i + needle.len(), needle) {
            assert(occurs_at(hay@, needle@, i as int));
            return true;
        }
        i = i + 1;
    }
    if span_is(hay, last, last + needle.len(), needle) {
        assert(occurs_at(hay@, needle@, last as int));
        return true;
    }
    assert forall|k: int| !occurs_at(hay@, needle@, k) by {
        if 0 <= k && k + needle@.len() <= hay@.len() {
            assert(k <= last);
        }
    }
    false
}

/// Whether `needle` occurs in `hay`.
pub fn str_contains(hay: &str, needle: &str) -> (r: bool)
    ensures
        r == contains(hay@, needle@),
{
    let h = chars_of(hay);
    let n = chars_of(needle);
    contains_chars(h.as_slice(), n.as_slice())
}


// ---------------------------------------------------------------------------
// Splitting
// ---------------------------------------------------------------------------

/// The pending piece `cur` as a list of at most one element: empty pieces are dropped.
pub open spec fn flush(cur: Seq<char>) -> Seq<Seq<char>> {
    if cur.len() > 0 {
        seq![cur]
    } else {
        seq![]
    }
}

/// `split_whitespace` of `s`, when `cur` holds the non-blank characters read just before `s`.
pub open spec fn words_from(s: Seq<char>, cur: Seq<char>) -> Seq<Seq<char>>
    decreases s.len(),
{
    if s.len() == 0 {
        flush(cur)
    } else if is_space(s[0]) {
        flush(cur) + words_from(s.drop_first(), seq![])
    } else {
        words_from(s.drop_first(), cur.push(s[0]))
    }
}

/// The maximal runs of non-blank characters of `s`, in order (`str::split_whitespace`).
pub open spec fn words(s: Seq<char>) -> Seq<Seq<char>> {
    words_from(s, seq![])
}

/// The spans `(lo, hi)` of `cs` denote exactly the sequences `parts`, in order.
pub open spec fn spans_denote(cs: Seq<char>, spans: Seq<(usize, usize)>, parts: Seq<Seq<char>>) -> bool {
    &&& spans.len() == parts.len()
    &&& forall|k: int|
        #![trigger spans[k]]
        0 <= k < spans.len() ==> {
            &&& spans[k].0 <= spans[k].1 <= cs.len()
            &&& cs.subrange(spans[k].0 as int, spans[k].1 as int) == parts[k]
        }
}

/// The spans of the words of `cs[lo..hi]`.
pub fn word_spans(cs: &[char], lo: usize, hi: usize) -> (spans: Vec<(usize, usize)>)
    requires
        lo <= hi <= cs@.len(),
    ensures
        spans_denote(cs@, spans@, words(cs@.subrange(lo as int, hi as int))),
        forall|k: int| #![trigger spans@[k]] 0 <= k < spans@.len() ==> lo <= spans@[k].0 < spans@[k].1 <= hi,
{
    let ghost whole = cs@.subrange(lo as int, hi as int);
    let mut spans: Vec<(usize, usize)> = Vec::new();
    let ghost mut parts: Seq<Seq<char>> = seq![];
    let mut start = lo;
    let mut i = lo;
    assert(whole.skip(0) =~= whole);
    assert(cs@.subrange(lo as int, lo as int) =~= seq![]);
    assert(parts + words(whole) =~= words(whole));
    while i < hi
        invariant
            lo <= start <= i <= hi <= cs@.len(),
            whole == cs@.subrange(lo as int, hi as int),
            spans_denote(cs@, spans@, parts),
            forall|k: int| #![trigger spans@[k]] 0 <= k < spans@.len() ==> lo <= spans@[k].0 < spans@[k].1 <= start,
            parts + words_from(whole.skip(i - lo), cs@.subrange(start as int, i as int)) == words(whole),
        decreases hi - i,
    {
        let ghost rest = whole.skip(i - lo);
        assert(rest.drop_first() =~= whole.skip(i + 1 - lo));
        assert(rest[0] == cs@[i as int]);
        if is_space_char(cs[i]) {
            if start < i {
                spans.push((start, i));
                proof {
                    parts = parts.push(cs@.subrange(start as int, i as int));
                }
            }
            proof {
                assert(cs@.subrange((i + 1) as int, (i + 1) as int) =~= seq![]);
            }
            i = i + 1;
            start = i;
        } else {
            assert(cs@.subrange(start as int, i as int).push(cs@[i as int]) =~= cs@.subrange(
                start as int,
                i + 1,
            ));
            i = i + 1;
        }
        proof {
            assert(parts + words_from(whole.skip(i - lo), cs@.subrange(start as int, i as int))
                =~= words(whole));
        }
    }
    if start < i {
        spans.push((start, i));
        proof {
            parts = parts.push(cs@.subrange(start as int, i as int));
        }
    }
    proof {
        assert(whole.skip(i - lo).len() == 0);
        assert(parts =~= words(whole));
    }
    spans
}

/// A line without its one trailing carriage return, if it has one.
pub open spec fn strip_cr(line: Seq<char>) -> Seq<char> {
    if line.len() > 0 && line.last() == '\r' {
        line.drop_last()
    } else {
        line
    }
}

/// `str::lines` of `s`, when `cur` holds the characters of the current line read just before `s`.
pub open spec fn lines_from(s: Seq<char>, cur: Seq<char>) -> Seq<Seq<char>>
    decreases s.len(),
{
    if s.len() == 0 {
        flush(cur)
    } else if s[0] == '\n' {
        seq![strip_cr(cur)] + lines_from(s.drop_first(), seq![])
    } else {
        lines_from(s.drop_first(), cur.push(s[0]))
    }
}

/// The lines of `s` (`str::lines`): split at each `'\n'`, with one `'\r'` before the
/// `'\n'` removed; a final line ending adds no empty line.
pub open spec fn lines(s: Seq<char>) -> Seq<Seq<char>> {
    lines_from(s, seq![])
}

/// The spans of the lines of `cs`.
pub fn line_spans(cs: &[char]) -> (spans: Vec<(usize, usize)>)
    ensures
        spans_denote(cs@, spans@, lines(cs@)),
{
    let mut spans: Vec<(usize, usize)> = Vec::new();
    let ghost mut parts: Seq<Seq<char>> = seq![];
    let mut start: usize = 0;
    let mut i: usize = 0;
    assert(cs@.skip(0) =~= cs@);
    assert(cs@.subrange(0, 0) =~= seq![]);
    assert(parts + lines(cs@) =~= lines(cs@));
    while i < cs.len()
        invariant
            0 <= start <= i <= cs@.len(),
            cs.len() == cs@.len(),
            spans_denote(cs@, spans@, parts),
            parts + lines_from(cs@.skip(i as int), cs@.subrange(start as int, i as int)) == lines(cs@),
        decreases cs@.len() - i,
    {
        let ghost rest = cs@.skip(i as int);
        assert(rest.drop_first() =~= cs@.skip(i + 1));
        assert(rest[0] == cs@[i as int]);
        if cs[i] == '\n' {
            let ghost cur = cs@.subrange(start as int, i as int);
            let mut end = i;
            if start < i && cs[i - 1] == '\r' {
                end = i - 1;
                assert(cs@.subrange(start as int, end as int) =~= cur.drop_last());
            }
            assert(cs@.subrange(start as int, end as int) == strip_cr(cur));
            spans.push((start, end));
            proof {
                parts = parts.push(strip_cr(cur));
                assert(cs@.subrange((i + 1) as int, (i + 1) as int) =~= seq![]);
            }
            i = i + 1;
            start = i;
        } else {
            assert(cs@.subrange(start as int, i as int).push(cs@[i as int]) =~= cs@.subrange(
                start as int,
                i + 1,
            ));
            i = i + 1;
        }
        proof {
            assert(parts + lines_from(cs@.skip(i as int), cs@.subrange(start as int, i as int))
                =~= lines(cs@));
        }
    }
    if start < i {
        spans.push((start, i));
        proof {
            parts = parts.push(cs@.subrange(start as int, i as int));
        }
    }
    proof {
        assert(cs@.skip(i as int).len() == 0);
        assert(parts =~= lines(cs@));
    }
    spans
}

/// Number of blank characters at the start of `s`.
pub open spec fn leading_spaces(s: Seq<char>) -> nat
    decreases s.len(),
{
    if s.len() > 0 && is_space(s[0]) {
        1 + leading_spaces(s.drop_first())
    } else {
        0
    }
}

/// Number of blank characters at the end of `s`.
pub open spec fn trailing_spaces(s: Seq<char>) -> nat
    decreases s.len(),
{
    if s.len() > 0 && is_space(s.last()) {
        1 + trailing_spaces(s.drop_last())
    } else {
        0
    }
}

/// `str::trim`: `s` without its leading and trailing blanks.
pub open spec fn trim(s: Seq<char>) -> Seq<char> {
    if leading_spaces(s) == s.len() {
        seq![]
    } else {
        s.subrange(leading_spaces(s) as int, s.len() - trailing_spaces(s))
    }
}

proof fn lemma_leading_spaces(s: Seq<char>, k: int)
    requires
        0 <= k <= s.len(),
        forall|j: int| 0 <= j < k ==> is_space(s[j]),
        k == s.len() || !is_space(s[k]),
    ensures
        leading_spaces(s) == k,
    decreases k,
{
    if k > 0 {
        lemma_leading_spaces(s.drop_first(), k - 1);
    }
}

proof fn lemma_trailing_spaces(s: Seq<char>, k: int)
    requires
        0 <= k <= s.len(),
        forall|j: int| s.len() - k <= j < s.len() ==> is_space(s[j]),
        k == s.len() || !is_space(s[s.len() - k - 1]),
    ensures
        trailing_spaces(s) == k,
    decreases k,
{
    if k > 0 {
        lemma_trailing_spaces(s.drop_last(), k - 1);
    }
}

/// The span of `trim(cs[lo..hi])`.
pub fn trim_span(cs: &[char], lo: usize, hi: usize) -> (r: (usize, usize))
    requires
        lo <= hi <= cs@.len(),
    ensures
        lo <= r.0 <= r.1 <= hi,
        cs@.subrange(r.0 as int, r.1 as int) == trim(cs@.subrange(lo as int, hi as int)),
{
    let ghost s = cs@.subrange(lo as int, hi as int);
    let mut a = lo;
    while a < hi && is_space_char(cs[a])
        invariant
            lo <= a <= hi <= cs@.len(),
            s == cs@.subrange(lo as int, hi as int),
            forall|j: int| 0 <= j < a - lo ==> is_space(s[j]),
        decreases hi - a,
    {
        a = a + 1;
    }
    proof {
        lemma_leading_spaces(s, a - lo);
    }
    if a == hi {
        assert(cs@.subrange(a as int, a as int) =~= trim(s));
        return (a, a);
    }
    let mut b = hi;
    while b > a && is_space_char(cs[b - 1])
        invariant
            lo <= a < hi <= cs@.len(),
            a < b <= hi,
            !is_space(cs@[a as int]),
            s == cs@.subrange(lo as int, hi as int),
            forall|j: int| b - lo <= j < s.len() ==> is_space(s[j]),
        decreases b - a,
    {
        b = b - 1;
    }
    proof {
        lemma_trailing_spaces(s, hi - b);
        assert(cs@.subrange(a as int, b as int) =~= trim(s));
    }
    (a, b)
}

/// The words of `ws`, joined with single spaces.
pub open spec fn join_spaced(ws: Seq<Seq<char>>) -> Seq<char>
    decreases ws.len(),
{
    if ws.len() == 0 {
        seq![]
    } else if ws.len() == 1 {
        ws[0]
    } else {
        join_spaced(ws.drop_last()) + seq![' '] + ws.last()
    }
}

// ---------------------------------------------------------------------------
// Numbers
// ---------------------------------------------------------------------------

pub open spec fn digit_value(c: char) -> int {
    (c as int) - ('0' as int)
}

/// The value of a string of ASCII digits, read in base 10.
pub open spec fn digits_value(s: Seq<char>) -> int
    decreases s.len(),
{
    if s.len() == 0 {
        0
    } else {
        digits_value(s.drop_last()) * 10 + digit_value(s.last())
    }
}

pub open spec fn all_ascii_digits(s: Seq<char>) -> bool {
    forall|i: int| 0 <= i < s.len() ==> is_ascii_digit(#[trigger] s[i])
}

/// `<u32 as FromStr>::from_str`: an optional `'+'`, then at least one ASCII digit,
/// with a value that fits in `u32`.
pub open spec fn parse_u32(s: Seq<char>) -> Option<u32> {
    let digits = if s.len() > 0 && s[0] == '+' {
        s.drop_first()
    } else {
        s
    };
    if digits.len() > 0 && all_ascii_digits(digits) && digits_value(digits) <= u32::MAX {
        Some(digits_value(digits) as u32)
    } else {
        None
    }
}

proof fn lemma_digits_value_grows(s: Seq<char>, j: int)
    requires
        0 <= j <= s.len(),
        all_ascii_digits(s),
    ensures
        0 <= digits_value(s.subrange(0, j)) <= digits_value(s),
    decreases s.len() - j,
{
    if j < s.len() {
        lemma_digits_value_grows(s, j + 1);
        assert(s.subrange(0, j + 1).drop_last() =~= s.subrange(0, j));
        assert(is_ascii_digit(s[j]));
    } else {
        assert(s.subrange(0, j) =~= s);
        lemma_digits_value_nonneg(s);
    }
}

proof fn lemma_digits_value_nonneg(s: Seq<char>)
    requires
        all_ascii_digits(s),
    ensures
        digits_value(s) >= 0,
    decreases s.len(),
{
    if s.len() > 0 {
        assert(is_ascii_digit(s[s.len() - 1]));
        lemma_digits_value_nonneg(s.drop_last());
    }
}

/// `cs[lo..hi]` parsed as a `u32` the way `str::parse::<u32>` does.
pub fn parse_u32_span(cs: &[char], lo: usize, hi: usize) -> (r: Option<u32>)
    requires
        lo <= hi <= cs@.len(),
    ensures
        r == parse_u32(cs@.subrange(lo as int, hi as int)),
{
    let ghost s = cs@.subrange(lo as int, hi as int);
    let mut start = lo;
    if lo < hi && cs[lo] == '+' {
        start = lo + 1;
    }
    let ghost digits = cs@.subrange(start as int, hi as int);
    assert(digits =~= (if s.len() > 0 && s[0] == '+' { s.drop_first() } else { s }));
    if start == hi {
        return None;
    }
    let mut acc: u32 = 0;
    let mut i = start;
    while i < hi
        invariant
            start <= i <= hi <= cs@.len(),
            start < hi,
            digits == cs@.subrange(start as int, hi as int),
            s == cs@.subrange(lo as int, hi as int),
            digits == (if s.len() > 0 && s[0] == '+' { s.drop_first() } else { s }),
            all_ascii_digits(cs@.subrange(start as int, i as int)),
            acc == digits_value(cs@.subrange(start as int, i as int)),
        decreases hi - i,
    {
        let c = cs[i];
        let ghost prefix = cs@.subrange(start as int, i + 1);
        assert(prefix.drop_last() =~= cs@.subrange(start as int, i as int));
        if !('0' <= c && c <= '9') {
            assert(!all_ascii_digits(digits)) by {
                assert(digits[i - start] == c);
                assert(!is_ascii_digit(digits[i - start]));
            }
            assert(parse_u32(s).is_none());
            return None;
        }
        let d = (c as u32) - ('0' as u32);
        if acc > (u32::MAX - d) / 10 {
            proof {
                assert(all_ascii_digits(prefix));
                assert(digits_value(prefix) > u32::MAX);
                if all_ascii_digits(digits) {
                    assert(prefix =~= digits.subrange(0, i + 1 - start));
                    lemma_digits_value_grows(digits, i + 1 - start);
                }
                assert(parse_u32(s).is_none());
            }
            return None;
        }
        acc = acc * 10 + d;
        i = i + 1;
    }
    assert(cs@.subrange(start as int, i as int) =~= digits);
    Some(acc)
}

/// Whether `a` and `b` hold the same text.
pub fn str_eq(a: &str, b: &str) -> (r: bool)
    ensures
        r == (a@ == b@),
{
    let x = chars_of(a);
    let y = chars_of(b);
    let r = span_is(x.as_slice(), 0, x.len(), y.as_slice());
    assert(x@.subrange(0, x@.len() as int) =~= x@);
    r
}

} // verus!
