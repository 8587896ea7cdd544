use vstd::prelude::*;

use crate::log_entry::{LogEntry, LogEntryView, LogLevel};
use crate::text::{
    utf8_len, chars_of, is_decimal_digit, is_decimal_digit_char, is_space, is_space_char, no_char, parse_u32,
    parse_u32_span, string_of, utf8_width, utf8_width_of,
};

verus! {

/// Messages are kept to at most this many bytes of UTF-8.
pub const MAX_MESSAGE_BYTES: usize = 10240;

// ---------------------------------------------------------------------------
// The threadtime line grammar
//
//   DATE  := \d\d '-' \d\d
//   TIME  := \d\d ':' \d\d ':' \d\d '.' \d\d\d
//   LINE  := DATE \s+ TIME \s+ PID=\d+ \s+ TID=\d+ \s+ LEVEL=\S \s+ TAG=[^:]* ':' \s? MESSAGE=.*
//
// where `\d` is a Unicode decimal digit, `\s` a Unicode blank, `.` any character but
// '\n', and the whole line must be consumed.  Each repetition takes as much as it can,
// which makes the split of a line unique.
// ---------------------------------------------------------------------------

/// The end of the run of decimal digits that starts at `i`.
pub open spec fn digit_run_end(s: Seq<char>, i: int) -> int
    decreases s.len() - i,
{
    if 0 <= i < s.len() && is_decimal_digit(s[i]) {
        digit_run_end(s, i + 1)
    } else {
        i
    }
}

/// The end of the run of blanks that starts at `i`.
pub open spec fn space_run_end(s: Seq<char>, i: int) -> int
    decreases s.len() - i,
{
    if 0 <= i < s.len() && is_space(s[i]) {
        space_run_end(s, i + 1)
    } else {
        i
    }
}

/// The first `':'` at or after `i` (the length of `s` when there is none).
pub open spec fn colon_from(s: Seq<char>, i: int) -> int
    decreases s.len() - i,
{
    if 0 <= i < s.len() && s[i] != ':' {
        colon_from(s, i + 1)
    } else {
        i
    }
}

pub open spec fn two_digits(s: Seq<char>, i: int) -> bool {
    is_decimal_digit(s[i]) && is_decimal_digit(s[i + 1])
}

/// `s[i..i + 12]` has the shape `\d\d:\d\d:\d\d.\d\d\d`.
pub open spec fn time_shape(s: Seq<char>, i: int) -> bool {
    &&& 0 <= i && i + 12 <= s.len()
    &&& two_digits(s, i) && s[i + 2] == ':'
    &&& two_digits(s, i + 3) && s[i + 5] == ':'
    &&& two_digits(s, i + 6) && s[i + 8] == '.'
    &&& two_digits(s, i + 9) && is_decimal_digit(s[i + 11])
}

/// Where the fields of a threadtime line lie: each pair is a `[start, end)` range.
pub struct Captures {
    pub time: (int, int),
    pub pid: (int, int),
    pub tid: (int, int),
    pub level: int,
    pub tag: (int, int),
    pub message: (int, int),
}

/// The fields of `s` when it is a threadtime line (the date is always `s[0..5]`).
pub open spec fn threadtime_captures(s: Seq<char>) -> Option<Captures> {
    let n = s.len() as int;
    if !(n >= 5 && two_digits(s, 0) && s[2] == '-' && two_digits(s, 3)) {
        None
    } else {
        let a = space_run_end(s, 5);
        let b = space_run_end(s, a + 12);
        let p = digit_run_end(s, b);
        let c = space_run_end(s, p);
        let t = digit_run_end(s, c);
        let d = space_run_end(s, t);
        let e = space_run_end(s, d + 1);
        let k = colon_from(s, e);
        let m = if k + 1 < n && is_space(s[k + 1]) {
            k + 2
        } else {
            k + 1
        };
        if a > 5 && time_shape(s, a) && b > a + 12 && p > b && c > p && t > c && d > t && d < n
            && e > d + 1 && k < n && no_char(s.subrange(m, n), '\n') {
            Some(
                Captures {
                    time: (a, a + 12),
                    pid: (b, p),
                    tid: (c, t),
                    level: d,
                    tag: (e, k),
                    message: (m, n),
                },
            )
        } else {
            None
        }
    }
}

/// The priority that a threadtime priority letter stands for.
pub open spec fn level_of_letter(c: char) -> LogLevel {
    if c == 'V' {
        LogLevel::Verbose
    } else if c == 'D' {
        LogLevel::Debug
    } else if c == 'I' {
        LogLevel::Info
    } else if c == 'W' {
        LogLevel::Warn
    } else if c == 'E' {
        LogLevel::Error
    } else if c == 'A' || c == 'F' {
        LogLevel::Assert
    } else {
        LogLevel::Unknown
    }
}

/// How many leading characters of `s` fit in `budget` bytes of UTF-8.
pub open spec fn fitting_prefix_len(s: Seq<char>, budget: int) -> nat
    decreases s.len(),
{
    if s.len() == 0 || utf8_width(s[0]) > budget {
        0
    } else {
        1 + fitting_prefix_len(s.drop_first(), budget - utf8_width(s[0]))
    }
}

/// The longest prefix of `s` whose UTF-8 encoding fits in `MAX_MESSAGE_BYTES` bytes.
pub open spec fn truncated(s: Seq<char>) -> Seq<char> {
    s.take(fitting_prefix_len(s, MAX_MESSAGE_BYTES as int) as int)
}

/// The entry kept for a line that is not in threadtime format: the raw line as message.
pub open spec fn unknown_view(seq: u64, line: Seq<char>) -> LogEntryView {
    LogEntryView {
        seq,
        timestamp: 0,
        date: seq![],
        time: seq![],
        pid: 0,
        tid: 0,
        level: LogLevel::Unknown,
        tag: seq![],
        message: truncated(line),
        package_name: None,
        foreground: None,
        background: None,
        hidden: false,
        bookmarked: false,
    }
}

/// The entry that line `line`, numbered `seq`, stands for.
pub open spec fn parsed_line(seq: u64, line: Seq<char>) -> LogEntryView {
    match threadtime_captures(line) {
        None => unknown_view(seq, line),
        Some(c) => {
            let pid = parse_u32(line.subrange(c.pid.0, c.pid.1));
            let tid = parse_u32(line.subrange(c.tid.0, c.tid.1));
            if pid is Some && tid is Some {
                LogEntryView {
                    seq,
                    timestamp: 0,
                    date: line.subrange(0, 5),
                    time: line.subrange(c.time.0, c.time.1),
                    pid: pid->0,
                    tid: tid->0,
                    level: level_of_letter(line[c.level]),
                    tag: line.subrange(c.tag.0, c.tag.1),
                    message: truncated(line.subrange(c.message.0, c.message.1)),
                    package_name: None,
                    foreground: None,
                    background: None,
                    hidden: false,
                    bookmarked: false,
                }
            } else {
                unknown_view(seq, line)
            }
        },
    }
}

// ---------------------------------------------------------------------------
// Scanning
// ---------------------------------------------------------------------------

fn digit_run_end_at(cs: &[char], i: usize) -> (r: usize)
    requires
        i <= cs@.len(),
    ensures
        r == digit_run_end(cs@, i as int),
        i <= r <= cs@.len(),
{
    let mut j = i;
    while j < cs.len() && is_decimal_digit_char(cs[j])
        invariant
            i <= j <= cs@.len(),
            cs.len() == cs@.len(),
            digit_run_end(cs@, j as int) == digit_run_end(cs@, i as int),
        decreases cs@.len() - j,
    {
        j = j + 1;
    }
    j
}

fn space_run_end_at(cs: &[char], i: usize) -> (r: usize)
    requires
        i <= cs@.len(),
    ensures
        r == space_run_end(cs@, i as int),
        i <= r <= cs@.len(),
{
    let mut j = i;
    while j < cs.len() && is_space_char(cs[j])
        invariant
            i <= j <= cs@.len(),
            cs.len() == cs@.len(),
            space_run_end(cs@, j as int) == space_run_end(cs@, i as int),
        decreases cs@.len() - j,
    {
        j = j + 1;
    }
    j
}

fn colon_at_or_after(cs: &[char], i: usize) -> (r: usize)
    requires
        i <= cs@.len(),
    ensures
        r == colon_from(cs@, i as int),
        i <= r <= cs@.len(),
{
    let mut j = i;
    while j < cs.len() && cs[j] != ':'
        invariant
            i <= j <= cs@.len(),
            cs.len() == cs@.len(),
            colon_from(cs@, j as int) == colon_from(cs@, i as int),
        decreases cs@.len() - j,
    {
        j = j + 1;
    }
    j
}

fn no_newline_from(cs: &[char], m: usize) -> (r: bool)
    requires
        m <= cs@.len(),
    ensures
        r == no_char(cs@.subrange(m as int, cs@.len() as int), '\n'),
{
    let mut j = m;
    while j < cs.len()
        invariant
            m <= j <= cs@.len(),
            cs.len() == cs@.len(),
            forall|x: int| m <= x < j ==> cs@[x] != '\n',
        decreases cs@.len() - j,
    {
        if cs[j] == '\n' {
            assert(cs@.subrange(m as int, cs@.len() as int)[j - m] == '\n');
            return false;
        }
        j = j + 1;
    }
    true
}

fn two_digits_at(cs: &[char], i: usize) -> (r: bool)
    requires
        i + 2 <= cs@.len(),
    ensures
        r == two_digits(cs@, i as int),
{
    is_decimal_digit_char(cs[i]) && is_decimal_digit_char(cs[i + 1])
}

fn time_shape_at(cs: &[char], i: usize) -> (r: bool)
    requires
        i <= cs@.len(),
    ensures
        r == time_shape(cs@, i as int),
{
    if cs.len() - i < 12 {
        return false;
    }
    two_digits_at(cs, i) && cs[i + 2] == ':' && two_digits_at(cs, i + 3) && cs[i + 5] == ':'
        && two_digits_at(cs, i + 6) && cs[i + 8] == '.' && two_digits_at(cs, i + 9)
        && is_decimal_digit_char(cs[i + 11])
}

/// The field ranges of a threadtime line, as found by [`threadtime_spans`].
pub struct Spans {
    pub time: (usize, usize),
    pub pid: (usize, usize),
    pub tid: (usize, usize),
    pub level: usize,
    pub tag: (usize, usize),
    pub message: (usize, usize),
}

pub open spec fn spans_match(s: Spans, c: Captures) -> bool {
    &&& s.time.0 == c.time.0 && s.time.1 == c.time.1
    &&& s.pid.0 == c.pid.0 && s.pid.1 == c.pid.1
    &&& s.tid.0 == c.tid.0 && s.tid.1 == c.tid.1
    &&& s.level == c.level
    &&& s.tag.0 == c.tag.0 && s.tag.1 == c.tag.1
    &&& s.message.0 == c.message.0 && s.message.1 == c.message.1
}

/// Splits a line into its threadtime fields, or `None` when it is not in that format.
pub fn threadtime_spans(cs: &[char]) -> (r: Option<Spans>)
    ensures
        match (r, threadtime_captures(cs@)) {
            (None, None) => true,
            (Some(s), Some(c)) => spans_match(s, c),
            _ => false,
        },
        r matches Some(s) ==> {
            &&& 5 <= s.time.0 && s.time.0 + 12 == s.time.1
            &&& s.time.1 < s.pid.0 < s.pid.1 < s.tid.0 < s.tid.1 < s.level
            &&& s.level + 1 < s.tag.0 <= s.tag.1 < s.message.0 <= s.message.1 == cs@.len()
        },
{
    let n = cs.len();
    if !(n >= 5 && two_digits_at(cs, 0) && cs[2] == '-' && two_digits_at(cs, 3)) {
        return None;
    }
    let a = space_run_end_at(cs, 5);
    if a == 5 || !time_shape_at(cs, a) {
        return None;
    }
    let b = space_run_end_at(cs, a + 12);
    if b == a + 12 {
        return None;
    }
    let p = digit_run_end_at(cs, b);
    if p == b {
        return None;
    }
    let c = space_run_end_at(cs, p);
    if c == p {
        return None;
    }
    let t = digit_run_end_at(cs, c);
    if t == c {
        return None;
    }
    let d = space_run_end_at(cs, t);
    if d == t || d >= n {
        return None;
    }
    let e = space_run_end_at(cs, d + 1);
    if e == d + 1 {
        return None;
    }
    let k = colon_at_or_after(cs, e);
    if k >= n {
        return None;
    }
    let m = if k + 1 < n && is_space_char(cs[k + 1]) {
        k + 2
    } else {
        k + 1
    };
    if !no_newline_from(cs, m) {
        return None;
    }
    Some(
        Spans {
            time: (a, a + 12),
            pid: (b, p),
            tid: (c, t),
            level: d,
            tag: (e, k),
            message: (m, n),
        },
    )
}

// ---------------------------------------------------------------------------
// Building the entry
// ---------------------------------------------------------------------------

fn level_from_letter(c: char) -> (r: LogLevel)
    ensures
        r == level_of_letter(c),
{
    if c == 'V' {
        LogLevel::Verbose
    } else if c == 'D' {
        LogLevel::Debug
    } else if c == 'I' {
        LogLevel::Info
    } else if c == 'W' {
        LogLevel::Warn
    } else if c == 'E' {
        LogLevel::Error
    } else if c == 'A' || c == 'F' {
        LogLevel::Assert
    } else {
        LogLevel::Unknown
    }
}

/// `cs[lo..hi]` cut to the longest prefix that fits in `MAX_MESSAGE_BYTES` bytes of UTF-8.
pub fn truncate_message(cs: &[char], lo: usize, hi: usize) -> (out: String)
    requires
        lo <= hi <= cs@.len(),
    ensures
        out@ == truncated(cs@.subrange(lo as int, hi as int)),
{
    let ghost s = cs@.subrange(lo as int, hi as int);
    let mut used: usize = 0;
    let mut i = lo;
    assert(s.skip(0) =~= s);
    while i < hi && utf8_width_of(cs[i]) <= MAX_MESSAGE_BYTES - used
        invariant
            lo <= i <= hi <= cs@.len(),
            used <= MAX_MESSAGE_BYTES,
            s == cs@.subrange(lo as int, hi as int),
            fitting_prefix_len(s, MAX_MESSAGE_BYTES as int) == (i - lo) + fitting_prefix_len(
                s.skip(i - lo),
                MAX_MESSAGE_BYTES - used,
            ),
        decreases hi - i,
    {
        assert(s.skip(i - lo).drop_first() =~= s.skip(i + 1 - lo));
        used = used + utf8_width_of(cs[i]);
        i = i + 1;
    }
    assert(fitting_prefix_len(s.skip(i - lo), MAX_MESSAGE_BYTES - used) == 0);
    assert(s.take(i - lo) =~= cs@.subrange(lo as int, i as int));
    string_of(cs, lo, i)
}

fn unknown_entry(seq: u64, cs: &[char]) -> (e: LogEntry)
    ensures
        e@ == unknown_view(seq, cs@),
{
    assert(cs@.subrange(0, cs@.len() as int) =~= cs@);
    LogEntry {
        seq,
        timestamp: 0,
        date: String::new(),
        time: String::new(),
        pid: 0,
        tid: 0,
        level: LogLevel::Unknown,
        tag: String::new(),
        message: truncate_message(cs, 0, cs.len()),
        package_name: None,
        foreground: None,
        background: None,
        hidden: false,
        bookmarked: false,
    }
}

/// Parses one line of `adb logcat -v threadtime` output.  A line that is not in that
/// format is kept whole (message truncated) as an entry of unknown priority, so a
/// line is never lost.
pub fn parse_threadtime_line(seq: u64, line: &str) -> (r: Option<LogEntry>)
    ensures
        r matches Some(e) && e@ == parsed_line(seq, line@),
{
    let cs = chars_of(line);
    let cs = cs.as_slice();
    match threadtime_spans(cs) {
        None => Some(unknown_entry(seq, cs)),
        Some(sp) => {
            let pid = parse_u32_span(cs, sp.pid.0, sp.pid.1);
            let tid = parse_u32_span(cs, sp.tid.0, sp.tid.1);
            match (pid, tid) {
                (Some(pid), Some(tid)) => Some(
                    LogEntry {
                        seq,
                        timestamp: 0,
                        date: string_of(cs, 0, 5),
                        time: string_of(cs, sp.time.0, sp.time.1),
                        pid,
                        tid,
                        level: level_from_letter(cs[sp.level]),
                        tag: string_of(cs, sp.tag.0, sp.tag.1),
                        message: truncate_message(cs, sp.message.0, sp.message.1),
                        package_name: None,
                        foreground: None,
                        background: None,
                        hidden: false,
                        bookmarked: false,
                    },
                ),
                _ => Some(unknown_entry(seq, cs)),
            }
        },
    }
}

/// The message limit: the message kept is a prefix of the line's message that takes at
/// most `MAX_MESSAGE_BYTES` bytes of UTF-8, the longest such prefix (one more character
/// would exceed the limit), and a message within the limit is kept whole.
pub proof fn message_limit(s: Seq<char>)
    ensures
        truncated(s).len() <= s.len(),
        truncated(s) == s.take(truncated(s).len() as int),
        utf8_len(truncated(s)) <= MAX_MESSAGE_BYTES,
        truncated(s).len() < s.len() ==> utf8_len(s.take(truncated(s).len() as int + 1)) > MAX_MESSAGE_BYTES,
        utf8_len(s) <= MAX_MESSAGE_BYTES ==> truncated(s) == s,
{
    lemma_fitting(s, MAX_MESSAGE_BYTES as int);
    let k = fitting_prefix_len(s, MAX_MESSAGE_BYTES as int);
    assert(s.take(k as int).len() == k);
    if utf8_len(s) <= MAX_MESSAGE_BYTES {
        assert(s.take(k as int) =~= s);
    }
}

/// The UTF-8 length of a character followed by `t`.
proof fn lemma_utf8_len_cons(c: char, t: Seq<char>)
    ensures
        utf8_len(seq![c] + t) == utf8_width(c) + utf8_len(t),
    decreases t.len(),
{
    if t.len() == 0 {
        assert(seq![c] + t =~= seq![c]);
        assert(seq![c].drop_last() =~= Seq::<char>::empty());
        assert(utf8_len(Seq::<char>::empty()) == 0);
        assert(utf8_len(t) == 0);
        assert(utf8_len(seq![c]) == utf8_len(seq![c].drop_last()) + utf8_width(seq![c].last()));
    } else {
        lemma_utf8_len_cons(c, t.drop_last());
        assert((seq![c] + t).drop_last() =~= seq![c] + t.drop_last());
        assert((seq![c] + t).last() == t.last());
        assert(utf8_len(seq![c] + t) == utf8_len((seq![c] + t).drop_last()) + utf8_width((seq![c] + t).last()));
        assert(utf8_len(t) == utf8_len(t.drop_last()) + utf8_width(t.last()));
    }
}

/// `fitting_prefix_len(s, b)` characters fit in `b` bytes, one more would not, and all
/// of `s` is taken when it fits.
proof fn lemma_fitting(s: Seq<char>, b: int)
    requires
        b >= 0,
    ensures
        fitting_prefix_len(s, b) <= s.len(),
        utf8_len(s.take(fitting_prefix_len(s, b) as int)) <= b,
        fitting_prefix_len(s, b) < s.len() ==> utf8_len(s.take(fitting_prefix_len(s, b) as int + 1)) > b,
        utf8_len(s) <= b ==> fitting_prefix_len(s, b) == s.len(),
    decreases s.len(),
{
    let k = fitting_prefix_len(s, b);
    if s.len() == 0 {
        assert(s.take(0) =~= Seq::<char>::empty());
    } else {
        let t = s.drop_first();
        assert(s =~= seq![s[0]] + t);
        lemma_utf8_len_cons(s[0], t);
        if utf8_width(s[0]) > b {
            assert(s.take(0) =~= Seq::<char>::empty());
            assert(s.take(1) =~= seq![s[0]] + Seq::<char>::empty());
            lemma_utf8_len_cons(s[0], Seq::<char>::empty());
        } else {
            let b2 = b - utf8_width(s[0]);
            lemma_fitting(t, b2);
            let k2 = fitting_prefix_len(t, b2);
            assert(k == 1 + k2);
            assert(s.take(k as int) =~= seq![s[0]] + t.take(k2 as int));
            lemma_utf8_len_cons(s[0], t.take(k2 as int));
            if k < s.len() {
                assert(s.take(k as int + 1) =~= seq![s[0]] + t.take(k2 as int + 1));
                lemma_utf8_len_cons(s[0], t.take(k2 as int + 1));
            }
        }
    }
}

} // verus!
