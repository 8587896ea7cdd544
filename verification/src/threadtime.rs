use vstd::prelude::*;

use crate::device::{decimal, digit_char, pad5, threadtime_text};
use crate::log_entry::{level_letter, LogEntryView};
use crate::parser::{
    Captures, colon_from, digit_run_end, level_of_letter, parsed_line, space_run_end, threadtime_captures,
    time_shape, truncated, two_digits,
};
use crate::text::{all_ascii_digits, digits_value, is_decimal_digit, is_space, no_char, parse_u32};

verus! {

/// An entry that the threadtime format writes out without loss: a `MM-DD` date, an
/// `HH:MM:SS.mmm` time, a tag that holds no `':'` and does not start with a blank, and
/// a message on one line.
pub open spec fn writable(e: LogEntryView) -> bool {
    &&& e.date.len() == 5 && two_digits(e.date, 0) && e.date[2] == '-' && two_digits(e.date, 3)
    &&& e.time.len() == 12 && time_shape(e.time, 0)
    &&& no_char(e.tag, ':')
    &&& (e.tag.len() > 0 ==> !is_space(e.tag[0]))
    &&& no_char(e.message, '\n')
}

/// What reading back the threadtime line of `e` as line `seq` gives: the same date,
/// time, ids, priority, tag and message (cut to the message limit), numbered `seq`,
/// visible, with nothing derived yet.
pub open spec fn read_back(seq: u64, e: LogEntryView) -> LogEntryView {
    LogEntryView {
        seq,
        timestamp: 0,
        date: e.date,
        time: e.time,
        pid: e.pid,
        tid: e.tid,
        level: e.level,
        tag: e.tag,
        message: truncated(e.message),
        package_name: None,
        foreground: None,
        background: None,
        hidden: false,
        bookmarked: false,
    }
}

/// Writing an entry as a threadtime line and parsing that line gives the entry back:
/// for every entry that the format can hold, the parser reads from
/// `format_threadtime_line` the date, time, pid, tid, priority, tag and message that
/// were written (the message cut to `MAX_MESSAGE_BYTES` bytes, as for every line).
pub proof fn format_then_parse(seq: u64, e: LogEntryView)
    requires
        writable(e),
    ensures
        parsed_line(seq, threadtime_text(e)) == read_back(seq, e),
{
    let s = threadtime_text(e);
    let dp = decimal(e.pid as nat);
    let dt = decimal(e.tid as nat);
    lemma_decimal(e.pid as nat);
    lemma_decimal(e.tid as nat);
    lemma_captures(e);
    lemma_layout(e);
    assert(parse_u32(dp) == Some(e.pid));
    assert(parse_u32(dt) == Some(e.tid));
    assert(level_of_letter(level_letter(e.level)) == e.level);
    assert(parsed_line(seq, s) =~= read_back(seq, e));
}

/// The fields that the grammar finds in the threadtime line of `e`.
#[verifier::rlimit(40)]
proof fn lemma_captures(e: LogEntryView)
    requires
        writable(e),
    ensures
        ({
            let s = threadtime_text(e);
            let dp = decimal(e.pid as nat);
            let dt = decimal(e.tid as nat);
            let pp = pad5(dp);
            let pq = pad5(dt);
            let o_q: int = 20 + pp.len() as int;
            let o_l: int = o_q + pq.len() + 1;
            let o_g: int = o_l + 2;
            let k: int = o_g + e.tag.len();
            let o_m: int = k + 2;
            let wp: int = pp.len() - dp.len();
            let wq: int = pq.len() - dt.len();
            &&& threadtime_captures(s) == Some(Captures {
                time: (6, 18),
                pid: (19 + wp, o_q - 1),
                tid: (o_q + wq, o_l - 1),
                level: o_l,
                tag: (o_g, k),
                message: (o_m, s.len() as int),
            })
            &&& s.subrange(19 + wp, o_q - 1) == dp
            &&& s.subrange(o_q + wq, o_l - 1) == dt
        }),
{
    let s = threadtime_text(e);
    let dp = decimal(e.pid as nat);
    let dt = decimal(e.tid as nat);
    let pp = pad5(dp);
    let pq = pad5(dt);
    lemma_decimal(e.pid as nat);
    lemma_decimal(e.tid as nat);
    lemma_layout(e);
    let o_q: int = 20 + pp.len() as int;
    let o_l: int = o_q + pq.len() + 1;
    let o_g: int = o_l + 2;
    let k: int = o_g + e.tag.len();

    // The date and the time.
    assert(two_digits(s, 0) && s[2] == '-' && two_digits(s, 3)) by {
        assert(s[0] == e.date[0] && s[1] == e.date[1] && s[2] == e.date[2]);
        assert(s[3] == e.date[3] && s[4] == e.date[4]);
    }
    assert(time_shape(s, 6)) by {
        assert(s[6] == e.time[0] && s[7] == e.time[1] && s[8] == e.time[2]);
        assert(s[9] == e.time[3] && s[10] == e.time[4] && s[11] == e.time[5]);
        assert(s[12] == e.time[6] && s[13] == e.time[7] && s[14] == e.time[8]);
        assert(s[15] == e.time[9] && s[16] == e.time[10] && s[17] == e.time[11]);
    }
    lemma_digit_not_space(e.time[0]);
    lemma_space_run(s, 5, 6);

    // The pid and the tid: blanks, then the digits, then a blank.
    lemma_number_field(s, 19, dp);
    lemma_number_field(s, o_q, dt);

    // The priority letter, the tag and the message.
    lemma_space_run(s, o_l - 1, o_l);
    if e.tag.len() > 0 {
        assert(s[o_g + 0] == e.tag[0]);
    }
    lemma_space_run(s, o_l + 1, o_g);
    assert forall|i: int| o_g <= i < k implies #[trigger] s[i] != ':' by {
        assert(s[o_g + (i - o_g)] == e.tag[i - o_g]);
    }
    lemma_colon_run(s, o_g, k);
}

/// Where the pieces of the threadtime line of `e` lie.
proof fn lemma_layout(e: LogEntryView)
    requires
        writable(e),
    ensures
        ({
            let s = threadtime_text(e);
            let pp = pad5(decimal(e.pid as nat));
            let pq = pad5(decimal(e.tid as nat));
            let o_q: int = 20 + pp.len() as int;
            let o_l: int = o_q + pq.len() + 1;
            let o_g: int = o_l + 2;
            let k: int = o_g + e.tag.len();
            let o_m: int = k + 2;
            &&& s.len() == o_m + e.message.len()
            &&& forall|i: int| 0 <= i < 5 ==> s[i] == #[trigger] e.date[i]
            &&& s.subrange(0, 5) == e.date
            &&& s[5] == ' '
            &&& forall|i: int| 0 <= i < 12 ==> s[6 + i] == #[trigger] e.time[i]
            &&& s.subrange(6, 18) == e.time
            &&& s[18] == ' '
            &&& forall|i: int| 0 <= i < pp.len() ==> s[19 + i] == #[trigger] pp[i]
            &&& s[19 + pp.len() as int] == ' '
            &&& forall|i: int| 0 <= i < pq.len() ==> s[o_q + i] == #[trigger] pq[i]
            &&& s[o_l - 1] == ' '
            &&& s[o_l] == level_letter(e.level)
            &&& s[o_l + 1] == ' '
            &&& forall|i: int| 0 <= i < e.tag.len() ==> s[o_g + i] == #[trigger] e.tag[i]
            &&& s.subrange(o_g, k) == e.tag
            &&& s[k] == ':'
            &&& s[k + 1] == ' '
            &&& s.subrange(o_m, o_m + e.message.len()) == e.message
        }),
{
    let s = threadtime_text(e);
    let pp = pad5(decimal(e.pid as nat));
    let pq = pad5(decimal(e.tid as nat));
    let o_q: int = 20 + pp.len() as int;
    let o_l: int = o_q + pq.len() + 1;
    let o_g: int = o_l + 2;
    let k: int = o_g + e.tag.len();
    let o_m: int = k + 2;
    let s1 = e.date + seq![' '] + e.time + seq![' '];
    let s2 = s1 + pp + seq![' '];
    let s3 = s2 + pq + seq![' ', level_letter(e.level), ' '];
    let s4 = s3 + e.tag + seq![':', ' '];
    assert(s == s4 + e.message);
    assert(s.subrange(0, s4.len() as int) =~= s4);
    assert(s.subrange(o_m, o_m + e.message.len()) =~= e.message);
    assert(s4.subrange(0, s3.len() as int) =~= s3);
    assert(s3.subrange(0, s2.len() as int) =~= s2);
    assert(s2.subrange(0, s1.len() as int) =~= s1);
    assert forall|i: int| 0 <= i < 5 implies s[i] == #[trigger] e.date[i] by {
        assert(s[i] == s4[i] && s4[i] == s3[i] && s3[i] == s2[i] && s2[i] == s1[i]);
    }
    assert(s.subrange(0, 5) =~= e.date);
    assert forall|i: int| 0 <= i < 12 implies s[6 + i] == #[trigger] e.time[i] by {
        assert(s[6 + i] == s4[6 + i] && s4[6 + i] == s3[6 + i] && s3[6 + i] == s2[6 + i] && s2[6 + i] == s1[6 + i]);
    }
    assert(s.subrange(6, 18) =~= e.time);
    assert(s[5] == s1[5] && s[18] == s1[18]) by {
        assert(s[5] == s4[5] && s4[5] == s3[5] && s3[5] == s2[5]);
        assert(s[18] == s4[18] && s4[18] == s3[18] && s3[18] == s2[18]);
    }
    assert forall|i: int| 0 <= i < pp.len() implies s[19 + i] == #[trigger] pp[i] by {
        assert(s[19 + i] == s4[19 + i] && s4[19 + i] == s3[19 + i] && s3[19 + i] == s2[19 + i]);
    }
    assert(s[19 + pp.len() as int] == ' ') by {
        assert(s[19 + pp.len() as int] == s4[19 + pp.len() as int] && s4[19 + pp.len() as int] == s3[19 + pp.len() as int]);
    }
    assert forall|i: int| 0 <= i < pq.len() implies s[o_q + i] == #[trigger] pq[i] by {
        assert(s[o_q + i] == s4[o_q + i] && s4[o_q + i] == s3[o_q + i]);
    }
    assert(s[o_l - 1] == ' ' && s[o_l] == level_letter(e.level) && s[o_l + 1] == ' ') by {
        assert(s[o_l - 1] == s4[o_l - 1] && s4[o_l - 1] == s3[o_l - 1]);
        assert(s[o_l] == s4[o_l] && s4[o_l] == s3[o_l]);
        assert(s[o_l + 1] == s4[o_l + 1] && s4[o_l + 1] == s3[o_l + 1]);
    }
    assert forall|i: int| 0 <= i < e.tag.len() implies s[o_g + i] == #[trigger] e.tag[i] by {
        assert(s[o_g + i] == s4[o_g + i]);
    }
    assert(s.subrange(o_g, k) =~= e.tag);
    assert(s[k] == ':' && s[k + 1] == ' ') by {
        assert(s[k] == s4[k] && s[k + 1] == s4[k + 1]);
    }
}

/// A number written right-aligned in five columns at `start`, after a blank and before
/// a blank, is read back as its digits.
proof fn lemma_number_field(s: Seq<char>, start: int, d: Seq<char>)
    requires
        1 <= start,
        d.len() >= 1,
        forall|i: int| 0 <= i < d.len() ==> is_decimal_digit(#[trigger] d[i]),
        start + pad5(d).len() < s.len(),
        is_space(s[start - 1]),
        forall|i: int| 0 <= i < pad5(d).len() ==> s[start + i] == #[trigger] pad5(d)[i],
        s[start + pad5(d).len()] == ' ',
    ensures
        ({
            let w = pad5(d).len() - d.len();
            let end = start + pad5(d).len();
            &&& space_run_end(s, start - 1) == start + w
            &&& digit_run_end(s, start + w) == end
            &&& s.subrange(start + w, end) == d
        }),
{
    let p = pad5(d);
    lemma_pad5(d);
    let w = p.len() - d.len();
    let end = start + p.len();
    assert forall|i: int| 0 <= i < d.len() implies s[start + w + i] == #[trigger] d[i] by {
        assert(s[start + (w + i)] == p[w + i]);
        assert(p.subrange(w, p.len() as int)[i] == p[w + i]);
    }
    assert forall|i: int| start - 1 <= i < start + w implies is_space(#[trigger] s[i]) by {
        if i >= start {
            assert(s[start + (i - start)] == p[i - start]);
        }
    }
    assert(s[start + w] == d[0]);
    lemma_digit_not_space(d[0]);
    lemma_space_run(s, start - 1, start + w);
    assert forall|i: int| start + w <= i < end implies is_decimal_digit(#[trigger] s[i]) by {
        assert(s[start + w + (i - start - w)] == d[i - start - w]);
    }
    lemma_digit_run(s, start + w, end);
    assert(s.subrange(start + w, end) =~= d) by {
        assert forall|i: int| 0 <= i < d.len() implies s.subrange(start + w, end)[i] == d[i] by {
            assert(s[start + w + i] == d[i]);
        }
    }
}

/// A decimal digit is never blank.
proof fn lemma_digit_not_space(c: char)
    requires
        is_decimal_digit(c),
    ensures
        !is_space(c),
{
}

/// The blank run from `i` ends at `j` when `s[i..j]` is blank and `s[j]` is not.
proof fn lemma_space_run(s: Seq<char>, i: int, j: int)
    requires
        0 <= i <= j <= s.len(),
        forall|k: int| i <= k < j ==> is_space(#[trigger] s[k]),
        j == s.len() || !is_space(s[j]),
    ensures
        space_run_end(s, i) == j,
    decreases j - i,
{
    if i < j {
        lemma_space_run(s, i + 1, j);
    }
}

/// The digit run from `i` ends at `j` when `s[i..j]` is digits and `s[j]` is not.
proof fn lemma_digit_run(s: Seq<char>, i: int, j: int)
    requires
        0 <= i <= j <= s.len(),
        forall|k: int| i <= k < j ==> is_decimal_digit(#[trigger] s[k]),
        j == s.len() || !is_decimal_digit(s[j]),
    ensures
        digit_run_end(s, i) == j,
    decreases j - i,
{
    if i < j {
        lemma_digit_run(s, i + 1, j);
    }
}

/// The first `':'` from `i` is at `j` when `s[i..j]` holds none and `s[j]` is one.
proof fn lemma_colon_run(s: Seq<char>, i: int, j: int)
    requires
        0 <= i <= j < s.len(),
        forall|k: int| i <= k < j ==> #[trigger] s[k] != ':',
        s[j] == ':',
    ensures
        colon_from(s, i) == j,
    decreases j - i,
{
    if i < j {
        lemma_colon_run(s, i + 1, j);
    }
}

/// `decimal(n)` is a non-empty string of ASCII digits whose value is `n`.
proof fn lemma_decimal(n: nat)
    ensures
        decimal(n).len() >= 1,
        all_ascii_digits(decimal(n)),
        digits_value(decimal(n)) == n,
        forall|i: int| 0 <= i < decimal(n).len() ==> is_decimal_digit(#[trigger] decimal(n)[i]),
    decreases n,
{
    let d = decimal(n);
    let c = digit_char((n % 10) as int);
    assert(c as int == '0' as int + n % 10);
    assert(crate::text::digit_value(c) == n % 10);
    if n >= 10 {
        lemma_decimal(n / 10);
        assert(d.drop_last() =~= decimal(n / 10));
        assert(d.last() == c);
        assert(digits_value(d) == digits_value(decimal(n / 10)) * 10 + n % 10);
        assert(n == (n / 10) * 10 + n % 10);
        assert forall|i: int| 0 <= i < d.len() implies crate::text::is_ascii_digit(#[trigger] d[i]) by {
            if i < d.len() - 1 {
                assert(d[i] == decimal(n / 10)[i]);
            }
        }
    } else {
        assert(d.drop_last() =~= seq![]);
        assert(d.last() == c);
        assert(digits_value(seq![]) == 0);
    }
}

/// `pad5(s)` is blanks followed by `s`.
proof fn lemma_pad5(s: Seq<char>)
    ensures
        pad5(s).len() >= s.len(),
        pad5(s).len() >= 5,
        forall|i: int| 0 <= i < pad5(s).len() - s.len() ==> #[trigger] pad5(s)[i] == ' ',
        pad5(s).subrange(pad5(s).len() - s.len(), pad5(s).len() as int) =~= s,
{
}

} // verus!
