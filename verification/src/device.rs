use std::path::PathBuf;
use vstd::prelude::*;

use crate::filter::{query_matches, FilterQuery, TermView};
use crate::log_entry::{level_letter, LogEntry, LogEntryView, StatisticsSnapshot};
use crate::parser::{parse_threadtime_line, parsed_line};
use crate::recorder::{borrowed, file_under, hour_file, safe_name, Recorder, RecorderStatus, RecorderStatusView};
use crate::ring_buffer::{pushed, RingBuffer};
use crate::statistics::{is_error_level, stats_snapshot, Statistics, StatisticsView, BYTES_PER_ENTRY};
use crate::text::{contains, str_contains};

verus! {

// ---------------------------------------------------------------------------
// Writing entries back as threadtime lines
// ---------------------------------------------------------------------------

pub open spec fn digit_char(d: int) -> char {
    (('0' as int) + d) as char
}

/// The decimal digits of `n`, without leading zeros.
pub open spec fn decimal(n: nat) -> Seq<char>
    decreases n,
{
    if n < 10 {
        seq![digit_char(n as int)]
    } else {
        decimal(n / 10).push(digit_char((n % 10) as int))
    }
}

/// `s` right-aligned in a field of five characters (`{:>5}`).
pub open spec fn pad5(s: Seq<char>) -> Seq<char> {
    if s.len() < 5 {
        Seq::new((5 - s.len()) as nat, |i: int| ' ') + s
    } else {
        s
    }
}

/// The threadtime line of an entry: `date time   pid   tid L tag: message`.
pub open spec fn threadtime_text(e: LogEntryView) -> Seq<char> {
    e.date + seq![' '] + e.time + seq![' '] + pad5(decimal(e.pid as nat)) + seq![' '] + pad5(
        decimal(e.tid as nat),
    ) + seq![' ', level_letter(e.level), ' '] + e.tag + seq![':', ' '] + e.message
}

fn decimal_chars(n: u128) -> (r: Vec<char>)
    ensures
        r@ == decimal(n as nat),
    decreases n,
{
    let d: u8 = (n % 10) as u8;
    let c = (d + 48) as char;
    if n < 10 {
        let mut v = Vec::new();
        v.push(c);
        assert(v@ =~= decimal(n as nat));
        v
    } else {
        let mut v = decimal_chars(n / 10);
        v.push(c);
        v
    }
}

fn push_padded(out: &mut String, n: u32)
    ensures
        final(out)@ == old(out)@ + pad5(decimal(n as nat)),
{
    let digits = decimal_chars(n as u128);
    let ghost before = out@;
    let mut pad: usize = 0;
    if digits.len() < 5 {
        pad = 5 - digits.len();
    }
    let mut i: usize = 0;
    while i < pad
        invariant
            0 <= i <= pad <= 5,
            out@ == before + Seq::new(i as nat, |k: int| ' '),
        decreases pad - i,
    {
        out.push(' ');
        i = i + 1;
        assert(out@ =~= before + Seq::new(i as nat, |k: int| ' '));
    }
    let ghost mid = out@;
    let mut j: usize = 0;
    while j < digits.len()
        invariant
            0 <= j <= digits@.len(),
            out@ == mid + digits@.take(j as int),
        decreases digits@.len() - j,
    {
        out.push(digits[j]);
        j = j + 1;
        assert(out@ =~= mid + digits@.take(j as int));
    }
    assert(digits@.take(j as int) =~= digits@);
    assert(out@ =~= before + pad5(decimal(n as nat)));
}

/// `n` in decimal (`n.to_string()`).
pub fn decimal_string(n: u128) -> (r: String)
    ensures
        r@ == decimal(n as nat),
{
    let digits = decimal_chars(n);
    let mut out = String::new();
    let mut j: usize = 0;
    while j < digits.len()
        invariant
            0 <= j <= digits@.len(),
            out@ == digits@.take(j as int),
        decreases digits@.len() - j,
    {
        out.push(digits[j]);
        j = j + 1;
        assert(out@ =~= digits@.take(j as int));
    }
    assert(digits@.take(j as int) =~= digits@);
    out
}

/// The entry written as a threadtime line, the format that
/// [`parse_threadtime_line`] reads.
pub fn format_threadtime_line(entry: &LogEntry) -> (r: String)
    ensures
        r@ == threadtime_text(entry@),
{
    let mut out = String::new();
    out.append(entry.date.as_str());
    out.push(' ');
    out.append(entry.time.as_str());
    out.push(' ');
    push_padded(&mut out, entry.pid);
    out.push(' ');
    push_padded(&mut out, entry.tid);
    out.push(' ');
    out.push(entry.level.as_threadtime_char());
    out.push(' ');
    out.append(entry.tag.as_str());
    out.push(':');
    out.push(' ');
    out.append(entry.message.as_str());
    assert(out@ =~= threadtime_text(entry@));
    out
}

// ---------------------------------------------------------------------------
// Views of entry lists
// ---------------------------------------------------------------------------

/// The entries of `s` that are not hidden, in order.
pub open spec fn visible(s: Seq<LogEntryView>) -> Seq<LogEntryView>
    decreases s.len(),
{
    if s.len() == 0 {
        seq![]
    } else if s.last().hidden {
        visible(s.drop_last())
    } else {
        visible(s.drop_last()).push(s.last())
    }
}

/// How many entries of `s` are hidden.
pub open spec fn hidden_count(s: Seq<LogEntryView>) -> nat
    decreases s.len(),
{
    if s.len() == 0 {
        0
    } else {
        hidden_count(s.drop_last()) + if s.last().hidden {
            1nat
        } else {
            0nat
        }
    }
}

/// The last `n` elements of `s` (all of them if there are fewer).
pub open spec fn last_n<A>(s: Seq<A>, n: nat) -> Seq<A> {
    if s.len() <= n {
        s
    } else {
        s.subrange(s.len() - n, s.len() as int)
    }
}

/// `e` with its hidden flag set to `h`.
pub open spec fn with_hidden(e: LogEntryView, h: bool) -> LogEntryView {
    LogEntryView { hidden: h, ..e }
}

/// The entries of `s` with their hidden flags recomputed for the query `q`.
pub open spec fn refiltered(s: Seq<LogEntryView>, q: Seq<TermView>) -> Seq<LogEntryView> {
    s.map_values(|e: LogEntryView| with_hidden(e, !query_matches(q, e)))
}

pub open spec fn entry_views(s: Seq<LogEntry>) -> Seq<LogEntryView> {
    s.map_values(|e: LogEntry| e@)
}

proof fn lemma_views_pushed(buf: Seq<LogEntry>, e: LogEntry, cap: nat)
    ensures
        entry_views(pushed(buf, e, cap)) == pushed(entry_views(buf), e@, cap),
{
    if buf.len() > 0 && buf.len() >= cap {
        assert(entry_views(buf.drop_first().push(e)) =~= entry_views(buf).drop_first().push(e@));
    } else {
        assert(entry_views(buf.push(e)) =~= entry_views(buf).push(e@));
    }
}

/// The sequence numbers of the entries of `s` that are visible and whose message,
/// lower-cased, contains `lowered_query`.
pub open spec fn search_hits(s: Seq<LogEntryView>, lowered_query: Seq<char>) -> Seq<u64>
    decreases s.len(),
{
    if s.len() == 0 {
        seq![]
    } else {
        let rest = search_hits(s.drop_last(), lowered_query);
        if !s.last().hidden && contains(unicode_lowercase(s.last().message), lowered_query) {
            rest.push(s.last().seq)
        } else {
            rest
        }
    }
}

/// Whether entry `e` is a search hit for `lowered_query`: it is shown and its message,
/// lower-cased, contains the query.
pub open spec fn visible_message_hit(e: LogEntryView, lowered_query: Seq<char>) -> bool {
    !e.hidden && contains(unicode_lowercase(e.message), lowered_query)
}

/// The search hits of a window are the sequence numbers, in window order, of exactly the
/// visible entries whose lower-cased message contains the lower-cased query: a number is
/// among them exactly when some such entry carries it.  Nothing else of an entry counts
/// (not its tag, package or priority).
pub proof fn search_hits_are_visible_message_matches(s: Seq<LogEntryView>, q: Seq<char>, x: u64)
    ensures
        search_hits(s, q) == s.filter(|e: LogEntryView| visible_message_hit(e, q)).map_values(|e: LogEntryView| e.seq),
        search_hits(s, q).contains(x) <==> exists|i: int|
            0 <= i < s.len() && (#[trigger] s[i]).seq == x && visible_message_hit(s[i], q),
    decreases s.len(),
{
    let pred = |e: LogEntryView| visible_message_hit(e, q);
    let f = |e: LogEntryView| e.seq;
    if s.len() == 0 {
        reveal_with_fuel(Seq::<LogEntryView>::filter, 1);
        assert(s.filter(pred).map_values(f) =~= Seq::<u64>::empty());
        assert(search_hits(s, q) =~= Seq::<u64>::empty());
    } else {
        let init = s.drop_last();
        search_hits_are_visible_message_matches(init, q, x);
        let rest = search_hits(init, q);
        assert(forall|i: int| 0 <= i < init.len() ==> init[i] == s[i]);
        reveal_with_fuel(Seq::<LogEntryView>::filter, 1);
        if pred(s.last()) {
            assert(s.filter(pred) == init.filter(pred).push(s.last()));
            assert(s.filter(pred).map_values(f) =~= init.filter(pred).map_values(f).push(s.last().seq));
            assert(search_hits(s, q) == rest.push(s.last().seq));
            if search_hits(s, q).contains(x) {
                if x == s.last().seq {
                    assert(s[s.len() - 1] == s.last());
                } else {
                    let j = choose|j: int| 0 <= j < search_hits(s, q).len() && search_hits(s, q)[j] == x;
                    assert(j < rest.len());
                    assert(rest[j] == x);
                    let i = choose|i: int| 0 <= i < init.len() && (#[trigger] init[i]).seq == x && visible_message_hit(init[i], q);
                    assert(s[i] == init[i]);
                }
            }
            if exists|i: int| 0 <= i < s.len() && (#[trigger] s[i]).seq == x && visible_message_hit(s[i], q) {
                let i = choose|i: int| 0 <= i < s.len() && (#[trigger] s[i]).seq == x && visible_message_hit(s[i], q);
                if i == s.len() - 1 {
                    assert(search_hits(s, q)[rest.len() as int] == x);
                } else {
                    assert(init[i] == s[i]);
                    let j = choose|j: int| 0 <= j < rest.len() && rest[j] == x;
                    assert(search_hits(s, q)[j] == x);
                }
            }
        } else {
            assert(s.filter(pred) == init.filter(pred));
            assert(search_hits(s, q) == rest);
            if search_hits(s, q).contains(x) {
                let i = choose|i: int| 0 <= i < init.len() && (#[trigger] init[i]).seq == x && visible_message_hit(init[i], q);
                assert(s[i] == init[i]);
            }
            if exists|i: int| 0 <= i < s.len() && (#[trigger] s[i]).seq == x && visible_message_hit(s[i], q) {
                let i = choose|i: int| 0 <= i < s.len() && (#[trigger] s[i]).seq == x && visible_message_hit(s[i], q);
                assert(i != s.len() - 1);
                assert(init[i] == s[i]);
            }
        }
    }
}

/// Two windows whose entries agree, one by one, on the hidden flag, the message and the
/// sequence number give the same search hits, however their tags or other fields differ.
pub proof fn search_hits_ignore_other_fields(s: Seq<LogEntryView>, t: Seq<LogEntryView>, q: Seq<char>)
    requires
        s.len() == t.len(),
        forall|i: int| 0 <= i < s.len() ==> (#[trigger] s[i]).hidden == t[i].hidden && s[i].message == t[i].message
            && s[i].seq == t[i].seq,
    ensures
        search_hits(s, q) == search_hits(t, q),
    decreases s.len(),
{
    if s.len() > 0 {
        assert(forall|i: int| 0 <= i < s.len() - 1 ==> s.drop_last()[i] == s[i] && t.drop_last()[i] == t[i]);
        search_hits_ignore_other_fields(s.drop_last(), t.drop_last(), q);
        assert(s.last() == s[s.len() - 1]);
    }
}

/// What `str::to_lowercase` gives for a text (full Unicode lower-casing).
pub uninterp spec fn unicode_lowercase(s: Seq<char>) -> Seq<char>;

/// `str::to_lowercase`: the Unicode lower case of `s`.  Its result is named
/// ([`unicode_lowercase`]) rather than stated: it follows Unicode's case tables.
#[verifier::external_body]
fn to_lowercase(s: &str) -> (r: String)
    ensures
        r@ == unicode_lowercase(s@),
{
    s.to_lowercase()
}

/// Whether `entry` is a search hit, given its message and the query lower-cased: it is
/// visible and its message contains the query.
pub fn is_search_hit(entry: &LogEntry, lowered_message: &str, lowered_query: &str) -> (r: bool)
    ensures
        r == (!entry.hidden && contains(lowered_message@, lowered_query@)),
{
    !entry.hidden && str_contains(lowered_message, lowered_query)
}

/// The newest entries a search looks at.
pub const SEARCH_WINDOW: usize = 1000000;

// ---------------------------------------------------------------------------
// Device state
// ---------------------------------------------------------------------------

/// What an export writes: every buffered entry, or only the visible ones.
#[derive(Debug, Clone, Copy, PartialEq, Eq, Structural)]
pub enum ExportMode {
    All,
    Filtered,
}

#[derive(Debug, Clone, Copy, PartialEq, Eq, Structural)]
pub struct ExportResult {
    pub line_count: usize,
}

/// The state of a device as the user interface shows it.
#[derive(Debug)]
pub struct DeviceSnapshot {
    pub logs: Vec<LogEntry>,
    pub stats: StatisticsSnapshot,
    pub recorder_status: RecorderStatus,
}

/// A copy of the entries `v`.
pub fn clone_entries(v: &Vec<LogEntry>) -> (r: Vec<LogEntry>)
    ensures
        r@ == v@,
{
    let mut r: Vec<LogEntry> = Vec::new();
    let mut i: usize = 0;
    while i < v.len()
        invariant
            0 <= i <= v@.len(),
            r@ == v@.take(i as int),
        decreases v@.len() - i,
    {
        r.push(v[i].clone());
        i = i + 1;
        assert(r@ =~= v@.take(i as int));
    }
    assert(v@.take(i as int) =~= v@);
    r
}

impl Clone for DeviceSnapshot {
    fn clone(&self) -> (r: Self)
        ensures
            r.logs@ == self.logs@,
            r.stats == self.stats,
            r.recorder_status@ == self.recorder_status@,
    {
        DeviceSnapshot {
            logs: clone_entries(&self.logs),
            stats: self.stats,
            recorder_status: self.recorder_status.clone(),
        }
    }
}

/// How recording the last line went.
pub enum RecordOutcome {
    /// Recording is off.
    Disabled,
    /// The line was written to this file.
    Written(PathBuf),
    /// Writing failed with this message.
    Failed(String),
}

/// The recording status that an outcome leaves.
pub open spec fn outcome_status(outcome: RecordOutcome) -> RecorderStatusView {
    match outcome {
        RecordOutcome::Disabled => RecorderStatusView { enabled: false, path: None, warning: None },
        RecordOutcome::Written(p) => RecorderStatusView { enabled: true, path: Some(p), warning: None },
        RecordOutcome::Failed(w) => RecorderStatusView { enabled: false, path: None, warning: Some(w@) },
    }
}

/// `after` is `before` with the filter `q`: each entry's hidden flag recomputed, the
/// hidden count updated, everything else kept.
pub open spec fn filter_applied(before: DeviceContext, after: DeviceContext, q: Seq<TermView>) -> bool {
    &&& after.wf()
    &&& after.spec_filter() == q
    &&& after.entries() == refiltered(before.entries(), q)
    &&& after.stats() == (StatisticsView { hidden: hidden_count(after.entries()) as u64, ..before.stats() })
    &&& after.spec_seq() == before.spec_seq()
    &&& after.spec_capacity() == before.spec_capacity()
    &&& after.status() == before.status()
    &&& after.recording() == before.recording()
    &&& after.id() == before.id()
    &&& after.name() == before.name()
}

/// The entry that line `raw` becomes as the next line of `c`: parsed with the next
/// sequence number, hidden when the filter does not match it.
pub open spec fn next_entry(c: DeviceContext, raw: Seq<char>) -> LogEntryView {
    let p = parsed_line((c.spec_seq() + 1) as u64, raw);
    with_hidden(p, !query_matches(c.spec_filter(), p))
}

/// `after` is `before` once line `raw` arrived as entry `e`: the entry is
/// [`next_entry`], it enters the buffer (dropping the oldest entry when full), the line
/// is counted (as an error, a warning and a hidden entry where it is one), and
/// everything else is kept.
pub open spec fn line_ingested(before: DeviceContext, after: DeviceContext, raw: Seq<char>, e: LogEntryView) -> bool {
    &&& after.wf()
    &&& e == next_entry(before, raw)
    &&& after.spec_seq() == before.spec_seq() + 1
    &&& after.entries() == pushed(before.entries(), e, before.spec_capacity())
    &&& after.stats() == (StatisticsView {
        errors: (before.stats().errors + if is_error_level(e.level) { 1int } else { 0int }) as u64,
        warnings: (before.stats().warnings + if e.level == crate::log_entry::LogLevel::Warn { 1int } else { 0int }) as u64,
        hidden: (before.stats().hidden + if e.hidden { 1int } else { 0int }) as u64,
        total: (before.stats().total + 1) as u64,
    })
    &&& after.spec_filter() == before.spec_filter()
    &&& after.spec_capacity() == before.spec_capacity()
    &&& after.status() == before.status()
    &&& after.recording() == before.recording()
    &&& after.id() == before.id()
    &&& after.name() == before.name()
}

/// `after` is `before` once the outcome of recording a line is stored.
pub open spec fn outcome_applied(before: DeviceContext, after: DeviceContext, outcome: RecordOutcome) -> bool {
    &&& after.wf()
    &&& after.status() == outcome_status(outcome)
    &&& after.entries() == before.entries()
    &&& after.spec_seq() == before.spec_seq()
    &&& after.spec_filter() == before.spec_filter()
    &&& after.spec_capacity() == before.spec_capacity()
    &&& after.stats() == before.stats()
    &&& after.recording() == before.recording()
    &&& after.id() == before.id()
    &&& after.name() == before.name()
}

/// The logs, filter, counters and recording state of one device.
pub struct DeviceContext {
    pub device_id: String,
    pub device_name: String,
    seq: u64,
    filter: FilterQuery,
    buffer: RingBuffer<LogEntry>,
    statistics: Statistics,
    recorder: Recorder,
    recorder_status: RecorderStatus,
}

impl DeviceContext {
    /// The device's identifier.
    pub closed spec fn id(&self) -> Seq<char> {
        self.device_id@
    }

    /// The device's display name.
    pub closed spec fn name(&self) -> Seq<char> {
        self.device_name@
    }

    /// Number of lines ingested so far (the sequence number of the newest entry).
    pub closed spec fn spec_seq(&self) -> u64 {
        self.seq
    }

    pub closed spec fn spec_filter(&self) -> Seq<TermView> {
        self.filter@
    }

    /// The buffered entries, oldest first.
    pub closed spec fn entries(&self) -> Seq<LogEntryView> {
        entry_views(self.buffer@)
    }

    pub closed spec fn spec_capacity(&self) -> nat {
        self.buffer.spec_capacity()
    }

    pub closed spec fn stats(&self) -> StatisticsView {
        self.statistics@
    }

    pub closed spec fn status(&self) -> RecorderStatusView {
        self.recorder_status@
    }

    pub closed spec fn recording(&self) -> bool {
        self.recorder.spec_enabled()
    }

    /// The directory the device's lines are recorded under.
    pub closed spec fn recorder_root(&self) -> PathBuf {
        self.recorder.spec_root()
    }

    /// The device name the device's lines are recorded under.
    pub closed spec fn recorder_device(&self) -> Seq<char> {
        self.recorder.spec_device_name()
    }

    /// The file a line recorded on `day` at `hour` goes to, when the device records:
    /// `root/<day>/<device name made safe>/<hour file>`.
    pub open spec fn record_file(&self, day: Seq<char>, hour: nat) -> Option<PathBuf> {
        if self.recording() {
            Some(file_under(borrowed(&self.recorder_root()), day, safe_name(self.recorder_device()), hour_file(hour)))
        } else {
            None
        }
    }

    /// The state is consistent: the counters saw every ingested line; the buffer
    /// holds the newest entries with consecutive sequence numbers ending at the
    /// number of lines ingested; and every buffered entry is hidden exactly when the
    /// current filter rejects it.
    pub closed spec fn wf(&self) -> bool {
        let es = self.entries();
        &&& self.statistics.wf()
        &&& self.statistics@.total == self.seq
        &&& self.statistics@.hidden <= self.seq
        &&& es.len() <= self.seq
        &&& es.len() <= self.buffer.spec_capacity()
        &&& self.buffer.spec_capacity() > 0
        &&& forall|i: int| 0 <= i < es.len() ==> (#[trigger] es[i]).seq == self.seq - es.len() + 1 + i
        &&& forall|i: int| 0 <= i < es.len() ==> (#[trigger] es[i]).hidden == !query_matches(self.filter@, es[i])
    }

    /// What holds of every device context: the buffer holds at most its capacity of the
    /// newest entries, numbered consecutively up to the number of lines ingested, each
    /// hidden exactly when the current filter does not match it; every line is counted,
    /// and errors and warnings are among them.
    pub proof fn consistent(&self)
        requires
            self.wf(),
        ensures
            self.spec_capacity() > 0,
            self.entries().len() <= self.spec_capacity(),
            self.entries().len() <= self.spec_seq(),
            forall|i: int| 0 <= i < self.entries().len() ==> (#[trigger] self.entries()[i]).seq
                == self.spec_seq() - self.entries().len() + 1 + i,
            forall|i: int| 0 <= i < self.entries().len() ==> (#[trigger] self.entries()[i]).hidden
                == !query_matches(self.spec_filter(), self.entries()[i]),
            self.stats().total == self.spec_seq(),
            self.stats().errors + self.stats().warnings <= self.stats().total,
            self.stats().hidden <= self.stats().total,
    {
        self.statistics.counts_consistent();
    }

    /// An empty device context: nothing ingested, the empty filter, a buffer of
    /// `buffer_capacity` entries.
    pub fn new(device_id: String, device_name: String, buffer_capacity: usize, recorder: Recorder) -> (r: Self)
        requires
            buffer_capacity > 0,
        ensures
            r.wf(),
            r.id() == device_id@,
            r.name() == device_name@,
            r.spec_seq() == 0,
            r.spec_filter() == Seq::<TermView>::empty(),
            r.entries() == Seq::<LogEntryView>::empty(),
            r.spec_capacity() == buffer_capacity,
            r.stats() == (StatisticsView { errors: 0, warnings: 0, hidden: 0, total: 0 }),
            r.status() == (RecorderStatusView { enabled: false, path: None, warning: None }),
            r.recording() == recorder.spec_enabled(),
            r.recorder_root() == recorder.spec_root(),
            r.recorder_device() == recorder.spec_device_name(),
    {
        let r = DeviceContext {
            device_id,
            device_name,
            seq: 0,
            filter: FilterQuery::default(),
            buffer: RingBuffer::new(buffer_capacity),
            statistics: Statistics::default(),
            recorder,
            recorder_status: RecorderStatus::disabled(),
        };
        assert(r.entries() =~= Seq::<LogEntryView>::empty());
        r
    }
    /// The device's identifier.
    pub fn id_text(&self) -> (r: &str)
        ensures
            r@ == self.id(),
    {
        self.device_id.as_str()
    }

    /// Number of lines ingested so far.
    pub fn line_count(&self) -> (r: u64)
        ensures
            r == self.spec_seq(),
    {
        self.seq
    }

    /// Reads one raw line: it gets the next sequence number, is parsed (see
    /// [`parsed_line`]), is hidden exactly when the current filter rejects it, is
    /// counted, and is appended to the buffer (dropping the oldest entry when full).
    /// Recording the raw line is reported separately, with [`Self::apply_record_outcome`].
    pub fn ingest_line(&mut self, raw_line: &str) -> (r: Option<LogEntry>)
        requires
            old(self).wf(),
            old(self).spec_seq() < u64::MAX,
        ensures
            r matches Some(e) && line_ingested(*old(self), *final(self), raw_line@, e@),
    {
        self.seq = self.seq + 1;
        let mut entry = match parse_threadtime_line(self.seq, raw_line) {
            Some(e) => e,
            None => {
                return None;
            },
        };
        entry.hidden = !self.filter.matches(&entry);
        self.statistics.observe(&entry);
        let kept = entry.clone();
        let ghost old_buf = self.buffer@;
        self.buffer.push(kept);
        proof {
            let es = entry_views(old_buf);
            let cap = self.buffer.spec_capacity();
            lemma_views_pushed(old_buf, kept, cap);
            let ne = self.entries();
            assert(ne == pushed(es, entry@, cap));
            assert forall|i: int| 0 <= i < ne.len() implies (#[trigger] ne[i]).seq == self.seq - ne.len() + 1 + i
                && ne[i].hidden == !query_matches(self.filter@, ne[i]) by {
                if es.len() > 0 && es.len() >= cap {
                    assert(ne == es.drop_first().push(entry@));
                    if i < ne.len() - 1 {
                        assert(ne[i] == es[i + 1]);
                    }
                } else {
                    assert(ne == es.push(entry@));
                    if i < ne.len() - 1 {
                        assert(ne[i] == es[i]);
                    }
                }
            }
        }
        Some(entry)
    }

    /// Makes `query` the filter and recomputes the hidden flag of every buffered entry;
    /// the hidden counter becomes the number of buffered entries now hidden.
    pub fn set_filter(&mut self, query: FilterQuery)
        requires
            old(self).wf(),
        ensures
            filter_applied(*old(self), *final(self), query@),
    {
        self.filter = query;
        let mut buffer = RingBuffer::new(self.buffer.capacity());
        std::mem::swap(&mut buffer, &mut self.buffer);
        let n = buffer.len();
        let ghost old_es = entry_views(buffer@);
        let ghost q = self.filter@;
        let ghost target = refiltered(old_es, q);
        let mut hidden: u64 = 0;
        let mut i: usize = 0;
        assert(old_es.skip(0) + target.take(0) =~= old_es);
        while i < n
            invariant
                0 <= i <= n,
                n == old_es.len(),
                n <= buffer.spec_capacity(),
                buffer.spec_capacity() == old(self).spec_capacity(),
                q == self.filter@,
                target == refiltered(old_es, q),
                entry_views(buffer@) == old_es.skip(i as int) + target.take(i as int),
                hidden == hidden_count(target.take(i as int)),
                hidden <= i,
            decreases n - i,
        {
            let ghost before = buffer@;
            let mut e = match buffer.pop_oldest() {
                Some(e) => e,
                None => {
                    proof {
                        assert(entry_views(before).len() == n);
                    }
                    return;
                },
            };
            proof {
                assert(e@ == entry_views(before)[0]);
                assert(entry_views(before)[0] == old_es[i as int]);
            }
            e.hidden = !self.filter.matches(&e);
            if e.hidden {
                hidden = hidden + 1;
            }
            let ghost mid = buffer@;
            buffer.push(e);
            proof {
                assert(target[i as int] == e@);
                assert(target.take(i + 1).drop_last() =~= target.take(i as int));
                assert(entry_views(mid) =~= entry_views(before).drop_first());
                assert(entry_views(buffer@) =~= entry_views(mid).push(e@));
                assert(entry_views(buffer@) =~= old_es.skip(i + 1) + target.take(i + 1));
            }
            i = i + 1;
        }
        self.buffer = buffer;
        proof {
            assert(entry_views(self.buffer@) =~= target);
            assert(target.take(n as int) =~= target);
            let ne = self.entries();
            assert forall|k: int| 0 <= k < ne.len() implies (#[trigger] ne[k]).seq == self.seq - ne.len() + 1 + k
                && ne[k].hidden == !query_matches(self.filter@, ne[k]) by {
                assert(ne[k] == with_hidden(old_es[k], !query_matches(q, old_es[k])));
            }
        }
        self.statistics.set_hidden(hidden);
    }

    /// The newest `limit` visible entries (oldest first), the counters, and the
    /// recording status.
    pub fn latest_visible_snapshot(&self, limit: usize) -> (r: DeviceSnapshot)
        requires
            self.wf(),
            self.spec_seq() * BYTES_PER_ENTRY <= u64::MAX,
        ensures
            entry_views(r.logs@) == last_n(visible(self.entries()), limit as nat),
            r.stats == stats_snapshot(self.stats()),
            r.recorder_status@ == self.status(),
    {
        let n = self.buffer.len();
        let ghost es = self.entries();
        let mut count: usize = 0;
        let mut i: usize = 0;
        while i < n
            invariant
                0 <= i <= n,
                n == es.len(),
                es == self.entries(),
                count == visible(es.take(i as int)).len(),
                count <= i,
            decreases n - i,
        {
            assert(es.take(i + 1).drop_last() =~= es.take(i as int));
            assert(self.buffer@[i as int]@ == es[i as int]);
            if !self.buffer.get(i).hidden {
                count = count + 1;
            }
            i = i + 1;
        }
        assert(es.take(n as int) =~= es);
        let skip = count.saturating_sub(limit);
        let ghost vis = visible(es);
        let mut logs: Vec<LogEntry> = Vec::new();
        let mut seen: usize = 0;
        let mut i: usize = 0;
        while i < n
            invariant
                0 <= i <= n,
                n == es.len(),
                es == self.entries(),
                vis == visible(es),
                count == vis.len(),
                skip <= count,
                seen == visible(es.take(i as int)).len(),
                seen <= i,
                entry_views(logs@) == visible(es.take(i as int)).subrange(
                    if seen < skip { seen as int } else { skip as int },
                    seen as int,
                ),
            decreases n - i,
        {
            let ghost vi = visible(es.take(i as int));
            assert(es.take(i + 1).drop_last() =~= es.take(i as int));
            assert(self.buffer@[i as int]@ == es[i as int]);
            let e = self.buffer.get(i);
            if !e.hidden {
                if seen >= skip {
                    let ghost before = logs@;
                    logs.push(e.clone());
                    assert(entry_views(logs@) =~= entry_views(before).push(es[i as int]));
                }
                seen = seen + 1;
                assert(entry_views(logs@) =~= visible(es.take(i + 1)).subrange(
                    if seen < skip { seen as int } else { skip as int },
                    seen as int,
                ));
            }
            i = i + 1;
        }
        assert(es.take(n as int) =~= es);
        assert(entry_views(logs@) =~= last_n(vis, limit as nat));
        DeviceSnapshot {
            logs,
            stats: self.statistics.snapshot(),
            recorder_status: self.recorder_status.clone(),
        }
    }

    /// Sequence numbers, oldest first, of the visible entries among the newest
    /// [`SEARCH_WINDOW`] whose message contains `query`, both lower-cased.  The empty
    /// query finds nothing.
    pub fn search_visible_sequences(&self, query: &str) -> (r: Vec<u64>)
        requires
            self.wf(),
        ensures
            query@.len() == 0 ==> r@ == Seq::<u64>::empty(),
            query@.len() > 0 ==> r@ == search_hits(
                last_n(self.entries(), SEARCH_WINDOW as nat),
                unicode_lowercase(query@),
            ),
    {
        if query.is_empty() {
            return Vec::new();
        }
        let lowered = to_lowercase(query);
        let n = self.buffer.len();
        let ghost es = self.entries();
        let start = n.saturating_sub(SEARCH_WINDOW);
        let ghost window = last_n(es, SEARCH_WINDOW as nat);
        assert(window =~= es.subrange(start as int, n as int));
        let mut hits: Vec<u64> = Vec::new();
        let mut i = start;
        assert(window.take(0) =~= seq![]);
        while i < n
            invariant
                start <= i <= n,
                n == es.len(),
                es == self.entries(),
                window == es.subrange(start as int, n as int),
                lowered@ == unicode_lowercase(query@),
                hits@ == search_hits(window.take(i - start), lowered@),
            decreases n - i,
        {
            assert(window.take(i + 1 - start).drop_last() =~= window.take(i - start));
            assert(window.take(i + 1 - start).last() == es[i as int]);
            assert(self.buffer@[i as int]@ == es[i as int]);
            let e = self.buffer.get(i);
            if !e.hidden {
                let m = to_lowercase(e.message.as_str());
                if is_search_hit(e, m.as_str(), lowered.as_str()) {
                    hits.push(e.seq);
                }
            }
            i = i + 1;
        }
        assert(window.take(n - start) =~= window);
        hits
    }

    /// The threadtime lines an export writes, oldest first: every buffered entry
    /// ([`ExportMode::All`]) or the visible ones ([`ExportMode::Filtered`]).
    pub fn export_lines(&self, mode: ExportMode) -> (r: Vec<String>)
        ensures
            r@.map_values(|s: String| s@) == (match mode {
                ExportMode::All => self.entries(),
                ExportMode::Filtered => visible(self.entries()),
            }).map_values(|e: LogEntryView| threadtime_text(e)),
    {
        let n = self.buffer.len();
        let ghost es = self.entries();
        let ghost chosen = match mode {
            ExportMode::All => es,
            ExportMode::Filtered => visible(es),
        };
        let mut lines: Vec<String> = Vec::new();
        let mut i: usize = 0;
        while i < n
            invariant
                0 <= i <= n,
                n == es.len(),
                es == self.entries(),
                lines@.map_values(|s: String| s@) == (match mode {
                    ExportMode::All => es.take(i as int),
                    ExportMode::Filtered => visible(es.take(i as int)),
                }).map_values(|e: LogEntryView| threadtime_text(e)),
            decreases n - i,
        {
            assert(es.take(i + 1).drop_last() =~= es.take(i as int));
            assert(self.buffer@[i as int]@ == es[i as int]);
            let e = self.buffer.get(i);
            let wanted = match mode {
                ExportMode::All => true,
                ExportMode::Filtered => !e.hidden,
            };
            let ghost before = lines@;
            let ghost prev = es.take(i as int);
            let ghost next = es.take(i + 1);
            if wanted {
                let line = format_threadtime_line(e);
                lines.push(line);
                proof {
                    let f = |e: LogEntryView| threadtime_text(e);
                    assert(lines@.map_values(|s: String| s@) =~= before.map_values(|s: String| s@).push(threadtime_text(es[i as int])));
                    match mode {
                        ExportMode::All => {
                            assert(next =~= prev.push(es[i as int]));
                            assert(next.map_values(f) =~= prev.map_values(f).push(f(es[i as int])));
                        },
                        ExportMode::Filtered => {
                            assert(visible(next) == visible(prev).push(es[i as int]));
                            assert(visible(next).map_values(f) =~= visible(prev).map_values(f).push(f(es[i as int])));
                        },
                    }
                }
            } else {
                proof {
                    assert(visible(next) == visible(prev));
                }
            }
            i = i + 1;
        }
        assert(es.take(n as int) =~= es);
        lines
    }

    /// The file the next raw line is recorded to, on local day `day` at hour `hour`;
    /// `None` when this device does not record.
    pub fn record_target(&self, day: &str, hour: u32) -> (r: Option<PathBuf>)
        ensures
            r == self.record_file(day@, hour as nat),
    {
        self.recorder.target_path(day, hour)
    }

    /// Stores how recording the last raw line went as the recording status.
    pub fn apply_record_outcome(&mut self, outcome: RecordOutcome)
        requires
            old(self).wf(),
        ensures
            outcome_applied(*old(self), *final(self), outcome),
    {
        self.recorder_status = match outcome {
            RecordOutcome::Disabled => RecorderStatus::disabled(),
            RecordOutcome::Written(path) => self.recorder.record_written(path),
            RecordOutcome::Failed(w) => RecorderStatus::failed(w),
        };
    }
}

/// Setting a filter shows exactly the buffered entries that it matches, in order.
pub proof fn filter_shows_matching(es: Seq<LogEntryView>, q: Seq<TermView>)
    ensures
        visible(refiltered(es, q)) == es.filter(|e: LogEntryView| query_matches(q, e)).map_values(
            |e: LogEntryView| with_hidden(e, false),
        ),
    decreases es.len(),
{
    reveal(Seq::filter);
    let pred = |e: LogEntryView| query_matches(q, e);
    let shown = |e: LogEntryView| with_hidden(e, false);
    if es.len() > 0 {
        let pre = es.drop_last();
        filter_shows_matching(pre, q);
        assert(refiltered(es, q).drop_last() =~= refiltered(pre, q));
        assert(refiltered(es, q).last() == with_hidden(es.last(), !query_matches(q, es.last())));
        if query_matches(q, es.last()) {
            assert(es.filter(pred) == pre.filter(pred).push(es.last()));
            assert(es.filter(pred).map_values(shown) =~= pre.filter(pred).map_values(shown).push(
                with_hidden(es.last(), false),
            ));
        } else {
            assert(es.filter(pred) == pre.filter(pred));
        }
    } else {
        assert(es.filter(pred) =~= Seq::<LogEntryView>::empty());
        assert(refiltered(es, q) =~= Seq::<LogEntryView>::empty());
    }
}

/// A filter replaces the one before it: what an entry shows depends on the last filter
/// set only, so setting the empty filter shows every entry again.
pub proof fn last_filter_wins(es: Seq<LogEntryView>, q1: Seq<TermView>, q2: Seq<TermView>)
    ensures
        refiltered(refiltered(es, q1), q2) == refiltered(es, q2),
{
    assert forall|i: int| 0 <= i < es.len() implies #[trigger] refiltered(refiltered(es, q1), q2)[i] == refiltered(es, q2)[i] by {
        let e = es[i];
        let h = with_hidden(e, !query_matches(q1, e));
        assert(query_matches(q2, h) == query_matches(q2, e)) by {
            assert forall|k: int| 0 <= k < q2.len() implies crate::filter::term_holds(#[trigger] q2[k], h) == crate::filter::term_holds(q2[k], e) by {}
        }
    }
    assert(refiltered(refiltered(es, q1), q2) =~= refiltered(es, q2));
}

} // verus!
