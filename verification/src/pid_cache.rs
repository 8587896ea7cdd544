use std::collections::HashMap;
use std::time::{Duration, Instant};
use vstd::prelude::*;

use crate::text::{
    all_ascii_digits, ascii_lowercase, chars_of, join_spaced, line_spans, lines, parse_u32,
    parse_u32_span, span_starts_with, starts_with, trim, trim_span, word_spans, words,
};

verus! {

#[verifier::external_type_specification]
#[verifier::external_body]
pub struct ExInstant(Instant);

/// `Instant::now`: the current time of the monotonic clock (nothing is promised of it).
#[verifier::external_body]
fn instant_now() -> Instant {
    Instant::now()
}

/// `Instant::elapsed`: the time since `at` (it depends on the clock; nothing is promised).
#[verifier::external_body]
fn instant_elapsed(at: &Instant) -> Duration {
    at.elapsed()
}

/// What `Duration::as_nanos` gives for `d`: its whole length in nanoseconds.  `Duration`
/// is opaque here, so the number is named rather than computed from its fields.
pub uninterp spec fn nanos_of(d: Duration) -> u128;

/// `Duration::as_nanos`: the length of `d` in nanoseconds, [`nanos_of`]`(d)`.
#[verifier::external_body]
fn duration_nanos(d: &Duration) -> (r: u128)
    ensures
        r == nanos_of(*d),
{
    d.as_nanos()
}

/// Maps process IDs to package/process names, refreshed from `adb shell ps`.
#[derive(Debug)]
pub struct PidCache {
    map: HashMap<u32, String>,
    last_refresh: Option<Instant>,
    refresh_interval_nanos: u128,
}

/// The default refresh interval: five seconds, in nanoseconds.
pub const DEFAULT_REFRESH_NANOS: u128 = 5000000000;

/// Whether a refresh is due: always when the cache was never refreshed (`None`),
/// otherwise once the time since the last refresh reaches the interval.
pub fn refresh_due(elapsed_nanos: Option<u128>, interval_nanos: u128) -> (r: bool)
    ensures
        r == (elapsed_nanos is None || elapsed_nanos->0 >= interval_nanos),
{
    match elapsed_nanos {
        None => true,
        Some(e) => e >= interval_nanos,
    }
}

pub open spec fn kw_pid() -> Seq<char> {
    seq!['p', 'i', 'd']
}

pub open spec fn kw_user() -> Seq<char> {
    seq!['u', 's', 'e', 'r']
}

/// The `(pid, name)` that one line of `ps` output gives: lines are trimmed; blank
/// lines and header lines (starting with `pid` or `user`, in any ASCII case) give
/// nothing; otherwise the line is `PID NAME...` when its first word is all ASCII
/// digits, else `USER PID NAME...`; the name is the remaining words joined by spaces.
pub open spec fn ps_entry(line: Seq<char>) -> Option<(u32, Seq<char>)> {
    let t = trim(line);
    let lower = ascii_lowercase(t);
    let ws = words(t);
    if t.len() == 0 || starts_with(lower, kw_pid()) || starts_with(lower, kw_user()) {
        None
    } else if ws.len() >= 1 && all_ascii_digits(ws[0]) {
        if ws.len() < 2 {
            None
        } else {
            match parse_u32(ws[0]) {
                Some(pid) => Some((pid, join_spaced(ws.skip(1)))),
                None => None,
            }
        }
    } else {
        if ws.len() < 3 {
            None
        } else {
            match parse_u32(ws[1]) {
                Some(pid) => Some((pid, join_spaced(ws.skip(2)))),
                None => None,
            }
        }
    }
}

/// The names that a list of `ps` lines gives; a later line wins for the same pid.
pub open spec fn ps_map(ls: Seq<Seq<char>>) -> Map<u32, Seq<char>>
    decreases ls.len(),
{
    if ls.len() == 0 {
        Map::empty()
    } else {
        let m = ps_map(ls.drop_last());
        match ps_entry(ls.last()) {
            Some((pid, name)) => m.insert(pid, name),
            None => m,
        }
    }
}

/// Some line of `ls` gives an entry.
pub open spec fn has_ps_entry(ls: Seq<Seq<char>>) -> bool {
    exists|i: int| 0 <= i < ls.len() && (#[trigger] ps_entry(ls[i])) is Some
}

pub open spec fn text_map(m: Map<u32, String>) -> Map<u32, Seq<char>> {
    m.map_values(|s: String| s@)
}

/// The words `ws[from..]` joined with single spaces, from the spans that denote them.
fn join_words(cs: &[char], spans: &Vec<(usize, usize)>, from: usize, ws: Ghost<Seq<Seq<char>>>) -> (out: String)
    requires
        1 <= from < spans@.len(),
        spans@.len() == ws@.len(),
        forall|k: int|
            #![trigger spans@[k]]
            0 <= k < spans@.len() ==> {
                &&& spans@[k].0 <= spans@[k].1 <= cs@.len()
                &&& cs@.subrange(spans@[k].0 as int, spans@[k].1 as int) == ws@[k]
            },
    ensures
        out@ == join_spaced(ws@.skip(from as int)),
{
    let ghost tail = ws@.skip(from as int);
    let mut out = String::new();
    let mut j = from;
    while j < spans.len()
        invariant
            from <= j <= spans@.len(),
            spans@.len() == ws@.len(),
            tail == ws@.skip(from as int),
            forall|k: int|
                #![trigger spans@[k]]
                0 <= k < spans@.len() ==> {
                    &&& spans@[k].0 <= spans@[k].1 <= cs@.len()
                    &&& cs@.subrange(spans@[k].0 as int, spans@[k].1 as int) == ws@[k]
                },
            out@ == join_spaced(tail.take(j - from)),
        decreases spans@.len() - j,
    {
        let (lo, hi) = spans[j];
        assert(tail.take(j + 1 - from).drop_last() =~= tail.take(j - from));
        assert(tail.take(j + 1 - from).last() == ws@[j as int]);
        if j > from {
            out.push(' ');
        }
        let mut i = lo;
        let ghost before = out@;
        while i < hi
            invariant
                lo <= i <= hi <= cs@.len(),
                out@ == before + cs@.subrange(lo as int, i as int),
            decreases hi - i,
        {
            out.push(cs[i]);
            i = i + 1;
            assert(out@ =~= before + cs@.subrange(lo as int, i as int));
        }
        j = j + 1;
        assert(out@ =~= join_spaced(tail.take(j - from)));
    }
    assert(tail.take(j - from) =~= tail);
    out
}

/// The entry of the `ps` line `cs[lo..hi]`.
fn ps_entry_of_span(cs: &[char], lo: usize, hi: usize) -> (r: Option<(u32, String)>)
    requires
        lo <= hi <= cs@.len(),
    ensures
        match (r, ps_entry(cs@.subrange(lo as int, hi as int))) {
            (None, None) => true,
            (Some((p, n)), Some((q, m))) => p == q && n@ == m,
            _ => false,
        },
{
    let (a, b) = trim_span(cs, lo, hi);
    let ghost t = cs@.subrange(a as int, b as int);
    if a == b {
        return None;
    }
    let lower = lower_span(cs, a, b);
    let kp = ['p', 'i', 'd'];
    let ku = ['u', 's', 'e', 'r'];
    assert(kp@ =~= kw_pid());
    assert(ku@ =~= kw_user());
    assert(lower@.subrange(0, lower@.len() as int) =~= lower@);
    if span_starts_with(lower.as_slice(), 0, lower.len(), &kp) || span_starts_with(
        lower.as_slice(),
        0,
        lower.len(),
        &ku,
    ) {
        return None;
    }
    let spans = word_spans(cs, a, b);
    let ghost ws = words(t);
    if spans.len() == 0 {
        return None;
    }
    let (f0, f1) = spans[0];
    assert(cs@.subrange(f0 as int, f1 as int) == ws[0]);
    let mut digits = true;
    let mut i = f0;
    while i < f1
        invariant
            f0 <= i <= f1 <= cs@.len(),
            digits == all_ascii_digits(cs@.subrange(f0 as int, i as int)),
        decreases f1 - i,
    {
        let c = cs[i];
        if !('0' <= c && c <= '9') {
            digits = false;
        }
        i = i + 1;
        assert(cs@.subrange(f0 as int, i as int).drop_last() =~= cs@.subrange(f0 as int, (i - 1) as int));
        assert(cs@.subrange(f0 as int, i as int).last() == c);
    }
    if digits {
        if spans.len() < 2 {
            return None;
        }
        match parse_u32_span(cs, f0, f1) {
            Some(pid) => {
                let name = join_words(cs, &spans, 1, Ghost(ws));
                Some((pid, name))
            },
            None => None,
        }
    } else {
        if spans.len() < 3 {
            return None;
        }
        let (p0, p1) = spans[1];
        assert(cs@.subrange(p0 as int, p1 as int) == ws[1]);
        match parse_u32_span(cs, p0, p1) {
            Some(pid) => {
                let name = join_words(cs, &spans, 2, Ghost(ws));
                Some((pid, name))
            },
            None => None,
        }
    }
}

fn lower_span(cs: &[char], lo: usize, hi: usize) -> (out: Vec<char>)
    requires
        lo <= hi <= cs@.len(),
    ensures
        out@ == ascii_lowercase(cs@.subrange(lo as int, hi as int)),
{
    let mut out: Vec<char> = Vec::new();
    let mut i = lo;
    while i < hi
        invariant
            lo <= i <= hi <= cs@.len(),
            out@ == ascii_lowercase(cs@.subrange(lo as int, i as int)),
        decreases hi - i,
    {
        out.push(crate::text::to_ascii_lower_char(cs[i]));
        i = i + 1;
        assert(out@ =~= ascii_lowercase(cs@.subrange(lo as int, i as int)));
    }
    out
}

impl Default for PidCache {
    /// An empty cache, refreshed every five seconds.
    fn default() -> (r: Self)
        ensures
            r.names() == Map::<u32, Seq<char>>::empty(),
            r.last_refresh_at() is None,
            r.interval_nanos() == DEFAULT_REFRESH_NANOS,
    {
        Self::with_interval_nanos(DEFAULT_REFRESH_NANOS)
    }
}

impl PidCache {
    /// The cached names, by pid.
    pub closed spec fn names(&self) -> Map<u32, Seq<char>> {
        text_map(self.map@)
    }

    /// When the cache was last refreshed, if ever.
    pub closed spec fn last_refresh_at(&self) -> Option<Instant> {
        self.last_refresh
    }

    /// The cache has been refreshed at least once.
    pub open spec fn refreshed(&self) -> bool {
        self.last_refresh_at() is Some
    }

    /// The refresh interval, in nanoseconds.
    pub closed spec fn interval_nanos(&self) -> u128 {
        self.refresh_interval_nanos
    }

    /// An empty cache, never refreshed, to be refreshed every `nanos` nanoseconds.
    pub fn with_interval_nanos(nanos: u128) -> (r: Self)
        ensures
            r.names() == Map::<u32, Seq<char>>::empty(),
            r.last_refresh_at() is None,
            r.interval_nanos() == nanos,
    {
        let r = PidCache { map: HashMap::new(), last_refresh: None, refresh_interval_nanos: nanos };
        assert(r.names() =~= Map::<u32, Seq<char>>::empty());
        r
    }

    /// An empty cache, never refreshed, to be refreshed every `refresh_interval` (held
    /// as its length in nanoseconds, which `Duration::as_nanos` gives).
    pub fn new(refresh_interval: Duration) -> (r: Self)
        ensures
            r.names() == Map::<u32, Seq<char>>::empty(),
            r.last_refresh_at() is None,
            r.interval_nanos() == nanos_of(refresh_interval),
    {
        Self::with_interval_nanos(duration_nanos(&refresh_interval))
    }

    /// The name cached for `pid`.
    pub fn resolve(&self, pid: u32) -> (r: Option<&str>)
        ensures
            match r {
                Some(s) => self.names().contains_key(pid) && s@ == self.names()[pid],
                None => !self.names().contains_key(pid),
            },
    {
        broadcast use vstd::std_specs::hash::group_hash_axioms;

        match self.map.get(&pid) {
            Some(s) => Some(s.as_str()),
            None => None,
        }
    }

    /// Caches `name` for `pid`; an empty name is ignored.
    pub fn insert(&mut self, pid: u32, name: &str)
        ensures
            final(self).names() == if name@.len() == 0 {
                old(self).names()
            } else {
                old(self).names().insert(pid, name@)
            },
            final(self).last_refresh_at() == old(self).last_refresh_at(),
            final(self).interval_nanos() == old(self).interval_nanos(),
    {
        broadcast use vstd::std_specs::hash::group_hash_axioms;

        if !name.is_empty() {
            let name = name.to_owned();
            self.map.insert(pid, name);
            assert(self.names() =~= old(self).names().insert(pid, name@));
        }
    }

    /// What is cached is what is read back: once a non-empty name is inserted for a
    /// pid, resolving that pid gives the name, and other pids are resolved as before.
    pub proof fn resolve_after_insert(before: PidCache, after: PidCache, pid: u32, name: Seq<char>, other: u32)
        requires
            name.len() > 0,
            after.names() == before.names().insert(pid, name),
            other != pid,
        ensures
            after.names().contains_key(pid) && after.names()[pid] == name,
            after.names().contains_key(other) == before.names().contains_key(other),
            before.names().contains_key(other) ==> after.names()[other] == before.names()[other],
    {
    }

    /// Whether the cache is due for a refresh when `elapsed_nanos` nanoseconds have
    /// passed since its last refresh: always before the first refresh, then once the
    /// elapsed time reaches the interval.
    pub open spec fn due_at(&self, elapsed_nanos: u128) -> bool {
        !self.refreshed() || elapsed_nanos >= self.interval_nanos()
    }

    /// Whether the cache is due for a refresh (see [`refresh_due`]): always before the
    /// first refresh, then once the time since the last refresh, read from the clock,
    /// reaches the interval.  The answer is [`PidCache::due_at`] for the length, in
    /// nanoseconds, of the duration the clock gave; which duration that is depends on
    /// the clock and is not stated.
    pub fn needs_refresh(&self) -> (r: bool)
        ensures
            !self.refreshed() ==> r,
            self.interval_nanos() == 0 ==> r,
            self.refreshed() ==> exists|d: Duration| r == self.due_at(#[trigger] nanos_of(d)),
    {
        let elapsed = match &self.last_refresh {
            None => None,
            Some(at) => {
                let d = instant_elapsed(at);
                Some(duration_nanos(&d))
            },
        };
        refresh_due(elapsed, self.refresh_interval_nanos)
    }

    /// Records that the cache was refreshed now.
    pub fn mark_refreshed(&mut self)
        ensures
            final(self).refreshed(),
            final(self).names() == old(self).names(),
            final(self).interval_nanos() == old(self).interval_nanos(),
    {
        self.last_refresh = Some(instant_now());
    }

    /// Replaces the whole cache with the names that a `ps -A -o PID,NAME` (or
    /// `USER PID NAME`) output lists, so exited processes do not linger, and marks it
    /// refreshed.  An output that lists no process leaves the cache as it was.
    pub fn apply_ps_output(&mut self, output: &str)
        ensures
            has_ps_entry(lines(output@)) ==> final(self).names() == ps_map(lines(output@))
                && final(self).refreshed() && final(self).interval_nanos() == old(self).interval_nanos(),
            !has_ps_entry(lines(output@)) ==> final(self).names() == old(self).names()
                && final(self).last_refresh_at() == old(self).last_refresh_at()
                && final(self).interval_nanos() == old(self).interval_nanos(),
    {
        broadcast use vstd::std_specs::hash::group_hash_axioms;

        let cs = chars_of(output);
        let cs = cs.as_slice();
        let spans = line_spans(cs);
        let ghost ls = lines(cs@);
        let mut next: HashMap<u32, String> = HashMap::new();
        let mut any = false;
        let mut i: usize = 0;
        assert(text_map(next@) =~= ps_map(ls.take(0)));
        while i < spans.len()
            invariant
                0 <= i <= spans@.len(),
                ls == lines(cs@),
                spans@.len() == ls.len(),
                forall|k: int|
                    #![trigger spans@[k]]
                    0 <= k < spans@.len() ==> {
                        &&& spans@[k].0 <= spans@[k].1 <= cs@.len()
                        &&& cs@.subrange(spans@[k].0 as int, spans@[k].1 as int) == ls[k]
                    },
                text_map(next@) == ps_map(ls.take(i as int)),
                any == exists|k: int| 0 <= k < i && (#[trigger] ps_entry(ls[k])) is Some,
            decreases spans@.len() - i,
        {
            let (lo, hi) = spans[i];
            let e = ps_entry_of_span(cs, lo, hi);
            assert(ls.take(i + 1).drop_last() =~= ls.take(i as int));
            assert(ls.take(i + 1).last() == ls[i as int]);
            match e {
                Some((pid, name)) => {
                    next.insert(pid, name);
                    any = true;
                },
                None => {},
            }
            i = i + 1;
            assert(text_map(next@) =~= ps_map(ls.take(i as int)));
        }
        assert(ls.take(i as int) =~= ls);
        if any {
            self.map = next;
            self.mark_refreshed();
        }
    }
}

/// A refreshed cache is due for a refresh exactly when the time elapsed since its last
/// refresh has reached its interval (both in nanoseconds), and once due it stays due as
/// more time passes; a cache never refreshed is always due.  So a cache refreshed 6 s
/// ago with the default 5 s interval is due.
pub proof fn refresh_due_once_the_interval_has_passed(c: PidCache, elapsed: u128, later: u128)
    ensures
        !c.refreshed() ==> c.due_at(elapsed),
        c.refreshed() ==> (c.due_at(elapsed) <==> elapsed >= c.interval_nanos()),
        c.due_at(elapsed) && elapsed <= later ==> c.due_at(later),
        c.refreshed() && c.interval_nanos() == DEFAULT_REFRESH_NANOS ==> (c.due_at(6000000000) && !c.due_at(4999999999)),
{
}

} // verus!
