use vstd::prelude::*;

use crate::log_entry::{level_name, LogEntry, LogEntryView, LogLevel};
use crate::parser::level_of_letter;
use crate::text::{
    no_char,
    ascii_lowercase, chars_of, contains, contains_chars, parse_u32, parse_u32_span, span_is,
    string_of, to_ascii_lower, to_ascii_lower_char, word_spans, words,
};

verus! {

/// One `key:value` token of a filter query; `-key:value` excludes what `key:value`
/// selects, and a package or tag value may list `|`-separated alternatives.
#[derive(Debug, PartialEq, Eq)]
pub enum FilterTerm {
    Package(String),
    Tag(String),
    Level(LogLevel),
    /// Explicit "no levels selected" from the UI checkbox group.
    NoLevels,
    Pid(u32),
    Text(String),
    ExcludePackage(String),
    ExcludeTag(String),
    ExcludePid(u32),
    ExcludeText(String),
}

/// A [`FilterTerm`] with its text as a character sequence.
pub enum TermView {
    Package(Seq<char>),
    Tag(Seq<char>),
    Level(LogLevel),
    NoLevels,
    Pid(u32),
    Text(Seq<char>),
    ExcludePackage(Seq<char>),
    ExcludeTag(Seq<char>),
    ExcludePid(u32),
    ExcludeText(Seq<char>),
}

impl View for FilterTerm {
    type V = TermView;

    open spec fn view(&self) -> TermView {
        match self {
            FilterTerm::Package(v) => TermView::Package(v@),
            FilterTerm::Tag(v) => TermView::Tag(v@),
            FilterTerm::Level(l) => TermView::Level(*l),
            FilterTerm::NoLevels => TermView::NoLevels,
            FilterTerm::Pid(p) => TermView::Pid(*p),
            FilterTerm::Text(v) => TermView::Text(v@),
            FilterTerm::ExcludePackage(v) => TermView::ExcludePackage(v@),
            FilterTerm::ExcludeTag(v) => TermView::ExcludeTag(v@),
            FilterTerm::ExcludePid(p) => TermView::ExcludePid(*p),
            FilterTerm::ExcludeText(v) => TermView::ExcludeText(v@),
        }
    }
}

impl Clone for FilterTerm {
    fn clone(&self) -> (r: Self)
        ensures
            r@ == self@,
    {
        match self {
            FilterTerm::Package(v) => FilterTerm::Package(v.clone()),
            FilterTerm::Tag(v) => FilterTerm::Tag(v.clone()),
            FilterTerm::Level(l) => FilterTerm::Level(*l),
            FilterTerm::NoLevels => FilterTerm::NoLevels,
            FilterTerm::Pid(p) => FilterTerm::Pid(*p),
            FilterTerm::Text(v) => FilterTerm::Text(v.clone()),
            FilterTerm::ExcludePackage(v) => FilterTerm::ExcludePackage(v.clone()),
            FilterTerm::ExcludeTag(v) => FilterTerm::ExcludeTag(v.clone()),
            FilterTerm::ExcludePid(p) => FilterTerm::ExcludePid(*p),
            FilterTerm::ExcludeText(v) => FilterTerm::ExcludeText(v.clone()),
        }
    }
}

/// A parsed filter: a list of terms.
#[derive(Debug, PartialEq, Eq)]
pub struct FilterQuery {
    terms: Vec<FilterTerm>,
}

impl View for FilterQuery {
    type V = Seq<TermView>;

    closed spec fn view(&self) -> Seq<TermView> {
        self.terms@.map_values(|t: FilterTerm| t@)
    }
}

// ---------------------------------------------------------------------------
// What a query means
// ---------------------------------------------------------------------------

pub open spec fn kw_package() -> Seq<char> {
    seq!['p', 'a', 'c', 'k', 'a', 'g', 'e']
}

pub open spec fn kw_tag() -> Seq<char> {
    seq!['t', 'a', 'g']
}

pub open spec fn kw_level() -> Seq<char> {
    seq!['l', 'e', 'v', 'e', 'l']
}

pub open spec fn kw_pid() -> Seq<char> {
    seq!['p', 'i', 'd']
}

pub open spec fn kw_text() -> Seq<char> {
    seq!['t', 'e', 'x', 't']
}

pub open spec fn kw_none() -> Seq<char> {
    seq!['n', 'o', 'n', 'e']
}

/// The priority a level word names, in any ASCII case: a letter or a full name.
pub open spec fn level_word(v: Seq<char>) -> Option<LogLevel> {
    let l = ascii_lowercase(v);
    if l == seq!['v'] || l == seq!['v', 'e', 'r', 'b', 'o', 's', 'e'] {
        Some(LogLevel::Verbose)
    } else if l == seq!['d'] || l == seq!['d', 'e', 'b', 'u', 'g'] {
        Some(LogLevel::Debug)
    } else if l == seq!['i'] || l == seq!['i', 'n', 'f', 'o'] {
        Some(LogLevel::Info)
    } else if l == seq!['w'] || l == seq!['w', 'a', 'r', 'n'] {
        Some(LogLevel::Warn)
    } else if l == seq!['e'] || l == seq!['e', 'r', 'r', 'o', 'r'] {
        Some(LogLevel::Error)
    } else if l == seq!['a'] || l == seq!['a', 's', 's', 'e', 'r', 't'] {
        Some(LogLevel::Assert)
    } else {
        None
    }
}

/// The first `':'` of `s`, if any.
pub open spec fn first_colon(s: Seq<char>) -> Option<int> {
    if exists|i: int| 0 <= i < s.len() && s[i] == ':' {
        Some(choose|i: int| 0 <= i < s.len() && s[i] == ':' && forall|j: int| 0 <= j < i ==> s[j] != ':')
    } else {
        None
    }
}

/// The term a token stands for: `-key:value` excludes what `key:value` selects (for
/// the keys `package`, `tag`, `pid` and `text`); any other token is read by
/// [`plain_term_of`].
pub open spec fn term_of(tok: Seq<char>) -> Option<TermView> {
    if tok.len() > 0 && tok[0] == '-' {
        match plain_term_of(tok.drop_first()) {
            Some(TermView::Package(v)) => Some(TermView::ExcludePackage(v)),
            Some(TermView::Tag(v)) => Some(TermView::ExcludeTag(v)),
            Some(TermView::Pid(p)) => Some(TermView::ExcludePid(p)),
            Some(TermView::Text(v)) => Some(TermView::ExcludeText(v)),
            _ => None,
        }
    } else {
        plain_term_of(tok)
    }
}

/// The term a `key:value` token stands for, split at the first `':'`.  Unknown keys,
/// tokens without a `':'`, and values that do not parse give no term.
#[verifier::opaque]
pub open spec fn plain_term_of(tok: Seq<char>) -> Option<TermView> {
    match first_colon(tok) {
        None => None,
        Some(k) => {
            let key = tok.subrange(0, k);
            let value = tok.subrange(k + 1, tok.len() as int);
            if key == kw_package() {
                Some(TermView::Package(value))
            } else if key == kw_tag() {
                Some(TermView::Tag(value))
            } else if key == kw_level() {
                if ascii_lowercase(value) == kw_none() {
                    Some(TermView::NoLevels)
                } else {
                    match level_word(value) {
                        Some(l) => Some(TermView::Level(l)),
                        None => None,
                    }
                }
            } else if key == kw_pid() {
                match parse_u32(value) {
                    Some(p) => Some(TermView::Pid(p)),
                    None => None,
                }
            } else if key == kw_text() {
                Some(TermView::Text(value))
            } else {
                None
            }
        },
    }
}

/// The terms of a list of tokens, in order, skipping tokens that give none.
pub open spec fn terms_of(toks: Seq<Seq<char>>) -> Seq<TermView>
    decreases toks.len(),
{
    if toks.len() == 0 {
        seq![]
    } else {
        let rest = terms_of(toks.drop_last());
        match term_of(toks.last()) {
            Some(t) => rest.push(t),
            None => rest,
        }
    }
}

/// The terms of a query text: its whitespace-separated tokens, read as terms.
pub open spec fn query_terms(input: Seq<char>) -> Seq<TermView> {
    terms_of(words(input))
}

/// The package name of an entry, the empty text when it has none.
pub open spec fn package_text(e: LogEntryView) -> Seq<char> {
    match e.package_name {
        Some(p) => p,
        None => seq![],
    }
}

/// The `|`-separated alternatives of a value, in order (a value without `|` is its
/// own single alternative).
pub open spec fn alternatives(v: Seq<char>) -> Seq<Seq<char>>
    decreases v.len(),
{
    if v.len() == 0 {
        seq![Seq::<char>::empty()]
    } else {
        let a = alternatives(v.drop_last());
        if v.last() == '|' {
            a.push(Seq::<char>::empty())
        } else {
            a.update(a.len() - 1, a.last().push(v.last()))
        }
    }
}

/// Some alternative of `v` occurs in `hay`.
pub open spec fn contains_some(hay: Seq<char>, v: Seq<char>) -> bool {
    exists|k: int| 0 <= k < alternatives(v).len() && contains(hay, #[trigger] alternatives(v)[k])
}

/// What one term asks of an entry (level terms are handled as a group): a package or
/// tag term holds when one of its alternatives occurs, an excluding term when the term
/// it excludes does not hold.
pub open spec fn term_holds(t: TermView, e: LogEntryView) -> bool {
    match t {
        TermView::Package(v) => contains_some(package_text(e), v),
        TermView::Tag(v) => contains_some(e.tag, v),
        TermView::Level(_) => true,
        TermView::NoLevels => true,
        TermView::Pid(p) => e.pid == p,
        TermView::Text(v) => contains(e.message, v),
        TermView::ExcludePackage(v) => !contains_some(package_text(e), v),
        TermView::ExcludeTag(v) => !contains_some(e.tag, v),
        TermView::ExcludePid(p) => e.pid != p,
        TermView::ExcludeText(v) => !contains(e.message, v),
    }
}

pub open spec fn has_no_levels(q: Seq<TermView>) -> bool {
    exists|i: int| 0 <= i < q.len() && q[i] is NoLevels
}

pub open spec fn has_level_terms(q: Seq<TermView>) -> bool {
    exists|i: int| 0 <= i < q.len() && q[i] is Level
}

pub open spec fn selects_level(q: Seq<TermView>, l: LogLevel) -> bool {
    exists|i: int| 0 <= i < q.len() && q[i] == TermView::Level(l)
}

/// Whether an entry passes a query: no `level:none`; its level is one of the selected
/// levels (if any is selected: level terms OR together); and every other term holds
/// (they AND together), so an excluding term removes the entries it names, and a
/// package or tag term with alternatives keeps the entries that match any of them.
pub open spec fn query_matches(q: Seq<TermView>, e: LogEntryView) -> bool {
    &&& !has_no_levels(q)
    &&& (has_level_terms(q) ==> selects_level(q, e.level))
    &&& forall|i: int| 0 <= i < q.len() ==> term_holds(#[trigger] q[i], e)
}

// ---------------------------------------------------------------------------
// Parsing
// ---------------------------------------------------------------------------

fn lowered(cs: &[char], lo: usize, hi: usize) -> (out: Vec<char>)
    requires
        lo <= hi <= cs@.len(),
    ensures
        out@ == ascii_lowercase(cs@.subrange(lo as int, hi as int)),
{
    let mut out: Vec<char> = Vec::new();
    let mut i = lo;
    while i < hi
        invariant
            lo <= i <= hi <= cs@.len(),
            out@ == ascii_lowercase(cs@.subrange(lo as int, i as int)),
        decreases hi - i,
    {
        out.push(to_ascii_lower_char(cs[i]));
        i = i + 1;
        assert(out@ =~= ascii_lowercase(cs@.subrange(lo as int, i as int)));
    }
    out
}

fn whole_is(v: &[char], lit: &[char]) -> (r: bool)
    ensures
        r == (v@ == lit@),
{
    let r = span_is(v, 0, v.len(), lit);
    assert(v@.subrange(0, v@.len() as int) =~= v@);
    r
}

fn level_word_of(cs: &[char], lo: usize, hi: usize) -> (r: Option<LogLevel>)
    requires
        lo <= hi <= cs@.len(),
    ensures
        r == level_word(cs@.subrange(lo as int, hi as int)),
{
    let l = lowered(cs, lo, hi);
    let l = l.as_slice();
    let k1 = ['v'];
    let k2 = ['v', 'e', 'r', 'b', 'o', 's', 'e'];
    let k3 = ['d'];
    let k4 = ['d', 'e', 'b', 'u', 'g'];
    let k5 = ['i'];
    let k6 = ['i', 'n', 'f', 'o'];
    let k7 = ['w'];
    let k8 = ['w', 'a', 'r', 'n'];
    let k9 = ['e'];
    let k10 = ['e', 'r', 'r', 'o', 'r'];
    let k11 = ['a'];
    let k12 = ['a', 's', 's', 'e', 'r', 't'];
    assert(k1@ =~= seq!['v']);
    assert(k2@ =~= seq!['v', 'e', 'r', 'b', 'o', 's', 'e']);
    assert(k3@ =~= seq!['d']);
    assert(k4@ =~= seq!['d', 'e', 'b', 'u', 'g']);
    assert(k5@ =~= seq!['i']);
    assert(k6@ =~= seq!['i', 'n', 'f', 'o']);
    assert(k7@ =~= seq!['w']);
    assert(k8@ =~= seq!['w', 'a', 'r', 'n']);
    assert(k9@ =~= seq!['e']);
    assert(k10@ =~= seq!['e', 'r', 'r', 'o', 'r']);
    assert(k11@ =~= seq!['a']);
    assert(k12@ =~= seq!['a', 's', 's', 'e', 'r', 't']);
    if whole_is(l, &k1) || whole_is(l, &k2) {
        Some(LogLevel::Verbose)
    } else if whole_is(l, &k3) || whole_is(l, &k4) {
        Some(LogLevel::Debug)
    } else if whole_is(l, &k5) || whole_is(l, &k6) {
        Some(LogLevel::Info)
    } else if whole_is(l, &k7) || whole_is(l, &k8) {
        Some(LogLevel::Warn)
    } else if whole_is(l, &k9) || whole_is(l, &k10) {
        Some(LogLevel::Error)
    } else if whole_is(l, &k11) || whole_is(l, &k12) {
        Some(LogLevel::Assert)
    } else {
        None
    }
}

/// The term that the token `cs[lo..hi]` stands for.
fn term_of_span(cs: &[char], lo: usize, hi: usize) -> (r: Option<FilterTerm>)
    requires
        lo <= hi <= cs@.len(),
    ensures
        match (r, term_of(cs@.subrange(lo as int, hi as int))) {
            (None, None) => true,
            (Some(t), Some(v)) => t@ == v,
            _ => false,
        },
{
    let ghost tok = cs@.subrange(lo as int, hi as int);
    if lo < hi && cs[lo] == '-' {
        assert(tok.drop_first() =~= cs@.subrange(lo + 1, hi as int));
        match plain_term_of_span(cs, lo + 1, hi) {
            Some(FilterTerm::Package(v)) => Some(FilterTerm::ExcludePackage(v)),
            Some(FilterTerm::Tag(v)) => Some(FilterTerm::ExcludeTag(v)),
            Some(FilterTerm::Pid(p)) => Some(FilterTerm::ExcludePid(p)),
            Some(FilterTerm::Text(v)) => Some(FilterTerm::ExcludeText(v)),
            _ => None,
        }
    } else {
        plain_term_of_span(cs, lo, hi)
    }
}

/// Whether some `|`-separated alternative of `v` occurs in `hay`.
fn contains_alternative(hay: &[char], v: &[char]) -> (r: bool)
    ensures
        r == contains_some(hay@, v@),
{
    let mut found = false;
    let mut st: usize = 0;
    let mut i: usize = 0;
    assert(v@.take(0) =~= Seq::<char>::empty());
    assert(v@.subrange(0, 0) =~= Seq::<char>::empty());
    while i < v.len()
        invariant
            0 <= st <= i <= v@.len(),
            alternatives(v@.take(i as int)).len() >= 1,
            alternatives(v@.take(i as int)).last() == v@.subrange(st as int, i as int),
            found == exists|k: int|
                0 <= k < alternatives(v@.take(i as int)).len() - 1 && contains(hay@, #[trigger] alternatives(v@.take(i as int))[k]),
        decreases v@.len() - i,
    {
        let ghost a = alternatives(v@.take(i as int));
        let ghost b = alternatives(v@.take(i + 1));
        assert(v@.take(i + 1).drop_last() =~= v@.take(i as int));
        assert(v@.take(i + 1).last() == v@[i as int]);
        let ghost old_found = found;
        if v[i] == '|' {
            assert(b == a.push(Seq::<char>::empty()));
            let piece = contains_chars(&hay, slice_of(v, st, i).as_slice());
            found = found || piece;
            proof {
                assert(b.len() - 1 == a.len());
                assert(b[a.len() - 1] == a.last());
                if old_found {
                    let k = choose|k: int| 0 <= k < a.len() - 1 && contains(hay@, #[trigger] a[k]);
                    assert(b[k] == a[k]);
                }
                if found {
                    if !old_found {
                        assert(contains(hay@, b[a.len() - 1]));
                    }
                } else {
                    assert forall|k: int| 0 <= k < b.len() - 1 implies !contains(hay@, #[trigger] b[k]) by {
                        if k < a.len() - 1 {
                            assert(b[k] == a[k]);
                        }
                    }
                }
            }
            st = i + 1;
            assert(v@.subrange(st as int, i + 1) =~= Seq::<char>::empty());
        } else {
            assert(b == a.update(a.len() - 1, a.last().push(v@[i as int])));
            assert(v@.subrange(st as int, i + 1) =~= v@.subrange(st as int, i as int).push(v@[i as int]));
            proof {
                if old_found {
                    let k = choose|k: int| 0 <= k < a.len() - 1 && contains(hay@, #[trigger] a[k]);
                    assert(b[k] == a[k]);
                } else {
                    assert forall|k: int| 0 <= k < b.len() - 1 implies !contains(hay@, #[trigger] b[k]) by {
                        assert(b[k] == a[k]);
                    }
                }
            }
        }
        i = i + 1;
    }
    assert(v@.take(i as int) =~= v@);
    let last = contains_chars(&hay, slice_of(v, st, i).as_slice());
    proof {
        let a = alternatives(v@);
        if last {
            assert(contains(hay@, a[a.len() - 1]));
        }
        if !found && !last {
            assert forall|k: int| 0 <= k < a.len() implies !contains(hay@, #[trigger] a[k]) by {
                if k == a.len() - 1 {
                } else {
                }
            }
        }
    }
    found || last
}

/// The characters `v[lo..hi]`.
fn slice_of(v: &[char], lo: usize, hi: usize) -> (r: Vec<char>)
    requires
        lo <= hi <= v@.len(),
    ensures
        r@ == v@.subrange(lo as int, hi as int),
{
    let mut r: Vec<char> = Vec::new();
    let mut i = lo;
    while i < hi
        invariant
            lo <= i <= hi <= v@.len(),
            r@ == v@.subrange(lo as int, i as int),
        decreases hi - i,
    {
        r.push(v[i]);
        i = i + 1;
        assert(r@ =~= v@.subrange(lo as int, i as int));
    }
    r
}

/// The term that the `key:value` token `cs[lo..hi]` stands for.
fn plain_term_of_span(cs: &[char], lo: usize, hi: usize) -> (r: Option<FilterTerm>)
    requires
        lo <= hi <= cs@.len(),
    ensures
        match (r, plain_term_of(cs@.subrange(lo as int, hi as int))) {
            (None, None) => true,
            (Some(t), Some(v)) => t@ == v,
            _ => false,
        },
{
    reveal(plain_term_of);
    let ghost tok = cs@.subrange(lo as int, hi as int);
    let mut k = lo;
    while k < hi && cs[k] != ':'
        invariant
            lo <= k <= hi <= cs@.len(),
            tok == cs@.subrange(lo as int, hi as int),
            forall|j: int| 0 <= j < k - lo ==> tok[j] != ':',
        decreases hi - k,
    {
        k = k + 1;
    }
    if k == hi {
        assert(first_colon(tok) is None);
        return None;
    }
    assert(tok[k - lo] == ':');
    assert(first_colon(tok) == Some((k - lo) as int)) by {
        let c = choose|i: int| 0 <= i < tok.len() && tok[i] == ':' && forall|j: int| 0 <= j < i ==> tok[j] != ':';
        assert(0 <= k - lo < tok.len() && tok[k - lo] == ':' && forall|j: int| 0 <= j < k - lo ==> tok[j] != ':');
        if c < k - lo {
        } else if c > k - lo {
            assert(tok[k - lo] != ':');
        }
    }
    assert(tok.subrange(0, k - lo) =~= cs@.subrange(lo as int, k as int));
    assert(tok.subrange(k - lo + 1, tok.len() as int) =~= cs@.subrange(k + 1, hi as int));
    let v0 = k + 1;
    let kp = ['p', 'a', 'c', 'k', 'a', 'g', 'e'];
    let kt = ['t', 'a', 'g'];
    let kl = ['l', 'e', 'v', 'e', 'l'];
    let ki = ['p', 'i', 'd'];
    let kx = ['t', 'e', 'x', 't'];
    let kn = ['n', 'o', 'n', 'e'];
    assert(kp@ =~= kw_package());
    assert(kt@ =~= kw_tag());
    assert(kl@ =~= kw_level());
    assert(ki@ =~= kw_pid());
    assert(kx@ =~= kw_text());
    assert(kn@ =~= kw_none());
    if span_is(cs, lo, k, &kp) {
        Some(FilterTerm::Package(string_of(cs, v0, hi)))
    } else if span_is(cs, lo, k, &kt) {
        Some(FilterTerm::Tag(string_of(cs, v0, hi)))
    } else if span_is(cs, lo, k, &kl) {
        let low = lowered(cs, v0, hi);
        if whole_is(low.as_slice(), &kn) {
            Some(FilterTerm::NoLevels)
        } else {
            match level_word_of(cs, v0, hi) {
                Some(l) => Some(FilterTerm::Level(l)),
                None => None,
            }
        }
    } else if span_is(cs, lo, k, &ki) {
        match parse_u32_span(cs, v0, hi) {
            Some(p) => Some(FilterTerm::Pid(p)),
            None => None,
        }
    } else if span_is(cs, lo, k, &kx) {
        Some(FilterTerm::Text(string_of(cs, v0, hi)))
    } else {
        None
    }
}

impl Default for FilterQuery {
    /// The empty query, which every entry passes.
    fn default() -> (r: Self)
        ensures
            r@ == Seq::<TermView>::empty(),
    {
        let r = FilterQuery { terms: Vec::new() };
        assert(r@ =~= Seq::<TermView>::empty());
        r
    }
}

impl Clone for FilterQuery {
    fn clone(&self) -> (r: Self)
        ensures
            r@ == self@,
    {
        let mut terms: Vec<FilterTerm> = Vec::new();
        let mut i: usize = 0;
        while i < self.terms.len()
            invariant
                0 <= i <= self.terms@.len(),
                terms@.len() == i,
                forall|j: int| 0 <= j < i ==> terms@[j]@ == self.terms@[j]@,
            decreases self.terms@.len() - i,
        {
            terms.push(self.terms[i].clone());
            i = i + 1;
        }
        let r = FilterQuery { terms };
        assert(r@ =~= self@);
        r
    }
}

impl FilterQuery {
    /// The terms of the query, in order.
    pub fn terms(&self) -> (r: &Vec<FilterTerm>)
        ensures
            r@.map_values(|t: FilterTerm| t@) == self@,
    {
        &self.terms
    }

    /// Parses a query: whitespace-separated `key:value` tokens; tokens that are not
    /// terms are ignored.
    pub fn parse(input: &str) -> (r: Self)
        ensures
            r@ == query_terms(input@),
    {
        let cs = chars_of(input);
        let cs = cs.as_slice();
        let spans = word_spans(cs, 0, cs.len());
        let ghost toks = words(cs@.subrange(0, cs@.len() as int));
        assert(cs@.subrange(0, cs@.len() as int) =~= cs@);
        let mut terms: Vec<FilterTerm> = Vec::new();
        let mut i: usize = 0;
        while i < spans.len()
            invariant
                0 <= i <= spans@.len(),
                toks == words(cs@),
                spans@.len() == toks.len(),
                forall|k: int|
                    #![trigger spans@[k]]
                    0 <= k < spans@.len() ==> {
                        &&& spans@[k].0 <= spans@[k].1 <= cs@.len()
                        &&& cs@.subrange(spans@[k].0 as int, spans@[k].1 as int) == toks[k]
                    },
                terms@.map_values(|t: FilterTerm| t@) == terms_of(toks.take(i as int)),
            decreases spans@.len() - i,
        {
            let (lo, hi) = spans[i];
            let t = term_of_span(cs, lo, hi);
            assert(toks.take(i + 1).drop_last() =~= toks.take(i as int));
            assert(toks.take(i + 1).last() == toks[i as int]);
            match t {
                Some(t) => {
                    terms.push(t);
                },
                None => {},
            }
            i = i + 1;
            assert(terms@.map_values(|t: FilterTerm| t@) =~= terms_of(toks.take(i as int)));
        }
        assert(toks.take(i as int) =~= toks);
        FilterQuery { terms }
    }

    /// Whether `entry` passes the query (see [`query_matches`]).
    pub fn matches(&self, entry: &LogEntry) -> (r: bool)
        ensures
            r == query_matches(self@, entry@),
    {
        let n = self.terms.len();
        let mut i: usize = 0;
        while i < n
            invariant
                n == self.terms@.len(),
                0 <= i <= n,
                forall|j: int| 0 <= j < i ==> !(self@[j] is NoLevels),
            decreases n - i,
        {
            if let FilterTerm::NoLevels = &self.terms[i] {
                assert(self@[i as int] is NoLevels);
                return false;
            }
            i = i + 1;
        }
        let mut any_level = false;
        let mut level_hit = false;
        let mut i: usize = 0;
        while i < n
            invariant
                n == self.terms@.len(),
                0 <= i <= n,
                any_level == exists|j: int| 0 <= j < i && self@[j] is Level,
                level_hit == exists|j: int| 0 <= j < i && self@[j] == TermView::Level(entry.level),
            decreases n - i,
        {
            if let FilterTerm::Level(l) = &self.terms[i] {
                any_level = true;
                if *l == entry.level {
                    level_hit = true;
                }
            }
            proof {
                assert(self@[i as int] == self.terms@[i as int]@);
            }
            i = i + 1;
        }
        if any_level && !level_hit {
            return false;
        }
        let package = match &entry.package_name {
            Some(p) => chars_of(p.as_str()),
            None => Vec::new(),
        };
        let tag = chars_of(entry.tag.as_str());
        let message = chars_of(entry.message.as_str());
        assert(package@ == package_text(entry@));
        let mut i: usize = 0;
        while i < n
            invariant
                n == self.terms@.len(),
                0 <= i <= n,
                package@ == package_text(entry@),
                tag@ == entry.tag@,
                message@ == entry.message@,
                forall|j: int| 0 <= j < i ==> term_holds(#[trigger] self@[j], entry@),
            decreases n - i,
        {
            let holds = match &self.terms[i] {
                FilterTerm::Package(v) => {
                    let v = chars_of(v.as_str());
                    contains_alternative(package.as_slice(), v.as_slice())
                },
                FilterTerm::Tag(v) => {
                    let v = chars_of(v.as_str());
                    contains_alternative(tag.as_slice(), v.as_slice())
                },
                FilterTerm::ExcludePackage(v) => {
                    let v = chars_of(v.as_str());
                    !contains_alternative(package.as_slice(), v.as_slice())
                },
                FilterTerm::ExcludeTag(v) => {
                    let v = chars_of(v.as_str());
                    !contains_alternative(tag.as_slice(), v.as_slice())
                },
                FilterTerm::ExcludePid(p) => entry.pid != *p,
                FilterTerm::ExcludeText(v) => {
                    let v = chars_of(v.as_str());
                    !contains_chars(message.as_slice(), v.as_slice())
                },
                FilterTerm::Level(_) => true,
                FilterTerm::NoLevels => true,
                FilterTerm::Pid(p) => entry.pid == *p,
                FilterTerm::Text(v) => {
                    let v = chars_of(v.as_str());
                    contains_chars(message.as_slice(), v.as_slice())
                },
            };
            assert(self@[i as int] == self.terms@[i as int]@);
            if !holds {
                return false;
            }
            i = i + 1;
        }
        true
    }
}

/// The empty filter shows every entry.
pub proof fn empty_query_matches_everything(e: LogEntryView)
    ensures
        query_matches(query_terms(Seq::<char>::empty()), e),
{
    assert(words(Seq::<char>::empty()) =~= Seq::<Seq<char>>::empty());
    assert(query_terms(Seq::<char>::empty()) =~= Seq::<TermView>::empty());
}

/// A term that one of the tokens gives is among the terms of the tokens.
proof fn lemma_terms_of_contains(toks: Seq<Seq<char>>, tok: Seq<char>, t: TermView)
    requires
        toks.contains(tok),
        term_of(tok) == Some(t),
    ensures
        terms_of(toks).contains(t),
    decreases toks.len(),
{
    let rest = terms_of(toks.drop_last());
    if toks.last() == tok {
        assert(terms_of(toks) == rest.push(t));
        assert(terms_of(toks)[rest.len() as int] == t);
    } else {
        let k = choose|k: int| 0 <= k < toks.len() && toks[k] == tok;
        assert(k < toks.len() - 1);
        assert(toks.drop_last()[k] == tok);
        lemma_terms_of_contains(toks.drop_last(), tok, t);
        let j = choose|j: int| 0 <= j < rest.len() && rest[j] == t;
        match term_of(toks.last()) {
            Some(u) => {
                assert(terms_of(toks) == rest.push(u));
                assert(terms_of(toks)[j] == t);
            },
            None => {},
        }
    }
}

/// A filter with a `level:none` token (no priority ticked, in any case) shows no entry,
/// whatever its other tokens.
pub proof fn level_none_matches_nothing(input: Seq<char>, v: Seq<char>, e: LogEntryView)
    requires
        words(input).contains(kw_level() + seq![':'] + v),
        ascii_lowercase(v) == kw_none(),
    ensures
        !query_matches(query_terms(input), e),
{
    let tok = kw_level() + seq![':'] + v;
    assert(tok[5] == ':');
    assert(forall|j: int| 0 <= j < 5 ==> tok[j] != ':');
    assert(first_colon(tok) == Some(5int)) by {
        let c = choose|i: int| 0 <= i < tok.len() && tok[i] == ':' && forall|j: int| 0 <= j < i ==> tok[j] != ':';
        assert(0 <= 5 < tok.len() && tok[5] == ':' && forall|j: int| 0 <= j < 5 ==> tok[j] != ':');
        if c < 5 {
        } else if c > 5 {
            assert(tok[5] != ':');
        }
    }
    assert(tok.subrange(0, 5) =~= kw_level());
    assert(tok.subrange(6, tok.len() as int) =~= v);
    assert(tok[0] == 'l');
    assert(plain_term_of(tok) == Some(TermView::NoLevels)) by {
        reveal(plain_term_of);
    }
    assert(term_of(tok) == Some(TermView::NoLevels));
    lemma_terms_of_contains(words(input), tok, TermView::NoLevels);
    let q = query_terms(input);
    let j = choose|j: int| 0 <= j < q.len() && q[j] == TermView::NoLevels;
    assert(q[j] is NoLevels);
}

/// The token `level:v`, for a level word `v` other than `none`, stands for the
/// priority term that `v` names.
proof fn lemma_level_token(v: Seq<char>, lv: LogLevel)
    requires
        level_word(v) == Some(lv),
        ascii_lowercase(v) != kw_none(),
    ensures
        term_of(kw_level() + seq![':'] + v) == Some(TermView::Level(lv)),
{
    let tok = kw_level() + seq![':'] + v;
    assert(tok[5] == ':');
    assert(forall|j: int| 0 <= j < 5 ==> tok[j] != ':');
    assert(first_colon(tok) == Some(5int)) by {
        let c = choose|i: int| 0 <= i < tok.len() && tok[i] == ':' && forall|j: int| 0 <= j < i ==> tok[j] != ':';
        assert(0 <= 5 < tok.len() && tok[5] == ':' && forall|j: int| 0 <= j < 5 ==> tok[j] != ':');
        if c < 5 {
        } else if c > 5 {
            assert(tok[5] != ':');
        }
    }
    assert(tok.subrange(0, 5) =~= kw_level());
    assert(tok.subrange(6, tok.len() as int) =~= v);
    assert(tok[0] == 'l');
    assert(plain_term_of(tok) == Some(TermView::Level(lv))) by {
        reveal(plain_term_of);
    }
}

/// A filter whose one token is `level:v`, for a level word `v` other than `none`,
/// shows exactly the entries of the priority that `v` names.
proof fn lemma_single_level_filter(input: Seq<char>, v: Seq<char>, lv: LogLevel, e: LogEntryView)
    requires
        words(input) == seq![kw_level() + seq![':'] + v],
        level_word(v) == Some(lv),
        ascii_lowercase(v) != kw_none(),
    ensures
        query_matches(query_terms(input), e) <==> e.level == lv,
{
    let tok = kw_level() + seq![':'] + v;
    lemma_level_token(v, lv);
    let toks = words(input);
    assert(toks.drop_last() =~= Seq::<Seq<char>>::empty());
    assert(toks.last() == tok);
    assert(terms_of(toks.drop_last()) =~= Seq::<TermView>::empty());
    let q = query_terms(input);
    assert(q =~= seq![TermView::Level(lv)]);
    assert(q[0] == TermView::Level(lv));
    assert(!has_no_levels(q)) by {
        if has_no_levels(q) {
            let i = choose|i: int| 0 <= i < q.len() && q[i] is NoLevels;
            assert(i == 0);
        }
    }
    assert(has_level_terms(q));
    if e.level == lv {
        assert(selects_level(q, e.level));
    }
    if selects_level(q, e.level) {
        let i = choose|i: int| 0 <= i < q.len() && q[i] == TermView::Level(e.level);
        assert(i == 0);
    }
}

/// A priority letter of the threadtime format (`V D I W E A`), in either case, names
/// in a filter the priority that the line parser reads from that letter: the filter
/// `level:d` (or `level:D`) shows exactly the Debug entries, `level:e` exactly the
/// Error entries, and so on.
pub proof fn level_letter_selects_its_priority(input: Seq<char>, c: char, v: Seq<char>, e: LogEntryView)
    requires
        c == 'V' || c == 'D' || c == 'I' || c == 'W' || c == 'E' || c == 'A',
        v == seq![c] || v == seq![to_ascii_lower(c)],
        words(input) == seq![kw_level() + seq![':'] + v],
    ensures
        query_matches(query_terms(input), e) <==> e.level == level_of_letter(c),
{
    let lc = to_ascii_lower(c);
    assert(ascii_lowercase(v) =~= seq![lc]) by {
        assert(to_ascii_lower(lc) == lc);
    }
    assert(ascii_lowercase(v) != kw_none()) by {
        assert(ascii_lowercase(v).len() != kw_none().len());
    }
    assert(level_word(v) == Some(level_of_letter(c))) by {
        let l = ascii_lowercase(v);
        assert(l.len() == 1);
        assert(seq!['v', 'e', 'r', 'b', 'o', 's', 'e'].len() == 7);
        assert(seq!['d', 'e', 'b', 'u', 'g'].len() == 5);
        assert(seq!['i', 'n', 'f', 'o'].len() == 4);
        assert(seq!['w', 'a', 'r', 'n'].len() == 4);
        assert(seq!['e', 'r', 'r', 'o', 'r'].len() == 5);
        assert(seq!['a', 's', 's', 'e', 'r', 't'].len() == 6);
        if c == 'V' {
            assert(lc == 'v');
            assert(l =~= seq!['v']);
        } else if c == 'D' {
            assert(lc == 'd');
            assert(l =~= seq!['d']);
            assert(l[0] != seq!['v'][0]);
        } else if c == 'I' {
            assert(lc == 'i');
            assert(l =~= seq!['i']);
            assert(l[0] != seq!['v'][0] && l[0] != seq!['d'][0]);
        } else if c == 'W' {
            assert(lc == 'w');
            assert(l =~= seq!['w']);
            assert(l[0] != seq!['v'][0] && l[0] != seq!['d'][0] && l[0] != seq!['i'][0]);
        } else if c == 'E' {
            assert(lc == 'e');
            assert(l =~= seq!['e']);
            assert(l[0] != seq!['v'][0] && l[0] != seq!['d'][0] && l[0] != seq!['i'][0] && l[0] != seq!['w'][0]);
        } else {
            assert(lc == 'a');
            assert(l =~= seq!['a']);
            assert(l[0] != seq!['v'][0] && l[0] != seq!['d'][0] && l[0] != seq!['i'][0] && l[0] != seq!['w'][0]
                && l[0] != seq!['e'][0]);
        }
    }
    lemma_single_level_filter(input, v, level_of_letter(c), e);
}

/// A priority's English name, in any ASCII case, names that priority in a filter: the
/// filter `level:debug` (or `level:Debug`, `level:DEBUG`) shows exactly the Debug
/// entries, `level:warn` exactly the Warn entries, and so on.
pub proof fn level_name_selects_its_priority(input: Seq<char>, lv: LogLevel, v: Seq<char>, e: LogEntryView)
    requires
        lv != LogLevel::Unknown,
        ascii_lowercase(v) == level_name(lv),
        words(input) == seq![kw_level() + seq![':'] + v],
    ensures
        query_matches(query_terms(input), e) <==> e.level == lv,
{
    let l = ascii_lowercase(v);
    assert(l != kw_none()) by {
        if l.len() == 4 {
            assert(l[0] != kw_none()[0]);
        }
    }
    assert(level_word(v) == Some(lv)) by {
        assert(seq!['v'].len() == 1 && seq!['d'].len() == 1 && seq!['i'].len() == 1);
        assert(seq!['w'].len() == 1 && seq!['e'].len() == 1 && seq!['a'].len() == 1);
        let vb = seq!['v', 'e', 'r', 'b', 'o', 's', 'e'];
        let db = seq!['d', 'e', 'b', 'u', 'g'];
        let inf = seq!['i', 'n', 'f', 'o'];
        let wn = seq!['w', 'a', 'r', 'n'];
        let er = seq!['e', 'r', 'r', 'o', 'r'];
        match lv {
            LogLevel::Verbose => {
                assert(l =~= vb);
            },
            LogLevel::Debug => {
                assert(l =~= db);
                assert(l.len() != vb.len());
            },
            LogLevel::Info => {
                assert(l =~= inf);
                assert(l.len() != vb.len() && l.len() != db.len());
            },
            LogLevel::Warn => {
                assert(l =~= wn);
                assert(l[0] != inf[0]);
                assert(l.len() != vb.len() && l.len() != db.len());
            },
            LogLevel::Error => {
                assert(l =~= er);
                assert(l[0] != db[0]);
                assert(l.len() != vb.len() && l.len() != inf.len() && l.len() != wn.len());
            },
            LogLevel::Assert => {
                assert(l =~= seq!['a', 's', 's', 'e', 'r', 't']);
                assert(l.len() != vb.len() && l.len() != db.len() && l.len() != inf.len() && l.len() != wn.len()
                    && l.len() != er.len());
            },
            LogLevel::Unknown => {},
        }
    }
    lemma_single_level_filter(input, v, lv, e);
}

/// Priority terms OR together: with no `level:none`, a filter of priority terms alone
/// shows exactly the entries whose priority is one of them.
pub proof fn level_terms_or_together(q: Seq<TermView>, e: LogEntryView)
    requires
        q.len() > 0,
        forall|i: int| 0 <= i < q.len() ==> (#[trigger] q[i]) is Level,
    ensures
        query_matches(q, e) <==> exists|i: int| 0 <= i < q.len() && q[i] == TermView::Level(e.level),
{
    assert(q[0] is Level);
    assert(!has_no_levels(q)) by {
        if has_no_levels(q) {
            let i = choose|i: int| 0 <= i < q.len() && q[i] is NoLevels;
            assert(q[i] is Level);
        }
    }
}

/// An excluding term keeps exactly the entries that the term it excludes drops: for a
/// `package`, `tag`, `pid` or `text` token `tok`, the token `-tok` holds of an entry
/// exactly when `tok` does not.
pub proof fn exclusion_inverts(tok: Seq<char>, e: LogEntryView)
    requires
        term_of(tok) matches Some(t) && (t is Package || t is Tag || t is Pid || t is Text),
    ensures
        term_of(seq!['-'] + tok) matches Some(x) && term_holds(x, e) == !term_holds(term_of(tok)->0, e),
{
    let neg = seq!['-'] + tok;
    assert(neg[0] == '-');
    assert(neg.drop_first() =~= tok);
    assert(!(tok.len() > 0 && tok[0] == '-'));
}

/// A value has at least one alternative.
proof fn lemma_alternatives_nonempty(v: Seq<char>)
    ensures
        alternatives(v).len() >= 1,
    decreases v.len(),
{
    if v.len() > 0 {
        lemma_alternatives_nonempty(v.drop_last());
    }
}

/// The alternatives of `a|b` are those of `a` followed by those of `b`.
proof fn lemma_alternatives_join(a: Seq<char>, b: Seq<char>)
    ensures
        alternatives(a + seq!['|'] + b) == alternatives(a) + alternatives(b),
    decreases b.len(),
{
    let j = a + seq!['|'] + b;
    if b.len() == 0 {
        assert(j.drop_last() =~= a);
        assert(alternatives(b) =~= seq![Seq::<char>::empty()]);
        assert(alternatives(j) =~= alternatives(a) + alternatives(b));
    } else {
        lemma_alternatives_join(a, b.drop_last());
        lemma_alternatives_nonempty(b.drop_last());
        assert(j.drop_last() =~= a + seq!['|'] + b.drop_last());
        assert(j.last() == b.last());
        let x = alternatives(a);
        let y = alternatives(b.drop_last());
        if b.last() == '|' {
            assert((x + y).push(Seq::<char>::empty()) =~= x + y.push(Seq::<char>::empty()));
        } else {
            let z = x + y;
            assert(z.update(z.len() - 1, z.last().push(b.last())) =~= x + y.update(
                y.len() - 1,
                y.last().push(b.last()),
            ));
        }
    }
}

/// A value without `|` is its own single alternative, so a package or tag term without
/// `|` asks that its value occur.
pub proof fn single_alternative(hay: Seq<char>, v: Seq<char>)
    requires
        no_char(v, '|'),
    ensures
        alternatives(v) == seq![v],
        contains_some(hay, v) == contains(hay, v),
    decreases v.len(),
{
    if v.len() > 0 {
        single_alternative(hay, v.drop_last());
        assert(v.drop_last().push(v.last()) =~= v);
        assert(alternatives(v) =~= seq![v]);
    } else {
        assert(v =~= Seq::<char>::empty());
    }
    assert(alternatives(v)[0] == v);
}

/// `|` separates alternatives: a package or tag term with value `a|b` holds exactly
/// when the value `a` or the value `b` would.
pub proof fn bar_separates_alternatives(hay: Seq<char>, a: Seq<char>, b: Seq<char>)
    ensures
        contains_some(hay, a + seq!['|'] + b) == (contains_some(hay, a) || contains_some(hay, b)),
{
    lemma_alternatives_join(a, b);
    let x = alternatives(a);
    let y = alternatives(b);
    let z = alternatives(a + seq!['|'] + b);
    if contains_some(hay, a + seq!['|'] + b) {
        let k = choose|k: int| 0 <= k < z.len() && contains(hay, #[trigger] z[k]);
        if k < x.len() {
            assert(z[k] == x[k]);
        } else {
            assert(z[k] == y[k - x.len()]);
        }
    }
    if contains_some(hay, a) {
        let k = choose|k: int| 0 <= k < x.len() && contains(hay, #[trigger] x[k]);
        assert(z[k] == x[k]);
    }
    if contains_some(hay, b) {
        let k = choose|k: int| 0 <= k < y.len() && contains(hay, #[trigger] y[k]);
        assert(z[k + x.len()] == y[k]);
    }
}

} // verus!
