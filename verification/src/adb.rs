use std::path::{Path, PathBuf};
use vstd::prelude::*;

use crate::recorder::{joined, path_join};
use crate::text::{
    chars_of, line_spans, lines, span_is, span_starts_with, starts_with, word_spans, words,
};

verus! {

/// The platforms for which an adb is bundled.
#[derive(Debug, Clone, Copy, PartialEq, Eq, Structural)]
pub enum Platform {
    Windows,
    MacOs,
    Linux,
}

/// Where the bundled adb lies.
#[derive(Debug)]
pub struct AdbPaths {
    pub adb: PathBuf,
}

/// The bundled adb of each platform, relative to the project root.
pub open spec fn adb_relative(platform: Platform) -> Seq<char> {
    match platform {
        Platform::Windows => "libs/windows/adb.exe"@,
        Platform::MacOs => "libs/macos/adb"@,
        Platform::Linux => "libs/linux/adb"@,
    }
}

/// The bundled adb of `platform`, relative to the project root.
pub fn adb_relative_path(platform: Platform) -> (r: &'static str)
    ensures
        r@ == adb_relative(platform),
{
    match platform {
        Platform::Windows => "libs/windows/adb.exe",
        Platform::MacOs => "libs/macos/adb",
        Platform::Linux => "libs/linux/adb",
    }
}

/// The bundled adb of `platform` under `project_root`: `project_root` joined with
/// [`adb_relative`].
pub fn resolve_adb_path(project_root: &Path, platform: Platform) -> (r: AdbPaths)
    ensures
        r.adb == joined(project_root, adb_relative(platform)),
{
    AdbPaths { adb: path_join(project_root, adb_relative_path(platform)) }
}

/// A device that `adb devices -l` reports online.
#[derive(Debug, PartialEq, Eq)]
pub struct AdbDevice {
    pub serial: String,
    pub display_name: String,
}

/// The contents of an [`AdbDevice`].
pub struct AdbDeviceView {
    pub serial: Seq<char>,
    pub display_name: Seq<char>,
}

impl View for AdbDevice {
    type V = AdbDeviceView;

    open spec fn view(&self) -> AdbDeviceView {
        AdbDeviceView { serial: self.serial@, display_name: self.display_name@ }
    }
}

impl Clone for AdbDevice {
    fn clone(&self) -> (r: Self)
        ensures
            r == *self,
    {
        AdbDevice { serial: self.serial.clone(), display_name: self.display_name.clone() }
    }
}

pub open spec fn kw_device() -> Seq<char> {
    seq!['d', 'e', 'v', 'i', 'c', 'e']
}

pub open spec fn kw_model() -> Seq<char> {
    seq!['m', 'o', 'd', 'e', 'l', ':']
}

/// `s` with every `'_'` turned into a space.
pub open spec fn underscores_to_spaces(s: Seq<char>) -> Seq<char> {
    s.map_values(|c: char| if c == '_' { ' ' } else { c })
}

/// The text after `model:` of the first word that starts with it.
pub open spec fn first_model(ws: Seq<Seq<char>>) -> Option<Seq<char>>
    decreases ws.len(),
{
    if ws.len() == 0 {
        None
    } else if starts_with(ws[0], kw_model()) {
        Some(ws[0].skip(kw_model().len() as int))
    } else {
        first_model(ws.drop_first())
    }
}

/// The device a line of `adb devices -l` describes: its first word is the serial, its
/// second word must be `device` (online), and the display name is the `model:` value
/// with underscores as spaces, or the serial when there is no model.
pub open spec fn device_of_line(line: Seq<char>) -> Option<AdbDeviceView> {
    let ws = words(line);
    if ws.len() < 2 || ws[1] != kw_device() {
        None
    } else {
        Some(
            AdbDeviceView {
                serial: ws[0],
                display_name: match first_model(ws.skip(2)) {
                    Some(m) => underscores_to_spaces(m),
                    None => ws[0],
                },
            },
        )
    }
}

/// The devices of a list of lines, in order.
pub open spec fn devices_of_lines(ls: Seq<Seq<char>>) -> Seq<AdbDeviceView>
    decreases ls.len(),
{
    if ls.len() == 0 {
        seq![]
    } else {
        let rest = devices_of_lines(ls.drop_last());
        match device_of_line(ls.last()) {
            Some(d) => rest.push(d),
            None => rest,
        }
    }
}

/// The devices that an `adb devices -l` output lists, after its header line.
pub open spec fn devices_of_output(output: Seq<char>) -> Seq<AdbDeviceView> {
    let ls = lines(output);
    if ls.len() == 0 {
        seq![]
    } else {
        devices_of_lines(ls.skip(1))
    }
}

fn underscores_replaced(cs: &[char], lo: usize, hi: usize) -> (out: String)
    requires
        lo <= hi <= cs@.len(),
    ensures
        out@ == underscores_to_spaces(cs@.subrange(lo as int, hi as int)),
{
    let mut out = String::new();
    let mut i = lo;
    while i < hi
        invariant
            lo <= i <= hi <= cs@.len(),
            out@ == underscores_to_spaces(cs@.subrange(lo as int, i as int)),
        decreases hi - i,
    {
        let c = cs[i];
        out.push(if c == '_' { ' ' } else { c });
        i = i + 1;
        assert(out@ =~= underscores_to_spaces(cs@.subrange(lo as int, i as int)));
    }
    out
}

/// The device described by the line `cs[lo..hi]`.
fn device_of_span(cs: &[char], lo: usize, hi: usize) -> (r: Option<AdbDevice>)
    requires
        lo <= hi <= cs@.len(),
    ensures
        match (r, device_of_line(cs@.subrange(lo as int, hi as int))) {
            (None, None) => true,
            (Some(d), Some(v)) => d@ == v,
            _ => false,
        },
{
    let ghost ws = words(cs@.subrange(lo as int, hi as int));
    let spans = word_spans(cs, lo, hi);
    if spans.len() < 2 {
        return None;
    }
    let kd = ['d', 'e', 'v', 'i', 'c', 'e'];
    assert(kd@ =~= kw_device());
    let (s0, s1) = spans[0];
    let (t0, t1) = spans[1];
    if !span_is(cs, t0, t1, &kd) {
        return None;
    }
    assert(cs@.subrange(s0 as int, s1 as int) == ws[0]);
    assert(cs@.subrange(t0 as int, t1 as int) == ws[1]);
    let serial = string_of_span(cs, s0, s1);
    let km = ['m', 'o', 'd', 'e', 'l', ':'];
    assert(km@ =~= kw_model());
    let mut j: usize = 2;
    while j < spans.len()
        invariant
            2 <= j <= spans@.len(),
            ws == words(cs@.subrange(lo as int, hi as int)),
            km@ == kw_model(),
            spans@.len() == ws.len(),
            serial@ == ws[0],
            ws[1] == kw_device(),
            forall|k: int|
                #![trigger spans@[k]]
                0 <= k < spans@.len() ==> {
                    &&& spans@[k].0 <= spans@[k].1 <= cs@.len()
                    &&& cs@.subrange(spans@[k].0 as int, spans@[k].1 as int) == ws[k]
                },
            first_model(ws.skip(2)) == first_model(ws.skip(j as int)),
        decreases spans@.len() - j,
    {
        let (m0, m1) = spans[j];
        let ghost rest = ws.skip(j as int);
        assert(rest[0] == ws[j as int]);
        if span_starts_with(cs, m0, m1, &km) {
            assert(ws[j as int].skip(6) =~= cs@.subrange(m0 + 6, m1 as int));
            let name = underscores_replaced(cs, m0 + 6, m1);
            assert(first_model(rest) == Some(ws[j as int].skip(6)));
            return Some(AdbDevice { serial, display_name: name });
        }
        assert(rest.drop_first() =~= ws.skip(j + 1));
        j = j + 1;
    }
    assert(ws.skip(j as int).len() == 0);
    let display_name = serial.clone();
    Some(AdbDevice { serial, display_name })
}

fn string_of_span(cs: &[char], lo: usize, hi: usize) -> (out: String)
    requires
        lo <= hi <= cs@.len(),
    ensures
        out@ == cs@.subrange(lo as int, hi as int),
{
    crate::text::string_of(cs, lo, hi)
}

/// The online devices of an `adb devices -l` output, in the order listed.
pub fn parse_devices_output(output: &str) -> (r: Vec<AdbDevice>)
    ensures
        r@.map_values(|d: AdbDevice| d@) == devices_of_output(output@),
{
    let cs = chars_of(output);
    let cs = cs.as_slice();
    let spans = line_spans(cs);
    let ghost ls = lines(cs@);
    let mut out: Vec<AdbDevice> = Vec::new();
    if spans.len() == 0 {
        assert(out@.map_values(|d: AdbDevice| d@) =~= devices_of_output(output@));
        return out;
    }
    let mut i: usize = 1;
    assert(ls.skip(1).take(0) =~= seq![]);
    while i < spans.len()
        invariant
            1 <= i <= spans@.len(),
            ls == lines(cs@),
            spans@.len() == ls.len(),
            forall|k: int|
                #![trigger spans@[k]]
                0 <= k < spans@.len() ==> {
                    &&& spans@[k].0 <= spans@[k].1 <= cs@.len()
                    &&& cs@.subrange(spans@[k].0 as int, spans@[k].1 as int) == ls[k]
                },
            out@.map_values(|d: AdbDevice| d@) == devices_of_lines(ls.skip(1).take(i - 1)),
        decreases spans@.len() - i,
    {
        let (lo, hi) = spans[i];
        let d = device_of_span(cs, lo, hi);
        assert(ls.skip(1).take(i as int).drop_last() =~= ls.skip(1).take(i - 1));
        assert(ls.skip(1).take(i as int).last() == ls[i as int]);
        match d {
            Some(d) => out.push(d),
            None => {},
        }
        i = i + 1;
        assert(out@.map_values(|d: AdbDevice| d@) =~= devices_of_lines(ls.skip(1).take(i - 1)));
    }
    assert(ls.skip(1).take(i - 1) =~= ls.skip(1));
    out
}


/// Whether a `ps` output lists processes: more lines than its header.  When the
/// column-selecting `ps` gives no such output, the plain `ps -A` is asked instead.
pub fn lists_processes(output: &str) -> (r: bool)
    ensures
        r == (lines(output@).len() > 1),
{
    let cs = chars_of(output);
    let spans = line_spans(cs.as_slice());
    spans.len() > 1
}

/// The arguments of the logcat process of device `serial`: threadtime format,
/// streaming from the newest line (`-T 1`) rather than the whole ring buffer.
pub open spec fn logcat_arguments(serial: Seq<char>) -> Seq<Seq<char>> {
    seq!["-s"@, serial, "logcat"@, "-v"@, "threadtime"@, "-T"@, "1"@]
}

/// The arguments of the logcat process of device `serial` (see [`logcat_arguments`]).
pub fn logcat_args(serial: &str) -> (r: Vec<String>)
    ensures
        r@.map_values(|s: String| s@) == logcat_arguments(serial@),
{
    let mut r: Vec<String> = Vec::new();
    r.push(String::from_str("-s"));
    r.push(String::from_str(serial));
    r.push(String::from_str("logcat"));
    r.push(String::from_str("-v"));
    r.push(String::from_str("threadtime"));
    r.push(String::from_str("-T"));
    r.push(String::from_str("1"));
    assert(r@.map_values(|s: String| s@) =~= logcat_arguments(serial@));
    r
}

/// The scan error when the bundled adb is not at `path`: `missing <path>`.
pub fn missing_adb_error(path: &str) -> (r: String)
    ensures
        r@ == "missing "@ + path@,
{
    let mut r = String::from_str("missing ");
    r.append(path);
    r
}
} // verus!
