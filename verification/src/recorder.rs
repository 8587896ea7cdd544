use std::path::{Path, PathBuf};
use vstd::prelude::*;

use crate::device::{decimal, decimal_string};
use crate::text::{chars_of, is_ascii_digit};

verus! {

#[verifier::external_type_specification]
#[verifier::external_body]
pub struct ExPathBuf(PathBuf);

#[verifier::external_type_specification]
#[verifier::external_body]
pub struct ExPath(Path);

/// What `Path::join` gives for `base` and `part`: `base` with `part` adjoined (`part`
/// itself when it is absolute), by the path rules of the platform the engine is built
/// for.  Those rules take pages, so the result is named rather than stated.
pub uninterp spec fn joined(base: &Path, part: Seq<char>) -> PathBuf;

/// The path that `PathBuf::as_path` borrows from `p`.
pub uninterp spec fn borrowed(p: &PathBuf) -> &Path;

/// The path that `PathBuf::from` makes of the text `s`.
pub uninterp spec fn path_named(s: Seq<char>) -> PathBuf;

/// What `Path::display` shows of `p`, as text (lossy where the path is not UTF-8).
pub uninterp spec fn displayed(p: PathBuf) -> Seq<char>;

/// `Path::join`: `base` extended by `part` (see [`joined`]).
#[verifier::external_body]
pub(crate) fn path_join(base: &Path, part: &str) -> (r: PathBuf)
    ensures
        r == joined(base, part@),
{
    base.join(part)
}

/// `PathBuf::as_path`: the path a `PathBuf` holds (see [`borrowed`]).
#[verifier::external_body]
pub(crate) fn as_path(p: &PathBuf) -> (r: &Path)
    ensures
        r == borrowed(p),
{
    p.as_path()
}

/// `PathBuf::clone`: a copy of the path, equal to it.
#[verifier::external_body]
pub(crate) fn path_clone(p: &PathBuf) -> (r: PathBuf)
    ensures
        r == *p,
{
    p.clone()
}

/// `Path::display`, as a `String`: the path as text (see [`displayed`]).
#[verifier::external_body]
pub(crate) fn path_text(p: &PathBuf) -> (r: String)
    ensures
        r@ == displayed(*p),
{
    p.display().to_string()
}

/// `PathBuf::from`: the path that `s` spells (see [`path_named`]).
#[verifier::external_body]
pub(crate) fn path_from(s: &str) -> (r: PathBuf)
    ensures
        r == path_named(s@),
{
    PathBuf::from(s)
}

/// The file `root/<day>/<device>/<file>`, each part adjoined in turn.
pub open spec fn file_under(root: &Path, day: Seq<char>, device: Seq<char>, file: Seq<char>) -> PathBuf {
    joined(borrowed(&joined(borrowed(&joined(root, day)), device)), file)
}

/// Where and whether a device's raw lines are recorded.
#[derive(Debug)]
pub struct RecorderConfig {
    pub enabled: bool,
    pub root: PathBuf,
    pub device_name: String,
}

/// The outcome of the last recording attempt of a device.
#[derive(Debug)]
pub struct RecorderStatus {
    pub enabled: bool,
    pub path: Option<PathBuf>,
    pub warning: Option<String>,
}

/// The contents of a [`RecorderStatus`], with its warning as a character sequence.
pub struct RecorderStatusView {
    pub enabled: bool,
    pub path: Option<PathBuf>,
    pub warning: Option<Seq<char>>,
}

impl View for RecorderStatus {
    type V = RecorderStatusView;

    open spec fn view(&self) -> RecorderStatusView {
        RecorderStatusView {
            enabled: self.enabled,
            path: self.path,
            warning: match self.warning {
                Some(w) => Some(w@),
                None => None,
            },
        }
    }
}

impl Clone for RecorderStatus {
    fn clone(&self) -> (r: Self)
        ensures
            r@ == self@,
    {
        RecorderStatus {
            enabled: self.enabled,
            path: match &self.path {
                Some(p) => Some(path_clone(p)),
                None => None,
            },
            warning: match &self.warning {
                Some(w) => Some(w.clone()),
                None => None,
            },
        }
    }
}

impl RecorderStatus {
    /// Recording is off: nothing written, no warning.
    pub fn disabled() -> (r: Self)
        ensures
            r@ == (RecorderStatusView { enabled: false, path: None, warning: None }),
    {
        RecorderStatus { enabled: false, path: None, warning: None }
    }

    /// Recording failed with `warning`.
    pub fn failed(warning: String) -> (r: Self)
        ensures
            r@ == (RecorderStatusView { enabled: false, path: None, warning: Some(warning@) }),
    {
        RecorderStatus { enabled: false, path: None, warning: Some(warning) }
    }

    /// The line was written to `path`.
    pub fn written(path: PathBuf) -> (r: Self)
        ensures
            r@ == (RecorderStatusView { enabled: true, path: Some(path), warning: None }),
    {
        RecorderStatus { enabled: true, path: Some(path), warning: None }
    }
}

/// A character kept in a directory name: ASCII letters and digits, `-` and `_`.
pub open spec fn is_path_safe(c: char) -> bool {
    ('a' <= c <= 'z') || ('A' <= c <= 'Z') || is_ascii_digit(c) || c == '-' || c == '_'
}

/// A device name made safe for a directory name: other characters become `_`.
pub open spec fn safe_name(s: Seq<char>) -> Seq<char> {
    s.map_values(|c: char| if is_path_safe(c) { c } else { '_' })
}

/// The device name with every character that is not an ASCII letter or digit, `-` or
/// `_` replaced by `_`.
pub fn sanitize_device_name(device: &str) -> (r: String)
    ensures
        r@ == safe_name(device@),
{
    let cs = chars_of(device);
    let mut out = String::new();
    let mut i: usize = 0;
    while i < cs.len()
        invariant
            0 <= i <= cs@.len(),
            cs@ == device@,
            out@ == safe_name(cs@.take(i as int)),
        decreases cs@.len() - i,
    {
        let c = cs[i];
        let safe = ('a' <= c && c <= 'z') || ('A' <= c && c <= 'Z') || ('0' <= c && c <= '9')
            || c == '-' || c == '_';
        out.push(if safe { c } else { '_' });
        i = i + 1;
        assert(out@ =~= safe_name(cs@.take(i as int)));
    }
    assert(cs@.take(i as int) =~= cs@);
    out
}

/// The name of the file for hour `hour`: the hour in decimal, with a leading zero
/// below ten, then `.log`.
pub open spec fn hour_file(hour: nat) -> Seq<char> {
    (if hour < 10 { seq!['0'] } else { Seq::<char>::empty() }) + decimal(hour) + ".log"@
}

/// `format!("{:02}.log", hour)`.
pub fn hour_file_name(hour: u32) -> (r: String)
    ensures
        r@ == hour_file(hour as nat),
{
    let mut r = String::new();
    if hour < 10 {
        r.push('0');
    }
    let digits = decimal_string(hour as u128);
    r.append(digits.as_str());
    r.append(".log");
    r
}

/// `root/day/<device made safe>/file`.
fn sanitize_path(root: &Path, day: &str, device: &str, file: &str) -> (r: PathBuf)
    ensures
        r == file_under(root, day@, safe_name(device@), file@),
{
    let safe_device = sanitize_device_name(device);
    let day_dir = path_join(root, day);
    let device_dir = path_join(as_path(&day_dir), safe_device.as_str());
    path_join(as_path(&device_dir), file)
}

/// Records the raw lines of one device, one file per hour.
pub struct Recorder {
    config: RecorderConfig,
    current_path: Option<PathBuf>,
}

impl Recorder {
    /// Whether lines are recorded.
    pub closed spec fn spec_enabled(&self) -> bool {
        self.config.enabled
    }

    /// The device name the recorder files its lines under.
    pub closed spec fn spec_device_name(&self) -> Seq<char> {
        self.config.device_name@
    }

    /// The directory under which lines are recorded.
    pub closed spec fn spec_root(&self) -> PathBuf {
        self.config.root
    }

    /// The file that a line recorded on `day` at `hour` goes to, when recording is on:
    /// `root/<day>/<device made safe>/<hour file>`.
    pub open spec fn target_of(&self, day: Seq<char>, hour: nat) -> Option<PathBuf> {
        if self.spec_enabled() {
            Some(file_under(borrowed(&self.spec_root()), day, safe_name(self.spec_device_name()), hour_file(hour)))
        } else {
            None
        }
    }

    /// The file the last line was written to, if any.
    pub closed spec fn current_file(&self) -> Option<PathBuf> {
        self.current_path
    }

    /// A recorder with `config`, which has written nothing yet.
    pub fn new(config: RecorderConfig) -> (r: Self)
        ensures
            r.spec_enabled() == config.enabled,
            r.spec_device_name() == config.device_name@,
            r.spec_root() == config.root,
            r.current_file() is None,
    {
        Recorder { config, current_path: None }
    }

    pub fn is_enabled(&self) -> (r: bool)
        ensures
            r == self.spec_enabled(),
    {
        self.config.enabled
    }

    /// The directories and the file, under the root, that a line recorded on local day
    /// `day` at hour `hour` goes to: the day, the device name made safe, and the hour
    /// (two digits) with `.log`.  `None` when recording is off.
    pub fn target_parts(&self, day: &str, hour: u32) -> (r: Option<(String, String, String)>)
        ensures
            match r {
                Some((d, dev, file)) => self.spec_enabled() && d@ == day@ && dev@ == safe_name(self.spec_device_name())
                    && file@ == hour_file(hour as nat),
                None => !self.spec_enabled(),
            },
    {
        if !self.config.enabled {
            return None;
        }
        Some((String::from_str(day), sanitize_device_name(self.config.device_name.as_str()), hour_file_name(hour)))
    }

    /// The file that a line recorded on local day `day` (`YYYY-MM-DD`) at hour `hour`
    /// goes to: `root/<day>/<device made safe>/<hour, two digits>.log`.  `None` when
    /// recording is off.
    pub fn target_path(&self, day: &str, hour: u32) -> (r: Option<PathBuf>)
        ensures
            r == self.target_of(day@, hour as nat),
    {
        if !self.config.enabled {
            return None;
        }
        Some(self.current_hour_path(day, hour))
    }

    /// Notes that a line was written to `path`; the status to report.
    pub fn record_written(&mut self, path: PathBuf) -> (r: RecorderStatus)
        ensures
            r@ == (RecorderStatusView { enabled: true, path: Some(path), warning: None }),
            final(self).current_file() == Some(path),
            final(self).spec_enabled() == old(self).spec_enabled(),
            final(self).spec_device_name() == old(self).spec_device_name(),
            final(self).spec_root() == old(self).spec_root(),
    {
        let kept = path_clone(&path);
        self.current_path = Some(kept);
        RecorderStatus::written(path)
    }

    fn current_hour_path(&self, day: &str, hour: u32) -> (r: PathBuf)
        ensures
            r == file_under(borrowed(&self.spec_root()), day@, safe_name(self.spec_device_name()), hour_file(hour as nat)),
    {
        let file = hour_file_name(hour);
        sanitize_path(as_path(&self.config.root), day, self.config.device_name.as_str(), file.as_str())
    }
}

} // verus!
