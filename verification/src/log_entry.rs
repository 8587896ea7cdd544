use vstd::prelude::*;

verus! {

/// Priority of a log line.
#[derive(Debug, Clone, Copy, PartialEq, Eq, Structural)]
pub enum LogLevel {
    Verbose,
    Debug,
    Info,
    Warn,
    Error,
    Assert,
    Unknown,
}

/// The priority letter of the threadtime format (`'?'` for an unknown priority).
pub open spec fn level_letter(level: LogLevel) -> char {
    match level {
        LogLevel::Verbose => 'V',
        LogLevel::Debug => 'D',
        LogLevel::Info => 'I',
        LogLevel::Warn => 'W',
        LogLevel::Error => 'E',
        LogLevel::Assert => 'A',
        LogLevel::Unknown => '?',
    }
}

/// The English name of a priority, in lower case (the empty text for an unknown one).
pub open spec fn level_name(level: LogLevel) -> Seq<char> {
    match level {
        LogLevel::Verbose => seq!['v', 'e', 'r', 'b', 'o', 's', 'e'],
        LogLevel::Debug => seq!['d', 'e', 'b', 'u', 'g'],
        LogLevel::Info => seq!['i', 'n', 'f', 'o'],
        LogLevel::Warn => seq!['w', 'a', 'r', 'n'],
        LogLevel::Error => seq!['e', 'r', 'r', 'o', 'r'],
        LogLevel::Assert => seq!['a', 's', 's', 'e', 'r', 't'],
        LogLevel::Unknown => seq![],
    }
}

impl LogLevel {
    /// The priority letter used when a line is written back in threadtime format.
    pub fn as_threadtime_char(&self) -> (c: char)
        ensures
            c == level_letter(*self),
    {
        match self {
            LogLevel::Verbose => 'V',
            LogLevel::Debug => 'D',
            LogLevel::Info => 'I',
            LogLevel::Warn => 'W',
            LogLevel::Error => 'E',
            LogLevel::Assert => 'A',
            LogLevel::Unknown => '?',
        }
    }
}

/// One log line of a device.
#[derive(Debug, PartialEq, Eq)]
pub struct LogEntry {
    pub seq: u64,
    pub timestamp: u64,
    pub date: String,
    pub time: String,
    pub pid: u32,
    pub tid: u32,
    pub level: LogLevel,
    pub tag: String,
    pub message: String,
    pub package_name: Option<String>,
    pub foreground: Option<String>,
    pub background: Option<String>,
    pub hidden: bool,
    pub bookmarked: bool,
}

/// The contents of a [`LogEntry`], with its text fields as character sequences.
pub struct LogEntryView {
    pub seq: u64,
    pub timestamp: u64,
    pub date: Seq<char>,
    pub time: Seq<char>,
    pub pid: u32,
    pub tid: u32,
    pub level: LogLevel,
    pub tag: Seq<char>,
    pub message: Seq<char>,
    pub package_name: Option<Seq<char>>,
    pub foreground: Option<Seq<char>>,
    pub background: Option<Seq<char>>,
    pub hidden: bool,
    pub bookmarked: bool,
}

pub open spec fn opt_text(o: Option<String>) -> Option<Seq<char>> {
    match o {
        Some(s) => Some(s@),
        None => None,
    }
}

impl View for LogEntry {
    type V = LogEntryView;

    open spec fn view(&self) -> LogEntryView {
        LogEntryView {
            seq: self.seq,
            timestamp: self.timestamp,
            date: self.date@,
            time: self.time@,
            pid: self.pid,
            tid: self.tid,
            level: self.level,
            tag: self.tag@,
            message: self.message@,
            package_name: opt_text(self.package_name),
            foreground: opt_text(self.foreground),
            background: opt_text(self.background),
            hidden: self.hidden,
            bookmarked: self.bookmarked,
        }
    }
}

fn clone_opt_string(o: &Option<String>) -> (r: Option<String>)
    ensures
        r == *o,
{
    match o {
        Some(s) => Some(s.clone()),
        None => None,
    }
}

impl Clone for LogEntry {
    fn clone(&self) -> (r: Self)
        ensures
            r == *self,
    {
        LogEntry {
            seq: self.seq,
            timestamp: self.timestamp,
            date: self.date.clone(),
            time: self.time.clone(),
            pid: self.pid,
            tid: self.tid,
            level: self.level,
            tag: self.tag.clone(),
            message: self.message.clone(),
            package_name: clone_opt_string(&self.package_name),
            foreground: clone_opt_string(&self.foreground),
            background: clone_opt_string(&self.background),
            hidden: self.hidden,
            bookmarked: self.bookmarked,
        }
    }
}

/// Where a device's logs come from.
#[derive(Debug, Clone, Copy, PartialEq, Eq, Structural)]
pub enum DeviceSource {
    Adb,
    Mock,
}

/// A device as the user interface lists it.
#[derive(Debug, PartialEq, Eq)]
pub struct DeviceInfo {
    pub device_id: String,
    pub device_name: String,
    pub connected: bool,
    pub source: DeviceSource,
}

/// The contents of a [`DeviceInfo`].
pub struct DeviceInfoView {
    pub device_id: Seq<char>,
    pub device_name: Seq<char>,
    pub connected: bool,
    pub source: DeviceSource,
}

impl View for DeviceInfo {
    type V = DeviceInfoView;

    open spec fn view(&self) -> DeviceInfoView {
        DeviceInfoView {
            device_id: self.device_id@,
            device_name: self.device_name@,
            connected: self.connected,
            source: self.source,
        }
    }
}

impl Clone for DeviceInfo {
    fn clone(&self) -> (r: Self)
        ensures
            r == *self,
    {
        DeviceInfo {
            device_id: self.device_id.clone(),
            device_name: self.device_name.clone(),
            connected: self.connected,
            source: self.source,
        }
    }
}

/// Counters of a device, as reported to the user interface.
#[derive(Debug, Clone, Copy, PartialEq, Eq, Structural)]
pub struct StatisticsSnapshot {
    pub errors: u64,
    pub warnings: u64,
    pub logs_per_second: u64,
    pub memory_bytes: u64,
    pub hidden: u64,
}

impl Default for StatisticsSnapshot {
    fn default() -> (r: Self)
        ensures
            r == (StatisticsSnapshot {
                errors: 0,
                warnings: 0,
                logs_per_second: 0,
                memory_bytes: 0,
                hidden: 0,
            }),
    {
        StatisticsSnapshot { errors: 0, warnings: 0, logs_per_second: 0, memory_bytes: 0, hidden: 0 }
    }
}

} // verus!
