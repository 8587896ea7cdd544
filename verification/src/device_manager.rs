use std::path::PathBuf;
use vstd::prelude::*;

use crate::adb::{AdbDevice, AdbDeviceView};
use crate::device::{
    decimal, decimal_string, entry_views, last_n, refiltered, search_hits, unicode_lowercase,
    visible, DeviceContext, DeviceSnapshot, ExportMode, SEARCH_WINDOW,
};
use crate::filter::{query_terms, FilterQuery, TermView};
use crate::log_entry::{DeviceInfo, DeviceInfoView, DeviceSource, LogEntry, LogEntryView};
use crate::recorder::{path_clone, path_from, path_named, safe_name, sanitize_device_name, Recorder, RecorderConfig, RecorderStatusView};
use crate::statistics::{StatisticsView, BYTES_PER_ENTRY};
use crate::text::str_eq;

verus! {

pub const MOCK_DEVICE_ID: &'static str = "mock-device";

pub const MOCK_DEVICE_NAME: &'static str = "Mock Device";

/// The adb path reported when a scan does not name one.
pub const DEFAULT_ADB_PATH: &'static str = "libs/<platform>/adb";

/// The directory under which devices record their raw lines.
pub const LOG_ROOT: &'static str = "logs";

/// How many entries each device keeps.
pub const DEVICE_BUFFER_CAPACITY: usize = 1000000;

/// Where the device list comes from.
#[derive(Debug, Clone, Copy, PartialEq, Eq, Structural)]
pub enum AdbStatusMode {
    Bundled,
    MockFallback,
}

/// The state of adb as the user interface shows it.
#[derive(Debug, PartialEq, Eq)]
pub struct AdbStatus {
    pub available: bool,
    pub mode: AdbStatusMode,
    pub path: Option<String>,
    pub message: String,
}

/// The contents of an [`AdbStatus`].
pub struct AdbStatusView {
    pub available: bool,
    pub mode: AdbStatusMode,
    pub path: Option<Seq<char>>,
    pub message: Seq<char>,
}

pub open spec fn opt_text(o: Option<String>) -> Option<Seq<char>> {
    match o {
        Some(s) => Some(s@),
        None => None,
    }
}

impl View for AdbStatus {
    type V = AdbStatusView;

    open spec fn view(&self) -> AdbStatusView {
        AdbStatusView {
            available: self.available,
            mode: self.mode,
            path: opt_text(self.path),
            message: self.message@,
        }
    }
}

impl Clone for AdbStatus {
    fn clone(&self) -> (r: Self)
        ensures
            r == *self,
    {
        AdbStatus {
            available: self.available,
            mode: self.mode,
            path: match &self.path {
                Some(p) => Some(p.clone()),
                None => None,
            },
            message: self.message.clone(),
        }
    }
}

/// Why a device operation was refused.
#[derive(Debug, PartialEq, Eq)]
pub enum ManagerError {
    /// No device has this identifier.
    UnknownDevice(String),
    /// The device is still connected, so it cannot be removed.
    StillConnected(String),
}

impl ManagerError {
    /// The message shown to the user: `unknown device: <id>` or
    /// `device still connected: <id>`.
    pub fn message(&self) -> (r: String)
        ensures
            r@ == match self {
                ManagerError::UnknownDevice(id) => "unknown device: "@ + id@,
                ManagerError::StillConnected(id) => "device still connected: "@ + id@,
            },
    {
        match self {
            ManagerError::UnknownDevice(id) => {
                let mut m = String::from_str("unknown device: ");
                m.append(id.as_str());
                m
            },
            ManagerError::StillConnected(id) => {
                let mut m = String::from_str("device still connected: ");
                m.append(id.as_str());
                m
            },
        }
    }
}

/// Where an export of a device was written, how many lines it holds, and its mode.
#[derive(Debug)]
pub struct ManagedExportResult {
    pub path: PathBuf,
    pub line_count: usize,
    pub mode: ExportMode,
}

/// The directory, under the log root, that exports go to.
pub const EXPORTS_DIR: &'static str = "exports";

/// The name of an export mode: `all` or `filtered`.
pub open spec fn mode_label(mode: ExportMode) -> Seq<char> {
    match mode {
        ExportMode::All => "all"@,
        ExportMode::Filtered => "filtered"@,
    }
}

pub fn export_mode_label(mode: ExportMode) -> (r: &'static str)
    ensures
        r@ == mode_label(mode),
{
    match mode {
        ExportMode::All => "all",
        ExportMode::Filtered => "filtered",
    }
}

/// The file name of an export of device `id` in `mode` made at `millis` milliseconds
/// since the Unix epoch: `<id made safe>-<mode>-<millis>.log`.
pub open spec fn export_name(id: Seq<char>, mode: ExportMode, millis: nat) -> Seq<char> {
    safe_name(id) + "-"@ + mode_label(mode) + "-"@ + decimal(millis) + ".log"@
}

/// The file name of an export (see [`export_name`]).
pub fn export_file_name(device_id: &str, mode: ExportMode, millis: u128) -> (r: String)
    ensures
        r@ == export_name(device_id@, mode, millis as nat),
{
    let mut name = sanitize_device_name(device_id);
    name.append("-");
    name.append(export_mode_label(mode));
    name.append("-");
    let digits = decimal_string(millis);
    name.append(digits.as_str());
    name.append(".log");
    name
}

/// Which logcat processes the caller has to stop after a change of the device list.
#[derive(Debug, PartialEq, Eq)]
pub enum LogcatStop {
    /// Stop every logcat process.
    All,
    /// Stop the logcat processes of these devices.
    Devices(Vec<String>),
}

/// The devices, their contexts and the adb status.
pub struct DeviceManager {
    adb_status: AdbStatus,
    devices: Vec<DeviceInfo>,
    contexts: Vec<DeviceContext>,
}

pub open spec fn device_views(ds: Seq<DeviceInfo>) -> Seq<DeviceInfoView> {
    ds.map_values(|d: DeviceInfo| d@)
}

pub open spec fn ids_of(ds: Seq<DeviceInfoView>) -> Seq<Seq<char>> {
    ds.map_values(|d: DeviceInfoView| d.device_id)
}

/// How many devices of `ds` are connected.
pub open spec fn connected_count(ds: Seq<DeviceInfoView>) -> nat
    decreases ds.len(),
{
    if ds.len() == 0 {
        0
    } else {
        connected_count(ds.drop_last()) + if ds.last().connected {
            1nat
        } else {
            0nat
        }
    }
}

/// The status message for a device list: `ADB: N device(s) connected`, or
/// `ADB: N online, M disconnected` when some device is disconnected.
pub open spec fn device_count_message(ds: Seq<DeviceInfoView>) -> Seq<char> {
    let online = connected_count(ds);
    let offline = (ds.len() - online) as nat;
    if offline == 0 {
        "ADB: "@ + decimal(online) + " device(s) connected"@
    } else {
        "ADB: "@ + decimal(online) + " online, "@ + decimal(offline) + " disconnected"@
    }
}

/// `c` is a device context as created for a new device: nothing ingested, the empty
/// filter, a full-size buffer, counters at zero, recording on.
pub open spec fn fresh_context(c: DeviceContext, id: Seq<char>, name: Seq<char>) -> bool {
    &&& c.wf()
    &&& c.id() == id
    &&& c.name() == name
    &&& c.spec_seq() == 0
    &&& c.entries() == Seq::<LogEntryView>::empty()
    &&& c.spec_filter() == Seq::<TermView>::empty()
    &&& c.spec_capacity() == DEVICE_BUFFER_CAPACITY
    &&& c.stats() == (StatisticsView { errors: 0, warnings: 0, hidden: 0, total: 0 })
    &&& c.status() == (RecorderStatusView { enabled: false, path: None, warning: None })
    &&& c.recording()
    &&& c.recorder_device() == id
}


/// The display name that the last entry of `scan` for `id` gives.
pub open spec fn last_display_name(scan: Seq<AdbDeviceView>, id: Seq<char>) -> Seq<char>
    decreases scan.len(),
{
    if scan.len() == 0 {
        seq![]
    } else if scan.last().serial == id {
        scan.last().display_name
    } else {
        last_display_name(scan.drop_last(), id)
    }
}

pub open spec fn scan_lists(scan: Seq<AdbDeviceView>, id: Seq<char>) -> bool {
    exists|i: int| 0 <= i < scan.len() && scan[i].serial == id
}

/// The device list entry of a scanned device: connected, from adb.
pub open spec fn adb_info(d: AdbDeviceView) -> DeviceInfoView {
    DeviceInfoView { device_id: d.serial, device_name: d.display_name, connected: true, source: DeviceSource::Adb }
}

/// The device list entries of the scanned devices.
pub open spec fn adb_infos(scan: Seq<AdbDeviceView>) -> Seq<DeviceInfoView> {
    scan.map_values(|d: AdbDeviceView| adb_info(d))
}

pub open spec fn adb_views(ds: Seq<AdbDevice>) -> Seq<AdbDeviceView> {
    ds.map_values(|d: AdbDevice| d@)
}

/// `ds` without the devices `id`.
pub open spec fn without_device(ds: Seq<DeviceInfoView>, id: Seq<char>) -> Seq<DeviceInfoView>
    decreases ds.len(),
{
    if ds.len() == 0 {
        seq![]
    } else {
        let rest = without_device(ds.drop_last(), id);
        if ds.last().device_id == id {
            rest
        } else {
            rest.push(ds.last())
        }
    }
}

/// The index of the first device `id` of `ds`, if any.
pub open spec fn first_device(ds: Seq<DeviceInfoView>, id: Seq<char>) -> Option<int> {
    if exists|i: int| 0 <= i < ds.len() && ds[i].device_id == id {
        Some(choose|i: int| 0 <= i < ds.len() && ds[i].device_id == id && forall|k: int| 0 <= k < i ==> ds[k].device_id != id)
    } else {
        None
    }
}

proof fn lemma_first_device(ds: Seq<DeviceInfoView>, id: Seq<char>, i: int)
    requires
        0 <= i < ds.len(),
        ds[i].device_id == id,
        forall|k: int| 0 <= k < i ==> ds[k].device_id != id,
    ensures
        first_device(ds, id) == Some(i),
{
    let c = choose|c: int| 0 <= c < ds.len() && ds[c].device_id == id && forall|k: int| 0 <= k < c ==> ds[k].device_id != id;
    assert(0 <= c < ds.len() && ds[c].device_id == id && forall|k: int| 0 <= k < c ==> ds[k].device_id != id);
    if c < i {
    } else if c > i {
        assert(ds[i].device_id != id);
    }
}


/// `ds` with the first device `id` marked disconnected.
pub open spec fn mark_first(ds: Seq<DeviceInfoView>, id: Seq<char>) -> Seq<DeviceInfoView> {
    match first_device(ds, id) {
        Some(i) => ds.update(i, DeviceInfoView { connected: false, ..ds[i] }),
        None => ds,
    }
}

/// The identifiers of the adb devices of `ds`, in order.
pub open spec fn adb_ids(ds: Seq<DeviceInfoView>) -> Seq<Seq<char>>
    decreases ds.len(),
{
    if ds.len() == 0 {
        seq![]
    } else {
        let rest = adb_ids(ds.drop_last());
        if ds.last().source == DeviceSource::Adb {
            rest.push(ds.last().device_id)
        } else {
            rest
        }
    }
}

/// The identifiers of the connected adb devices of `ds`, in order.
pub open spec fn online_adb_ids(ds: Seq<DeviceInfoView>) -> Seq<Seq<char>>
    decreases ds.len(),
{
    if ds.len() == 0 {
        seq![]
    } else {
        let rest = online_adb_ids(ds.drop_last());
        if ds.last().source == DeviceSource::Adb && ds.last().connected {
            rest.push(ds.last().device_id)
        } else {
            rest
        }
    }
}

/// Some identifier of `ids` names a listed device of `ds`.
pub open spec fn names_listed(ds: Seq<DeviceInfoView>, ids: Seq<Seq<char>>) -> bool {
    exists|k: int| 0 <= k < ids.len() && first_device(ds, #[trigger] ids[k]) is Some
}

/// The identifiers of `ids` that `scan` does not list, in order.
pub open spec fn missing_ids(ids: Seq<Seq<char>>, scan: Seq<AdbDeviceView>) -> Seq<Seq<char>>
    decreases ids.len(),
{
    if ids.len() == 0 {
        seq![]
    } else {
        let rest = missing_ids(ids.drop_last(), scan);
        if scan_lists(scan, ids.last()) {
            rest
        } else {
            rest.push(ids.last())
        }
    }
}

/// `ds` after marking disconnected, in turn, each device of `ids`.
pub open spec fn mark_all(ds: Seq<DeviceInfoView>, ids: Seq<Seq<char>>) -> Seq<DeviceInfoView>
    decreases ids.len(),
{
    if ids.len() == 0 {
        ds
    } else {
        mark_first(mark_all(ds, ids.drop_last()), ids.last())
    }
}

/// Every adb device of `ds` marked disconnected.
pub open spec fn disconnect_adb(ds: Seq<DeviceInfoView>) -> Seq<DeviceInfoView> {
    ds.map_values(
        |d: DeviceInfoView|
            if d.source == DeviceSource::Adb {
                DeviceInfoView { connected: false, ..d }
            } else {
                d
            },
    )
}

pub open spec fn has_adb(ds: Seq<DeviceInfoView>) -> bool {
    exists|i: int| 0 <= i < ds.len() && ds[i].source == DeviceSource::Adb
}

pub open spec fn has_mock(ds: Seq<DeviceInfoView>) -> bool {
    exists|i: int| 0 <= i < ds.len() && ds[i].source == DeviceSource::Mock
}

/// `ds` after a scan entry `d`: the first device with its serial becomes connected,
/// from adb, with the scanned name; an unknown serial is appended as a connected adb
/// device named `new_name`.
pub open spec fn upsert_device(ds: Seq<DeviceInfoView>, d: AdbDeviceView, new_name: Seq<char>) -> Seq<DeviceInfoView> {
    match first_device(ds, d.serial) {
        Some(i) => ds.update(
            i,
            DeviceInfoView {
                device_id: ds[i].device_id,
                device_name: d.display_name,
                connected: true,
                source: DeviceSource::Adb,
            },
        ),
        None => ds.push(
            DeviceInfoView { device_id: d.serial, device_name: new_name, connected: true, source: DeviceSource::Adb },
        ),
    }
}

/// `ds` after the first `n` entries of `scan`, in order (new devices are named after
/// their last scan entry).
pub open spec fn upsert_all(ds: Seq<DeviceInfoView>, scan: Seq<AdbDeviceView>, n: nat) -> Seq<DeviceInfoView>
    decreases n,
{
    if n == 0 {
        ds
    } else {
        let prev = upsert_all(ds, scan, (n - 1) as nat);
        upsert_device(prev, scan[n - 1], last_display_name(scan, scan[n - 1].serial))
    }
}

/// The status text when an adb scan fails with `error` and adb devices are kept.
pub open spec fn scan_error_status(path: Option<Seq<char>>, error: Seq<char>) -> AdbStatusView {
    AdbStatusView { available: path is Some, mode: AdbStatusMode::Bundled, path, message: "ADB: "@ + error }
}

/// What merging the scan result (`path`, `devices`, `error`) into `before` gives, with
/// `r` the logcat processes to stop:
///
/// * a failed scan disconnects every adb device and reports `ADB: <error>` (with no adb
///   device: the mock device, `ADB: <error>, using mock device`), and stops every
///   process;
/// * an empty scan disconnects every adb device and reports `ADB: no online devices`
///   (with no adb device: the mock device, `ADB: no online devices, using mock
///   device`), and stops every process;
/// * the first real scan after mock mode replaces the mock device with the scanned
///   devices, and stops every process;
/// * otherwise the adb devices that the scan misses are disconnected, in list order
///   (their processes are the ones to stop), the scanned devices are connected, renamed
///   or added in scan order, every existing context is kept as it was, each new device
///   gets a fresh context, and the status counts the devices.
pub open spec fn merge_outcome(
    before: DeviceManager,
    after: DeviceManager,
    path: Option<String>,
    devices: Seq<AdbDevice>,
    error: Option<String>,
    r: LogcatStop,
) -> bool {
    let adb_path = match path {
        Some(p) => p@,
        None => DEFAULT_ADB_PATH@,
    };
    &&& (error is Some || devices.len() == 0 || has_mock(before.devices())) ==> r is All
    &&& error matches Some(e) ==> if has_adb(before.devices()) {
        &&& after.devices() == disconnect_adb(before.devices())
        &&& after.status() == scan_error_status(opt_text(path), e@)
        &&& after.context_ids() == before.context_ids()
        &&& forall|x: Seq<char>| #[trigger] after.context(x) == before.context(x)
    } else {
        after.is_mock_state("ADB: "@ + e@ + ", using mock device"@)
    }
    &&& error is None && devices.len() == 0 ==> if has_adb(before.devices()) {
        &&& after.devices() == disconnect_adb(before.devices())
        &&& after.status() == (AdbStatusView {
            available: true,
            mode: AdbStatusMode::Bundled,
            path: Some(adb_path),
            message: "ADB: no online devices"@,
        })
        &&& after.context_ids() == before.context_ids()
        &&& forall|x: Seq<char>| #[trigger] after.context(x) == before.context(x)
    } else {
        after.is_mock_state("ADB: no online devices, using mock device"@)
    }
    &&& error is None && devices.len() > 0 && has_mock(before.devices()) ==> after.is_adb_state(
        adb_path,
        adb_views(devices),
    )
    &&& error is None && devices.len() > 0 && !has_mock(before.devices()) ==> {
        let scan = adb_views(devices);
        let missing = missing_ids(adb_ids(before.devices()), scan);
        &&& r matches LogcatStop::Devices(ids) && ids@.map_values(|s: String| s@) == missing
        &&& after.devices() == upsert_all(mark_all(before.devices(), missing), scan, scan.len())
        &&& after.status() == (AdbStatusView {
            available: true,
            mode: AdbStatusMode::Bundled,
            path: Some(adb_path),
            message: device_count_message(after.devices()),
        })
        &&& forall|x: Seq<char>| #[trigger] after.has_context(x) <==> before.has_context(x) || scan_lists(scan, x)
        &&& forall|x: Seq<char>| #[trigger] before.has_context(x) ==> after.context(x) == before.context(x)
        &&& forall|x: Seq<char>| #[trigger] after.has_context(x) && !before.has_context(x) ==> fresh_context(
            after.context(x),
            x,
            last_display_name(scan, x),
        )
    }
}

/// Device `id` is listed and disconnected, so it can be removed.
pub open spec fn removable(m: DeviceManager, id: Seq<char>) -> bool {
    first_device(m.devices(), id) matches Some(i) && !m.devices()[i].connected
}

/// `after` is `before` after a request to remove device `id`: a removable device leaves
/// the list (every entry with its identifier) with its context, the other contexts are
/// kept; otherwise nothing changes.
pub open spec fn removal(before: DeviceManager, after: DeviceManager, id: Seq<char>) -> bool {
    if removable(before, id) {
        &&& after.status() == before.status()
        &&& after.devices() == without_device(before.devices(), id)
        &&& forall|x: Seq<char>| #[trigger] after.has_context(x) <==> before.has_context(x) && x != id
        &&& forall|x: Seq<char>| #[trigger] after.has_context(x) ==> after.context(x) == before.context(x)
    } else {
        after == before
    }
}

/// `after` is `before` after filtering device `id` with `query`: its context takes the
/// filter (see `filter_applied`), everything else is kept; an unknown device changes
/// nothing.
pub open spec fn filter_set(before: DeviceManager, after: DeviceManager, id: Seq<char>, query: Seq<char>) -> bool {
    if before.has_context(id) {
        &&& after.status() == before.status()
        &&& after.devices() == before.devices()
        &&& after.context_ids() == before.context_ids()
        &&& crate::device::filter_applied(before.context(id), after.context(id), query_terms(query))
        &&& forall|x: Seq<char>| #[trigger] before.has_context(x) && x != id ==> after.context(x) == before.context(x)
    } else {
        after == before
    }
}

/// No identifier occurs twice in `ids`.
pub open spec fn distinct_ids(ids: Seq<Seq<char>>) -> bool {
    forall|i: int, j: int| 0 <= i < j < ids.len() ==> ids[i] != ids[j]
}

pub open spec fn ctx_ids(cs: Seq<DeviceContext>) -> Seq<Seq<char>> {
    cs.map_values(|c: DeviceContext| c.id())
}

/// Puts `ctx` into `contexts`, in place of the context with the same identifier if
/// there is one.
fn put_context(contexts: &mut Vec<DeviceContext>, ctx: DeviceContext)
    requires
        distinct_ids(ctx_ids(old(contexts)@)),
    ensures
        distinct_ids(ctx_ids(final(contexts)@)),
        forall|id: Seq<char>| ctx_ids(final(contexts)@).contains(id) <==> (ctx_ids(old(contexts)@).contains(id) || id == ctx.id()),
        forall|k: int| 0 <= k < final(contexts)@.len() && final(contexts)@[k].id() == ctx.id() ==> final(contexts)@[k] == ctx,
        forall|k: int| 0 <= k < final(contexts)@.len() && final(contexts)@[k].id() != ctx.id() ==> k < old(contexts)@.len() && final(contexts)@[k] == old(contexts)@[k],
{
    let ghost cid = ctx.id();
    let mut i: usize = 0;
    while i < contexts.len()
        invariant
            0 <= i <= contexts@.len(),
            contexts@ == old(contexts)@,
            distinct_ids(ctx_ids(old(contexts)@)),
            cid == ctx.id(),
            forall|k: int| 0 <= k < i ==> contexts@[k].id() != ctx.id(),
        decreases contexts@.len() - i,
    {
        if str_eq(contexts[i].id_text(), ctx.id_text()) {
            let ghost before = contexts@;
            contexts.set(i, ctx);
            proof {
                assert(ctx_ids(before)[i as int] == cid);
                assert(ctx_ids(contexts@) =~= ctx_ids(before));
                assert forall|k: int| 0 <= k < contexts@.len() && contexts@[k].id() == cid implies contexts@[k] == ctx by {
                    if k != i {
                        assert(ctx_ids(before)[k] == cid);
                        if k < i {
                            assert(ctx_ids(before)[k] != ctx_ids(before)[i as int]);
                        } else {
                            assert(ctx_ids(before)[i as int] != ctx_ids(before)[k]);
                        }
                    }
                }
            }
            return;
        }
        i = i + 1;
    }
    let ghost before = contexts@;
    contexts.push(ctx);
    proof {
        assert(ctx_ids(contexts@) =~= ctx_ids(before).push(cid));
        assert(!ctx_ids(before).contains(cid)) by {
            if ctx_ids(before).contains(cid) {
                let k = choose|k: int| 0 <= k < ctx_ids(before).len() && ctx_ids(before)[k] == cid;
                assert(before[k].id() == cid);
            }
        }
        assert forall|id: Seq<char>| ctx_ids(contexts@).contains(id) <==> (ctx_ids(before).contains(id) || id == cid) by {
            if ctx_ids(before).contains(id) {
                let k = choose|k: int| 0 <= k < ctx_ids(before).len() && ctx_ids(before)[k] == id;
                assert(ctx_ids(contexts@)[k] == id);
            }
            if ctx_ids(contexts@).contains(id) {
                let k = choose|k: int| 0 <= k < ctx_ids(contexts@).len() && ctx_ids(contexts@)[k] == id;
                if k < before.len() {
                    assert(ctx_ids(before)[k] == id);
                }
            }
            if id == cid {
                assert(ctx_ids(contexts@)[before.len() as int] == cid);
            }
        }
    }
}


/// The devices of `ds` whose identifier is not `id`, in order.
fn devices_without(ds: &Vec<DeviceInfo>, id: &str) -> (r: Vec<DeviceInfo>)
    ensures
        device_views(r@) == without_device(device_views(ds@), id@),
{
    let mut out: Vec<DeviceInfo> = Vec::new();
    let mut i: usize = 0;
    while i < ds.len()
        invariant
            0 <= i <= ds@.len(),
            device_views(out@) == without_device(device_views(ds@).take(i as int), id@),
        decreases ds@.len() - i,
    {
        let ghost pre = device_views(ds@).take(i as int);
        assert(device_views(ds@).take(i + 1).drop_last() =~= pre);
        assert(device_views(ds@).take(i + 1).last() == ds@[i as int]@);
        if !str_eq(ds[i].device_id.as_str(), id) {
            let ghost before = out@;
            out.push(ds[i].clone());
            assert(device_views(out@) =~= device_views(before).push(ds@[i as int]@));
        }
        i = i + 1;
    }
    assert(device_views(ds@).take(i as int) =~= device_views(ds@));
    out
}

proof fn lemma_push_contains<A>(s: Seq<A>, y: A)
    ensures
        forall|x: A| #[trigger] s.push(y).contains(x) <==> s.contains(x) || x == y,
{
    assert forall|x: A| #[trigger] s.push(y).contains(x) <==> s.contains(x) || x == y by {
        if s.push(y).contains(x) {
            let k = choose|k: int| 0 <= k < s.push(y).len() && s.push(y)[k] == x;
            if k < s.len() {
                assert(s[k] == x);
            }
        }
        if s.contains(x) {
            let k = choose|k: int| 0 <= k < s.len() && s[k] == x;
            assert(s.push(y)[k] == x);
        }
        if x == y {
            assert(s.push(y)[s.len() as int] == y);
        }
    }
}

proof fn lemma_without_device_ids(ds: Seq<DeviceInfoView>, id: Seq<char>)
    ensures
        forall|x: Seq<char>| #[trigger] ids_of(without_device(ds, id)).contains(x) <==> ids_of(ds).contains(x) && x != id,
    decreases ds.len(),
{
    if ds.len() > 0 {
        let pre = ds.drop_last();
        lemma_without_device_ids(pre, id);
        let w = without_device(pre, id);
        assert(ids_of(ds) =~= ids_of(pre).push(ds.last().device_id));
        lemma_push_contains(ids_of(pre), ds.last().device_id);
        if ds.last().device_id == id {
            assert(without_device(ds, id) == w);
        } else {
            assert(ids_of(without_device(ds, id)) =~= ids_of(w).push(ds.last().device_id));
            lemma_push_contains(ids_of(w), ds.last().device_id);
        }
    } else {
        assert forall|x: Seq<char>| #[trigger] ids_of(without_device(ds, id)).contains(x) <==> ids_of(ds).contains(x) && x != id by {
            assert(ids_of(ds).len() == 0);
            assert(ids_of(without_device(ds, id)).len() == 0);
        }
    }
}


proof fn lemma_mark_step(start: Seq<DeviceInfoView>, ms: Seq<Seq<char>>, id: Seq<char>)
    ensures
        mark_all(start, ms.push(id)) == mark_first(mark_all(start, ms), id),
{
    assert(ms.push(id).drop_last() =~= ms);
}

/// Upserting scanned device `d` leaves its first entry connected, and the first entry of
/// every other identifier where it was.
proof fn lemma_upsert_device(ds: Seq<DeviceInfoView>, d: AdbDeviceView, name: Seq<char>, s: Seq<char>)
    ensures
        first_device(upsert_device(ds, d, name), d.serial) matches Some(i) && upsert_device(ds, d, name)[i].connected,
        s != d.serial ==> first_device(upsert_device(ds, d, name), s) == first_device(ds, s),
        s != d.serial && first_device(ds, s) is Some ==> upsert_device(ds, d, name)[first_device(ds, s)->0]
            == ds[first_device(ds, s)->0],
{
    let u = upsert_device(ds, d, name);
    lemma_first_device_some(ds, d.serial);
    lemma_first_device_some(ds, s);
    match first_device(ds, d.serial) {
        Some(i) => {
            assert(u.len() == ds.len());
            assert(u[i].connected);
            assert(forall|k: int| 0 <= k < ds.len() ==> (#[trigger] ds[k]).device_id == u[k].device_id);
            lemma_first_device_ids(ds, u, d.serial);
            lemma_first_device_ids(ds, u, s);
        },
        None => {
            assert(forall|k: int| 0 <= k < ds.len() ==> (#[trigger] ds[k]).device_id != d.serial);
            assert(forall|k: int| 0 <= k < ds.len() ==> u[k] == ds[k]);
            lemma_first_device(u, d.serial, ds.len() as int);
            if s != d.serial {
                match first_device(ds, s) {
                    Some(j) => {
                        lemma_first_device(u, s, j);
                    },
                    None => {
                        lemma_first_device_some(u, s);
                        if let Some(j) = first_device(u, s) {
                            if j < ds.len() {
                                assert(ds[j].device_id == s);
                            }
                        }
                    },
                }
            }
        },
    }
}

/// After the first `n` scan entries are upserted, each of them has its first entry in
/// the list, connected.
proof fn lemma_upsert_all_connects(ds: Seq<DeviceInfoView>, scan: Seq<AdbDeviceView>, n: nat, k: int)
    requires
        0 <= k < n <= scan.len(),
    ensures
        first_device(upsert_all(ds, scan, n), scan[k].serial) matches Some(i) && upsert_all(ds, scan, n)[i].connected,
    decreases n,
{
    let prev = upsert_all(ds, scan, (n - 1) as nat);
    let d = scan[n - 1];
    let name = last_display_name(scan, d.serial);
    let s = scan[k].serial;
    let cur = upsert_device(prev, d, name);
    assert(upsert_all(ds, scan, n) == cur);
    lemma_upsert_device(prev, d, name, s);
    if s != d.serial {
        assert(k < n - 1);
        lemma_upsert_all_connects(ds, scan, (n - 1) as nat, k);
        let j = first_device(prev, s)->0;
        assert(first_device(cur, s) == Some(j));
        assert(cur[j] == prev[j]);
    }
}

/// A scan that succeeds and lists devices connects every device it lists, whatever
/// state the device was in before: a device that was unplugged and shows up again is
/// connected again (so its logcat can be started again).
pub proof fn scanned_devices_are_connected(
    before: DeviceManager,
    after: DeviceManager,
    path: Option<String>,
    devices: Seq<AdbDevice>,
    error: Option<String>,
    r: LogcatStop,
    k: int,
)
    requires
        merge_outcome(before, after, path, devices, error, r),
        error is None,
        0 <= k < devices.len(),
    ensures
        first_device(after.devices(), devices[k]@.serial) matches Some(i) && after.devices()[i].connected,
{
    let scan = adb_views(devices);
    assert(scan[k] == devices[k]@);
    if has_mock(before.devices()) {
        let ds = after.devices();
        assert(ds == adb_infos(scan));
        assert(ds[k].device_id == scan[k].serial);
        lemma_first_device_some(ds, scan[k].serial);
        let i = first_device(ds, scan[k].serial)->0;
        assert(ds[i] == adb_info(scan[i]));
    } else {
        let missing = missing_ids(adb_ids(before.devices()), scan);
        lemma_upsert_all_connects(mark_all(before.devices(), missing), scan, scan.len(), k);
    }
}

proof fn lemma_names_listed_step(ds: Seq<DeviceInfoView>, ms: Seq<Seq<char>>, id: Seq<char>)
    ensures
        names_listed(ds, ms.push(id)) == (names_listed(ds, ms) || first_device(ds, id) is Some),
{
    let grown = ms.push(id);
    if names_listed(ds, grown) {
        let k = choose|k: int| 0 <= k < grown.len() && first_device(ds, #[trigger] grown[k]) is Some;
        if k < ms.len() {
            assert(ms[k] == grown[k]);
        }
    }
    if names_listed(ds, ms) {
        let k = choose|k: int| 0 <= k < ms.len() && first_device(ds, #[trigger] ms[k]) is Some;
        assert(grown[k] == ms[k]);
    }
    if first_device(ds, id) is Some {
        assert(grown[ms.len() as int] == id);
    }
}

/// Marking devices disconnected keeps the length, the identifiers and the sources.
proof fn lemma_mark_all_shape(ds: Seq<DeviceInfoView>, ids: Seq<Seq<char>>)
    ensures
        mark_all(ds, ids).len() == ds.len(),
        forall|k: int| 0 <= k < ds.len() ==> (#[trigger] mark_all(ds, ids)[k]).source == ds[k].source
            && mark_all(ds, ids)[k].device_id == ds[k].device_id,
    decreases ids.len(),
{
    if ids.len() > 0 {
        let prev = mark_all(ds, ids.drop_last());
        lemma_mark_all_shape(ds, ids.drop_last());
        lemma_first_device_some(prev, ids.last());
    }
}

/// Two device lists with the same identifiers find the same first device.
proof fn lemma_first_device_ids(a: Seq<DeviceInfoView>, b: Seq<DeviceInfoView>, id: Seq<char>)
    requires
        a.len() == b.len(),
        forall|k: int| 0 <= k < a.len() ==> (#[trigger] a[k]).device_id == b[k].device_id,
    ensures
        first_device(a, id) == first_device(b, id),
{
    lemma_first_device_some(a, id);
    lemma_first_device_some(b, id);
    if let Some(i) = first_device(a, id) {
        assert(a[i].device_id == b[i].device_id);
        assert forall|k: int| 0 <= k < i implies b[k].device_id != id by {
            assert(a[k].device_id == b[k].device_id);
        }
        lemma_first_device(b, id, i);
    } else if let Some(i) = first_device(b, id) {
        assert(a[i].device_id == b[i].device_id);
        assert forall|k: int| 0 <= k < i implies a[k].device_id != id by {
            assert(a[k].device_id == b[k].device_id);
        }
        lemma_first_device(a, id, i);
    }
}

/// A list that holds `id` before position `n` holds a first such position.
proof fn lemma_exists_first(ds: Seq<DeviceInfoView>, id: Seq<char>, n: int)
    requires
        0 <= n <= ds.len(),
        exists|i: int| 0 <= i < n && ds[i].device_id == id,
    ensures
        exists|i: int| 0 <= i < n && ds[i].device_id == id && forall|k: int| 0 <= k < i ==> ds[k].device_id != id,
    decreases n,
{
    if exists|i: int| 0 <= i < n - 1 && ds[i].device_id == id {
        lemma_exists_first(ds, id, n - 1);
        let i = choose|i: int| 0 <= i < n - 1 && ds[i].device_id == id && forall|k: int| 0 <= k < i ==> ds[k].device_id != id;
        assert(0 <= i < n && ds[i].device_id == id && forall|k: int| 0 <= k < i ==> ds[k].device_id != id);
    } else {
        let i = choose|i: int| 0 <= i < n && ds[i].device_id == id;
        assert(i == n - 1);
        assert(forall|k: int| 0 <= k < n - 1 ==> ds[k].device_id != id);
    }
}

/// What `first_device` finds is the first position of `id`.
proof fn lemma_first_device_some(ds: Seq<DeviceInfoView>, id: Seq<char>)
    ensures
        first_device(ds, id) matches Some(i) ==> 0 <= i < ds.len() && ds[i].device_id == id
            && forall|k: int| 0 <= k < i ==> ds[k].device_id != id,
{
    if exists|i: int| 0 <= i < ds.len() && ds[i].device_id == id {
        lemma_exists_first(ds, id, ds.len() as int);
    }
}

/// Whether `scan` lists the serial `id`.
fn scan_has_serial(scan: &Vec<AdbDevice>, id: &str) -> (r: bool)
    ensures
        r == scan_lists(adb_views(scan@), id@),
{
    let mut i: usize = 0;
    while i < scan.len()
        invariant
            0 <= i <= scan@.len(),
            forall|k: int| 0 <= k < i ==> adb_views(scan@)[k].serial != id@,
        decreases scan@.len() - i,
    {
        assert(adb_views(scan@)[i as int] == scan@[i as int]@);
        if str_eq(scan[i].serial.as_str(), id) {
            return true;
        }
        i = i + 1;
    }
    false
}

/// The display name of the last entry of `scan` for `id`.
fn last_name(scan: &Vec<AdbDevice>, id: &str) -> (r: String)
    ensures
        r@ == last_display_name(adb_views(scan@), id@),
{
    let ghost sv = adb_views(scan@);
    let mut j = scan.len();
    assert(sv.take(j as int) =~= sv);
    while j > 0
        invariant
            0 <= j <= scan@.len(),
            sv == adb_views(scan@),
            last_display_name(sv, id@) == last_display_name(sv.take(j as int), id@),
        decreases j,
    {
        let ghost t = sv.take(j as int);
        assert(t.drop_last() =~= sv.take(j - 1));
        assert(t.last() == scan@[j - 1]@);
        if str_eq(scan[j - 1].serial.as_str(), id) {
            return scan[j - 1].display_name.clone();
        }
        j = j - 1;
    }
    String::new()
}

/// A new context for device `id` named `name`, recording under `root`.
fn new_context(id: &str, name: &str, root: &PathBuf) -> (c: DeviceContext)
    ensures
        fresh_context(c, id@, name@),
        c.recorder_root() == *root,
{
    let recorder = Recorder::new(
        RecorderConfig { enabled: true, root: path_clone(root), device_name: String::from_str(id) },
    );
    DeviceContext::new(String::from_str(id), String::from_str(name), DEVICE_BUFFER_CAPACITY, recorder)
}

impl DeviceManager {
    pub closed spec fn devices(&self) -> Seq<DeviceInfoView> {
        device_views(self.devices@)
    }

    pub closed spec fn status(&self) -> AdbStatusView {
        self.adb_status@
    }

    /// The identifiers of the device contexts.
    pub closed spec fn context_ids(&self) -> Seq<Seq<char>> {
        self.contexts@.map_values(|c: DeviceContext| c.id())
    }

    pub open spec fn has_context(&self, id: Seq<char>) -> bool {
        self.context_ids().contains(id)
    }

    /// The context of device `id` (meaningful when it has one).
    pub closed spec fn context(&self, id: Seq<char>) -> DeviceContext {
        self.contexts@[choose|i: int| 0 <= i < self.contexts@.len() && self.contexts@[i].id() == id]
    }

    /// Every listed device has exactly one context, every context belongs to a listed
    /// device, and every context is consistent.
    pub closed spec fn wf(&self) -> bool {
        let ids = self.context_ids();
        &&& forall|i: int, j: int| 0 <= i < j < ids.len() ==> ids[i] != ids[j]
        &&& forall|i: int| 0 <= i < self.contexts@.len() ==> (#[trigger] self.contexts@[i]).wf()
        &&& forall|i: int| 0 <= i < self.devices().len() ==> ids.contains(#[trigger] self.devices()[i].device_id)
        &&& forall|i: int| 0 <= i < ids.len() ==> ids_of(self.devices()).contains(#[trigger] ids[i])
    }

    /// The manager lists the devices of `scan` with the adb at `path`: one connected
    /// entry per scanned device, in order, and a fresh context for each identifier
    /// (named after its last entry).
    pub open spec fn is_adb_state(&self, path: Seq<char>, scan: Seq<AdbDeviceView>) -> bool {
        &&& self.wf()
        &&& self.devices() == adb_infos(scan)
        &&& self.status() == (AdbStatusView {
            available: true,
            mode: AdbStatusMode::Bundled,
            path: Some(path),
            message: "ADB: "@ + decimal(scan.len()) + " device(s) connected"@,
        })
        &&& forall|id: Seq<char>| self.has_context(id) <==> scan_lists(scan, id)
        &&& forall|id: Seq<char>| #[trigger] self.has_context(id) ==> fresh_context(
            self.context(id),
            id,
            last_display_name(scan, id),
        )
    }

    /// The manager is in mock mode with `message`: only the mock device, connected,
    /// with a fresh context.
    pub open spec fn is_mock_state(&self, message: Seq<char>) -> bool {
        &&& self.wf()
        &&& self.devices() == seq![DeviceInfoView {
            device_id: MOCK_DEVICE_ID@,
            device_name: MOCK_DEVICE_NAME@,
            connected: true,
            source: DeviceSource::Mock,
        }]
        &&& self.status() == (AdbStatusView {
            available: false,
            mode: AdbStatusMode::MockFallback,
            path: None,
            message,
        })
        &&& self.context_ids() == seq![MOCK_DEVICE_ID@]
        &&& fresh_context(self.context(MOCK_DEVICE_ID@), MOCK_DEVICE_ID@, MOCK_DEVICE_NAME@)
    }

    /// What holds of every manager: each listed device has a context and each context
    /// belongs to a listed device, no two contexts share an identifier, and every context
    /// is consistent.
    pub proof fn consistent(&self)
        requires
            self.wf(),
        ensures
            forall|i: int| 0 <= i < self.devices().len() ==> self.has_context(#[trigger] self.devices()[i].device_id),
            forall|id: Seq<char>| #[trigger] self.has_context(id) ==> ids_of(self.devices()).contains(id),
            forall|i: int, j: int| 0 <= i < j < self.context_ids().len() ==> self.context_ids()[i] != self.context_ids()[j],
            forall|id: Seq<char>| #[trigger] self.has_context(id) ==> self.context(id).wf() && self.context(id).id() == id,
    {
        assert forall|id: Seq<char>| #[trigger] self.has_context(id) implies ids_of(self.devices()).contains(id) by {
            let k = choose|k: int| 0 <= k < self.context_ids().len() && self.context_ids()[k] == id;
            assert(ids_of(self.devices()).contains(self.context_ids()[k]));
        }
        assert forall|id: Seq<char>| #[trigger] self.has_context(id) implies self.context(id).wf() && self.context(id).id() == id by {
            let k = choose|k: int| 0 <= k < self.context_ids().len() && self.context_ids()[k] == id;
            self.lemma_context_at(k);
            assert(self.contexts@[k].wf());
        }
    }

    proof fn lemma_context_at(&self, i: int)
        requires
            self.wf(),
            0 <= i < self.contexts@.len(),
        ensures
            self.context(self.contexts@[i].id()) == self.contexts@[i],
    {
        let id = self.contexts@[i].id();
        let k = choose|k: int| 0 <= k < self.contexts@.len() && self.contexts@[k].id() == id;
        assert(self.context_ids()[i] == id);
        assert(0 <= k < self.contexts@.len() && self.contexts@[k].id() == id);
        assert(self.context_ids()[k] == id);
        if k != i {
            if k < i {
                assert(self.context_ids()[k] != self.context_ids()[i]);
            } else {
                assert(self.context_ids()[i] != self.context_ids()[k]);
            }
        }
    }

    /// The position of the context of device `id`.
    fn find_context(&self, id: &str) -> (r: Option<usize>)
        requires
            self.wf(),
        ensures
            match r {
                Some(i) => i < self.contexts@.len() && self.contexts@[i as int].id() == id@
                    && self.has_context(id@) && self.context(id@) == self.contexts@[i as int],
                None => !self.has_context(id@),
            },
    {
        let mut i: usize = 0;
        while i < self.contexts.len()
            invariant
                self.wf(),
                0 <= i <= self.contexts@.len(),
                forall|k: int| 0 <= k < i ==> self.contexts@[k].id() != id@,
            decreases self.contexts@.len() - i,
        {
            if str_eq(self.contexts[i].id_text(), id) {
                proof {
                    assert(self.context_ids()[i as int] == id@);
                    self.lemma_context_at(i as int);
                }
                return Some(i);
            }
            i = i + 1;
        }
        proof {
            if self.has_context(id@) {
                let k = choose|k: int| 0 <= k < self.context_ids().len() && self.context_ids()[k] == id@;
                assert(self.contexts@[k].id() == id@);
            }
        }
        None
    }

    /// The position of the first listed device `id`.
    fn find_device(&self, id: &str) -> (r: Option<usize>)
        ensures
            match r {
                Some(i) => i < self.devices().len() && self.devices()[i as int].device_id == id@
                    && forall|k: int| 0 <= k < i ==> self.devices()[k].device_id != id@,
                None => forall|k: int| 0 <= k < self.devices().len() ==> self.devices()[k].device_id != id@,
            },
    {
        let mut i: usize = 0;
        while i < self.devices.len()
            invariant
                0 <= i <= self.devices@.len(),
                forall|k: int| 0 <= k < i ==> self.devices()[k].device_id != id@,
            decreases self.devices@.len() - i,
        {
            assert(self.devices()[i as int] == self.devices@[i as int]@);
            if str_eq(self.devices[i].device_id.as_str(), id) {
                return Some(i);
            }
            i = i + 1;
        }
        None
    }

    /// The mock device alone, with its message.
    pub fn mock_fallback(message: &str) -> (r: Self)
        ensures
            r.is_mock_state(message@),
            r.context(MOCK_DEVICE_ID@).recorder_root() == path_named(LOG_ROOT@),
    {
        Self::mock_fallback_with_log_root(message, path_from(LOG_ROOT))
    }

    /// [`Self::mock_fallback`], recording under `log_root`.
    pub fn mock_fallback_with_log_root(message: &str, log_root: PathBuf) -> (r: Self)
        ensures
            r.is_mock_state(message@),
            r.context(MOCK_DEVICE_ID@).recorder_root() == log_root,
    {
        let recorder = Recorder::new(
            RecorderConfig { enabled: true, root: log_root, device_name: String::from_str(MOCK_DEVICE_ID) },
        );
        let context = DeviceContext::new(
            String::from_str(MOCK_DEVICE_ID),
            String::from_str(MOCK_DEVICE_NAME),
            DEVICE_BUFFER_CAPACITY,
            recorder,
        );
        let mut contexts: Vec<DeviceContext> = Vec::new();
        contexts.push(context);
        let mut devices: Vec<DeviceInfo> = Vec::new();
        devices.push(
            DeviceInfo {
                device_id: String::from_str(MOCK_DEVICE_ID),
                device_name: String::from_str(MOCK_DEVICE_NAME),
                connected: true,
                source: DeviceSource::Mock,
            },
        );
        let r = DeviceManager {
            adb_status: AdbStatus {
                available: false,
                mode: AdbStatusMode::MockFallback,
                path: None,
                message: String::from_str(message),
            },
            devices,
            contexts,
        };
        proof {
            assert(r.context_ids() =~= seq![MOCK_DEVICE_ID@]);
            assert(r.devices() =~= seq![DeviceInfoView {
                device_id: MOCK_DEVICE_ID@,
                device_name: MOCK_DEVICE_NAME@,
                connected: true,
                source: DeviceSource::Mock,
            }]);
            assert(ids_of(r.devices()) =~= seq![MOCK_DEVICE_ID@]);
            assert(r.context_ids().contains(MOCK_DEVICE_ID@)) by {
                assert(r.context_ids()[0] == MOCK_DEVICE_ID@);
            }
            assert(ids_of(r.devices())[0] == MOCK_DEVICE_ID@);
            r.lemma_context_at(0);
        }
        r
    }

    pub fn adb_status(&self) -> (r: &AdbStatus)
        ensures
            r@ == self.status(),
    {
        &self.adb_status
    }

    pub fn device_list(&self) -> (r: &[DeviceInfo])
        ensures
            device_views(r@) == self.devices(),
    {
        self.devices.as_slice()
    }

    /// Whether device `device_id` has a context (is known).
    pub fn has_device(&self, device_id: &str) -> (r: bool)
        requires
            self.wf(),
        ensures
            r == self.has_context(device_id@),
    {
        self.find_context(device_id).is_some()
    }

    /// Whether the first listed device `device_id` is connected (false when unknown).
    pub fn is_connected(&self, device_id: &str) -> (r: bool)
        ensures
            r == exists|i: int| 0 <= i < self.devices().len() && self.devices()[i].device_id == device_id@
                && self.devices()[i].connected && forall|k: int| 0 <= k < i ==> self.devices()[k].device_id != device_id@,
    {
        match self.find_device(device_id) {
            Some(i) => self.devices[i].connected,
            None => false,
        }
    }

    /// Whether the manager runs on the mock device (some listed device is the mock).
    pub fn is_mock_fallback(&self) -> (r: bool)
        ensures
            r == exists|i: int| 0 <= i < self.devices().len() && self.devices()[i].source == DeviceSource::Mock,
    {
        let mut i: usize = 0;
        while i < self.devices.len()
            invariant
                0 <= i <= self.devices@.len(),
                forall|k: int| 0 <= k < i ==> self.devices()[k].source != DeviceSource::Mock,
            decreases self.devices@.len() - i,
        {
            assert(self.devices()[i as int] == self.devices@[i as int]@);
            if self.devices[i].source == DeviceSource::Mock {
                return true;
            }
            i = i + 1;
        }
        false
    }
    /// One connected device per scanned device, using the adb at `path`.
    pub fn from_adb_devices(path: String, adb_devices: Vec<AdbDevice>) -> (r: Self)
        ensures
            r.is_adb_state(path@, adb_views(adb_devices@)),
            forall|id: Seq<char>| #[trigger] r.has_context(id) ==> r.context(id).recorder_root() == path_named(LOG_ROOT@),
    {
        Self::from_adb_devices_with_log_root(path, adb_devices, path_from(LOG_ROOT))
    }

    /// [`Self::from_adb_devices`], recording under `log_root`.
    pub fn from_adb_devices_with_log_root(path: String, adb_devices: Vec<AdbDevice>, log_root: PathBuf) -> (r: Self)
        ensures
            r.is_adb_state(path@, adb_views(adb_devices@)),
            forall|id: Seq<char>| #[trigger] r.has_context(id) ==> r.context(id).recorder_root() == log_root,
    {
        let ghost scan = adb_views(adb_devices@);
        let count = adb_devices.len();
        let mut contexts: Vec<DeviceContext> = Vec::new();
        let mut devices: Vec<DeviceInfo> = Vec::new();
        let mut i: usize = 0;
        while i < adb_devices.len()
            invariant
                0 <= i <= adb_devices@.len(),
                scan == adb_views(adb_devices@),
                distinct_ids(ctx_ids(contexts@)),
                device_views(devices@) == adb_infos(scan.take(i as int)),
                forall|id: Seq<char>| ctx_ids(contexts@).contains(id) <==> scan_lists(scan.take(i as int), id),
                forall|k: int| 0 <= k < contexts@.len() ==> fresh_context(
                    #[trigger] contexts@[k],
                    contexts@[k].id(),
                    last_display_name(scan.take(i as int), contexts@[k].id()),
                ),
                forall|k: int| 0 <= k < contexts@.len() ==> (#[trigger] contexts@[k]).recorder_root() == log_root,
            decreases adb_devices@.len() - i,
        {
            let d = &adb_devices[i];
            let ctx = new_context(d.serial.as_str(), d.display_name.as_str(), &log_root);
            let ghost before = contexts@;
            let ghost cval = ctx;
            let ghost sc = scan.take(i as int);
            let ghost sn = scan.take(i + 1);
            assert(sn.drop_last() =~= sc);
            assert(sn.last() == d@);
            assert(d@ == scan[i as int]);
            put_context(&mut contexts, ctx);
            let ghost before_devices = devices@;
            devices.push(
                DeviceInfo {
                    device_id: d.serial.clone(),
                    device_name: d.display_name.clone(),
                    connected: true,
                    source: DeviceSource::Adb,
                },
            );
            proof {
                assert(device_views(devices@) =~= device_views(before_devices).push(adb_info(d@)));
                assert(device_views(devices@) =~= adb_infos(sn));
                assert forall|id: Seq<char>| scan_lists(sn, id) <==> (scan_lists(sc, id) || id == d@.serial) by {
                    if scan_lists(sn, id) {
                        let j = choose|j: int| 0 <= j < sn.len() && sn[j].serial == id;
                        if j < sc.len() {
                            assert(sc[j] == sn[j]);
                        }
                    }
                    if scan_lists(sc, id) {
                        let j = choose|j: int| 0 <= j < sc.len() && sc[j].serial == id;
                        assert(sn[j] == sc[j]);
                    }
                    if id == d@.serial {
                        assert(sn[i as int] == d@);
                    }
                }
                assert forall|k: int| 0 <= k < contexts@.len() implies fresh_context(
                    #[trigger] contexts@[k],
                    contexts@[k].id(),
                    last_display_name(sn, contexts@[k].id()),
                ) by {
                    if contexts@[k].id() == cval.id() {
                        assert(contexts@[k] == cval);
                    } else {
                        assert(contexts@[k] == before[k]);
                        assert(last_display_name(sn, contexts@[k].id()) == last_display_name(sc, contexts@[k].id()));
                    }
                }
                assert forall|k: int| 0 <= k < contexts@.len() implies (#[trigger] contexts@[k]).recorder_root() == log_root by {
                    if contexts@[k].id() == cval.id() {
                        assert(contexts@[k] == cval);
                    } else {
                        assert(contexts@[k] == before[k]);
                    }
                }
            }
            i = i + 1;
        }
        let mut message = String::from_str("ADB: ");
        let n = decimal_string(count as u128);
        message.append(n.as_str());
        message.append(" device(s) connected");
        let r = DeviceManager {
            adb_status: AdbStatus { available: true, mode: AdbStatusMode::Bundled, path: Some(path), message },
            devices,
            contexts,
        };
        proof {
            assert(scan.take(i as int) =~= scan);
            let ids = r.context_ids();
            assert(ids =~= ctx_ids(r.contexts@));
            assert forall|k: int| 0 <= k < r.devices().len() implies ids.contains(#[trigger] r.devices()[k].device_id) by {
                assert(r.devices()[k] == adb_info(scan[k]));
                assert(scan_lists(scan, scan[k].serial));
            }
            assert forall|k: int| 0 <= k < ids.len() implies ids_of(r.devices()).contains(#[trigger] ids[k]) by {
                assert(ctx_ids(r.contexts@).contains(ids[k]));
                let j = choose|j: int| 0 <= j < scan.len() && scan[j].serial == ids[k];
                assert(ids_of(r.devices())[j] == ids[k]);
            }
            assert forall|id: Seq<char>| #[trigger] r.has_context(id) implies fresh_context(
                r.context(id),
                id,
                last_display_name(scan, id),
            ) by {
                let k = choose|k: int| 0 <= k < ids.len() && ids[k] == id;
                r.lemma_context_at(k);
            }
            assert forall|id: Seq<char>| #[trigger] r.has_context(id) implies r.context(id).recorder_root() == log_root by {
                let k = choose|k: int| 0 <= k < ids.len() && ids[k] == id;
                r.lemma_context_at(k);
            }
        }
        r
    }

    /// The manager after an adb scan at start-up: the mock device when the scan failed
    /// (`ADB: <error>, using mock device`) or found nothing (`ADB: no online devices,
    /// using mock device`); otherwise the scanned devices, with the adb at `path`
    /// (the default path when none is given).
    pub fn from_scan_result(path: Option<String>, devices: Vec<AdbDevice>, error: Option<String>) -> (r: Self)
        ensures
            error matches Some(e) ==> r.is_mock_state("ADB: "@ + e@ + ", using mock device"@),
            error is None && devices@.len() == 0 ==> r.is_mock_state(
                "ADB: no online devices, using mock device"@,
            ),
            error is None && devices@.len() > 0 ==> r.is_adb_state(
                match path {
                    Some(p) => p@,
                    None => DEFAULT_ADB_PATH@,
                },
                adb_views(devices@),
            ),
    {
        if let Some(error) = error {
            let mut m = String::from_str("ADB: ");
            m.append(error.as_str());
            m.append(", using mock device");
            return Self::mock_fallback(m.as_str());
        }
        if devices.len() == 0 {
            return Self::mock_fallback("ADB: no online devices, using mock device");
        }
        let path = match path {
            Some(p) => p,
            None => String::from_str(DEFAULT_ADB_PATH),
        };
        Self::from_adb_devices(path, devices)
    }

    /// Number of lines that device `device_id` has ingested.
    pub fn line_count(&self, device_id: &str) -> (r: Option<u64>)
        requires
            self.wf(),
        ensures
            match r {
                Some(n) => self.has_context(device_id@) && n == self.context(device_id@).spec_seq(),
                None => !self.has_context(device_id@),
            },
    {
        match self.find_context(device_id) {
            Some(i) => Some(self.contexts[i].line_count()),
            None => None,
        }
    }

    /// Soft disconnect: the first listed device `device_id` is marked disconnected; its
    /// context is kept.  False when no device has that identifier.  (The caller stops
    /// the device's logcat process when this returns true.)
    pub fn mark_disconnected(&mut self, device_id: &str) -> (r: bool)
        requires
            old(self).wf(),
        ensures
            final(self).wf(),
            r == (first_device(old(self).devices(), device_id@) is Some),
            match first_device(old(self).devices(), device_id@) {
                Some(i) => final(self).devices() == old(self).devices().update(
                    i,
                    DeviceInfoView { connected: false, ..old(self).devices()[i] },
                ),
                None => final(self).devices() == old(self).devices(),
            },
            final(self).status() == old(self).status(),
            final(self).context_ids() == old(self).context_ids(),
            forall|id: Seq<char>| #[trigger] final(self).context(id) == old(self).context(id),
    {
        match self.find_device(device_id) {
            None => {
                proof {
                    assert(first_device(self.devices(), device_id@) is None);
                }
                false
            },
            Some(i) => {
                proof {
                    lemma_first_device(self.devices(), device_id@, i as int);
                }
                let ghost before = *self;
                self.mark_at(i);
                proof {
                    DeviceManager::lemma_same_contexts(&before, self);
                }
                true
            },
        }
    }

    /// Marks device `i` disconnected; everything else is kept.
    fn mark_at(&mut self, i: usize)
        requires
            old(self).wf(),
            i < old(self).devices@.len(),
        ensures
            final(self).wf(),
            final(self).devices() == old(self).devices().update(
                i as int,
                DeviceInfoView { connected: false, ..old(self).devices()[i as int] },
            ),
            final(self).adb_status == old(self).adb_status,
            final(self).contexts@ == old(self).contexts@,
    {
        let d = &self.devices[i];
        let updated = DeviceInfo {
            device_id: d.device_id.clone(),
            device_name: d.device_name.clone(),
            connected: false,
            source: d.source,
        };
        let ghost before = self.devices@;
        self.devices.set(i, updated);
        proof {
            assert(self.devices() =~= device_views(before).update(
                i as int,
                DeviceInfoView { connected: false, ..device_views(before)[i as int] },
            ));
            assert(ids_of(self.devices()) =~= ids_of(device_views(before)));
            let ids = self.context_ids();
            assert forall|k: int| 0 <= k < self.devices().len() implies ids.contains(#[trigger] self.devices()[k].device_id) by {
                assert(self.devices()[k].device_id == device_views(before)[k].device_id);
            }
        }
    }

    /// Two managers with the same contexts agree on every context.
    proof fn lemma_same_contexts(a: &DeviceManager, b: &DeviceManager)
        requires
            a.contexts@ == b.contexts@,
        ensures
            b.context_ids() == a.context_ids(),
            forall|x: Seq<char>| #[trigger] b.context(x) == a.context(x),
    {
    }

    /// How many listed devices are connected.
    fn connected_total(&self) -> (r: usize)
        ensures
            r == connected_count(self.devices()),
            r <= self.devices().len(),
    {
        let mut online: usize = 0;
        let mut i: usize = 0;
        while i < self.devices.len()
            invariant
                0 <= i <= self.devices@.len(),
                online == connected_count(self.devices().take(i as int)),
                online <= i,
            decreases self.devices@.len() - i,
        {
            assert(self.devices().take(i + 1).drop_last() =~= self.devices().take(i as int));
            assert(self.devices()[i as int] == self.devices@[i as int]@);
            if self.devices[i].connected {
                online = online + 1;
            }
            i = i + 1;
        }
        assert(self.devices().take(i as int) =~= self.devices());
        online
    }

    /// Sets the status message from the device counts (mock mode keeps its message).
    pub fn refresh_adb_status_message(&mut self)
        requires
            old(self).wf(),
        ensures
            final(self).wf(),
            final(self).devices() == old(self).devices(),
            final(self).context_ids() == old(self).context_ids(),
            forall|id: Seq<char>| #[trigger] final(self).context(id) == old(self).context(id),
            (exists|i: int| 0 <= i < old(self).devices().len() && old(self).devices()[i].source == DeviceSource::Mock)
                ==> final(self).status() == old(self).status(),
            !(exists|i: int| 0 <= i < old(self).devices().len() && old(self).devices()[i].source == DeviceSource::Mock)
                ==> final(self).status() == (AdbStatusView { message: device_count_message(old(self).devices()), ..old(self).status() }),
    {
        if self.is_mock_fallback() {
            return;
        }
        let online = self.connected_total();
        let offline = self.devices.len() - online;
        let mut m = String::from_str("ADB: ");
        let on = decimal_string(online as u128);
        m.append(on.as_str());
        if offline == 0 {
            m.append(" device(s) connected");
        } else {
            m.append(" online, ");
            let off = decimal_string(offline as u128);
            m.append(off.as_str());
            m.append(" disconnected");
        }
        let ghost mid = *self;
        self.adb_status.message = m;
        proof {
            DeviceManager::lemma_same_lists(&mid, self);
        }
    }
    /// Consistency depends only on the devices and the contexts.
    proof fn lemma_same_lists(a: &DeviceManager, b: &DeviceManager)
        requires
            a.wf(),
            a.devices@ == b.devices@,
            a.contexts@ == b.contexts@,
        ensures
            b.wf(),
            b.devices() == a.devices(),
            b.context_ids() == a.context_ids(),
            forall|x: Seq<char>| #[trigger] b.context(x) == a.context(x),
    {
        assert(b.context_ids() == a.context_ids());
        assert(b.devices() == a.devices());
        assert(forall|i: int| 0 <= i < b.contexts@.len() ==> (#[trigger] b.contexts@[i]).wf());
    }

    /// Facts about a manager whose context `i` was replaced by one with the same
    /// identifier.
    proof fn lemma_replaced(old_m: &DeviceManager, new_m: &DeviceManager, i: int)
        requires
            old_m.wf(),
            0 <= i < old_m.contexts@.len(),
            new_m.contexts@ == old_m.contexts@.update(i, new_m.contexts@[i]),
            new_m.contexts@[i].id() == old_m.contexts@[i].id(),
            new_m.contexts@[i].wf(),
            new_m.devices@ == old_m.devices@,
        ensures
            new_m.wf(),
            new_m.context_ids() == old_m.context_ids(),
            new_m.context(old_m.contexts@[i].id()) == new_m.contexts@[i],
            forall|x: Seq<char>| #[trigger] old_m.has_context(x) && x != old_m.contexts@[i].id() ==> new_m.context(x) == old_m.context(x),
    {
        assert(new_m.context_ids() =~= old_m.context_ids());
        assert(forall|k: int| 0 <= k < new_m.contexts@.len() ==> (#[trigger] new_m.contexts@[k]).wf()) by {
            assert forall|k: int| 0 <= k < new_m.contexts@.len() implies (#[trigger] new_m.contexts@[k]).wf() by {
                if k != i {
                    assert(new_m.contexts@[k] == old_m.contexts@[k]);
                }
            }
        }
        assert(new_m.wf());
        new_m.lemma_context_at(i);
        assert forall|x: Seq<char>| #[trigger] old_m.has_context(x) && x != old_m.contexts@[i].id() implies new_m.context(x) == old_m.context(x) by {
            let k = choose|k: int| 0 <= k < old_m.context_ids().len() && old_m.context_ids()[k] == x;
            old_m.lemma_context_at(k);
            assert(k != i);
            assert(new_m.contexts@[k] == old_m.contexts@[k]);
            new_m.lemma_context_at(k);
        }
    }

    /// Facts about a manager from which the context at `c`, of device `id`, and every
    /// device `id` were removed.
    proof fn lemma_removed(old_m: &DeviceManager, new_m: &DeviceManager, c: int, id: Seq<char>)
        requires
            old_m.wf(),
            0 <= c < old_m.contexts@.len(),
            old_m.contexts@[c].id() == id,
            new_m.contexts@ == old_m.contexts@.remove(c),
            new_m.devices() == without_device(old_m.devices(), id),
        ensures
            new_m.wf(),
            forall|x: Seq<char>| #[trigger] new_m.has_context(x) <==> old_m.has_context(x) && x != id,
            forall|x: Seq<char>| #[trigger] new_m.has_context(x) ==> new_m.context(x) == old_m.context(x),
    {
        let oids = old_m.context_ids();
        let nids = new_m.context_ids();
        assert(nids =~= oids.remove(c));
        assert(oids[c] == id);
        lemma_without_device_ids(old_m.devices(), id);
        assert forall|x: Seq<char>| #[trigger] new_m.has_context(x) <==> old_m.has_context(x) && x != id by {
            if nids.contains(x) {
                let k = choose|k: int| 0 <= k < nids.len() && nids[k] == x;
                if k < c {
                    assert(oids[k] == x);
                    assert(oids[k] != oids[c]);
                } else {
                    assert(oids[k + 1] == x);
                    assert(oids[c] != oids[k + 1]);
                }
            }
            if oids.contains(x) && x != id {
                let k = choose|k: int| 0 <= k < oids.len() && oids[k] == x;
                if k < c {
                    assert(nids[k] == x);
                } else {
                    assert(k != c);
                    assert(nids[k - 1] == x);
                }
            }
        }
        assert forall|i: int, j: int| 0 <= i < j < nids.len() implies nids[i] != nids[j] by {
            let ii = if i < c { i } else { i + 1 };
            let jj = if j < c { j } else { j + 1 };
            assert(nids[i] == oids[ii]);
            assert(nids[j] == oids[jj]);
        }
        assert forall|k: int| 0 <= k < new_m.contexts@.len() implies (#[trigger] new_m.contexts@[k]).wf() by {
            if k < c {
                assert(new_m.contexts@[k] == old_m.contexts@[k]);
            } else {
                assert(new_m.contexts@[k] == old_m.contexts@[k + 1]);
            }
        }
        assert forall|k: int| 0 <= k < new_m.devices().len() implies nids.contains(#[trigger] new_m.devices()[k].device_id) by {
            let x = new_m.devices()[k].device_id;
            assert(ids_of(new_m.devices())[k] == x);
            assert(ids_of(new_m.devices()).contains(x));
            let j = choose|j: int| 0 <= j < ids_of(old_m.devices()).len() && ids_of(old_m.devices())[j] == x;
            assert(old_m.devices()[j].device_id == x);
            assert(oids.contains(x));
            assert(new_m.has_context(x));
        }
        assert forall|k: int| 0 <= k < nids.len() implies ids_of(new_m.devices()).contains(#[trigger] nids[k]) by {
            let x = nids[k];
            assert(new_m.has_context(x));
            assert(old_m.has_context(x));
            let j = choose|j: int| 0 <= j < oids.len() && oids[j] == x;
            assert(ids_of(old_m.devices()).contains(oids[j]));
        }
        assert(new_m.wf());
        assert forall|x: Seq<char>| #[trigger] new_m.has_context(x) implies new_m.context(x) == old_m.context(x) by {
            let k = choose|k: int| 0 <= k < nids.len() && nids[k] == x;
            new_m.lemma_context_at(k);
            if k < c {
                assert(new_m.contexts@[k] == old_m.contexts@[k]);
                old_m.lemma_context_at(k);
            } else {
                assert(new_m.contexts@[k] == old_m.contexts@[k + 1]);
                old_m.lemma_context_at(k + 1);
            }
        }
    }

    /// Removes a disconnected device and its context.  Unknown devices and connected
    /// devices are refused.
    pub fn remove_device(&mut self, device_id: &str) -> (r: Result<(), ManagerError>)
        requires
            old(self).wf(),
        ensures
            final(self).wf(),
            removal(*old(self), *final(self), device_id@),
            r is Ok == removable(*old(self), device_id@),
            first_device(old(self).devices(), device_id@) is None ==> (r matches Err(ManagerError::UnknownDevice(id))
                && id@ == device_id@),
            (first_device(old(self).devices(), device_id@) matches Some(i) && old(self).devices()[i].connected) ==> (r matches Err(
                ManagerError::StillConnected(id),
            ) && id@ == device_id@),
    {
        match self.find_device(device_id) {
            None => {
                proof {
                    assert(first_device(self.devices(), device_id@) is None);
                }
                Err(ManagerError::UnknownDevice(String::from_str(device_id)))
            },
            Some(i) => {
                proof {
                    lemma_first_device(self.devices(), device_id@, i as int);
                    assert(self.devices()[i as int] == self.devices@[i as int]@);
                }
                if self.devices[i].connected {
                    return Err(ManagerError::StillConnected(String::from_str(device_id)));
                }
                let ghost old_self = *self;
                proof {
                    assert(self.devices()[i as int].device_id == device_id@);
                    assert(ids_of(self.devices())[i as int] == device_id@);
                }
                let c = match self.find_context(device_id) {
                    Some(c) => c,
                    None => {
                        proof {
                            assert(ids_of(self.devices()).contains(device_id@));
                            assert(self.context_ids().contains(self.devices()[i as int].device_id));
                        }
                        return Ok(());
                    },
                };
                self.contexts.remove(c);
                let kept = devices_without(&self.devices, device_id);
                self.devices = kept;
                proof {
                    DeviceManager::lemma_removed(&old_self, self, c as int, device_id@);
                }
                Ok(())
            },
        }
    }
    /// Applies the filter `query` to device `device_id` (see `DeviceContext::set_filter`);
    /// the other devices are untouched.
    pub fn set_filter(&mut self, device_id: &str, query: &str) -> (r: Result<(), ManagerError>)
        requires
            old(self).wf(),
        ensures
            final(self).wf(),
            filter_set(*old(self), *final(self), device_id@, query@),
            !old(self).has_context(device_id@) ==> (r matches Err(ManagerError::UnknownDevice(id)) && id@ == device_id@),
            old(self).has_context(device_id@) ==> r is Ok,
    {
        let i = match self.find_context(device_id) {
            Some(i) => i,
            None => {
                return Err(ManagerError::UnknownDevice(String::from_str(device_id)));
            },
        };
        let ghost old_self = *self;
        let mut ctx = self.contexts.remove(i);
        ctx.set_filter(FilterQuery::parse(query));
        self.contexts.insert(i, ctx);
        proof {
            assert(self.contexts@ =~= old_self.contexts@.update(i as int, self.contexts@[i as int]));
            DeviceManager::lemma_replaced(&old_self, self, i as int);
        }
        Ok(())
    }

    /// The snapshot of device `device_id` (see `DeviceContext::latest_visible_snapshot`).
    pub fn latest_visible_snapshot(&self, device_id: &str, limit: usize) -> (r: Result<DeviceSnapshot, ManagerError>)
        requires
            self.wf(),
            self.has_context(device_id@) ==> self.context(device_id@).spec_seq() * BYTES_PER_ENTRY <= u64::MAX,
        ensures
            !self.has_context(device_id@) ==> (r matches Err(ManagerError::UnknownDevice(id)) && id@ == device_id@),
            self.has_context(device_id@) ==> (r matches Ok(snap) && {
                let c = self.context(device_id@);
                &&& entry_views(snap.logs@) == last_n(visible(c.entries()), limit as nat)
                &&& snap.stats == crate::statistics::stats_snapshot(c.stats())
                &&& snap.recorder_status@ == c.status()
            }),
    {
        match self.find_context(device_id) {
            Some(i) => Ok(self.contexts[i].latest_visible_snapshot(limit)),
            None => Err(ManagerError::UnknownDevice(String::from_str(device_id))),
        }
    }

    /// The search results of device `device_id` (see
    /// `DeviceContext::search_visible_sequences`).
    pub fn search_visible_sequences(&self, device_id: &str, query: &str) -> (r: Result<Vec<u64>, ManagerError>)
        requires
            self.wf(),
        ensures
            !self.has_context(device_id@) ==> (r matches Err(ManagerError::UnknownDevice(id)) && id@ == device_id@),
            self.has_context(device_id@) ==> (r matches Ok(hits) && {
                let c = self.context(device_id@);
                &&& query@.len() == 0 ==> hits@ == Seq::<u64>::empty()
                &&& query@.len() > 0 ==> hits@ == search_hits(last_n(c.entries(), SEARCH_WINDOW as nat), unicode_lowercase(query@))
            }),
    {
        match self.find_context(device_id) {
            Some(i) => Ok(self.contexts[i].search_visible_sequences(query)),
            None => Err(ManagerError::UnknownDevice(String::from_str(device_id))),
        }
    }

    /// Hands one raw line to device `device_id` (see `DeviceContext::ingest_line`);
    /// `None` for an unknown device.  The other devices are untouched.
    pub fn ingest_device_line(&mut self, device_id: &str, raw_line: &str) -> (r: Option<LogEntry>)
        requires
            old(self).wf(),
            old(self).has_context(device_id@) ==> old(self).context(device_id@).spec_seq() < u64::MAX,
        ensures
            final(self).wf(),
            final(self).status() == old(self).status(),
            final(self).devices() == old(self).devices(),
            final(self).context_ids() == old(self).context_ids(),
            !old(self).has_context(device_id@) ==> r is None,
            old(self).has_context(device_id@) ==> (r matches Some(e) && crate::device::line_ingested(
                old(self).context(device_id@),
                final(self).context(device_id@),
                raw_line@,
                e@,
            )),
            forall|x: Seq<char>| #[trigger] old(self).has_context(x) && x != device_id@ ==> final(self).context(x) == old(self).context(x),
    {
        let i = match self.find_context(device_id) {
            Some(i) => i,
            None => {
                return None;
            },
        };
        let ghost old_self = *self;
        let mut ctx = self.contexts.remove(i);
        let r = ctx.ingest_line(raw_line);
        self.contexts.insert(i, ctx);
        proof {
            assert(self.contexts@ =~= old_self.contexts@.update(i as int, self.contexts@[i as int]));
            DeviceManager::lemma_replaced(&old_self, self, i as int);
        }
        r
    }

    /// Hands one raw line to the mock device (see [`Self::ingest_device_line`]).
    pub fn ingest_mock_line(&mut self, raw_line: &str) -> (r: Option<LogEntry>)
        requires
            old(self).wf(),
            old(self).has_context(MOCK_DEVICE_ID@) ==> old(self).context(MOCK_DEVICE_ID@).spec_seq() < u64::MAX,
        ensures
            final(self).wf(),
            final(self).devices() == old(self).devices(),
            final(self).context_ids() == old(self).context_ids(),
            final(self).status() == old(self).status(),
            !old(self).has_context(MOCK_DEVICE_ID@) ==> r is None,
            old(self).has_context(MOCK_DEVICE_ID@) ==> (r matches Some(e) && crate::device::line_ingested(
                old(self).context(MOCK_DEVICE_ID@),
                final(self).context(MOCK_DEVICE_ID@),
                raw_line@,
                e@,
            )),
            forall|x: Seq<char>| #[trigger] old(self).has_context(x) && x != MOCK_DEVICE_ID@ ==> final(self).context(x) == old(self).context(x),
    {
        self.ingest_device_line(MOCK_DEVICE_ID, raw_line)
    }

    /// The threadtime lines that exporting device `device_id` in `mode` writes (see
    /// `DeviceContext::export_lines`).
    pub fn export_lines(&self, device_id: &str, mode: ExportMode) -> (r: Result<Vec<String>, ManagerError>)
        requires
            self.wf(),
        ensures
            !self.has_context(device_id@) ==> (r matches Err(ManagerError::UnknownDevice(id)) && id@ == device_id@),
            self.has_context(device_id@) ==> (r matches Ok(lines) && lines@.map_values(|s: String| s@) == (match mode {
                ExportMode::All => self.context(device_id@).entries(),
                ExportMode::Filtered => visible(self.context(device_id@).entries()),
            }).map_values(|e: LogEntryView| crate::device::threadtime_text(e))),
    {
        match self.find_context(device_id) {
            Some(i) => Ok(self.contexts[i].export_lines(mode)),
            None => Err(ManagerError::UnknownDevice(String::from_str(device_id))),
        }
    }

    /// How recording the last raw line of device `device_id` went (see
    /// `DeviceContext::apply_record_outcome`); nothing for an unknown device.
    pub fn apply_record_outcome(&mut self, device_id: &str, outcome: crate::device::RecordOutcome)
        requires
            old(self).wf(),
        ensures
            final(self).wf(),
            final(self).status() == old(self).status(),
            final(self).devices() == old(self).devices(),
            final(self).context_ids() == old(self).context_ids(),
            old(self).has_context(device_id@) ==> crate::device::outcome_applied(
                old(self).context(device_id@),
                final(self).context(device_id@),
                outcome,
            ),
            forall|x: Seq<char>| #[trigger] old(self).has_context(x) && x != device_id@ ==> final(self).context(x) == old(self).context(x),
    {
        let i = match self.find_context(device_id) {
            Some(i) => i,
            None => {
                return;
            },
        };
        let ghost old_self = *self;
        let mut ctx = self.contexts.remove(i);
        ctx.apply_record_outcome(outcome);
        self.contexts.insert(i, ctx);
        proof {
            assert(self.contexts@ =~= old_self.contexts@.update(i as int, self.contexts@[i as int]));
            DeviceManager::lemma_replaced(&old_self, self, i as int);
        }
    }

    /// The file that device `device_id` records its next raw line to (see
    /// `DeviceContext::record_target`); `None` for an unknown device.
    pub fn record_target(&self, device_id: &str, day: &str, hour: u32) -> (r: Option<PathBuf>)
        requires
            self.wf(),
        ensures
            r == if self.has_context(device_id@) {
                self.context(device_id@).record_file(day@, hour as nat)
            } else {
                None
            },
    {
        match self.find_context(device_id) {
            Some(i) => self.contexts[i].record_target(day, hour),
            None => None,
        }
    }
    /// Whether some listed device comes from adb.
    fn has_adb_device(&self) -> (r: bool)
        ensures
            r == has_adb(self.devices()),
    {
        let mut i: usize = 0;
        while i < self.devices.len()
            invariant
                0 <= i <= self.devices@.len(),
                forall|k: int| 0 <= k < i ==> self.devices()[k].source != DeviceSource::Adb,
            decreases self.devices@.len() - i,
        {
            assert(self.devices()[i as int] == self.devices@[i as int]@);
            if self.devices[i].source == DeviceSource::Adb {
                return true;
            }
            i = i + 1;
        }
        false
    }

    /// Marks every adb device disconnected; contexts and status are untouched.
    fn disconnect_all_adb(&mut self)
        requires
            old(self).wf(),
        ensures
            final(self).wf(),
            final(self).devices() == disconnect_adb(old(self).devices()),
            final(self).status() == old(self).status(),
            final(self).contexts@ == old(self).contexts@,
    {
        let ghost start = self.devices();
        let mut i: usize = 0;
        while i < self.devices.len()
            invariant
                0 <= i <= self.devices@.len(),
                self.devices@.len() == start.len(),
                self.status() == old(self).status(),
                self.contexts@ == old(self).contexts@,
                start == old(self).devices(),
                forall|k: int| 0 <= k < i ==> #[trigger] self.devices()[k] == disconnect_adb(start)[k],
                forall|k: int| i <= k < start.len() ==> #[trigger] self.devices()[k] == start[k],
            decreases self.devices@.len() - i,
        {
            assert(self.devices()[i as int] == self.devices@[i as int]@);
            if self.devices[i].source == DeviceSource::Adb {
                let d = &self.devices[i];
                let updated = DeviceInfo {
                    device_id: d.device_id.clone(),
                    device_name: d.device_name.clone(),
                    connected: false,
                    source: d.source,
                };
                let ghost before = self.devices@;
                self.devices.set(i, updated);
                assert(self.devices() =~= device_views(before).update(i as int, updated@));
            }
            i = i + 1;
        }
        proof {
            assert(self.devices() =~= disconnect_adb(start));
            assert(ids_of(self.devices()) =~= ids_of(start));
            let ids = self.context_ids();
            assert forall|k: int| 0 <= k < self.devices().len() implies ids.contains(#[trigger] self.devices()[k].device_id) by {
                assert(self.devices()[k].device_id == start[k].device_id);
                assert(old(self).devices()[k].device_id == start[k].device_id);
            }
            assert(self.wf());
        }
    }

    /// The status after a failed scan that keeps the adb devices.
    fn scan_failure_status(path: Option<String>, error: &str) -> (r: AdbStatus)
        ensures
            r@ == scan_error_status(opt_text(path), error@),
    {
        let mut m = String::from_str("ADB: ");
        m.append(error);
        let available = path.is_some();
        AdbStatus { available, mode: AdbStatusMode::Bundled, path, message: m }
    }

    /// Merges an adb scan into the current state without dropping any buffer (see
    /// [`merge_outcome`]); returns which logcat processes the caller must stop.
    pub fn merge_scan_result(&mut self, path: Option<String>, devices: Vec<AdbDevice>, error: Option<String>) -> (r: LogcatStop)
        requires
            old(self).wf(),
        ensures
            final(self).wf(),
            merge_outcome(*old(self), *final(self), path, devices@, error, r),
    {
        let has_adb = self.has_adb_device();
        if let Some(error) = error {
            if has_adb {
                self.disconnect_all_adb();
                let ghost mid = *self;
                self.adb_status = Self::scan_failure_status(path, error.as_str());
                proof {
                    DeviceManager::lemma_same_lists(&mid, self);
                }
            } else {
                let mut m = String::from_str("ADB: ");
                m.append(error.as_str());
                m.append(", using mock device");
                *self = Self::mock_fallback(m.as_str());
            }
            return LogcatStop::All;
        }
        if devices.len() == 0 {
            if has_adb {
                self.disconnect_all_adb();
                let ghost mid = *self;
                let path_string = match path {
                    Some(p) => p,
                    None => String::from_str(DEFAULT_ADB_PATH),
                };
                self.adb_status = AdbStatus {
                    available: true,
                    mode: AdbStatusMode::Bundled,
                    path: Some(path_string),
                    message: String::from_str("ADB: no online devices"),
                };
                proof {
                    DeviceManager::lemma_same_lists(&mid, self);
                }
            } else {
                *self = Self::mock_fallback("ADB: no online devices, using mock device");
            }
            return LogcatStop::All;
        }
        let path_string = match path {
            Some(p) => p,
            None => String::from_str(DEFAULT_ADB_PATH),
        };
        if self.is_mock_fallback() {
            *self = Self::from_adb_devices(path_string, devices);
            return LogcatStop::All;
        }
        let ghost s0 = *self;
        let stopped = self.disconnect_missing(&devices);
        let ghost s1 = *self;
        proof {
            DeviceManager::lemma_same_contexts(&s0, &s1);
            let missing = missing_ids(adb_ids(s0.devices()), adb_views(devices@));
            lemma_mark_all_shape(s0.devices(), missing);
            assert(!has_mock(s1.devices())) by {
                if has_mock(s1.devices()) {
                    let m = choose|m: int| 0 <= m < s1.devices().len() && s1.devices()[m].source == DeviceSource::Mock;
                    assert(s0.devices()[m].source == DeviceSource::Mock);
                }
            }
            assert forall|x: Seq<char>| s1.has_context(x) == s0.has_context(x) by {}
        }
        self.upsert_scanned_all(&devices);
        let ghost s2 = *self;
        self.adb_status = AdbStatus {
            available: true,
            mode: AdbStatusMode::Bundled,
            path: Some(path_string),
            message: String::new(),
        };
        let ghost s3 = *self;
        proof {
            DeviceManager::lemma_same_lists(&s2, self);
        }
        self.refresh_adb_status_message();
        proof {
            assert forall|x: Seq<char>| #[trigger] self.has_context(x) <==> s0.has_context(x) || scan_lists(adb_views(devices@), x) by {
                assert(self.has_context(x) == s3.has_context(x));
                assert(s3.has_context(x) == s2.has_context(x));
                assert(s1.has_context(x) == s0.has_context(x));
            }
            assert forall|x: Seq<char>| #[trigger] s0.has_context(x) implies self.context(x) == s0.context(x) by {
                assert(s1.has_context(x));
                assert(s2.context(x) == s1.context(x));
                assert(s1.context(x) == s0.context(x));
            }
            assert forall|x: Seq<char>| #[trigger] self.has_context(x) && !s0.has_context(x) implies fresh_context(
                self.context(x),
                x,
                last_display_name(adb_views(devices@), x),
            ) by {
                assert(s2.has_context(x));
                assert(!s1.has_context(x));
                assert(self.context(x) == s2.context(x));
            }
        }
        LogcatStop::Devices(stopped)
    }
    /// The same as [`Self::merge_scan_result`].
    pub fn replace_with_scan_result(&mut self, path: Option<String>, devices: Vec<AdbDevice>, error: Option<String>) -> (r: LogcatStop)
        requires
            old(self).wf(),
        ensures
            final(self).wf(),
            merge_outcome(*old(self), *final(self), path, devices@, error, r),
    {
        self.merge_scan_result(path, devices, error)
    }

    /// The identifiers of the connected adb devices, in order: the devices whose logcat
    /// is restarted after a scan.
    pub fn online_adb_device_ids(&self) -> (r: Vec<String>)
        ensures
            r@.map_values(|s: String| s@) == online_adb_ids(self.devices()),
    {
        let mut out: Vec<String> = Vec::new();
        let mut i: usize = 0;
        while i < self.devices.len()
            invariant
                0 <= i <= self.devices@.len(),
                out@.map_values(|s: String| s@) == online_adb_ids(self.devices().take(i as int)),
            decreases self.devices@.len() - i,
        {
            assert(self.devices().take(i + 1).drop_last() =~= self.devices().take(i as int));
            assert(self.devices().take(i + 1).last() == self.devices@[i as int]@);
            let ghost before = out@;
            if self.devices[i].source == DeviceSource::Adb && self.devices[i].connected {
                out.push(self.devices[i].device_id.clone());
            }
            assert(out@.map_values(|s: String| s@) =~= online_adb_ids(self.devices().take(i + 1)));
            i = i + 1;
        }
        assert(self.devices().take(i as int) =~= self.devices());
        out
    }

    /// The logcat processes of the devices `ids` have exited: each listed one is marked
    /// disconnected, in turn, and, when some was listed, the status message counts the
    /// devices again.  Returns whether some was listed (the device list changed).
    #[verifier::spinoff_prover]
    pub fn logcat_exited(&mut self, ids: &Vec<String>) -> (r: bool)
        requires
            old(self).wf(),
        ensures
            final(self).wf(),
            r == names_listed(old(self).devices(), ids@.map_values(|s: String| s@)),
            final(self).devices() == mark_all(old(self).devices(), ids@.map_values(|s: String| s@)),
            final(self).context_ids() == old(self).context_ids(),
            forall|x: Seq<char>| #[trigger] final(self).context(x) == old(self).context(x),
            !r || has_mock(old(self).devices()) ==> final(self).status() == old(self).status(),
            r && !has_mock(old(self).devices()) ==> final(self).status() == (AdbStatusView {
                message: device_count_message(final(self).devices()),
                ..old(self).status()
            }),
    {
        let ghost start = *self;
        let ghost idv = ids@.map_values(|s: String| s@);
        let mut dirty = false;
        let mut j: usize = 0;
        assert(idv.take(0) =~= Seq::<Seq<char>>::empty());
        while j < ids.len()
            invariant
                0 <= j <= ids@.len(),
                self.wf(),
                idv == ids@.map_values(|s: String| s@),
                self.devices() == mark_all(start.devices(), idv.take(j as int)),
                self.adb_status == start.adb_status,
                self.contexts@ == start.contexts@,
                dirty == names_listed(start.devices(), idv.take(j as int)),
                start.wf(),
            decreases ids@.len() - j,
        {
            let ghost ms = idv.take(j as int);
            let ghost id = idv[j as int];
            assert(idv.take(j + 1) =~= ms.push(id));
            proof {
                lemma_mark_step(start.devices(), ms, id);
                lemma_mark_all_shape(start.devices(), ms);
                lemma_first_device_ids(start.devices(), self.devices(), id);
                lemma_names_listed_step(start.devices(), ms, id);
            }
            match self.find_device(ids[j].as_str()) {
                Some(i) => {
                    proof {
                        lemma_first_device(self.devices(), id, i as int);
                    }
                    self.mark_at(i);
                    dirty = true;
                },
                None => {},
            }
            j = j + 1;
        }
        assert(idv.take(j as int) =~= idv);
        proof {
            DeviceManager::lemma_same_contexts(&start, self);
        }
        if dirty {
            self.refresh_adb_status_message();
            proof {
                lemma_mark_all_shape(start.devices(), idv);
                assert(has_mock(self.devices()) == has_mock(start.devices())) by {
                    if has_mock(self.devices()) {
                        let m = choose|m: int| 0 <= m < self.devices().len() && self.devices()[m].source == DeviceSource::Mock;
                        assert(start.devices()[m].source == DeviceSource::Mock);
                    }
                    if has_mock(start.devices()) {
                        let m = choose|m: int| 0 <= m < start.devices().len() && start.devices()[m].source == DeviceSource::Mock;
                        assert(mark_all(start.devices(), idv)[m].source == DeviceSource::Mock);
                    }
                }
            }
        }
        dirty
    }

    /// Starting the logcat of device `device_id` failed with `error`: the device is
    /// marked disconnected and the status message says why.
    pub fn logcat_start_failed(&mut self, device_id: &str, error: &str)
        requires
            old(self).wf(),
        ensures
            final(self).wf(),
            final(self).devices() == mark_first(old(self).devices(), device_id@),
            final(self).status() == (AdbStatusView {
                message: "ADB: failed to start logcat for "@ + device_id@ + ": "@ + error@,
                ..old(self).status()
            }),
            final(self).context_ids() == old(self).context_ids(),
            forall|x: Seq<char>| #[trigger] final(self).context(x) == old(self).context(x),
    {
        self.mark_disconnected(device_id);
        let mut m = String::from_str("ADB: failed to start logcat for ");
        m.append(device_id);
        m.append(": ");
        m.append(error);
        let ghost mid = *self;
        self.adb_status.message = m;
        proof {
            DeviceManager::lemma_same_lists(&mid, self);
        }
    }

    /// Starting the logcat processes failed with `error`: the manager falls back to the
    /// mock device.
    pub fn fall_back_after_logcat_failure(&mut self, error: &str)
        ensures
            final(self).is_mock_state("ADB: failed to start logcat: "@ + error@ + ", using mock device"@),
    {
        let mut m = String::from_str("ADB: failed to start logcat: ");
        m.append(error);
        m.append(", using mock device");
        *self = Self::mock_fallback(m.as_str());
    }

    /// The identifiers of the adb devices, in order: the devices whose logcat is started
    /// when the manager starts.
    pub fn adb_device_ids(&self) -> (r: Vec<String>)
        ensures
            r@.map_values(|s: String| s@) == adb_ids(self.devices()),
    {
        let mut out: Vec<String> = Vec::new();
        let mut i: usize = 0;
        while i < self.devices.len()
            invariant
                0 <= i <= self.devices@.len(),
                out@.map_values(|s: String| s@) == adb_ids(self.devices().take(i as int)),
            decreases self.devices@.len() - i,
        {
            assert(self.devices().take(i + 1).drop_last() =~= self.devices().take(i as int));
            assert(self.devices().take(i + 1).last() == self.devices@[i as int]@);
            let ghost before = out@;
            if self.devices[i].source == DeviceSource::Adb {
                out.push(self.devices[i].device_id.clone());
            }
            assert(out@.map_values(|s: String| s@) =~= adb_ids(self.devices().take(i + 1)));
            i = i + 1;
        }
        assert(self.devices().take(i as int) =~= self.devices());
        out
    }

    /// Marks disconnected, in turn, every adb device that `scan` does not list; returns
    /// their identifiers.
    fn disconnect_missing(&mut self, scan: &Vec<AdbDevice>) -> (stopped: Vec<String>)
        requires
            old(self).wf(),
        ensures
            final(self).wf(),
            stopped@.map_values(|s: String| s@) == missing_ids(adb_ids(old(self).devices()), adb_views(scan@)),
            final(self).devices() == mark_all(old(self).devices(), missing_ids(adb_ids(old(self).devices()), adb_views(scan@))),
            final(self).adb_status == old(self).adb_status,
            final(self).contexts@ == old(self).contexts@,
    {
        let ghost start = self.devices();
        let ghost sv = adb_views(scan@);
        let ids = self.adb_device_ids();
        let ghost idv = adb_ids(start);
        let mut stopped: Vec<String> = Vec::new();
        let mut j: usize = 0;
        assert(idv.take(0) =~= seq![]);
        assert(stopped@.map_values(|s: String| s@) =~= seq![]);
        while j < ids.len()
            invariant
                0 <= j <= ids@.len(),
                self.wf(),
                ids@.map_values(|s: String| s@) == idv,
                idv == adb_ids(start),
                start == old(self).devices(),
                sv == adb_views(scan@),
                stopped@.map_values(|s: String| s@) == missing_ids(idv.take(j as int), sv),
                self.devices() == mark_all(start, missing_ids(idv.take(j as int), sv)),
                self.adb_status == old(self).adb_status,
                self.contexts@ == old(self).contexts@,
            decreases ids@.len() - j,
        {
            let id = &ids[j];
            assert(idv.take(j + 1).drop_last() =~= idv.take(j as int));
            assert(idv.take(j + 1).last() == id@);
            if !scan_has_serial(scan, id.as_str()) {
                let ghost ms = missing_ids(idv.take(j as int), sv);
                match self.find_device(id.as_str()) {
                    Some(i) => {
                        proof {
                            lemma_first_device(self.devices(), id@, i as int);
                        }
                        self.mark_at(i);
                    },
                    None => {
                        assert(first_device(self.devices(), id@) is None);
                    },
                }
                let ghost before_stopped = stopped@;
                stopped.push(id.clone());
                proof {
                    lemma_mark_step(start, ms, id@);
                    assert(stopped@.map_values(|s: String| s@) =~= before_stopped.map_values(|s: String| s@).push(id@));
                }
            }
            j = j + 1;
        }
        assert(idv.take(j as int) =~= idv);
        stopped
    }

    /// Connects, renames or adds each scanned device in turn; new devices get a
    /// fresh context.
    fn upsert_scanned_all(&mut self, scan: &Vec<AdbDevice>)
        requires
            old(self).wf(),
            !has_mock(old(self).devices()),
        ensures
            final(self).wf(),
            !has_mock(final(self).devices()),
            final(self).devices() == upsert_all(old(self).devices(), adb_views(scan@), scan@.len()),
            final(self).status() == old(self).status(),
            forall|x: Seq<char>| #[trigger] final(self).has_context(x) <==> old(self).has_context(x) || scan_lists(adb_views(scan@), x),
            forall|x: Seq<char>| #[trigger] old(self).has_context(x) ==> final(self).context(x) == old(self).context(x),
            forall|x: Seq<char>| #[trigger] final(self).has_context(x) && !old(self).has_context(x) ==> fresh_context(
                final(self).context(x),
                x,
                last_display_name(adb_views(scan@), x),
            ),
    {
        let ghost sv = adb_views(scan@);
        let root = path_from(LOG_ROOT);
        let mut k: usize = 0;
        while k < scan.len()
            invariant
                0 <= k <= scan@.len(),
                sv == adb_views(scan@),
                self.wf(),
                !has_mock(self.devices()),
                self.devices() == upsert_all(old(self).devices(), sv, k as nat),
                self.status() == old(self).status(),
                forall|x: Seq<char>| #[trigger] self.has_context(x) <==> old(self).has_context(x) || scan_lists(sv.take(k as int), x),
                forall|x: Seq<char>| #[trigger] old(self).has_context(x) ==> self.context(x) == old(self).context(x),
                forall|x: Seq<char>| #[trigger] self.has_context(x) && !old(self).has_context(x) ==> fresh_context(
                    self.context(x),
                    x,
                    last_display_name(sv, x),
                ),
            decreases scan@.len() - k,
        {
            let ghost pre = *self;
            self.upsert_scanned(scan, k, &root);
            proof {
                assert forall|x: Seq<char>| #[trigger] old(self).has_context(x) implies self.context(x) == old(self).context(x) by {
                    assert(pre.has_context(x));
                    assert(pre.context(x) == old(self).context(x));
                }
                assert forall|x: Seq<char>| #[trigger] self.has_context(x) && !old(self).has_context(x) implies fresh_context(
                    self.context(x),
                    x,
                    last_display_name(sv, x),
                ) by {
                    if pre.has_context(x) {
                        assert(self.context(x) == pre.context(x));
                    }
                }
                assert forall|x: Seq<char>| scan_lists(sv.take(k + 1), x) <==> (scan_lists(sv.take(k as int), x) || x == sv[k as int].serial) by {
                    let a = sv.take(k as int);
                    let b = sv.take(k + 1);
                    if scan_lists(b, x) {
                        let i = choose|i: int| 0 <= i < b.len() && b[i].serial == x;
                        if i < k {
                            assert(a[i] == b[i]);
                        }
                    }
                    if scan_lists(a, x) {
                        let i = choose|i: int| 0 <= i < a.len() && a[i].serial == x;
                        assert(b[i] == a[i]);
                    }
                    if x == sv[k as int].serial {
                        assert(b[k as int] == sv[k as int]);
                    }
                }
            }
            k = k + 1;
        }
        assert(sv.take(k as int) =~= sv);
    }

    /// Applies scan entry `k`.
    fn upsert_scanned(&mut self, scan: &Vec<AdbDevice>, k: usize, root: &PathBuf)
        requires
            old(self).wf(),
            !has_mock(old(self).devices()),
            k < scan@.len(),
        ensures
            final(self).wf(),
            !has_mock(final(self).devices()),
            final(self).devices() == upsert_device(
                old(self).devices(),
                adb_views(scan@)[k as int],
                last_display_name(adb_views(scan@), adb_views(scan@)[k as int].serial),
            ),
            final(self).status() == old(self).status(),
            forall|x: Seq<char>| #[trigger] final(self).has_context(x) <==> old(self).has_context(x) || x == adb_views(scan@)[k as int].serial,
            forall|x: Seq<char>| #[trigger] old(self).has_context(x) ==> final(self).context(x) == old(self).context(x),
            forall|x: Seq<char>| #[trigger] final(self).has_context(x) && !old(self).has_context(x) ==> fresh_context(
                final(self).context(x),
                x,
                last_display_name(adb_views(scan@), x),
            ),
    {
        let ghost sv = adb_views(scan@);
        let d = &scan[k];
        assert(d@ == sv[k as int]);
        let ghost old_self = *self;
        match self.find_device(d.serial.as_str()) {
            Some(i) => {
                proof {
                    lemma_first_device(self.devices(), d.serial@, i as int);
                    assert(self.devices()[i as int] == self.devices@[i as int]@);
                }
                let updated = DeviceInfo {
                    device_id: self.devices[i].device_id.clone(),
                    device_name: d.display_name.clone(),
                    connected: true,
                    source: DeviceSource::Adb,
                };
                let ghost before = self.devices@;
                self.devices.set(i, updated);
                proof {
                    assert(self.devices() =~= device_views(before).update(i as int, updated@));
                    assert(ids_of(self.devices()) =~= ids_of(old_self.devices()));
                    let ids = self.context_ids();
                    assert forall|m: int| 0 <= m < self.devices().len() implies ids.contains(#[trigger] self.devices()[m].device_id) by {
                        assert(self.devices()[m].device_id == old_self.devices()[m].device_id);
                    }
                    assert(self.wf());
                    assert forall|x: Seq<char>| #[trigger] self.has_context(x) <==> old_self.has_context(x) || x == sv[k as int].serial by {
                        if x == sv[k as int].serial {
                            assert(old_self.devices()[i as int].device_id == x);
                            assert(old_self.context_ids().contains(old_self.devices()[i as int].device_id));
                        }
                    }
                    assert(!has_mock(self.devices())) by {
                        if has_mock(self.devices()) {
                            let m = choose|m: int| 0 <= m < self.devices().len() && self.devices()[m].source == DeviceSource::Mock;
                            assert(m != i);
                            assert(old_self.devices()[m].source == DeviceSource::Mock);
                        }
                    }
                }
            },
            None => {
                proof {
                    assert(first_device(self.devices(), d.serial@) is None);
                    assert(!self.has_context(d.serial@)) by {
                        if self.has_context(d.serial@) {
                            let m = choose|m: int| 0 <= m < self.context_ids().len() && self.context_ids()[m] == d.serial@;
                            assert(ids_of(self.devices()).contains(self.context_ids()[m]));
                            let j = choose|j: int| 0 <= j < ids_of(self.devices()).len() && ids_of(self.devices())[j] == d.serial@;
                            assert(self.devices()[j].device_id == d.serial@);
                        }
                    }
                }
                let name = last_name(scan, d.serial.as_str());
                let ctx = new_context(d.serial.as_str(), name.as_str(), root);
                let ghost cval = ctx;
                self.contexts.push(ctx);
                let info = DeviceInfo {
                    device_id: d.serial.clone(),
                    device_name: name,
                    connected: true,
                    source: DeviceSource::Adb,
                };
                let ghost before = self.devices@;
                self.devices.push(info);
                proof {
                    let oids = old_self.context_ids();
                    let nids = self.context_ids();
                    assert(nids =~= oids.push(d.serial@));
                    lemma_push_contains(oids, d.serial@);
                    assert(self.devices() =~= old_self.devices().push(info@));
                    assert(ids_of(self.devices()) =~= ids_of(old_self.devices()).push(d.serial@));
                    lemma_push_contains(ids_of(old_self.devices()), d.serial@);
                    assert forall|a: int, b: int| 0 <= a < b < nids.len() implies nids[a] != nids[b] by {
                        if b == oids.len() {
                            assert(oids.contains(nids[a]));
                        }
                    }
                    assert forall|m: int| 0 <= m < self.contexts@.len() implies (#[trigger] self.contexts@[m]).wf() by {
                        if m < oids.len() {
                            assert(self.contexts@[m] == old_self.contexts@[m]);
                        }
                    }
                    assert forall|m: int| 0 <= m < self.devices().len() implies nids.contains(#[trigger] self.devices()[m].device_id) by {
                        if m < old_self.devices().len() {
                            assert(self.devices()[m] == old_self.devices()[m]);
                            assert(oids.contains(old_self.devices()[m].device_id));
                        }
                    }
                    assert forall|m: int| 0 <= m < nids.len() implies ids_of(self.devices()).contains(#[trigger] nids[m]) by {
                        if m < oids.len() {
                            assert(oids[m] == nids[m]);
                            assert(ids_of(old_self.devices()).contains(oids[m]));
                        }
                    }
                    assert(self.wf());
                    self.lemma_context_at(oids.len() as int);
                    assert(self.contexts@[oids.len() as int] == cval);
                    assert forall|x: Seq<char>| #[trigger] old_self.has_context(x) implies self.context(x) == old_self.context(x) by {
                        let m = choose|m: int| 0 <= m < oids.len() && oids[m] == x;
                        old_self.lemma_context_at(m);
                        assert(self.contexts@[m] == old_self.contexts@[m]);
                        self.lemma_context_at(m);
                    }
                    assert(!has_mock(self.devices())) by {
                        if has_mock(self.devices()) {
                            let m = choose|m: int| 0 <= m < self.devices().len() && self.devices()[m].source == DeviceSource::Mock;
                            assert(m < old_self.devices().len());
                            assert(old_self.devices()[m].source == DeviceSource::Mock);
                        }
                    }
                }
            },
        }
    }
}

} // verus!
