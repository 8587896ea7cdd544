use vstd::prelude::*;

use crate::device::{
    entry_views, last_n, search_hits, unicode_lowercase, visible, DeviceSnapshot, ExportMode, SEARCH_WINDOW,
};
use crate::device_manager::{
    device_views, filter_set, first_device, has_mock, ids_of, removable, removal, AdbStatus, AdbStatusMode,
    DeviceManager, ManagerError, MOCK_DEVICE_ID,
};
use crate::log_entry::{opt_text, DeviceSource, DeviceInfo, DeviceInfoView, LogEntry, LogEntryView, StatisticsSnapshot};
use crate::recorder::{displayed, path_text, RecorderStatus, RecorderStatusView};
use crate::statistics::{stats_snapshot, BYTES_PER_ENTRY};
use crate::text::str_eq;

verus! {

/// How many of the newest visible entries a snapshot message carries.
pub const SNAPSHOT_LIMIT: usize = 5000;

/// The line that the mock device produces on every tick.
pub const MOCK_LOG_LINE: &'static str =
    "07-04 12:34:56.789  1234  5678 I ActivityManager: Mock log line from com.android.systemui";

/// The port the server listens on.
pub struct ServerInfo {
    pub port: u16,
}

/// The browser origins allowed to open the socket: the development server and the
/// packaged application.
pub open spec fn allowed_origin(origin: Seq<char>) -> bool {
    ||| origin == "http://127.0.0.1:5173"@
    ||| origin == "http://localhost:5173"@
    ||| origin == "file://"@
}

/// A request without an origin (not from a browser) or from an allowed origin.
pub fn is_allowed_origin(origin: Option<&str>) -> (r: bool)
    ensures
        r == match origin {
            None => true,
            Some(o) => allowed_origin(o@),
        },
{
    match origin {
        None => true,
        Some(o) => str_eq(o, "http://127.0.0.1:5173") || str_eq(o, "http://localhost:5173") || str_eq(
            o,
            "file://",
        ),
    }
}

/// The request carries exactly the server's token.
pub fn is_allowed_token(candidate: Option<&str>, expected: &str) -> (r: bool)
    ensures
        r == (candidate matches Some(c) && c@ == expected@),
{
    match candidate {
        Some(c) => str_eq(c, expected),
        None => false,
    }
}

/// A message of the engine to the user interface.
#[derive(Debug)]
pub enum ServerMessage {
    DeviceList { devices: Vec<DeviceInfo> },
    NewLogs { device_id: String, logs: Vec<LogEntry> },
    LogSnapshot { device_id: String, logs: Vec<LogEntry> },
    Statistics { device_id: String, stats: StatisticsSnapshot },
    SearchResults { device_id: String, matches: Vec<u64> },
    RecorderStatus { device_id: String, enabled: bool, path: Option<String>, warning: Option<String> },
    AdbStatus { available: bool, mode: AdbStatusMode, path: Option<String>, message: String },
    Error { message: String },
    ExportReady { device_id: String, mode: String, path: String, line_count: usize },
}

/// The contents of a [`ServerMessage`], its texts as character sequences.
pub enum ServerMessageView {
    DeviceList { devices: Seq<DeviceInfoView> },
    NewLogs { device_id: Seq<char>, logs: Seq<LogEntryView> },
    LogSnapshot { device_id: Seq<char>, logs: Seq<LogEntryView> },
    Statistics { device_id: Seq<char>, stats: StatisticsSnapshot },
    SearchResults { device_id: Seq<char>, matches: Seq<u64> },
    RecorderStatus { device_id: Seq<char>, enabled: bool, path: Option<Seq<char>>, warning: Option<Seq<char>> },
    AdbStatus { available: bool, mode: AdbStatusMode, path: Option<Seq<char>>, message: Seq<char> },
    Error { message: Seq<char> },
    ExportReady { device_id: Seq<char>, mode: Seq<char>, path: Seq<char>, line_count: usize },
}

impl View for ServerMessage {
    type V = ServerMessageView;

    open spec fn view(&self) -> ServerMessageView {
        match self {
            ServerMessage::DeviceList { devices } => ServerMessageView::DeviceList { devices: device_views(devices@) },
            ServerMessage::NewLogs { device_id, logs } => ServerMessageView::NewLogs {
                device_id: device_id@,
                logs: entry_views(logs@),
            },
            ServerMessage::LogSnapshot { device_id, logs } => ServerMessageView::LogSnapshot {
                device_id: device_id@,
                logs: entry_views(logs@),
            },
            ServerMessage::Statistics { device_id, stats } => ServerMessageView::Statistics {
                device_id: device_id@,
                stats: *stats,
            },
            ServerMessage::SearchResults { device_id, matches } => ServerMessageView::SearchResults {
                device_id: device_id@,
                matches: matches@,
            },
            ServerMessage::RecorderStatus { device_id, enabled, path, warning } => ServerMessageView::RecorderStatus {
                device_id: device_id@,
                enabled: *enabled,
                path: opt_text(*path),
                warning: opt_text(*warning),
            },
            ServerMessage::AdbStatus { available, mode, path, message } => ServerMessageView::AdbStatus {
                available: *available,
                mode: *mode,
                path: opt_text(*path),
                message: message@,
            },
            ServerMessage::Error { message } => ServerMessageView::Error { message: message@ },
            ServerMessage::ExportReady { device_id, mode, path, line_count } => ServerMessageView::ExportReady {
                device_id: device_id@,
                mode: mode@,
                path: path@,
                line_count: *line_count,
            },
        }
    }
}

pub open spec fn message_views(ms: Seq<ServerMessage>) -> Seq<ServerMessageView> {
    ms.map_values(|m: ServerMessage| m@)
}

fn clone_text(o: &Option<String>) -> (r: Option<String>)
    ensures
        opt_text(r) == opt_text(*o),
{
    match o {
        Some(s) => Some(s.clone()),
        None => None,
    }
}

/// The adb status as a message.
pub fn adb_status_message(status: &AdbStatus) -> (r: ServerMessage)
    ensures
        r@ == (ServerMessageView::AdbStatus {
            available: status@.available,
            mode: status@.mode,
            path: status@.path,
            message: status@.message,
        }),
{
    ServerMessage::AdbStatus {
        available: status.available,
        mode: status.mode,
        path: clone_text(&status.path),
        message: status.message.clone(),
    }
}

/// The recording status of device `device_id` as a message (the file as its display
/// text).
pub fn recorder_status_message(device_id: &str, status: RecorderStatus) -> (r: ServerMessage)
    ensures
        r@ == status_view(device_id@, status@),
{
    let path = match &status.path {
        Some(p) => Some(path_text(p)),
        None => None,
    };
    ServerMessage::RecorderStatus {
        device_id: String::from_str(device_id),
        enabled: status.enabled,
        path,
        warning: status.warning,
    }
}

fn clone_devices(ds: &[DeviceInfo]) -> (r: Vec<DeviceInfo>)
    ensures
        device_views(r@) == device_views(ds@),
{
    let mut out: Vec<DeviceInfo> = Vec::new();
    let mut i: usize = 0;
    while i < ds.len()
        invariant
            0 <= i <= ds@.len(),
            device_views(out@) == device_views(ds@.take(i as int)),
        decreases ds@.len() - i,
    {
        let ghost before = out@;
        out.push(ds[i].clone());
        assert(device_views(out@) =~= device_views(before).push(ds@[i as int]@));
        assert(device_views(ds@.take(i + 1)) =~= device_views(ds@.take(i as int)).push(ds@[i as int]@));
        i = i + 1;
    }
    assert(ds@.take(i as int) =~= ds@);
    out
}

/// The device list as a message.
pub fn device_list_message(manager: &DeviceManager) -> (r: ServerMessage)
    ensures
        r@ == (ServerMessageView::DeviceList { devices: manager.devices() }),
{
    ServerMessage::DeviceList { devices: clone_devices(manager.device_list()) }
}

fn listed_device_ids(manager: &DeviceManager) -> (r: Vec<String>)
    ensures
        r@.map_values(|s: String| s@) == ids_of(manager.devices()),
{
    let ds = manager.device_list();
    let mut out: Vec<String> = Vec::new();
    let mut i: usize = 0;
    while i < ds.len()
        invariant
            0 <= i <= ds@.len(),
            device_views(ds@) == manager.devices(),
            out@.map_values(|s: String| s@) == ids_of(manager.devices()).take(i as int),
        decreases ds@.len() - i,
    {
        let ghost before = out@;
        let id = ds[i].device_id.clone();
        out.push(id);
        assert(ids_of(manager.devices())[i as int] == ds@[i as int].device_id@) by {
            assert(manager.devices()[i as int] == ds@[i as int]@);
        }
        assert(out@.map_values(|s: String| s@) =~= before.map_values(|s: String| s@).push(id@));
        assert(out@.map_values(|s: String| s@) =~= ids_of(manager.devices()).take(i + 1));
        i = i + 1;
    }
    assert(ids_of(manager.devices()).take(i as int) =~= ids_of(manager.devices()));
    out
}

/// The devices whose recording status is sent when a client connects: every listed
/// device, in order.
pub fn startup_recorder_status_device_ids(manager: &DeviceManager) -> (r: Vec<String>)
    ensures
        r@.map_values(|s: String| s@) == ids_of(manager.devices()),
{
    listed_device_ids(manager)
}

/// The devices whose state is sent again after a rescan: every listed device, in order.
pub fn refresh_device_state_device_ids(manager: &DeviceManager) -> (r: Vec<String>)
    ensures
        r@.map_values(|s: String| s@) == ids_of(manager.devices()),
{
    listed_device_ids(manager)
}

/// The snapshot of a device can be taken: its memory estimate fits in 64 bits.
pub open spec fn snapshot_fits(manager: DeviceManager, id: Seq<char>) -> bool {
    manager.has_context(id) ==> manager.context(id).spec_seq() * BYTES_PER_ENTRY <= u64::MAX
}

/// The error message for an unknown device.
pub open spec fn unknown_device(id: Seq<char>) -> ServerMessageView {
    ServerMessageView::Error { message: "unknown device: "@ + id }
}

/// The message for recording status `s` of device `id`, the file sent as its display
/// text.
pub open spec fn status_view(id: Seq<char>, s: RecorderStatusView) -> ServerMessageView {
    ServerMessageView::RecorderStatus {
        device_id: id,
        enabled: s.enabled,
        path: match s.path {
            Some(p) => Some(displayed(p)),
            None => None,
        },
        warning: s.warning,
    }
}

/// The recording status message of device `id`.
pub open spec fn recorder_view(manager: DeviceManager, id: Seq<char>) -> ServerMessageView {
    if manager.has_context(id) {
        status_view(id, manager.context(id).status())
    } else {
        unknown_device(id)
    }
}

/// The snapshot message of device `id`: its newest visible entries.
pub open spec fn snapshot_view(manager: DeviceManager, id: Seq<char>) -> ServerMessageView {
    if manager.has_context(id) {
        ServerMessageView::LogSnapshot {
            device_id: id,
            logs: last_n(visible(manager.context(id).entries()), SNAPSHOT_LIMIT as nat),
        }
    } else {
        unknown_device(id)
    }
}

/// The statistics message of device `id`.
pub open spec fn statistics_view(manager: DeviceManager, id: Seq<char>) -> ServerMessageView {
    if manager.has_context(id) {
        ServerMessageView::Statistics { device_id: id, stats: stats_snapshot(manager.context(id).stats()) }
    } else {
        unknown_device(id)
    }
}

fn error_message(e: ManagerError) -> (r: ServerMessage)
    ensures
        r@ == (ServerMessageView::Error {
            message: match e {
                ManagerError::UnknownDevice(id) => "unknown device: "@ + id@,
                ManagerError::StillConnected(id) => "device still connected: "@ + id@,
            },
        }),
{
    ServerMessage::Error { message: e.message() }
}

fn snapshot_of(manager: &DeviceManager, device_id: &str) -> (r: Result<DeviceSnapshot, ManagerError>)
    requires
        manager.wf(),
        snapshot_fits(*manager, device_id@),
    ensures
        !manager.has_context(device_id@) ==> (r matches Err(ManagerError::UnknownDevice(id)) && id@ == device_id@),
        manager.has_context(device_id@) ==> (r matches Ok(snap) && {
            let c = manager.context(device_id@);
            &&& entry_views(snap.logs@) == last_n(visible(c.entries()), SNAPSHOT_LIMIT as nat)
            &&& snap.stats == stats_snapshot(c.stats())
            &&& snap.recorder_status@ == c.status()
        }),
{
    manager.latest_visible_snapshot(device_id, SNAPSHOT_LIMIT)
}

/// The snapshot message of device `device_id`, or the error.
pub fn snapshot_message(manager: &DeviceManager, device_id: &str) -> (r: ServerMessage)
    requires
        manager.wf(),
        snapshot_fits(*manager, device_id@),
    ensures
        r@ == snapshot_view(*manager, device_id@),
{
    match snapshot_of(manager, device_id) {
        Ok(snap) => ServerMessage::LogSnapshot { device_id: String::from_str(device_id), logs: snap.logs },
        Err(e) => error_message(e),
    }
}

/// The statistics message of device `device_id`, or the error.
pub fn statistics_message(manager: &DeviceManager, device_id: &str) -> (r: ServerMessage)
    requires
        manager.wf(),
        snapshot_fits(*manager, device_id@),
    ensures
        r@ == statistics_view(*manager, device_id@),
{
    match snapshot_of(manager, device_id) {
        Ok(snap) => ServerMessage::Statistics { device_id: String::from_str(device_id), stats: snap.stats },
        Err(e) => error_message(e),
    }
}

/// The recording status message of device `device_id`, or the error.
pub fn device_recorder_message(manager: &DeviceManager, device_id: &str) -> (r: ServerMessage)
    requires
        manager.wf(),
        snapshot_fits(*manager, device_id@),
    ensures
        r@ == recorder_view(*manager, device_id@),
{
    match snapshot_of(manager, device_id) {
        Ok(snap) => recorder_status_message(device_id, snap.recorder_status),
        Err(e) => error_message(e),
    }
}

/// The state of device `device_id` sent after a rescan: its recording status, its
/// snapshot and its statistics.  An unknown device is an error.
pub fn refresh_device_state_messages(manager: &DeviceManager, device_id: &str) -> (r: Result<
    Vec<ServerMessage>,
    ManagerError,
>)
    requires
        manager.wf(),
        snapshot_fits(*manager, device_id@),
    ensures
        !manager.has_context(device_id@) ==> (r matches Err(ManagerError::UnknownDevice(id)) && id@ == device_id@),
        manager.has_context(device_id@) ==> (r matches Ok(ms) && message_views(ms@) == seq![
            recorder_view(*manager, device_id@),
            snapshot_view(*manager, device_id@),
            statistics_view(*manager, device_id@),
        ]),
{
    let snap = match snapshot_of(manager, device_id) {
        Ok(snap) => snap,
        Err(e) => {
            return Err(e);
        },
    };
    let mut ms: Vec<ServerMessage> = Vec::new();
    ms.push(recorder_status_message(device_id, snap.recorder_status));
    ms.push(ServerMessage::LogSnapshot { device_id: String::from_str(device_id), logs: snap.logs });
    ms.push(ServerMessage::Statistics { device_id: String::from_str(device_id), stats: snap.stats });
    assert(message_views(ms@) =~= seq![
        recorder_view(*manager, device_id@),
        snapshot_view(*manager, device_id@),
        statistics_view(*manager, device_id@),
    ]);
    Ok(ms)
}

/// What to send for one line that an adb device produced.
#[derive(Debug)]
pub enum PendingAdbLogMessage {
    /// The entry itself.
    NewLogs(LogEntry),
    /// The device's recording status.
    RecorderStatus,
    /// The device's statistics.
    Statistics,
}

/// The messages for one new entry of an adb device: the entry (unless hidden), then
/// the recording status and the statistics, which a hidden entry changes too.
pub fn pending_adb_log_messages(device_id: &str, entry: LogEntry) -> (r: Vec<PendingAdbLogMessage>)
    ensures
        entry.hidden ==> r@.len() == 2 && r@[0] is RecorderStatus && r@[1] is Statistics,
        !entry.hidden ==> r@.len() == 3 && (r@[0] matches PendingAdbLogMessage::NewLogs(e) && e@ == entry@)
            && r@[1] is RecorderStatus && r@[2] is Statistics,
{
    let mut messages: Vec<PendingAdbLogMessage> = Vec::new();
    if !entry.hidden {
        messages.push(PendingAdbLogMessage::NewLogs(entry));
    }
    messages.push(PendingAdbLogMessage::RecorderStatus);
    messages.push(PendingAdbLogMessage::Statistics);
    messages
}

/// Every listed device's snapshot can be taken.
pub open spec fn all_snapshots_fit(manager: DeviceManager) -> bool {
    forall|i: int| 0 <= i < manager.devices().len() ==> snapshot_fits(manager, #[trigger] manager.devices()[i].device_id)
}

/// What a client is sent when it connects: the device list, the adb status, then the
/// recording status of each listed device, in list order.
pub open spec fn startup_views(manager: DeviceManager) -> Seq<ServerMessageView> {
    seq![
        ServerMessageView::DeviceList { devices: manager.devices() },
        ServerMessageView::AdbStatus {
            available: manager.status().available,
            mode: manager.status().mode,
            path: manager.status().path,
            message: manager.status().message,
        },
    ] + ids_of(manager.devices()).map_values(|id: Seq<char>| recorder_view(manager, id))
}

/// The messages a client is sent when it connects (see [`startup_views`]).
pub fn startup_messages(manager: &DeviceManager) -> (r: Vec<ServerMessage>)
    requires
        manager.wf(),
        all_snapshots_fit(*manager),
    ensures
        message_views(r@) == startup_views(*manager),
{
    let mut ms: Vec<ServerMessage> = Vec::new();
    ms.push(device_list_message(manager));
    ms.push(adb_status_message(manager.adb_status()));
    let ids = startup_recorder_status_device_ids(manager);
    let ghost idv = ids_of(manager.devices());
    let ghost head = seq![
        ServerMessageView::DeviceList { devices: manager.devices() },
        ServerMessageView::AdbStatus {
            available: manager.status().available,
            mode: manager.status().mode,
            path: manager.status().path,
            message: manager.status().message,
        },
    ];
    assert(message_views(ms@) =~= head);
    assert(ids@.len() == ids@.map_values(|s: String| s@).len());
    let mut i: usize = 0;
    while i < ids.len()
        invariant
            0 <= i <= ids@.len(),
            manager.wf(),
            all_snapshots_fit(*manager),
            ids@.map_values(|s: String| s@) == idv,
            idv == ids_of(manager.devices()),
            ids@.len() == manager.devices().len(),
            message_views(ms@) == head + idv.take(i as int).map_values(|id: Seq<char>| recorder_view(*manager, id)),
        decreases ids@.len() - i,
    {
        assert(idv[i as int] == ids@.map_values(|s: String| s@)[i as int]);
        assert(idv[i as int] == manager.devices()[i as int].device_id);
        let ghost before = ms@;
        ms.push(device_recorder_message(manager, ids[i].as_str()));
        assert(message_views(ms@) =~= message_views(before).push(recorder_view(*manager, idv[i as int])));
        assert(idv.take(i + 1).map_values(|id: Seq<char>| recorder_view(*manager, id)) =~= idv.take(i as int).map_values(
            |id: Seq<char>| recorder_view(*manager, id),
        ).push(recorder_view(*manager, idv[i as int])));
        i = i + 1;
    }
    assert(idv.take(i as int) =~= idv);
    ms
}

/// The message that shows the mock device's new entry: none for no entry or a hidden
/// one.
pub open spec fn shown_entry(entry: Option<LogEntry>) -> Seq<ServerMessageView> {
    match entry {
        Some(e) => if e.hidden {
            Seq::<ServerMessageView>::empty()
        } else {
            seq![ServerMessageView::NewLogs { device_id: MOCK_DEVICE_ID@, logs: seq![e@] }]
        },
        None => Seq::<ServerMessageView>::empty(),
    }
}

/// What the mock device's tick sends once its line was ingested as `entry`: the entry
/// (unless hidden), then the mock device's statistics and recording status.
pub fn mock_tick_messages(manager: &DeviceManager, entry: Option<LogEntry>) -> (r: Vec<ServerMessage>)
    requires
        manager.wf(),
        snapshot_fits(*manager, MOCK_DEVICE_ID@),
    ensures
        message_views(r@) == shown_entry(entry) + seq![
            statistics_view(*manager, MOCK_DEVICE_ID@),
            recorder_view(*manager, MOCK_DEVICE_ID@),
        ],
{
    let mut ms: Vec<ServerMessage> = Vec::new();
    let ghost shown = shown_entry(entry);
    match entry {
        Some(e) => {
            if !e.hidden {
                let ghost ev = e@;
                let mut logs: Vec<LogEntry> = Vec::new();
                logs.push(e);
                assert(entry_views(logs@) =~= seq![ev]);
                ms.push(ServerMessage::NewLogs { device_id: String::from_str(MOCK_DEVICE_ID), logs });
            }
        },
        None => {},
    }
    assert(message_views(ms@) =~= shown);
    ms.push(statistics_message(manager, MOCK_DEVICE_ID));
    ms.push(device_recorder_message(manager, MOCK_DEVICE_ID));
    assert(message_views(ms@) =~= shown + seq![statistics_view(*manager, MOCK_DEVICE_ID@), recorder_view(*manager, MOCK_DEVICE_ID@)]);
    ms
}

/// A request of the user interface.
#[derive(Debug)]
pub enum ClientMessage {
    ConnectDevice { device_id: String },
    DisconnectDevice { device_id: String },
    RemoveDevice { device_id: String },
    SetFilter { device_id: String, query: String },
    /// A search; it ignores case.
    SetSearch { device_id: String, query: String },
    GetStatistics { device_id: String },
    RefreshDevices,
    ExportLogs { device_id: String, mode: String },
}

/// What answering a request takes.
#[derive(Debug)]
pub enum ClientReply {
    /// Send these messages, in order, until one cannot be sent.
    Send(Vec<ServerMessage>),
    /// Rescan the devices, then send the adb status, the device list and the state of
    /// every listed device.
    Refresh,
    /// Write the export of the device in the mode, then send `ExportReady` or the error.
    Export { device_id: String, mode: ExportMode },
}

/// The export mode that the protocol names `mode`.
pub open spec fn export_mode_named(mode: Seq<char>) -> Option<ExportMode> {
    if mode == "all"@ {
        Some(ExportMode::All)
    } else if mode == "filtered"@ {
        Some(ExportMode::Filtered)
    } else {
        None
    }
}

/// Reads an export mode: `all` or `filtered`; anything else is refused with the
/// message `invalid export mode: <mode> (expected all|filtered)`.
pub fn parse_export_mode(mode: &str) -> (r: Result<ExportMode, String>)
    ensures
        match export_mode_named(mode@) {
            Some(m) => r == Ok::<ExportMode, String>(m),
            None => r matches Err(msg) && msg@ == "invalid export mode: "@ + mode@ + " (expected all|filtered)"@,
        },
{
    if str_eq(mode, "all") {
        Ok(ExportMode::All)
    } else if str_eq(mode, "filtered") {
        Ok(ExportMode::Filtered)
    } else {
        let mut msg = String::from_str("invalid export mode: ");
        msg.append(mode);
        msg.append(" (expected all|filtered)");
        Err(msg)
    }
}

/// The device whose snapshot answering a request takes.
pub open spec fn snapshot_device(message: ClientMessage) -> Option<Seq<char>> {
    match message {
        ClientMessage::ConnectDevice { device_id } => Some(device_id@),
        ClientMessage::SetFilter { device_id, .. } => Some(device_id@),
        ClientMessage::GetStatistics { device_id } => Some(device_id@),
        _ => None,
    }
}

/// The search results of device `id` for `query` (none for an empty query), compared
/// lower-cased.
pub open spec fn search_view(m: DeviceManager, id: Seq<char>, query: Seq<char>) -> ServerMessageView {
    if m.has_context(id) {
        ServerMessageView::SearchResults {
            device_id: id,
            matches: if query.len() == 0 {
                Seq::<u64>::empty()
            } else {
                search_hits(last_n(m.context(id).entries(), SEARCH_WINDOW as nat), unicode_lowercase(query))
            },
        }
    } else {
        unknown_device(id)
    }
}

/// The answer to a refused removal of device `id`.
pub open spec fn refusal(m: DeviceManager, id: Seq<char>) -> ServerMessageView {
    if first_device(m.devices(), id) is None {
        unknown_device(id)
    } else {
        ServerMessageView::Error { message: "device still connected: "@ + id }
    }
}

/// The reply `r` to `message`, which took the manager from `before` to `after`.
pub open spec fn reply_for(before: DeviceManager, after: DeviceManager, message: ClientMessage, r: ClientReply) -> bool {
    match message {
        ClientMessage::ConnectDevice { device_id } => {
            let id = device_id@;
            &&& after == before
            &&& r matches ClientReply::Send(ms) && message_views(ms@) == if before.has_context(id) {
                seq![snapshot_view(before, id), statistics_view(before, id), recorder_view(before, id)]
            } else {
                seq![unknown_device(id)]
            }
        },
        ClientMessage::DisconnectDevice { device_id } => {
            let id = device_id@;
            &&& after == before
            &&& r matches ClientReply::Send(ms) && message_views(ms@) == if before.has_context(id) {
                Seq::<ServerMessageView>::empty()
            } else {
                seq![unknown_device(id)]
            }
        },
        ClientMessage::RemoveDevice { device_id } => {
            let id = device_id@;
            &&& removal(before, after, id)
            &&& r matches ClientReply::Send(ms) && message_views(ms@) == if removable(before, id) {
                seq![ServerMessageView::DeviceList { devices: after.devices() }]
            } else {
                seq![refusal(before, id)]
            }
        },
        ClientMessage::SetFilter { device_id, query } => {
            let id = device_id@;
            &&& filter_set(before, after, id, query@)
            &&& r matches ClientReply::Send(ms) && message_views(ms@) == (if before.has_context(id) {
                Seq::<ServerMessageView>::empty()
            } else {
                seq![unknown_device(id)]
            }) + seq![snapshot_view(after, id), statistics_view(after, id)]
        },
        ClientMessage::SetSearch { device_id, query } => {
            &&& after == before
            &&& r matches ClientReply::Send(ms) && message_views(ms@) == seq![search_view(before, device_id@, query@)]
        },
        ClientMessage::GetStatistics { device_id } => {
            &&& after == before
            &&& r matches ClientReply::Send(ms) && message_views(ms@) == seq![statistics_view(before, device_id@)]
        },
        ClientMessage::RefreshDevices => after == before && r is Refresh,
        ClientMessage::ExportLogs { device_id, mode } => {
            &&& after == before
            &&& match export_mode_named(mode@) {
                Some(m) => r matches ClientReply::Export { device_id: d, mode: rm } && d@ == device_id@ && rm == m,
                None => r matches ClientReply::Send(ms) && message_views(ms@) == seq![
                    ServerMessageView::Error { message: "invalid export mode: "@ + mode@ + " (expected all|filtered)"@ },
                ],
            }
        },
    }
}

fn send_one(m: ServerMessage) -> (r: ClientReply)
    ensures
        r matches ClientReply::Send(ms) && message_views(ms@) == seq![m@],
{
    let mut ms: Vec<ServerMessage> = Vec::new();
    ms.push(m);
    assert(message_views(ms@) =~= seq![m@]);
    ClientReply::Send(ms)
}

/// Answers a request of the user interface: applies it to the manager and says what to
/// send (see [`reply_for`]).  A rescan and an export are left to the caller, which does
/// the input and output.
pub fn respond(manager: &mut DeviceManager, message: ClientMessage) -> (r: ClientReply)
    requires
        old(manager).wf(),
        snapshot_device(message) matches Some(id) ==> snapshot_fits(*old(manager), id),
    ensures
        final(manager).wf(),
        reply_for(*old(manager), *final(manager), message, r),
{
    match message {
        ClientMessage::ConnectDevice { device_id } => {
            if !manager.has_device(device_id.as_str()) {
                let mut msg = String::from_str("unknown device: ");
                msg.append(device_id.as_str());
                return send_one(ServerMessage::Error { message: msg });
            }
            let mut ms: Vec<ServerMessage> = Vec::new();
            ms.push(snapshot_message(manager, device_id.as_str()));
            ms.push(statistics_message(manager, device_id.as_str()));
            ms.push(device_recorder_message(manager, device_id.as_str()));
            let ghost m = *manager;
            assert(message_views(ms@) =~= seq![
                snapshot_view(m, device_id@),
                statistics_view(m, device_id@),
                recorder_view(m, device_id@),
            ]);
            ClientReply::Send(ms)
        },
        ClientMessage::DisconnectDevice { device_id } => {
            if manager.has_device(device_id.as_str()) {
                let ms: Vec<ServerMessage> = Vec::new();
                assert(message_views(ms@) =~= Seq::<ServerMessageView>::empty());
                ClientReply::Send(ms)
            } else {
                let mut msg = String::from_str("unknown device: ");
                msg.append(device_id.as_str());
                send_one(ServerMessage::Error { message: msg })
            }
        },
        ClientMessage::RemoveDevice { device_id } => {
            match manager.remove_device(device_id.as_str()) {
                Ok(()) => send_one(device_list_message(manager)),
                Err(e) => send_one(error_message(e)),
            }
        },
        ClientMessage::SetFilter { device_id, query } => {
            let ghost before = *manager;
            let mut ms: Vec<ServerMessage> = Vec::new();
            match manager.set_filter(device_id.as_str(), query.as_str()) {
                Ok(()) => {},
                Err(e) => {
                    ms.push(error_message(e));
                },
            }
            proof {
                if before.has_context(device_id@) {
                    assert(manager.has_context(device_id@));
                    assert(manager.context(device_id@).spec_seq() == before.context(device_id@).spec_seq());
                }
            }
            ms.push(snapshot_message(manager, device_id.as_str()));
            ms.push(statistics_message(manager, device_id.as_str()));
            let ghost m = *manager;
            assert(message_views(ms@) =~= (if before.has_context(device_id@) {
                Seq::<ServerMessageView>::empty()
            } else {
                seq![unknown_device(device_id@)]
            }) + seq![snapshot_view(m, device_id@), statistics_view(m, device_id@)]);
            ClientReply::Send(ms)
        },
        ClientMessage::SetSearch { device_id, query } => {
            match manager.search_visible_sequences(device_id.as_str(), query.as_str()) {
                Ok(matches) => send_one(ServerMessage::SearchResults { device_id, matches }),
                Err(e) => send_one(error_message(e)),
            }
        },
        ClientMessage::GetStatistics { device_id } => send_one(statistics_message(manager, device_id.as_str())),
        ClientMessage::RefreshDevices => ClientReply::Refresh,
        ClientMessage::ExportLogs { device_id, mode } => {
            match parse_export_mode(mode.as_str()) {
                Ok(m) => ClientReply::Export { device_id, mode: m },
                Err(msg) => send_one(ServerMessage::Error { message: msg }),
            }
        },
    }
}

/// The identifier and connection of each listed device.
pub open spec fn states_of(ds: Seq<DeviceInfoView>) -> Seq<(Seq<char>, bool)> {
    ds.map_values(|d: DeviceInfoView| (d.device_id, d.connected))
}

pub open spec fn state_views(v: Seq<(String, bool)>) -> Seq<(Seq<char>, bool)> {
    v.map_values(|p: (String, bool)| (p.0@, p.1))
}

/// Some listed device comes from adb and is connected.
pub open spec fn has_online_adb(ds: Seq<DeviceInfoView>) -> bool {
    exists|i: int| 0 <= i < ds.len() && ds[i].source == DeviceSource::Adb && ds[i].connected
}

/// Some listed device is connected.
pub open spec fn has_connected(ds: Seq<DeviceInfoView>) -> bool {
    exists|i: int| 0 <= i < ds.len() && ds[i].connected
}

/// The periodic rescan runs only while idle: no adb device online and not on the mock
/// device.
pub fn wants_auto_scan(manager: &DeviceManager) -> (r: bool)
    ensures
        r == (!has_online_adb(manager.devices()) && !has_mock(manager.devices())),
{
    let ds = manager.device_list();
    let mut i: usize = 0;
    while i < ds.len()
        invariant
            0 <= i <= ds@.len(),
            device_views(ds@) == manager.devices(),
            forall|k: int| 0 <= k < i ==> !(manager.devices()[k].source == DeviceSource::Adb && manager.devices()[k].connected),
        decreases ds@.len() - i,
    {
        assert(manager.devices()[i as int] == ds@[i as int]@);
        if ds[i].source == DeviceSource::Adb && ds[i].connected {
            return false;
        }
        i = i + 1;
    }
    !manager.is_mock_fallback()
}

/// The identifier and connection of each listed device, in order.
pub fn device_states(manager: &DeviceManager) -> (r: Vec<(String, bool)>)
    ensures
        state_views(r@) == states_of(manager.devices()),
{
    let ds = manager.device_list();
    let mut out: Vec<(String, bool)> = Vec::new();
    let mut i: usize = 0;
    while i < ds.len()
        invariant
            0 <= i <= ds@.len(),
            device_views(ds@) == manager.devices(),
            state_views(out@) == states_of(manager.devices()).take(i as int),
        decreases ds@.len() - i,
    {
        let ghost before = out@;
        let id = ds[i].device_id.clone();
        let pair = (id, ds[i].connected);
        out.push(pair);
        assert(manager.devices()[i as int] == ds@[i as int]@);
        assert(state_views(out@) =~= state_views(before).push((id@, ds@[i as int].connected)));
        assert(state_views(out@) =~= states_of(manager.devices()).take(i + 1));
        i = i + 1;
    }
    assert(states_of(manager.devices()).take(i as int) =~= states_of(manager.devices()));
    out
}

/// After a periodic rescan, the new state is sent when the device list changed (in
/// identifiers or connections) or some device is connected.
pub fn announce_after_scan(before: &Vec<(String, bool)>, manager: &DeviceManager) -> (r: bool)
    ensures
        r == (state_views(before@) != states_of(manager.devices()) || has_connected(manager.devices())),
{
    let now = device_states(manager);
    let mut same = before.len() == now.len();
    assert(!same ==> state_views(before@).len() != state_views(now@).len());
    let mut i: usize = 0;
    while same && i < now.len()
        invariant
            0 <= i <= now@.len(),
            same ==> before@.len() == now@.len(),
            same ==> forall|k: int| 0 <= k < i ==> #[trigger] state_views(before@)[k] == state_views(now@)[k],
            !same ==> state_views(before@) != state_views(now@),
        decreases now@.len() - i,
    {
        let a = &before[i];
        let b = &now[i];
        if !(str_eq(a.0.as_str(), b.0.as_str()) && a.1 == b.1) {
            assert(state_views(before@)[i as int] != state_views(now@)[i as int]);
            same = false;
        }
        i = i + 1;
    }
    if same {
        assert(state_views(before@) =~= state_views(now@));
    }
    let ds = manager.device_list();
    let mut any = false;
    let mut j: usize = 0;
    while j < ds.len()
        invariant
            0 <= j <= ds@.len(),
            device_views(ds@) == manager.devices(),
            any == exists|k: int| 0 <= k < j && manager.devices()[k].connected,
        decreases ds@.len() - j,
    {
        assert(manager.devices()[j as int] == ds@[j as int]@);
        if ds[j].connected {
            any = true;
        }
        j = j + 1;
    }
    !same || any
}

} // verus!
