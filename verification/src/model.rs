//! Public data types of the monitoring core and their specification-level
//! views. Metric values are scaled integers: percentages and load averages
//! in hundredths, rates in whole bytes per second, counters in bytes.

use vstd::prelude::*;

verus! {

/// Which optional subsystems the host offers; filled in by the probe adapter.
#[derive(Debug, Clone, Copy, PartialEq, Eq, Structural)]
pub struct SystemCapabilities {
    pub cpu: bool,
    pub memory: bool,
    pub swap: bool,
    pub load_average: bool,
    pub network: bool,
    pub disk: bool,
    pub processes: bool,
    pub docker: bool,
    pub file_serving: bool,
}

impl Default for SystemCapabilities {
    /// A capability record with every subsystem absent.
    fn default() -> (r: SystemCapabilities)
        ensures
            !r.cpu && !r.memory && !r.swap && !r.load_average,
            !r.network && !r.disk && !r.processes && !r.docker && !r.file_serving,
    {
        SystemCapabilities {
            cpu: false,
            memory: false,
            swap: false,
            load_average: false,
            network: false,
            disk: false,
            processes: false,
            docker: false,
            file_serving: false,
        }
    }
}

/// Envelope used by the API adapter for every reply.
pub struct ApiResponse<T> {
    pub success: bool,
    pub data: Option<T>,
    pub error: Option<String>,
}

impl<T> ApiResponse<T> {
    pub fn success(data: T) -> (r: ApiResponse<T>)
        ensures
            r.success,
            r.data == Some(data),
            r.error is None,
    {
        ApiResponse { success: true, data: Some(data), error: None }
    }

    pub fn error(error: String) -> (r: ApiResponse<T>)
        ensures
            !r.success,
            r.data is None,
            r.error == Some(error),
    {
        ApiResponse { success: false, data: None, error: Some(error) }
    }
}

/// Memory and swap totals, in bytes.
#[derive(Debug, Clone, Copy, PartialEq, Eq, Structural)]
pub struct MemoryInfo {
    pub total_mem: u64,
    pub used_mem: u64,
    pub total_swap: u64,
    pub used_swap: u64,
}

/// One network interface with its cumulative byte counters.
#[derive(Debug, Clone)]
pub struct NetworkInterface {
    pub name: String,
    pub rx: u64,
    pub tx: u64,
}

pub ghost struct NetworkInterfaceV {
    pub name: Seq<char>,
    pub rx: u64,
    pub tx: u64,
}

impl View for NetworkInterface {
    type V = NetworkInterfaceV;

    open spec fn view(&self) -> NetworkInterfaceV {
        NetworkInterfaceV { name: self.name@, rx: self.rx, tx: self.tx }
    }
}

impl DeepView for NetworkInterface {
    type V = NetworkInterfaceV;

    open spec fn deep_view(&self) -> NetworkInterfaceV {
        self.view()
    }
}

/// The interfaces seen by one probe reading.
#[derive(Debug, Clone)]
pub struct NetworkInfo {
    pub interfaces: Vec<NetworkInterface>,
}

/// One mounted filesystem with space and cumulative I/O counters.
/// `io` holds `[read_bytes, written_bytes, total_read_bytes, total_written_bytes]`.
#[derive(Debug, Clone)]
pub struct DiskInfo {
    pub fs: String,
    pub kind: String,
    pub total_space: u64,
    pub free_space: u64,
    pub mount_point: String,
    pub removable: bool,
    pub io: [u64; 4],
}

pub ghost struct DiskInfoV {
    pub fs: Seq<char>,
    pub kind: Seq<char>,
    pub total_space: u64,
    pub free_space: u64,
    pub mount_point: Seq<char>,
    pub removable: bool,
    pub io: Seq<u64>,
}

impl View for DiskInfo {
    type V = DiskInfoV;

    open spec fn view(&self) -> DiskInfoV {
        DiskInfoV {
            fs: self.fs@,
            kind: self.kind@,
            total_space: self.total_space,
            free_space: self.free_space,
            mount_point: self.mount_point@,
            removable: self.removable,
            io: self.io@,
        }
    }
}

impl DeepView for DiskInfo {
    type V = DiskInfoV;

    open spec fn deep_view(&self) -> DiskInfoV {
        self.view()
    }
}

/// The disks seen by one probe reading.
#[derive(Debug, Clone)]
pub struct DisksInfo {
    pub disks: Vec<DiskInfo>,
}

/// A container port mapping, reported by the container probe adapter.
#[derive(Debug, Clone)]
pub struct DockerPort {
    pub ip: Option<String>,
    pub priv_port: u16,
    pub pub_port: Option<u16>,
    pub protocol: String,
}

/// One reading handed in by the probe port: everything the sampler needs,
/// as plain integers. Percentages and load averages are in hundredths.
#[derive(Debug, Clone)]
pub struct Sample {
    pub cpu_usage: u64,
    pub load_avg_1: u64,
    pub load_avg_5: u64,
    pub load_avg_15: u64,
    pub mem: MemoryInfo,
    pub net: NetworkInfo,
    pub disk: DisksInfo,
}

pub ghost struct SampleV {
    pub cpu_usage: u64,
    pub load_avg_1: u64,
    pub load_avg_5: u64,
    pub load_avg_15: u64,
    pub mem: MemoryInfo,
    pub interfaces: Seq<NetworkInterfaceV>,
    pub disks: Seq<DiskInfoV>,
}

impl View for Sample {
    type V = SampleV;

    open spec fn view(&self) -> SampleV {
        SampleV {
            cpu_usage: self.cpu_usage,
            load_avg_1: self.load_avg_1,
            load_avg_5: self.load_avg_5,
            load_avg_15: self.load_avg_15,
            mem: self.mem,
            interfaces: self.net.interfaces.deep_view(),
            disks: self.disk.disks.deep_view(),
        }
    }
}

impl DeepView for Sample {
    type V = SampleV;

    open spec fn deep_view(&self) -> SampleV {
        self.view()
    }
}

/// The metric a threshold alert watches: a category (`sys`, `net` or
/// `disk`), a column of that category, and the resource key (interface or
/// mount point; canonically `sys` for the `sys` category).
#[derive(Debug, Clone)]
pub struct AlertVar {
    pub cat: String,
    pub var: String,
    pub resrc: String,
}

pub ghost struct AlertVarV {
    pub cat: Seq<char>,
    pub var: Seq<char>,
    pub resrc: Seq<char>,
}

impl View for AlertVar {
    type V = AlertVarV;

    open spec fn view(&self) -> AlertVarV {
        AlertVarV { cat: self.cat@, var: self.var@, resrc: self.resrc@ }
    }
}

impl DeepView for AlertVar {
    type V = AlertVarV;

    open spec fn deep_view(&self) -> AlertVarV {
        self.view()
    }
}

/// A threshold alert over a sliding window. `threshold` is in the watched
/// column's stored scale (hundredths for percentages and load averages,
/// whole bytes per second for rates); `time_window` is in minutes.
#[derive(Debug)]
pub struct Alert {
    pub id: String,
    pub var: AlertVar,
    pub threshold: i64,
    pub operator: String,
    pub time_window: i64,
    pub enabled: bool,
    pub firing: bool,
    pub notif_methods: Vec<String>,
}

pub ghost struct AlertView {
    pub id: Seq<char>,
    pub var: AlertVarV,
    pub threshold: i64,
    pub operator: Seq<char>,
    pub time_window: i64,
    pub enabled: bool,
    pub firing: bool,
    pub notif_methods: Seq<Seq<char>>,
}

impl View for Alert {
    type V = AlertView;

    open spec fn view(&self) -> AlertView {
        AlertView {
            id: self.id@,
            var: self.var@,
            threshold: self.threshold,
            operator: self.operator@,
            time_window: self.time_window,
            enabled: self.enabled,
            firing: self.firing,
            notif_methods: self.notif_methods.deep_view(),
        }
    }
}

impl DeepView for Alert {
    type V = AlertView;

    open spec fn deep_view(&self) -> AlertView {
        self.view()
    }
}

/// One header of a webhook request.
#[derive(Debug, Clone)]
pub struct HeaderPair {
    pub name: String,
    pub value: String,
}

/// Webhook delivery settings. `{notif_msg}` in `url` and `body` is replaced
/// by the rendered message before dispatch.
#[derive(Debug, Clone)]
pub struct WebHookNotif {
    pub url: String,
    pub method: String,
    pub headers: Vec<HeaderPair>,
    pub body: String,
}

/// SMTP relay delivery settings.
#[derive(Debug, Clone)]
pub struct EmailNotif {
    pub server: String,
    pub port: u16,
    pub username: String,
    pub password: String,
    pub from: String,
    pub to: String,
    pub subject: String,
    pub body: String,
}

/// The transport-specific part of a notification method.
#[derive(Debug, Clone)]
pub enum NotificationConfig {
    WebHook(WebHookNotif),
}

/// A configured notification channel.
#[derive(Debug, Clone)]
pub struct NotificationMethod {
    pub id: String,
    pub name: String,
    pub kind: String,
    pub enabled: bool,
    pub config: NotificationConfig,
}

pub ghost struct NotificationMethodV {
    pub id: Seq<char>,
    pub name: Seq<char>,
    pub kind: Seq<char>,
    pub enabled: bool,
}

impl View for NotificationMethod {
    type V = NotificationMethodV;

    open spec fn view(&self) -> NotificationMethodV {
        NotificationMethodV {
            id: self.id@,
            name: self.name@,
            kind: self.kind@,
            enabled: self.enabled,
        }
    }
}

impl DeepView for NotificationMethod {
    type V = NotificationMethodV;

    open spec fn deep_view(&self) -> NotificationMethodV {
        self.view()
    }
}

/// Bounds for a historical query. `resolution` is one of `second`,
/// `minute`, `hour`, `day`; anything else falls back to minute data.
#[derive(Debug, Clone)]
pub struct HistoricalQueryOptions {
    pub start_time: Option<i64>,
    pub end_time: Option<i64>,
    pub limit: Option<i64>,
    pub resolution: String,
}

pub ghost struct HistoricalQueryOptionsV {
    pub start_time: Option<i64>,
    pub end_time: Option<i64>,
    pub limit: Option<i64>,
    pub resolution: Seq<char>,
}

impl View for HistoricalQueryOptions {
    type V = HistoricalQueryOptionsV;

    open spec fn view(&self) -> HistoricalQueryOptionsV {
        HistoricalQueryOptionsV {
            start_time: self.start_time,
            end_time: self.end_time,
            limit: self.limit,
            resolution: self.resolution@,
        }
    }
}

impl DeepView for HistoricalQueryOptions {
    type V = HistoricalQueryOptionsV;

    open spec fn deep_view(&self) -> HistoricalQueryOptionsV {
        self.view()
    }
}

/// One column of one resource over time, as returned by the query surface.
/// Values are in the column's stored scale.
#[derive(Debug)]
pub struct HistoricalSeries {
    pub cat: String,
    pub stype: String,
    pub name: String,
    pub timestamps: Vec<i64>,
    pub values: Vec<u64>,
}

pub ghost struct HistoricalSeriesV {
    pub cat: Seq<char>,
    pub stype: Seq<char>,
    pub name: Seq<char>,
    pub timestamps: Seq<i64>,
    pub values: Seq<u64>,
}

impl View for HistoricalSeries {
    type V = HistoricalSeriesV;

    open spec fn view(&self) -> HistoricalSeriesV {
        HistoricalSeriesV {
            cat: self.cat@,
            stype: self.stype@,
            name: self.name@,
            timestamps: self.timestamps@,
            values: self.values@,
        }
    }
}

impl DeepView for HistoricalSeries {
    type V = HistoricalSeriesV;

    open spec fn deep_view(&self) -> HistoricalSeriesV {
        self.view()
    }
}

/// One entry of a browsed directory, reported by the file-serving adapter.
#[derive(Debug, Clone)]
pub struct FileEntry {
    pub name: String,
    pub is_dir: bool,
    pub size: u64,
    pub modified: u64,
    pub permissions: String,
}

/// A browsed directory, reported by the file-serving adapter.
#[derive(Debug, Clone)]
pub struct DirectoryListing {
    pub path: String,
    pub entries: Vec<FileEntry>,
}

} // verus!
