//! The plain values that the library hands out.

use vstd::prelude::*;
use crate::cursor::HistoryCursor;

verus! {

/// Processor, memory and GPU usage.
#[derive(Debug, Clone, Copy, PartialEq, Eq)]
pub struct ComputeUsage {
    /// A fully occupied logical CPU is 100%.
    pub cpu_percent_tenths: u64,
    /// Share of the whole machine, at most 100%.
    pub cpu_percent_of_machine_tenths: u64,
    /// Best available estimate of physical memory: the proportional set size where it
    /// can be read, the resident set size otherwise.
    pub memory_bytes: u64,
    pub memory_rss_bytes: u64,
    pub memory_pss_bytes: u64,
    pub memory_private_bytes: u64,
    pub memory_swap_bytes: u64,
    pub memory_cgroup_bytes: u64,
    pub process_count: u64,
    pub thread_count: u64,
    pub major_faults_per_second_hundredths: u64,
    /// Occupancy of all DRM engines together, which can exceed 100%.
    pub gpu_percent_tenths: u64,
    /// Occupancy of the busiest DRM engine, at most 100%.
    pub gpu_busy_percent_tenths: u64,
    /// Resident GPU memory, or the allocated memory where nothing is resident.
    pub gpu_memory_bytes: u64,
    pub gpu_memory_resident_bytes: u64,
    pub gpu_memory_allocated_bytes: u64,
}

impl Default for ComputeUsage {
    fn default() -> (usage: Self)
        ensures
            usage == ComputeUsage::none(),
    {
        ComputeUsage {
            cpu_percent_tenths: 0,
            cpu_percent_of_machine_tenths: 0,
            memory_bytes: 0,
            memory_rss_bytes: 0,
            memory_pss_bytes: 0,
            memory_private_bytes: 0,
            memory_swap_bytes: 0,
            memory_cgroup_bytes: 0,
            process_count: 0,
            thread_count: 0,
            major_faults_per_second_hundredths: 0,
            gpu_percent_tenths: 0,
            gpu_busy_percent_tenths: 0,
            gpu_memory_bytes: 0,
            gpu_memory_resident_bytes: 0,
            gpu_memory_allocated_bytes: 0,
        }
    }
}

impl ComputeUsage {
    /// Nothing measured.
    pub open spec fn none() -> Self {
        ComputeUsage {
            cpu_percent_tenths: 0,
            cpu_percent_of_machine_tenths: 0,
            memory_bytes: 0,
            memory_rss_bytes: 0,
            memory_pss_bytes: 0,
            memory_private_bytes: 0,
            memory_swap_bytes: 0,
            memory_cgroup_bytes: 0,
            process_count: 0,
            thread_count: 0,
            major_faults_per_second_hundredths: 0,
            gpu_percent_tenths: 0,
            gpu_busy_percent_tenths: 0,
            gpu_memory_bytes: 0,
            gpu_memory_resident_bytes: 0,
            gpu_memory_allocated_bytes: 0,
        }
    }
}

/// Storage usage.
#[derive(Debug, Clone, Copy, PartialEq, Eq)]
pub struct StorageUsage {
    /// Bytes that reached physical storage during the interval.
    pub disk_read_bytes: u64,
    pub disk_write_bytes: u64,
    pub disk_read_bytes_per_second_tenths: u64,
    pub disk_write_bytes_per_second_tenths: u64,
    /// Input and output of the processes, page cache hits among them.
    pub logical_read_bytes: u64,
    pub logical_write_bytes: u64,
    pub logical_read_bytes_per_second_tenths: u64,
    pub logical_write_bytes_per_second_tenths: u64,
    pub read_operations: u64,
    pub write_operations: u64,
    pub read_operations_per_second_tenths: u64,
    pub write_operations_per_second_tenths: u64,
    pub cancelled_write_bytes: u64,
    /// Allocated size of the regular files held open, each counted once.
    pub open_file_disk_bytes: u64,
    /// Allocated size of the regular files open or mapped, each counted once.
    pub referenced_file_disk_bytes: u64,
    pub referenced_file_temporary_bytes: u64,
    pub referenced_file_permanent_bytes: u64,
    /// Allocated size of the directories that belong to the application.
    pub disk_space_total_bytes: u64,
    pub disk_space_temporary_bytes: u64,
    pub disk_space_permanent_bytes: u64,
}

impl Default for StorageUsage {
    fn default() -> (usage: Self)
        ensures
            usage == StorageUsage::none(),
    {
        StorageUsage {
            disk_read_bytes: 0,
            disk_write_bytes: 0,
            disk_read_bytes_per_second_tenths: 0,
            disk_write_bytes_per_second_tenths: 0,
            logical_read_bytes: 0,
            logical_write_bytes: 0,
            logical_read_bytes_per_second_tenths: 0,
            logical_write_bytes_per_second_tenths: 0,
            read_operations: 0,
            write_operations: 0,
            read_operations_per_second_tenths: 0,
            write_operations_per_second_tenths: 0,
            cancelled_write_bytes: 0,
            open_file_disk_bytes: 0,
            referenced_file_disk_bytes: 0,
            referenced_file_temporary_bytes: 0,
            referenced_file_permanent_bytes: 0,
            disk_space_total_bytes: 0,
            disk_space_temporary_bytes: 0,
            disk_space_permanent_bytes: 0,
        }
    }
}

impl StorageUsage {
    /// Nothing measured.
    pub open spec fn none() -> Self {
        StorageUsage {
            disk_read_bytes: 0,
            disk_write_bytes: 0,
            disk_read_bytes_per_second_tenths: 0,
            disk_write_bytes_per_second_tenths: 0,
            logical_read_bytes: 0,
            logical_write_bytes: 0,
            logical_read_bytes_per_second_tenths: 0,
            logical_write_bytes_per_second_tenths: 0,
            read_operations: 0,
            write_operations: 0,
            read_operations_per_second_tenths: 0,
            write_operations_per_second_tenths: 0,
            cancelled_write_bytes: 0,
            open_file_disk_bytes: 0,
            referenced_file_disk_bytes: 0,
            referenced_file_temporary_bytes: 0,
            referenced_file_permanent_bytes: 0,
            disk_space_total_bytes: 0,
            disk_space_temporary_bytes: 0,
            disk_space_permanent_bytes: 0,
        }
    }
}

/// Network usage.
#[derive(Debug, Clone, Copy, PartialEq, Eq)]
pub struct NetworkUsage {
    pub network_receive_bytes: u64,
    pub network_transmit_bytes: u64,
    pub network_receive_bytes_per_second_tenths: u64,
    pub network_transmit_bytes_per_second_tenths: u64,
    pub network_connection_count: u64,
}

impl Default for NetworkUsage {
    fn default() -> (usage: Self)
        ensures
            usage == NetworkUsage::none(),
    {
        NetworkUsage {
            network_receive_bytes: 0,
            network_transmit_bytes: 0,
            network_receive_bytes_per_second_tenths: 0,
            network_transmit_bytes_per_second_tenths: 0,
            network_connection_count: 0,
        }
    }
}

impl NetworkUsage {
    /// Nothing measured.
    pub open spec fn none() -> Self {
        NetworkUsage {
            network_receive_bytes: 0,
            network_transmit_bytes: 0,
            network_receive_bytes_per_second_tenths: 0,
            network_transmit_bytes_per_second_tenths: 0,
            network_connection_count: 0,
        }
    }
}

/// Estimated energy usage.
#[derive(Debug, Clone, Copy, PartialEq, Eq)]
pub struct EnergyUsage {
    /// Energy attributed to the application, in milliwatt hours.
    pub energy_mwh_e4: u64,
    pub battery_percent_e6: u64,
    /// Estimated power of the application.
    pub power_watts_e3: u64,
    pub estimated_app_power_watts_e3: u64,
    pub system_power_watts_e3: u64,
    pub battery_percent_per_hour_e4: u64,
    pub attributed_fraction_e4: u64,
    pub energy_source: &'static str,
    pub energy_confidence: &'static str,
}

impl Default for EnergyUsage {
    fn default() -> (usage: Self)
        ensures
            usage == EnergyUsage::none(),
    {
        EnergyUsage {
            energy_mwh_e4: 0,
            battery_percent_e6: 0,
            power_watts_e3: 0,
            estimated_app_power_watts_e3: 0,
            system_power_watts_e3: 0,
            battery_percent_per_hour_e4: 0,
            attributed_fraction_e4: 0,
            energy_source: "",
            energy_confidence: "",
        }
    }
}

impl EnergyUsage {
    /// Nothing measured.
    pub open spec fn none() -> Self {
        EnergyUsage {
            energy_mwh_e4: 0,
            battery_percent_e6: 0,
            power_watts_e3: 0,
            estimated_app_power_watts_e3: 0,
            system_power_watts_e3: 0,
            battery_percent_per_hour_e4: 0,
            attributed_fraction_e4: 0,
            energy_source: "",
            energy_confidence: "",
        }
    }
}

/// How a usage was measured.
#[derive(Debug, Clone, Copy, PartialEq, Eq)]
pub struct ResourceMeasurement {
    pub sample_interval_ms: u64,
    pub attribution_method: &'static str,
    /// The coverage is the fraction of the attributed processes that were measured:
    /// this many of them,
    pub coverage_part: u64,
    /// out of this many. Where it is nothing, so is the coverage.
    pub coverage_whole: u64,
    pub memory_source: &'static str,
    pub gpu_available: bool,
    pub storage_available: bool,
    pub disk_space_scope: &'static str,
    pub network_available: bool,
    pub network_bytes_available: bool,
    pub network_connections_available: bool,
    pub resources_shared: bool,
}

impl Default for ResourceMeasurement {
    fn default() -> (usage: Self)
        ensures
            usage == ResourceMeasurement::none(),
    {
        ResourceMeasurement {
            sample_interval_ms: 0,
            attribution_method: "",
            coverage_part: 0,
            coverage_whole: 0,
            memory_source: "",
            gpu_available: false,
            storage_available: false,
            disk_space_scope: "",
            network_available: false,
            network_bytes_available: false,
            network_connections_available: false,
            resources_shared: false,
        }
    }
}

impl ResourceMeasurement {
    /// Nothing measured.
    pub open spec fn none() -> Self {
        ResourceMeasurement {
            sample_interval_ms: 0,
            attribution_method: "",
            coverage_part: 0,
            coverage_whole: 0,
            memory_source: "",
            gpu_available: false,
            storage_available: false,
            disk_space_scope: "",
            network_available: false,
            network_bytes_available: false,
            network_connections_available: false,
            resources_shared: false,
        }
    }
}

/// What an application used during one sampling interval.
#[derive(Debug, Clone, Copy, PartialEq, Eq)]
pub struct ResourceUsage {
    pub compute: ComputeUsage,
    pub storage: StorageUsage,
    pub network: NetworkUsage,
    pub energy: EnergyUsage,
    pub measurement: ResourceMeasurement,
}

impl Default for ResourceUsage {
    fn default() -> (usage: Self)
        ensures
            usage == ResourceUsage::none(),
    {
        ResourceUsage {
            compute: ComputeUsage::default(),
            storage: StorageUsage::default(),
            network: NetworkUsage::default(),
            energy: EnergyUsage::default(),
            measurement: ResourceMeasurement::default(),
        }
    }
}

impl ResourceUsage {
    /// Nothing measured.
    pub open spec fn none() -> Self {
        ResourceUsage {
            compute: ComputeUsage::none(),
            storage: StorageUsage::none(),
            network: NetworkUsage::none(),
            energy: EnergyUsage::none(),
            measurement: ResourceMeasurement::none(),
        }
    }
}

/// The largest values seen in a history bucket.
#[derive(Debug, Clone, Copy, PartialEq, Eq)]
pub struct ResourcePeaks {
    pub cpu_percent_tenths: u64,
    pub cpu_percent_of_machine_tenths: u64,
    pub memory_bytes: u64,
    pub gpu_percent_tenths: u64,
    pub gpu_busy_percent_tenths: u64,
    pub disk_read_bytes_per_second_tenths: u64,
    pub disk_write_bytes_per_second_tenths: u64,
    pub estimated_app_power_watts_e3: u64,
}

impl Default for ResourcePeaks {
    fn default() -> (usage: Self)
        ensures
            usage == ResourcePeaks::none(),
    {
        ResourcePeaks {
            cpu_percent_tenths: 0,
            cpu_percent_of_machine_tenths: 0,
            memory_bytes: 0,
            gpu_percent_tenths: 0,
            gpu_busy_percent_tenths: 0,
            disk_read_bytes_per_second_tenths: 0,
            disk_write_bytes_per_second_tenths: 0,
            estimated_app_power_watts_e3: 0,
        }
    }
}

impl ResourcePeaks {
    /// Nothing measured.
    pub open spec fn none() -> Self {
        ResourcePeaks {
            cpu_percent_tenths: 0,
            cpu_percent_of_machine_tenths: 0,
            memory_bytes: 0,
            gpu_percent_tenths: 0,
            gpu_busy_percent_tenths: 0,
            disk_read_bytes_per_second_tenths: 0,
            disk_write_bytes_per_second_tenths: 0,
            estimated_app_power_watts_e3: 0,
        }
    }
}

/// What an application used in one history bucket, averaged over the samples.
#[derive(Debug)]
pub struct HistoricalResourceUsage {
    pub compute: ComputeUsage,
    pub storage: StorageUsage,
    pub network: NetworkUsage,
    pub energy_mwh_e4: u64,
    pub battery_percent_e6: u64,
    pub average_power_watts_e3: u64,
    pub system_power_watts_e3: u64,
    pub attributed_fraction_e4: u64,
    pub energy_source: String,
    pub energy_confidence: String,
    pub sample_count: u64,
    pub coverage_e4: u64,
    pub peaks: ResourcePeaks,
}

/// A history bucket: `timestamp_ms` is the end of the bucket.
#[derive(Debug)]
pub struct ResourceHistoryPoint {
    pub timestamp_ms: u64,
    pub duration_ms: u64,
    pub resources: HistoricalResourceUsage,
}

impl HistoricalResourceUsage {
    pub fn copied(&self) -> (copy: Self)
        ensures
            copy == *self,
    {
        HistoricalResourceUsage {
            compute: self.compute,
            storage: self.storage,
            network: self.network,
            energy_mwh_e4: self.energy_mwh_e4,
            battery_percent_e6: self.battery_percent_e6,
            average_power_watts_e3: self.average_power_watts_e3,
            system_power_watts_e3: self.system_power_watts_e3,
            attributed_fraction_e4: self.attributed_fraction_e4,
            energy_source: self.energy_source.clone(),
            energy_confidence: self.energy_confidence.clone(),
            sample_count: self.sample_count,
            coverage_e4: self.coverage_e4,
            peaks: self.peaks,
        }
    }
}

impl ResourceHistoryPoint {
    pub fn copied(&self) -> (copy: Self)
        ensures
            copy == *self,
    {
        ResourceHistoryPoint {
            timestamp_ms: self.timestamp_ms,
            duration_ms: self.duration_ms,
            resources: self.resources.copied(),
        }
    }
}

/// An additional action that a desktop entry offers.
#[derive(Debug)]
pub struct DesktopActionSummary {
    pub id: String,
    pub name: String,
    pub icon: String,
}

/// A window of an application.
#[derive(Debug)]
pub struct WindowSummary {
    pub id: String,
    pub title: String,
    pub class: String,
    pub workspace_id: String,
    pub workspace_name: String,
    pub focused: bool,
    pub focus_rank: i64,
    pub resources: ResourceUsage,
}

/// What an application is called.
#[derive(Debug)]
pub struct ApplicationIdentity {
    pub id: String,
    pub kind: String,
    pub name: String,
    pub generic_name: String,
    pub comment: String,
    pub icon: String,
    pub keywords: Vec<String>,
    pub categories: Vec<String>,
    pub startup_class: String,
}

/// What an application is doing.
#[derive(Debug)]
pub struct ApplicationRuntime {
    pub running: bool,
    pub focused: bool,
    pub running_count: usize,
    pub resources: ResourceUsage,
    pub instances: Vec<WindowSummary>,
}

/// An application as a search result.
#[derive(Debug)]
pub struct ApplicationSummary {
    pub identity: ApplicationIdentity,
    pub revision: u64,
    pub runtime: ApplicationRuntime,
    pub desktop_actions: Vec<DesktopActionSummary>,
    /// How well the application matches the query.
    pub match_score: i64,
    /// In which way the application matches the query.
    pub match_kind: String,
    /// How recently a window of the application had the focus.
    pub runtime_score: i64,
    /// The two scores combined, by which results are ordered.
    pub score: i64,
}

/// The beginning of the search results.
#[derive(Debug)]
pub struct ApplicationPage {
    pub revision: u64,
    pub generation: u64,
    pub applications: Vec<ApplicationSummary>,
    pub has_more: bool,
    pub hyprland_available: bool,
}

/// A part of an application's history.
#[derive(Debug)]
pub struct ApplicationResourceHistory {
    pub target_id: String,
    /// Oldest first.
    pub points: Vec<ResourceHistoryPoint>,
    pub has_more: bool,
    /// Where the next part begins.
    pub next_cursor: Option<HistoryCursor>,
}

/// The state of an operation that a client asked for.
#[derive(Debug)]
pub struct OperationResult {
    pub id: String,
    pub action: String,
    pub target_id: String,
    pub status: String,
    pub message: String,
    pub launch_backend: Option<String>,
    pub launch_scope: Option<String>,
}

} // verus!
