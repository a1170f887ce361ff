//! The samples of one history bucket, weighted by their length.

use vstd::prelude::*;
use crate::metrics::{add_counter, counter_sum, rate, rated, wide_product};
use crate::model::{
    ComputeUsage, HistoricalResourceUsage, NetworkUsage, ResourceHistoryPoint, ResourceMeasurement,
    ResourcePeaks, ResourceUsage, StorageUsage,
};
use crate::text::same_text;

verus! {

/// The length of a history bucket.
pub const BUCKET_MILLISECONDS: u64 = 15_000;

/// What a whole coverage counts for in the weighted sum of a bucket. Every fraction
/// with a denominator of at most 42 is a whole number of these parts.
pub const COVERAGE_PARTS: u64 = 5_476_504_743_489_780_000;

/// The measured part of the processes, in `COVERAGE_PARTS`.
pub open spec fn coverage_parts(measurement: ResourceMeasurement) -> u64 {
    rated(
        (measurement.coverage_part * COVERAGE_PARTS) as nat,
        measurement.coverage_whole as nat,
    )
}

/// Adds a value for as long as it held. The sum stops at the largest number.
pub open spec fn weigh(sum: u128, value: u64, duration_ms: u64) -> u128 {
    if sum + value * duration_ms <= u128::MAX {
        (sum + value * duration_ms) as u128
    } else {
        u128::MAX
    }
}

fn add_weighted(sum: &mut u128, value: u64, duration_ms: u64)
    ensures
        *final(sum) == weigh(*old(sum), value, duration_ms),
{
    let product = wide_product(value, duration_ms);
    *sum = if product > u128::MAX - *sum {
        u128::MAX
    } else {
        *sum + product
    };
}

/// The average over a duration.
pub open spec fn averaged(sum: u128, duration_ms: u64) -> u64 {
    rated(sum as nat, duration_ms as nat)
}

fn average(sum: u128, duration_ms: u64) -> (value: u64)
    ensures
        value == averaged(sum, duration_ms),
{
    rate(sum, duration_ms as u128)
}

/// A count per second, in tenths.
pub open spec fn rate_of(total: u64, duration_ms: u64) -> u64 {
    rated((total * 10_000) as nat, duration_ms as nat)
}

fn per_second(total: u64, duration_ms: u64) -> (tenths: u64)
    ensures
        tenths == rate_of(total, duration_ms),
{
    rate(wide_product(total, 10_000), duration_ms as u128)
}

pub open spec fn larger(a: u64, b: u64) -> u64 {
    if a >= b {
        a
    } else {
        b
    }
}

fn raise(peak: &mut u64, value: u64)
    ensures
        *final(peak) == larger(*old(peak), value),
{
    if *peak < value {
        *peak = value;
    }
}


/// Compute usage summed up over the samples.
#[derive(Debug, Clone, Copy, PartialEq, Eq)]
pub struct WeightedCompute {
    pub cpu: u128,
    pub machine_cpu: u128,
    pub memory: u128,
    pub memory_rss: u128,
    pub memory_pss: u128,
    pub memory_private: u128,
    pub memory_swap: u128,
    pub memory_cgroup: u128,
    pub process_count: u128,
    pub thread_count: u128,
    pub major_faults: u128,
    pub gpu: u128,
    pub gpu_busy: u128,
    pub gpu_memory: u128,
    pub gpu_memory_resident: u128,
    pub gpu_memory_allocated: u128,
}

impl WeightedCompute {
    pub open spec fn none() -> Self {
        WeightedCompute {
            cpu: 0,
            machine_cpu: 0,
            memory: 0,
            memory_rss: 0,
            memory_pss: 0,
            memory_private: 0,
            memory_swap: 0,
            memory_cgroup: 0,
            process_count: 0,
            thread_count: 0,
            major_faults: 0,
            gpu: 0,
            gpu_busy: 0,
            gpu_memory: 0,
            gpu_memory_resident: 0,
            gpu_memory_allocated: 0,
        }
    }

    pub fn new() -> (sums: Self)
        ensures
            sums == Self::none(),
    {
        WeightedCompute {
            cpu: 0,
            machine_cpu: 0,
            memory: 0,
            memory_rss: 0,
            memory_pss: 0,
            memory_private: 0,
            memory_swap: 0,
            memory_cgroup: 0,
            process_count: 0,
            thread_count: 0,
            major_faults: 0,
            gpu: 0,
            gpu_busy: 0,
            gpu_memory: 0,
            gpu_memory_resident: 0,
            gpu_memory_allocated: 0,
        }
    }

    pub open spec fn plus(self, duration_ms: u64, usage: ComputeUsage) -> Self {
        WeightedCompute {
            cpu: weigh(self.cpu, usage.cpu_percent_tenths, duration_ms),
            machine_cpu: weigh(self.machine_cpu, usage.cpu_percent_of_machine_tenths, duration_ms),
            memory: weigh(self.memory, usage.memory_bytes, duration_ms),
            memory_rss: weigh(self.memory_rss, usage.memory_rss_bytes, duration_ms),
            memory_pss: weigh(self.memory_pss, usage.memory_pss_bytes, duration_ms),
            memory_private: weigh(self.memory_private, usage.memory_private_bytes, duration_ms),
            memory_swap: weigh(self.memory_swap, usage.memory_swap_bytes, duration_ms),
            memory_cgroup: weigh(self.memory_cgroup, usage.memory_cgroup_bytes, duration_ms),
            process_count: weigh(self.process_count, usage.process_count, duration_ms),
            thread_count: weigh(self.thread_count, usage.thread_count, duration_ms),
            major_faults: weigh(self.major_faults, usage.major_faults_per_second_hundredths, duration_ms),
            gpu: weigh(self.gpu, usage.gpu_percent_tenths, duration_ms),
            gpu_busy: weigh(self.gpu_busy, usage.gpu_busy_percent_tenths, duration_ms),
            gpu_memory: weigh(self.gpu_memory, usage.gpu_memory_bytes, duration_ms),
            gpu_memory_resident: weigh(self.gpu_memory_resident, usage.gpu_memory_resident_bytes, duration_ms),
            gpu_memory_allocated: weigh(self.gpu_memory_allocated, usage.gpu_memory_allocated_bytes, duration_ms),
        }
    }

    pub fn add(&mut self, duration_ms: u64, usage: &ComputeUsage)
        ensures
            *final(self) == old(self).plus(duration_ms, *usage),
    {
        add_weighted(&mut self.cpu, usage.cpu_percent_tenths, duration_ms);
        add_weighted(&mut self.machine_cpu, usage.cpu_percent_of_machine_tenths, duration_ms);
        add_weighted(&mut self.memory, usage.memory_bytes, duration_ms);
        add_weighted(&mut self.memory_rss, usage.memory_rss_bytes, duration_ms);
        add_weighted(&mut self.memory_pss, usage.memory_pss_bytes, duration_ms);
        add_weighted(&mut self.memory_private, usage.memory_private_bytes, duration_ms);
        add_weighted(&mut self.memory_swap, usage.memory_swap_bytes, duration_ms);
        add_weighted(&mut self.memory_cgroup, usage.memory_cgroup_bytes, duration_ms);
        add_weighted(&mut self.process_count, usage.process_count, duration_ms);
        add_weighted(&mut self.thread_count, usage.thread_count, duration_ms);
        add_weighted(&mut self.major_faults, usage.major_faults_per_second_hundredths, duration_ms);
        add_weighted(&mut self.gpu, usage.gpu_percent_tenths, duration_ms);
        add_weighted(&mut self.gpu_busy, usage.gpu_busy_percent_tenths, duration_ms);
        add_weighted(&mut self.gpu_memory, usage.gpu_memory_bytes, duration_ms);
        add_weighted(&mut self.gpu_memory_resident, usage.gpu_memory_resident_bytes, duration_ms);
        add_weighted(&mut self.gpu_memory_allocated, usage.gpu_memory_allocated_bytes, duration_ms);
    }

    pub open spec fn averages(self, duration_ms: u64) -> ComputeUsage {
        ComputeUsage {
            cpu_percent_tenths: averaged(self.cpu, duration_ms),
            cpu_percent_of_machine_tenths: averaged(self.machine_cpu, duration_ms),
            memory_bytes: averaged(self.memory, duration_ms),
            memory_rss_bytes: averaged(self.memory_rss, duration_ms),
            memory_pss_bytes: averaged(self.memory_pss, duration_ms),
            memory_private_bytes: averaged(self.memory_private, duration_ms),
            memory_swap_bytes: averaged(self.memory_swap, duration_ms),
            memory_cgroup_bytes: averaged(self.memory_cgroup, duration_ms),
            process_count: averaged(self.process_count, duration_ms),
            thread_count: averaged(self.thread_count, duration_ms),
            major_faults_per_second_hundredths: averaged(self.major_faults, duration_ms),
            gpu_percent_tenths: averaged(self.gpu, duration_ms),
            gpu_busy_percent_tenths: averaged(self.gpu_busy, duration_ms),
            gpu_memory_bytes: averaged(self.gpu_memory, duration_ms),
            gpu_memory_resident_bytes: averaged(self.gpu_memory_resident, duration_ms),
            gpu_memory_allocated_bytes: averaged(self.gpu_memory_allocated, duration_ms),
        }
    }

    pub fn finish(&self, duration_ms: u64) -> (usage: ComputeUsage)
        ensures
            usage == self.averages(duration_ms),
    {
        ComputeUsage {
            cpu_percent_tenths: average(self.cpu, duration_ms),
            cpu_percent_of_machine_tenths: average(self.machine_cpu, duration_ms),
            memory_bytes: average(self.memory, duration_ms),
            memory_rss_bytes: average(self.memory_rss, duration_ms),
            memory_pss_bytes: average(self.memory_pss, duration_ms),
            memory_private_bytes: average(self.memory_private, duration_ms),
            memory_swap_bytes: average(self.memory_swap, duration_ms),
            memory_cgroup_bytes: average(self.memory_cgroup, duration_ms),
            process_count: average(self.process_count, duration_ms),
            thread_count: average(self.thread_count, duration_ms),
            major_faults_per_second_hundredths: average(self.major_faults, duration_ms),
            gpu_percent_tenths: average(self.gpu, duration_ms),
            gpu_busy_percent_tenths: average(self.gpu_busy, duration_ms),
            gpu_memory_bytes: average(self.gpu_memory, duration_ms),
            gpu_memory_resident_bytes: average(self.gpu_memory_resident, duration_ms),
            gpu_memory_allocated_bytes: average(self.gpu_memory_allocated, duration_ms),
        }
    }
}

/// Storage usage summed up over the samples.
#[derive(Debug, Clone, Copy, PartialEq, Eq)]
pub struct WeightedStorage {
    pub read_bytes: u64,
    pub write_bytes: u64,
    pub logical_read_bytes: u64,
    pub logical_write_bytes: u64,
    pub read_operations: u64,
    pub write_operations: u64,
    pub cancelled_write_bytes: u64,
    pub open_file: u128,
    pub referenced_file_disk: u128,
    pub referenced_file_temporary: u128,
    pub referenced_file_permanent: u128,
    pub disk_space_total: u128,
    pub disk_space_temporary: u128,
    pub disk_space_permanent: u128,
}

impl WeightedStorage {
    pub open spec fn none() -> Self {
        WeightedStorage {
            read_bytes: 0,
            write_bytes: 0,
            logical_read_bytes: 0,
            logical_write_bytes: 0,
            read_operations: 0,
            write_operations: 0,
            cancelled_write_bytes: 0,
            open_file: 0,
            referenced_file_disk: 0,
            referenced_file_temporary: 0,
            referenced_file_permanent: 0,
            disk_space_total: 0,
            disk_space_temporary: 0,
            disk_space_permanent: 0,
        }
    }

    pub fn new() -> (sums: Self)
        ensures
            sums == Self::none(),
    {
        WeightedStorage {
            read_bytes: 0,
            write_bytes: 0,
            logical_read_bytes: 0,
            logical_write_bytes: 0,
            read_operations: 0,
            write_operations: 0,
            cancelled_write_bytes: 0,
            open_file: 0,
            referenced_file_disk: 0,
            referenced_file_temporary: 0,
            referenced_file_permanent: 0,
            disk_space_total: 0,
            disk_space_temporary: 0,
            disk_space_permanent: 0,
        }
    }

    pub open spec fn plus(self, duration_ms: u64, usage: StorageUsage) -> Self {
        WeightedStorage {
            read_bytes: counter_sum(self.read_bytes, usage.disk_read_bytes),
            write_bytes: counter_sum(self.write_bytes, usage.disk_write_bytes),
            logical_read_bytes: counter_sum(self.logical_read_bytes, usage.logical_read_bytes),
            logical_write_bytes: counter_sum(self.logical_write_bytes, usage.logical_write_bytes),
            read_operations: counter_sum(self.read_operations, usage.read_operations),
            write_operations: counter_sum(self.write_operations, usage.write_operations),
            cancelled_write_bytes: counter_sum(self.cancelled_write_bytes, usage.cancelled_write_bytes),
            open_file: weigh(self.open_file, usage.open_file_disk_bytes, duration_ms),
            referenced_file_disk: weigh(self.referenced_file_disk, usage.referenced_file_disk_bytes, duration_ms),
            referenced_file_temporary: weigh(self.referenced_file_temporary, usage.referenced_file_temporary_bytes, duration_ms),
            referenced_file_permanent: weigh(self.referenced_file_permanent, usage.referenced_file_permanent_bytes, duration_ms),
            disk_space_total: weigh(self.disk_space_total, usage.disk_space_total_bytes, duration_ms),
            disk_space_temporary: weigh(self.disk_space_temporary, usage.disk_space_temporary_bytes, duration_ms),
            disk_space_permanent: weigh(self.disk_space_permanent, usage.disk_space_permanent_bytes, duration_ms),
        }
    }

    pub fn add(&mut self, duration_ms: u64, usage: &StorageUsage)
        ensures
            *final(self) == old(self).plus(duration_ms, *usage),
    {
        add_counter(&mut self.read_bytes, usage.disk_read_bytes);
        add_counter(&mut self.write_bytes, usage.disk_write_bytes);
        add_counter(&mut self.logical_read_bytes, usage.logical_read_bytes);
        add_counter(&mut self.logical_write_bytes, usage.logical_write_bytes);
        add_counter(&mut self.read_operations, usage.read_operations);
        add_counter(&mut self.write_operations, usage.write_operations);
        add_counter(&mut self.cancelled_write_bytes, usage.cancelled_write_bytes);
        add_weighted(&mut self.open_file, usage.open_file_disk_bytes, duration_ms);
        add_weighted(&mut self.referenced_file_disk, usage.referenced_file_disk_bytes, duration_ms);
        add_weighted(&mut self.referenced_file_temporary, usage.referenced_file_temporary_bytes, duration_ms);
        add_weighted(&mut self.referenced_file_permanent, usage.referenced_file_permanent_bytes, duration_ms);
        add_weighted(&mut self.disk_space_total, usage.disk_space_total_bytes, duration_ms);
        add_weighted(&mut self.disk_space_temporary, usage.disk_space_temporary_bytes, duration_ms);
        add_weighted(&mut self.disk_space_permanent, usage.disk_space_permanent_bytes, duration_ms);
    }

    /// Amounts are totals, sizes are averages.
    pub open spec fn averages(self, duration_ms: u64) -> StorageUsage {
        StorageUsage {
            disk_read_bytes: self.read_bytes,
            disk_read_bytes_per_second_tenths: rate_of(self.read_bytes, duration_ms),
            disk_write_bytes: self.write_bytes,
            disk_write_bytes_per_second_tenths: rate_of(self.write_bytes, duration_ms),
            logical_read_bytes: self.logical_read_bytes,
            logical_read_bytes_per_second_tenths: rate_of(self.logical_read_bytes, duration_ms),
            logical_write_bytes: self.logical_write_bytes,
            logical_write_bytes_per_second_tenths: rate_of(self.logical_write_bytes, duration_ms),
            read_operations: self.read_operations,
            read_operations_per_second_tenths: rate_of(self.read_operations, duration_ms),
            write_operations: self.write_operations,
            write_operations_per_second_tenths: rate_of(self.write_operations, duration_ms),
            cancelled_write_bytes: self.cancelled_write_bytes,
            open_file_disk_bytes: averaged(self.open_file, duration_ms),
            referenced_file_disk_bytes: averaged(self.referenced_file_disk, duration_ms),
            referenced_file_temporary_bytes: averaged(self.referenced_file_temporary, duration_ms),
            referenced_file_permanent_bytes: averaged(self.referenced_file_permanent, duration_ms),
            disk_space_total_bytes: averaged(self.disk_space_total, duration_ms),
            disk_space_temporary_bytes: averaged(self.disk_space_temporary, duration_ms),
            disk_space_permanent_bytes: averaged(self.disk_space_permanent, duration_ms),
        }
    }

    pub fn finish(&self, duration_ms: u64) -> (usage: StorageUsage)
        ensures
            usage == self.averages(duration_ms),
    {
        StorageUsage {
            disk_read_bytes: self.read_bytes,
            disk_read_bytes_per_second_tenths: per_second(self.read_bytes, duration_ms),
            disk_write_bytes: self.write_bytes,
            disk_write_bytes_per_second_tenths: per_second(self.write_bytes, duration_ms),
            logical_read_bytes: self.logical_read_bytes,
            logical_read_bytes_per_second_tenths: per_second(self.logical_read_bytes, duration_ms),
            logical_write_bytes: self.logical_write_bytes,
            logical_write_bytes_per_second_tenths: per_second(self.logical_write_bytes, duration_ms),
            read_operations: self.read_operations,
            read_operations_per_second_tenths: per_second(self.read_operations, duration_ms),
            write_operations: self.write_operations,
            write_operations_per_second_tenths: per_second(self.write_operations, duration_ms),
            cancelled_write_bytes: self.cancelled_write_bytes,
            open_file_disk_bytes: average(self.open_file, duration_ms),
            referenced_file_disk_bytes: average(self.referenced_file_disk, duration_ms),
            referenced_file_temporary_bytes: average(self.referenced_file_temporary, duration_ms),
            referenced_file_permanent_bytes: average(self.referenced_file_permanent, duration_ms),
            disk_space_total_bytes: average(self.disk_space_total, duration_ms),
            disk_space_temporary_bytes: average(self.disk_space_temporary, duration_ms),
            disk_space_permanent_bytes: average(self.disk_space_permanent, duration_ms),
        }
    }
}

/// Network usage summed up over the samples.
#[derive(Debug, Clone, Copy, PartialEq, Eq)]
pub struct WeightedNetwork {
    pub receive_bytes: u64,
    pub transmit_bytes: u64,
    pub connection_count: u128,
}

impl WeightedNetwork {
    pub open spec fn none() -> Self {
        WeightedNetwork {
            receive_bytes: 0,
            transmit_bytes: 0,
            connection_count: 0,
        }
    }

    pub fn new() -> (sums: Self)
        ensures
            sums == Self::none(),
    {
        WeightedNetwork {
            receive_bytes: 0,
            transmit_bytes: 0,
            connection_count: 0,
        }
    }

    pub open spec fn plus(self, duration_ms: u64, usage: NetworkUsage) -> Self {
        WeightedNetwork {
            receive_bytes: counter_sum(self.receive_bytes, usage.network_receive_bytes),
            transmit_bytes: counter_sum(self.transmit_bytes, usage.network_transmit_bytes),
            connection_count: weigh(
                self.connection_count,
                usage.network_connection_count,
                duration_ms,
            ),
        }
    }

    pub fn add(&mut self, duration_ms: u64, usage: &NetworkUsage)
        ensures
            *final(self) == old(self).plus(duration_ms, *usage),
    {
        add_counter(&mut self.receive_bytes, usage.network_receive_bytes);
        add_counter(&mut self.transmit_bytes, usage.network_transmit_bytes);
        add_weighted(&mut self.connection_count, usage.network_connection_count, duration_ms);
    }

    pub open spec fn averages(self, duration_ms: u64) -> NetworkUsage {
        NetworkUsage {
            network_receive_bytes: self.receive_bytes,
            network_transmit_bytes: self.transmit_bytes,
            network_receive_bytes_per_second_tenths: rate_of(self.receive_bytes, duration_ms),
            network_transmit_bytes_per_second_tenths: rate_of(self.transmit_bytes, duration_ms),
            network_connection_count: averaged(self.connection_count, duration_ms),
        }
    }

    pub fn finish(&self, duration_ms: u64) -> (usage: NetworkUsage)
        ensures
            usage == self.averages(duration_ms),
    {
        NetworkUsage {
            network_receive_bytes: self.receive_bytes,
            network_transmit_bytes: self.transmit_bytes,
            network_receive_bytes_per_second_tenths: per_second(self.receive_bytes, duration_ms),
            network_transmit_bytes_per_second_tenths: per_second(self.transmit_bytes, duration_ms),
            network_connection_count: average(self.connection_count, duration_ms),
        }
    }
}

/// All quantities of a bucket summed up over its samples.
#[derive(Debug, Clone, Copy, PartialEq, Eq)]
pub struct Weights {
    pub duration_ms: u64,
    pub compute: WeightedCompute,
    pub storage: WeightedStorage,
    pub network: WeightedNetwork,
    pub energy_mwh_e4: u64,
    pub battery_percent_e6: u64,
    pub system_power: u128,
    pub attributed_fraction: u128,
    pub coverage: u128,
    pub sample_count: u64,
    pub peaks: ResourcePeaks,
}

impl Weights {
    pub open spec fn none() -> Self {
        Weights {
            duration_ms: 0,
            compute: WeightedCompute::none(),
            storage: WeightedStorage::none(),
            network: WeightedNetwork::none(),
            energy_mwh_e4: 0,
            battery_percent_e6: 0,
            system_power: 0,
            attributed_fraction: 0,
            coverage: 0,
            sample_count: 0,
            peaks: ResourcePeaks::none(),
        }
    }

    pub fn new() -> (sums: Self)
        ensures
            sums == Self::none(),
    {
        Weights {
            duration_ms: 0,
            compute: WeightedCompute::new(),
            storage: WeightedStorage::new(),
            network: WeightedNetwork::new(),
            energy_mwh_e4: 0,
            battery_percent_e6: 0,
            system_power: 0,
            attributed_fraction: 0,
            coverage: 0,
            sample_count: 0,
            peaks: ResourcePeaks::default(),
        }
    }

    pub open spec fn plus(self, duration_ms: u64, usage: ResourceUsage) -> Self {
        Weights {
            duration_ms: counter_sum(self.duration_ms, duration_ms),
            compute: self.compute.plus(duration_ms, usage.compute),
            storage: self.storage.plus(duration_ms, usage.storage),
            network: self.network.plus(duration_ms, usage.network),
            energy_mwh_e4: counter_sum(self.energy_mwh_e4, usage.energy.energy_mwh_e4),
            battery_percent_e6: counter_sum(
                self.battery_percent_e6,
                usage.energy.battery_percent_e6,
            ),
            system_power: weigh(
                self.system_power,
                usage.energy.system_power_watts_e3,
                duration_ms,
            ),
            attributed_fraction: weigh(
                self.attributed_fraction,
                usage.energy.attributed_fraction_e4,
                duration_ms,
            ),
            coverage: weigh(self.coverage, coverage_parts(usage.measurement), duration_ms),
            sample_count: counter_sum(self.sample_count, 1),
            peaks: ResourcePeaks {
                cpu_percent_tenths: larger(self.peaks.cpu_percent_tenths, usage.compute.cpu_percent_tenths),
                cpu_percent_of_machine_tenths: larger(self.peaks.cpu_percent_of_machine_tenths, usage.compute.cpu_percent_of_machine_tenths),
                memory_bytes: larger(self.peaks.memory_bytes, usage.compute.memory_bytes),
                gpu_percent_tenths: larger(self.peaks.gpu_percent_tenths, usage.compute.gpu_percent_tenths),
                gpu_busy_percent_tenths: larger(self.peaks.gpu_busy_percent_tenths, usage.compute.gpu_busy_percent_tenths),
                disk_read_bytes_per_second_tenths: larger(self.peaks.disk_read_bytes_per_second_tenths, usage.storage.disk_read_bytes_per_second_tenths),
                disk_write_bytes_per_second_tenths: larger(self.peaks.disk_write_bytes_per_second_tenths, usage.storage.disk_write_bytes_per_second_tenths),
                estimated_app_power_watts_e3: larger(self.peaks.estimated_app_power_watts_e3, usage.energy.estimated_app_power_watts_e3),
            },
        }
    }

    pub fn add(&mut self, duration_ms: u64, usage: &ResourceUsage)
        ensures
            *final(self) == old(self).plus(duration_ms, *usage),
    {
        add_counter(&mut self.duration_ms, duration_ms);
        self.compute.add(duration_ms, &usage.compute);
        self.storage.add(duration_ms, &usage.storage);
        self.network.add(duration_ms, &usage.network);
        add_counter(&mut self.energy_mwh_e4, usage.energy.energy_mwh_e4);
        add_counter(&mut self.battery_percent_e6, usage.energy.battery_percent_e6);
        add_weighted(&mut self.system_power, usage.energy.system_power_watts_e3, duration_ms);
        add_weighted(
            &mut self.attributed_fraction,
            usage.energy.attributed_fraction_e4,
            duration_ms,
        );
        let coverage: u64 = rate(
            wide_product(usage.measurement.coverage_part, COVERAGE_PARTS),
            usage.measurement.coverage_whole as u128,
        );
        add_weighted(&mut self.coverage, coverage, duration_ms);
        add_counter(&mut self.sample_count, 1);
        raise(&mut self.peaks.cpu_percent_tenths, usage.compute.cpu_percent_tenths);
        raise(&mut self.peaks.cpu_percent_of_machine_tenths, usage.compute.cpu_percent_of_machine_tenths);
        raise(&mut self.peaks.memory_bytes, usage.compute.memory_bytes);
        raise(&mut self.peaks.gpu_percent_tenths, usage.compute.gpu_percent_tenths);
        raise(&mut self.peaks.gpu_busy_percent_tenths, usage.compute.gpu_busy_percent_tenths);
        raise(&mut self.peaks.disk_read_bytes_per_second_tenths, usage.storage.disk_read_bytes_per_second_tenths);
        raise(&mut self.peaks.disk_write_bytes_per_second_tenths, usage.storage.disk_write_bytes_per_second_tenths);
        raise(&mut self.peaks.estimated_app_power_watts_e3, usage.energy.estimated_app_power_watts_e3);
    }
}

/// The label of several samples: that of all which have one, or `mixed`.
pub open spec fn merged_source(current: Seq<char>, next: Seq<char>) -> Seq<char> {
    if next == ""@ || next == "unavailable"@ {
        current
    } else if current == ""@ {
        next
    } else if current != next {
        "mixed"@
    } else {
        current
    }
}

/// A label, or `unavailable` where there is none.
pub open spec fn available(label: Seq<char>) -> Seq<char> {
    if label == ""@ {
        "unavailable"@
    } else {
        label
    }
}

fn merge_source(current: &mut String, next: &str)
    ensures
        final(current)@ == merged_source(old(current)@, next@),
{
    if same_text(next, "") || same_text(next, "unavailable") {
        return ;
    }
    if same_text(current.as_str(), "") {
        *current = next.to_owned();
    } else if !same_text(current.as_str(), next) {
        *current = "mixed".to_owned();
    }
}

pub fn available_label(label: String) -> (shown: String)
    ensures
        shown@ == available(label@),
{
    if same_text(label.as_str(), "") {
        "unavailable".to_owned()
    } else {
        label
    }
}

/// A bucket that samples are still added to. `timestamp_ms` is its start.
#[derive(Debug)]
pub struct PendingPoint {
    pub timestamp_ms: u64,
    pub weights: Weights,
    pub energy_source: String,
    pub energy_confidence: String,
}

/// What a [`PendingPoint`] stands for.
#[verifier::ext_equal]
pub struct Pending {
    pub timestamp_ms: u64,
    pub weights: Weights,
    pub energy_source: Seq<char>,
    pub energy_confidence: Seq<char>,
}

impl View for PendingPoint {
    type V = Pending;

    open spec fn view(&self) -> Pending {
        Pending {
            timestamp_ms: self.timestamp_ms,
            weights: self.weights,
            energy_source: self.energy_source@,
            energy_confidence: self.energy_confidence@,
        }
    }
}

/// What a [`ResourceHistoryPoint`] stands for.
#[verifier::ext_equal]
pub struct HistoryPoint {
    pub timestamp_ms: u64,
    pub duration_ms: u64,
    pub compute: ComputeUsage,
    pub storage: StorageUsage,
    pub network: NetworkUsage,
    pub energy_mwh_e4: u64,
    pub battery_percent_e6: u64,
    pub average_power_watts_e3: u64,
    pub system_power_watts_e3: u64,
    pub attributed_fraction_e4: u64,
    pub energy_source: Seq<char>,
    pub energy_confidence: Seq<char>,
    pub sample_count: u64,
    pub coverage_e4: u64,
    pub peaks: ResourcePeaks,
}

impl View for ResourceHistoryPoint {
    type V = HistoryPoint;

    open spec fn view(&self) -> HistoryPoint {
        HistoryPoint {
            timestamp_ms: self.timestamp_ms,
            duration_ms: self.duration_ms,
            compute: self.resources.compute,
            storage: self.resources.storage,
            network: self.resources.network,
            energy_mwh_e4: self.resources.energy_mwh_e4,
            battery_percent_e6: self.resources.battery_percent_e6,
            average_power_watts_e3: self.resources.average_power_watts_e3,
            system_power_watts_e3: self.resources.system_power_watts_e3,
            attributed_fraction_e4: self.resources.attributed_fraction_e4,
            energy_source: self.resources.energy_source@,
            energy_confidence: self.resources.energy_confidence@,
            sample_count: self.resources.sample_count,
            coverage_e4: self.resources.coverage_e4,
            peaks: self.resources.peaks,
        }
    }
}

impl Pending {
    /// An empty bucket.
    pub open spec fn empty(timestamp_ms: u64) -> Self {
        Pending {
            timestamp_ms,
            weights: Weights::none(),
            energy_source: ""@,
            energy_confidence: ""@,
        }
    }

    pub open spec fn plus(self, duration_ms: u64, usage: ResourceUsage) -> Self {
        Pending {
            timestamp_ms: self.timestamp_ms,
            weights: self.weights.plus(duration_ms, usage),
            energy_source: merged_source(self.energy_source, usage.energy.energy_source@),
            energy_confidence: merged_source(
                self.energy_confidence,
                usage.energy.energy_confidence@,
            ),
        }
    }

    /// The finished bucket, dated by its end.
    pub open spec fn finished(self) -> HistoryPoint {
        let weights = self.weights;
        let duration = weights.duration_ms;
        HistoryPoint {
            timestamp_ms: counter_sum(self.timestamp_ms, BUCKET_MILLISECONDS),
            duration_ms: duration,
            compute: weights.compute.averages(duration),
            storage: weights.storage.averages(duration),
            network: weights.network.averages(duration),
            energy_mwh_e4: weights.energy_mwh_e4,
            battery_percent_e6: weights.battery_percent_e6,
            average_power_watts_e3: rated(
                (weights.energy_mwh_e4 * 360) as nat,
                duration as nat,
            ),
            system_power_watts_e3: averaged(weights.system_power, duration),
            attributed_fraction_e4: averaged(weights.attributed_fraction, duration),
            energy_source: available(self.energy_source),
            energy_confidence: available(self.energy_confidence),
            sample_count: weights.sample_count,
            coverage_e4: rated(
                weights.coverage as nat,
                (duration * (COVERAGE_PARTS / 10_000)) as nat,
            ),
            peaks: weights.peaks,
        }
    }
}

impl PendingPoint {
    pub fn new(timestamp_ms: u64) -> (pending: Self)
        ensures
            pending@ == Pending::empty(timestamp_ms),
    {
        PendingPoint {
            timestamp_ms,
            weights: Weights::new(),
            energy_source: "".to_owned(),
            energy_confidence: "".to_owned(),
        }
    }

    pub fn add(&mut self, duration_ms: u64, usage: &ResourceUsage)
        ensures
            final(self)@ == old(self)@.plus(duration_ms, *usage),
    {
        self.weights.add(duration_ms, usage);
        merge_source(&mut self.energy_source, usage.energy.energy_source);
        merge_source(&mut self.energy_confidence, usage.energy.energy_confidence);
    }

    /// The finished bucket, unless it holds no samples.
    pub fn finish(self) -> (point: Option<ResourceHistoryPoint>)
        ensures
            match point {
                Some(p) => self@.weights.duration_ms > 0 && p@ == self@.finished(),
                None => self@.weights.duration_ms == 0,
            },
    {
        let weights = self.weights;
        let duration = weights.duration_ms;
        if duration == 0 {
            return None;
        }
        let mut timestamp_ms = self.timestamp_ms;
        add_counter(&mut timestamp_ms, BUCKET_MILLISECONDS);
        Some(
            ResourceHistoryPoint {
                timestamp_ms,
                duration_ms: duration,
                resources: HistoricalResourceUsage {
                    compute: weights.compute.finish(duration),
                    storage: weights.storage.finish(duration),
                    network: weights.network.finish(duration),
                    energy_mwh_e4: weights.energy_mwh_e4,
                    battery_percent_e6: weights.battery_percent_e6,
                    average_power_watts_e3: rate(
                        wide_product(weights.energy_mwh_e4, 360),
                        duration as u128,
                    ),
                    system_power_watts_e3: average(weights.system_power, duration),
                    attributed_fraction_e4: average(weights.attributed_fraction, duration),
                    energy_source: available_label(self.energy_source),
                    energy_confidence: available_label(self.energy_confidence),
                    sample_count: weights.sample_count,
                    coverage_e4: rate(
                        weights.coverage,
                        wide_product(duration, COVERAGE_PARTS / 10_000),
                    ),
                    peaks: weights.peaks,
                },
            },
        )
    }
}

} // verus!
