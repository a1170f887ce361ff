//! What a history point has to do with the samples that were recorded in its bucket.

use vstd::prelude::*;
use crate::aggregate::{
    averaged, weigh, HistoryPoint, Pending, PendingPoint, Weights, BUCKET_MILLISECONDS,
    COVERAGE_PARTS,
};
use crate::history::usage_recorded;
use crate::metrics::{capped, counter_sum, rated};
use crate::metrics_laws::{is_nearest, lemma_capped_sum, lemma_rated};
use crate::model::ResourceUsage;
use crate::series::{bucket_start, flushed, is_expired, list_of, SeriesView};
use crate::series_laws::{chronological, lemma_bucket_is_present};

verus! {

/// A sample and how long it lasted, in milliseconds.
pub type Sample = (u64, ResourceUsage);

/// The bucket that holds these samples.
pub open spec fn filled(start: u64, samples: Seq<Sample>) -> Pending
    decreases samples.len(),
{
    if samples.len() == 0 {
        Pending::empty(start)
    } else {
        let (duration, usage) = samples.last();
        filled(start, samples.drop_last()).plus(duration, usage)
    }
}

/// The time that the samples lasted together.
pub open spec fn lasted(samples: Seq<Sample>) -> nat
    decreases samples.len(),
{
    if samples.len() == 0 {
        0
    } else {
        lasted(samples.drop_last()) + samples.last().0 as nat
    }
}

/// What a point gives the average of.
pub enum Averaged {
    Cpu,
    MachineCpu,
    Memory,
    MemoryResident,
    MemoryProportional,
    MemoryPrivate,
    MemorySwapped,
    MemoryGrouped,
    Processes,
    Threads,
    MajorFaults,
    Gpu,
    GpuBusy,
    GpuMemory,
    GpuMemoryResident,
    GpuMemoryAllocated,
    OpenFiles,
    ReferencedFiles,
    TemporaryFiles,
    PermanentFiles,
    DiskSpace,
    TemporarySpace,
    PermanentSpace,
    Connections,
    SystemPower,
    AttributedFraction,
}

/// What a sample says.
pub open spec fn sampled(quantity: Averaged, u: ResourceUsage) -> u64 {
    match quantity {
        Averaged::Cpu => u.compute.cpu_percent_tenths,
        Averaged::MachineCpu => u.compute.cpu_percent_of_machine_tenths,
        Averaged::Memory => u.compute.memory_bytes,
        Averaged::MemoryResident => u.compute.memory_rss_bytes,
        Averaged::MemoryProportional => u.compute.memory_pss_bytes,
        Averaged::MemoryPrivate => u.compute.memory_private_bytes,
        Averaged::MemorySwapped => u.compute.memory_swap_bytes,
        Averaged::MemoryGrouped => u.compute.memory_cgroup_bytes,
        Averaged::Processes => u.compute.process_count,
        Averaged::Threads => u.compute.thread_count,
        Averaged::MajorFaults => u.compute.major_faults_per_second_hundredths,
        Averaged::Gpu => u.compute.gpu_percent_tenths,
        Averaged::GpuBusy => u.compute.gpu_busy_percent_tenths,
        Averaged::GpuMemory => u.compute.gpu_memory_bytes,
        Averaged::GpuMemoryResident => u.compute.gpu_memory_resident_bytes,
        Averaged::GpuMemoryAllocated => u.compute.gpu_memory_allocated_bytes,
        Averaged::OpenFiles => u.storage.open_file_disk_bytes,
        Averaged::ReferencedFiles => u.storage.referenced_file_disk_bytes,
        Averaged::TemporaryFiles => u.storage.referenced_file_temporary_bytes,
        Averaged::PermanentFiles => u.storage.referenced_file_permanent_bytes,
        Averaged::DiskSpace => u.storage.disk_space_total_bytes,
        Averaged::TemporarySpace => u.storage.disk_space_temporary_bytes,
        Averaged::PermanentSpace => u.storage.disk_space_permanent_bytes,
        Averaged::Connections => u.network.network_connection_count,
        Averaged::SystemPower => u.energy.system_power_watts_e3,
        Averaged::AttributedFraction => u.energy.attributed_fraction_e4,
    }
}

/// What a point says.
pub open spec fn shown(quantity: Averaged, p: HistoryPoint) -> u64 {
    match quantity {
        Averaged::Cpu => p.compute.cpu_percent_tenths,
        Averaged::MachineCpu => p.compute.cpu_percent_of_machine_tenths,
        Averaged::Memory => p.compute.memory_bytes,
        Averaged::MemoryResident => p.compute.memory_rss_bytes,
        Averaged::MemoryProportional => p.compute.memory_pss_bytes,
        Averaged::MemoryPrivate => p.compute.memory_private_bytes,
        Averaged::MemorySwapped => p.compute.memory_swap_bytes,
        Averaged::MemoryGrouped => p.compute.memory_cgroup_bytes,
        Averaged::Processes => p.compute.process_count,
        Averaged::Threads => p.compute.thread_count,
        Averaged::MajorFaults => p.compute.major_faults_per_second_hundredths,
        Averaged::Gpu => p.compute.gpu_percent_tenths,
        Averaged::GpuBusy => p.compute.gpu_busy_percent_tenths,
        Averaged::GpuMemory => p.compute.gpu_memory_bytes,
        Averaged::GpuMemoryResident => p.compute.gpu_memory_resident_bytes,
        Averaged::GpuMemoryAllocated => p.compute.gpu_memory_allocated_bytes,
        Averaged::OpenFiles => p.storage.open_file_disk_bytes,
        Averaged::ReferencedFiles => p.storage.referenced_file_disk_bytes,
        Averaged::TemporaryFiles => p.storage.referenced_file_temporary_bytes,
        Averaged::PermanentFiles => p.storage.referenced_file_permanent_bytes,
        Averaged::DiskSpace => p.storage.disk_space_total_bytes,
        Averaged::TemporarySpace => p.storage.disk_space_temporary_bytes,
        Averaged::PermanentSpace => p.storage.disk_space_permanent_bytes,
        Averaged::Connections => p.network.network_connection_count,
        Averaged::SystemPower => p.system_power_watts_e3,
        Averaged::AttributedFraction => p.attributed_fraction_e4,
    }
}

spec fn weight(quantity: Averaged, w: Weights) -> u128 {
    match quantity {
        Averaged::Cpu => w.compute.cpu,
        Averaged::MachineCpu => w.compute.machine_cpu,
        Averaged::Memory => w.compute.memory,
        Averaged::MemoryResident => w.compute.memory_rss,
        Averaged::MemoryProportional => w.compute.memory_pss,
        Averaged::MemoryPrivate => w.compute.memory_private,
        Averaged::MemorySwapped => w.compute.memory_swap,
        Averaged::MemoryGrouped => w.compute.memory_cgroup,
        Averaged::Processes => w.compute.process_count,
        Averaged::Threads => w.compute.thread_count,
        Averaged::MajorFaults => w.compute.major_faults,
        Averaged::Gpu => w.compute.gpu,
        Averaged::GpuBusy => w.compute.gpu_busy,
        Averaged::GpuMemory => w.compute.gpu_memory,
        Averaged::GpuMemoryResident => w.compute.gpu_memory_resident,
        Averaged::GpuMemoryAllocated => w.compute.gpu_memory_allocated,
        Averaged::OpenFiles => w.storage.open_file,
        Averaged::ReferencedFiles => w.storage.referenced_file_disk,
        Averaged::TemporaryFiles => w.storage.referenced_file_temporary,
        Averaged::PermanentFiles => w.storage.referenced_file_permanent,
        Averaged::DiskSpace => w.storage.disk_space_total,
        Averaged::TemporarySpace => w.storage.disk_space_temporary,
        Averaged::PermanentSpace => w.storage.disk_space_permanent,
        Averaged::Connections => w.network.connection_count,
        Averaged::SystemPower => w.system_power,
        Averaged::AttributedFraction => w.attributed_fraction,
    }
}

/// Each value times as long as it lasted, added up.
pub open spec fn weighted(samples: Seq<Sample>, quantity: Averaged) -> nat
    decreases samples.len(),
{
    if samples.len() == 0 {
        0
    } else {
        weighted(samples.drop_last(), quantity) + sampled(quantity, samples.last().1) as nat
            * samples.last().0 as nat
    }
}

proof fn lemma_weighted_bound(samples: Seq<Sample>, quantity: Averaged, low: nat, high: nat)
    requires
        forall|i: int|
            0 <= i < samples.len() ==> low <= sampled(quantity, (#[trigger] samples[i]).1) <= high,
    ensures
        low * lasted(samples) <= weighted(samples, quantity) <= high * lasted(samples),
    decreases samples.len(),
{
    if samples.len() > 0 {
        let front = samples.drop_last();
        assert forall|i: int| 0 <= i < front.len() implies low <= sampled(
            quantity,
            (#[trigger] front[i]).1,
        ) <= high by {
            assert(front[i] == samples[i]);
        }
        lemma_weighted_bound(front, quantity, low, high);
        let d = samples.last().0 as nat;
        let v = sampled(quantity, samples.last().1) as nat;
        let t = lasted(front);
        assert(samples.last() == samples[samples.len() - 1]);
        assert(low * (t + d) == low * t + low * d && high * (t + d) == high * t + high * d && low * d
            <= v * d <= high * d) by (nonlinear_arith)
            requires
                low <= v <= high,
        ;
    } else {
        assert(low * 0 == 0 && high * 0 == 0) by (nonlinear_arith);
    }
}

proof fn lemma_weights(start: u64, samples: Seq<Sample>, quantity: Averaged)
    requires
        lasted(samples) <= u64::MAX,
    ensures
        weight(quantity, filled(start, samples).weights) == weighted(samples, quantity),
        filled(start, samples).weights.duration_ms == lasted(samples),
        weighted(samples, quantity) <= u128::MAX,
    decreases samples.len(),
{
    lemma_weighted_bound(samples, quantity, 0, u64::MAX as nat);
    assert(u64::MAX * lasted(samples) <= u128::MAX) by (nonlinear_arith)
        requires
            lasted(samples) <= u64::MAX,
    ;
    if samples.len() > 0 {
        let front = samples.drop_last();
        lemma_weights(start, front, quantity);
        let before = filled(start, front).weights;
        let (d, u) = samples.last();
        let v = sampled(quantity, u);
        assert(v as nat * d as nat == v * d) by (nonlinear_arith);
        assert(weight(quantity, before.plus(d, u)) == weigh(weight(quantity, before), v, d));
    }
}

/// A point gives the average of what its samples say, each weighted by how long it
/// lasted.
pub proof fn lemma_average(start: u64, samples: Seq<Sample>, quantity: Averaged)
    requires
        0 < lasted(samples) <= u64::MAX,
    ensures
        is_nearest(
            shown(quantity, filled(start, samples).finished()) as int,
            weighted(samples, quantity) as int,
            lasted(samples) as int,
        ) || shown(quantity, filled(start, samples).finished()) == u64::MAX,
{
    lemma_weights(start, samples, quantity);
    lemma_rated(weighted(samples, quantity), lasted(samples));
    assert(shown(quantity, filled(start, samples).finished()) == averaged(
        weight(quantity, filled(start, samples).weights),
        lasted(samples) as u64,
    ));
}

/// An average lies between the least and the greatest value of the same quantity
/// among the samples.
pub proof fn lemma_average_between(
    start: u64,
    samples: Seq<Sample>,
    quantity: Averaged,
    low: u64,
    high: u64,
)
    requires
        0 < lasted(samples) <= u64::MAX,
        forall|i: int|
            0 <= i < samples.len() ==> low <= sampled(quantity, (#[trigger] samples[i]).1) <= high,
    ensures
        low <= shown(quantity, filled(start, samples).finished()) <= high,
{
    let n = weighted(samples, quantity);
    let d = lasted(samples);
    lemma_weights(start, samples, quantity);
    lemma_weighted_bound(samples, quantity, low as nat, high as nat);
    assert(shown(quantity, filled(start, samples).finished()) == rated(n, d));
    assert(low <= (2 * n + d) / (2 * d) <= high) by (nonlinear_arith)
        requires
            d > 0,
            low * d <= n <= high * d,
    ;
}

/// Where all samples say the same, so does the point.
pub proof fn lemma_constant_average(start: u64, samples: Seq<Sample>, usage: ResourceUsage)
    requires
        0 < lasted(samples) <= u64::MAX,
        forall|i: int| 0 <= i < samples.len() ==> (#[trigger] samples[i]).1 == usage,
    ensures
        filled(start, samples).finished().compute == usage.compute,
        forall|quantity: Averaged| #[trigger]
            shown(quantity, filled(start, samples).finished()) == sampled(quantity, usage),
{
    let point = filled(start, samples).finished();
    assert forall|quantity: Averaged| #[trigger] shown(quantity, point) == sampled(
        quantity,
        usage,
    ) by {
        let value = sampled(quantity, usage);
        lemma_average_between(start, samples, quantity, value, value);
    }
    assert(shown(Averaged::Cpu, point) == sampled(Averaged::Cpu, usage));
    assert(shown(Averaged::MachineCpu, point) == sampled(Averaged::MachineCpu, usage));
    assert(shown(Averaged::Memory, point) == sampled(Averaged::Memory, usage));
    assert(shown(Averaged::MemoryResident, point) == sampled(Averaged::MemoryResident, usage));
    assert(shown(Averaged::MemoryProportional, point) == sampled(Averaged::MemoryProportional, usage));
    assert(shown(Averaged::MemoryPrivate, point) == sampled(Averaged::MemoryPrivate, usage));
    assert(shown(Averaged::MemorySwapped, point) == sampled(Averaged::MemorySwapped, usage));
    assert(shown(Averaged::MemoryGrouped, point) == sampled(Averaged::MemoryGrouped, usage));
    assert(shown(Averaged::Processes, point) == sampled(Averaged::Processes, usage));
    assert(shown(Averaged::Threads, point) == sampled(Averaged::Threads, usage));
    assert(shown(Averaged::MajorFaults, point) == sampled(Averaged::MajorFaults, usage));
    assert(shown(Averaged::Gpu, point) == sampled(Averaged::Gpu, usage));
    assert(shown(Averaged::GpuBusy, point) == sampled(Averaged::GpuBusy, usage));
    assert(shown(Averaged::GpuMemory, point) == sampled(Averaged::GpuMemory, usage));
    assert(shown(Averaged::GpuMemoryResident, point) == sampled(Averaged::GpuMemoryResident, usage));
    assert(shown(Averaged::GpuMemoryAllocated, point) == sampled(Averaged::GpuMemoryAllocated, usage));
}

/// What a point gives the total of.
pub enum Totalled {
    DiskRead,
    DiskWritten,
    LogicalRead,
    LogicalWritten,
    ReadOperations,
    WriteOperations,
    CancelledWrites,
    Received,
    Transmitted,
    Energy,
    Battery,
}

/// What a sample counts.
pub open spec fn counted(quantity: Totalled, u: ResourceUsage) -> u64 {
    match quantity {
        Totalled::DiskRead => u.storage.disk_read_bytes,
        Totalled::DiskWritten => u.storage.disk_write_bytes,
        Totalled::LogicalRead => u.storage.logical_read_bytes,
        Totalled::LogicalWritten => u.storage.logical_write_bytes,
        Totalled::ReadOperations => u.storage.read_operations,
        Totalled::WriteOperations => u.storage.write_operations,
        Totalled::CancelledWrites => u.storage.cancelled_write_bytes,
        Totalled::Received => u.network.network_receive_bytes,
        Totalled::Transmitted => u.network.network_transmit_bytes,
        Totalled::Energy => u.energy.energy_mwh_e4,
        Totalled::Battery => u.energy.battery_percent_e6,
    }
}

/// What a point gives as the total.
pub open spec fn total_shown(quantity: Totalled, p: HistoryPoint) -> u64 {
    match quantity {
        Totalled::DiskRead => p.storage.disk_read_bytes,
        Totalled::DiskWritten => p.storage.disk_write_bytes,
        Totalled::LogicalRead => p.storage.logical_read_bytes,
        Totalled::LogicalWritten => p.storage.logical_write_bytes,
        Totalled::ReadOperations => p.storage.read_operations,
        Totalled::WriteOperations => p.storage.write_operations,
        Totalled::CancelledWrites => p.storage.cancelled_write_bytes,
        Totalled::Received => p.network.network_receive_bytes,
        Totalled::Transmitted => p.network.network_transmit_bytes,
        Totalled::Energy => p.energy_mwh_e4,
        Totalled::Battery => p.battery_percent_e6,
    }
}

/// What a point gives as the rate per second, in tenths, where it gives one.
pub open spec fn rate_shown(quantity: Totalled, p: HistoryPoint) -> Option<u64> {
    match quantity {
        Totalled::DiskRead => Some(p.storage.disk_read_bytes_per_second_tenths),
        Totalled::DiskWritten => Some(p.storage.disk_write_bytes_per_second_tenths),
        Totalled::LogicalRead => Some(p.storage.logical_read_bytes_per_second_tenths),
        Totalled::LogicalWritten => Some(p.storage.logical_write_bytes_per_second_tenths),
        Totalled::ReadOperations => Some(p.storage.read_operations_per_second_tenths),
        Totalled::WriteOperations => Some(p.storage.write_operations_per_second_tenths),
        Totalled::CancelledWrites => None,
        Totalled::Received => Some(p.network.network_receive_bytes_per_second_tenths),
        Totalled::Transmitted => Some(p.network.network_transmit_bytes_per_second_tenths),
        Totalled::Energy => None,
        Totalled::Battery => None,
    }
}

spec fn counter(quantity: Totalled, w: Weights) -> u64 {
    match quantity {
        Totalled::DiskRead => w.storage.read_bytes,
        Totalled::DiskWritten => w.storage.write_bytes,
        Totalled::LogicalRead => w.storage.logical_read_bytes,
        Totalled::LogicalWritten => w.storage.logical_write_bytes,
        Totalled::ReadOperations => w.storage.read_operations,
        Totalled::WriteOperations => w.storage.write_operations,
        Totalled::CancelledWrites => w.storage.cancelled_write_bytes,
        Totalled::Received => w.network.receive_bytes,
        Totalled::Transmitted => w.network.transmit_bytes,
        Totalled::Energy => w.energy_mwh_e4,
        Totalled::Battery => w.battery_percent_e6,
    }
}

pub open spec fn added_up(samples: Seq<Sample>, quantity: Totalled) -> nat
    decreases samples.len(),
{
    if samples.len() == 0 {
        0
    } else {
        added_up(samples.drop_last(), quantity) + counted(quantity, samples.last().1) as nat
    }
}

proof fn lemma_counter(start: u64, samples: Seq<Sample>, quantity: Totalled)
    ensures
        counter(quantity, filled(start, samples).weights) == capped(added_up(samples, quantity)),
    decreases samples.len(),
{
    if samples.len() > 0 {
        let front = samples.drop_last();
        lemma_counter(start, front, quantity);
        lemma_capped_sum(added_up(front, quantity), counted(quantity, samples.last().1) as nat);
    }
}

/// Amounts add up over the samples: nothing that was read, written, sent or used is
/// lost, and a rate is the amount over the time that the samples lasted.
pub proof fn lemma_totals(start: u64, samples: Seq<Sample>, quantity: Totalled)
    requires
        0 < lasted(samples) <= u64::MAX,
    ensures
        ({
            let point = filled(start, samples).finished();
            let total = total_shown(quantity, point);
            &&& total == capped(added_up(samples, quantity))
            &&& match rate_shown(quantity, point) {
                Some(rate) => rate == u64::MAX || is_nearest(
                    rate as int,
                    total * 10_000,
                    lasted(samples) as int,
                ),
                None => true,
            }
        }),
{
    lemma_counter(start, samples, quantity);
    lemma_weights(start, samples, Averaged::Cpu);
    let total = total_shown(quantity, filled(start, samples).finished());
    lemma_rated((total * 10_000) as nat, lasted(samples));
}

/// The average power is the energy over the time, in thousandths of a watt.
pub proof fn lemma_average_power(start: u64, samples: Seq<Sample>)
    requires
        0 < lasted(samples) <= u64::MAX,
    ensures
        ({
            let point = filled(start, samples).finished();
            point.average_power_watts_e3 == u64::MAX || is_nearest(
                point.average_power_watts_e3 as int,
                point.energy_mwh_e4 * 360,
                lasted(samples) as int,
            )
        }),
{
    lemma_weights(start, samples, Averaged::Cpu);
    let point = filled(start, samples).finished();
    lemma_rated((point.energy_mwh_e4 * 360) as nat, lasted(samples));
}

/// What a point gives the greatest value of.
pub enum Peak {
    Cpu,
    MachineCpu,
    Memory,
    Gpu,
    GpuBusy,
    ReadRate,
    WriteRate,
    Power,
}

/// What a sample says.
pub open spec fn reached(quantity: Peak, u: ResourceUsage) -> u64 {
    match quantity {
        Peak::Cpu => u.compute.cpu_percent_tenths,
        Peak::MachineCpu => u.compute.cpu_percent_of_machine_tenths,
        Peak::Memory => u.compute.memory_bytes,
        Peak::Gpu => u.compute.gpu_percent_tenths,
        Peak::GpuBusy => u.compute.gpu_busy_percent_tenths,
        Peak::ReadRate => u.storage.disk_read_bytes_per_second_tenths,
        Peak::WriteRate => u.storage.disk_write_bytes_per_second_tenths,
        Peak::Power => u.energy.estimated_app_power_watts_e3,
    }
}

/// The greatest value that a point gives.
pub open spec fn peak_shown(quantity: Peak, p: HistoryPoint) -> u64 {
    match quantity {
        Peak::Cpu => p.peaks.cpu_percent_tenths,
        Peak::MachineCpu => p.peaks.cpu_percent_of_machine_tenths,
        Peak::Memory => p.peaks.memory_bytes,
        Peak::Gpu => p.peaks.gpu_percent_tenths,
        Peak::GpuBusy => p.peaks.gpu_busy_percent_tenths,
        Peak::ReadRate => p.peaks.disk_read_bytes_per_second_tenths,
        Peak::WriteRate => p.peaks.disk_write_bytes_per_second_tenths,
        Peak::Power => p.peaks.estimated_app_power_watts_e3,
    }
}

/// A peak is the greatest value of that quantity among the samples.
pub proof fn lemma_peak(start: u64, samples: Seq<Sample>, quantity: Peak)
    ensures
        ({
            let peak = peak_shown(quantity, filled(start, samples).finished());
            &&& forall|i: int|
                0 <= i < samples.len() ==> reached(quantity, (#[trigger] samples[i]).1) <= peak
            &&& peak > 0 ==> exists|i: int|
                0 <= i < samples.len() && reached(quantity, (#[trigger] samples[i]).1) == peak
        }),
    decreases samples.len(),
{
    if samples.len() > 0 {
        let front = samples.drop_last();
        let n = samples.len() - 1;
        lemma_peak(start, front, quantity);
        let before = peak_shown(quantity, filled(start, front).finished());
        let peak = peak_shown(quantity, filled(start, samples).finished());
        assert(samples.last() == samples[n]);
        assert forall|i: int| 0 <= i < samples.len() implies reached(
            quantity,
            (#[trigger] samples[i]).1,
        ) <= peak by {
            if i < n {
                assert(front[i] == samples[i]);
            }
        }
        if peak > 0 {
            if peak == before {
                let i = choose|i: int|
                    0 <= i < front.len() && reached(quantity, (#[trigger] front[i]).1) == peak;
                assert(samples[i] == front[i]);
            } else {
                assert(reached(quantity, samples[n].1) == peak);
            }
        }
    }
}

/// A point tells how many samples it stands for, how long they lasted, and when its
/// bucket ended.
pub proof fn lemma_point_frame(start: u64, samples: Seq<Sample>)
    requires
        lasted(samples) <= u64::MAX,
        samples.len() <= u64::MAX,
        start + 15_000 <= u64::MAX,
    ensures
        ({
            let point = filled(start, samples).finished();
            &&& point.sample_count == samples.len()
            &&& point.duration_ms == lasted(samples)
            &&& point.timestamp_ms == start + 15_000
        }),
    decreases samples.len(),
{
    lemma_weights(start, samples, Averaged::Cpu);
    lemma_frame(start, samples);
}

proof fn lemma_frame(start: u64, samples: Seq<Sample>)
    requires
        samples.len() <= u64::MAX,
    ensures
        filled(start, samples).weights.sample_count == samples.len(),
        filled(start, samples).timestamp_ms == start,
    decreases samples.len(),
{
    if samples.len() > 0 {
        lemma_frame(start, samples.drop_last());
    }
}

/// Complete coverage stays complete, and no coverage stays none.
pub proof fn lemma_coverage(start: u64, samples: Seq<Sample>, full: bool)
    requires
        0 < lasted(samples) <= u64::MAX,
        forall|i: int|
            0 <= i < samples.len() ==> {
                let m = (#[trigger] samples[i]).1.measurement;
                if full {
                    m.coverage_whole > 0 && m.coverage_part == m.coverage_whole
                } else {
                    m.coverage_part == 0
                }
            },
    ensures
        filled(start, samples).finished().coverage_e4 == (if full {
            10_000u64
        } else {
            0u64
        }),
{
    let part: nat = if full {
        COVERAGE_PARTS as nat
    } else {
        0
    };
    lemma_coverage_sum(start, samples, full);
    lemma_weights(start, samples, Averaged::Cpu);
    let d = lasted(samples);
    let unit = COVERAGE_PARTS as nat / 10_000;
    assert(d * unit > 0) by (nonlinear_arith)
        requires
            d > 0,
            unit > 0,
    ;
    if full {
        crate::metrics_laws::lemma_rated_multiple(10_000, d * unit);
        assert(part * d == 10_000 * (d * unit)) by (nonlinear_arith)
            requires
                part == 10_000 * unit,
        ;
    } else {
        lemma_rated(0, d * unit);
        assert(part * d == 0) by (nonlinear_arith)
            requires
                part == 0,
        ;
    }
}

proof fn lemma_coverage_sum(start: u64, samples: Seq<Sample>, full: bool)
    requires
        lasted(samples) <= u64::MAX,
        forall|i: int|
            0 <= i < samples.len() ==> {
                let m = (#[trigger] samples[i]).1.measurement;
                if full {
                    m.coverage_whole > 0 && m.coverage_part == m.coverage_whole
                } else {
                    m.coverage_part == 0
                }
            },
    ensures
        filled(start, samples).weights.coverage == (if full {
            COVERAGE_PARTS as nat * lasted(samples)
        } else {
            0
        }),
        COVERAGE_PARTS * lasted(samples) <= u128::MAX,
    decreases samples.len(),
{
    assert(COVERAGE_PARTS * lasted(samples) <= u128::MAX) by (nonlinear_arith)
        requires
            lasted(samples) <= u64::MAX,
    ;
    if samples.len() > 0 {
        let front = samples.drop_last();
        assert forall|i: int| 0 <= i < front.len() implies ({
            let m = (#[trigger] front[i]).1.measurement;
            if full {
                m.coverage_whole > 0 && m.coverage_part == m.coverage_whole
            } else {
                m.coverage_part == 0
            }
        }) by {
            assert(front[i] == samples[i]);
        }
        lemma_coverage_sum(start, front, full);
        let (d, u) = samples.last();
        assert(samples.last() == samples[samples.len() - 1]);
        let m = u.measurement;
        if full {
            assert(m.coverage_part * COVERAGE_PARTS == COVERAGE_PARTS as nat * m.coverage_whole as nat)
                by (nonlinear_arith)
                requires
                    m.coverage_part == m.coverage_whole,
            ;
            crate::metrics_laws::lemma_rated_multiple(COVERAGE_PARTS, m.coverage_whole as nat);
        } else {
            assert(m.coverage_part * COVERAGE_PARTS == 0) by (nonlinear_arith)
                requires
                    m.coverage_part == 0,
            ;
            if m.coverage_whole > 0 {
                lemma_rated(0, m.coverage_whole as nat);
            }
            assert(0 * d == 0) by (nonlinear_arith);
        }
        assert(COVERAGE_PARTS as nat * (lasted(front) + d as nat) == COVERAGE_PARTS as nat * lasted(
            front,
        ) + COVERAGE_PARTS * d) by (nonlinear_arith);
    } else {
        assert(COVERAGE_PARTS as nat * 0 == 0) by (nonlinear_arith);
    }
}

/// A text that says nothing about a source.
pub open spec fn says_nothing(label: Seq<char>) -> bool {
    label == ""@ || label == "unavailable"@
}

proof fn lemma_sources(start: u64, samples: Seq<Sample>, label: Seq<char>)
    requires
        !says_nothing(label),
        label != "mixed"@,
    ensures
        (forall|i: int|
            0 <= i < samples.len() ==> says_nothing((#[trigger] samples[i]).1.energy.energy_source@))
            ==> filled(start, samples).energy_source == ""@,
        (forall|i: int|
            0 <= i < samples.len() ==> says_nothing(
                (#[trigger] samples[i]).1.energy.energy_source@,
            ) || samples[i].1.energy.energy_source@ == label) ==> filled(
            start,
            samples,
        ).energy_source == ""@ || filled(start, samples).energy_source == label,
        filled(start, samples).energy_source == ""@ ==> forall|i: int|
            0 <= i < samples.len() ==> says_nothing((#[trigger] samples[i]).1.energy.energy_source@),
    decreases samples.len(),
{
    if samples.len() > 0 {
        let front = samples.drop_last();
        let n = samples.len() - 1;
        lemma_sources(start, front, label);
        assert(samples.last() == samples[n]);
        assert forall|i: int| 0 <= i < n implies #[trigger] front[i] == samples[i] by {}
        reveal_strlit("");
        reveal_strlit("mixed");
        assert(""@.len() == 0 && "mixed"@.len() == 5);
        if forall|i: int|
            0 <= i < samples.len() ==> says_nothing(
                (#[trigger] samples[i]).1.energy.energy_source@,
            ) {
            assert forall|i: int| 0 <= i < front.len() implies says_nothing(
                (#[trigger] front[i]).1.energy.energy_source@,
            ) by {
                assert(front[i] == samples[i]);
            }
            assert(says_nothing(samples[n].1.energy.energy_source@));
        }
        if forall|i: int|
            0 <= i < samples.len() ==> says_nothing(
                (#[trigger] samples[i]).1.energy.energy_source@,
            ) || samples[i].1.energy.energy_source@ == label {
            assert forall|i: int| 0 <= i < front.len() implies says_nothing(
                (#[trigger] front[i]).1.energy.energy_source@,
            ) || front[i].1.energy.energy_source@ == label by {
                assert(front[i] == samples[i]);
            }
            assert(says_nothing(samples[n].1.energy.energy_source@)
                || samples[n].1.energy.energy_source@ == label);
        }
        if filled(start, samples).energy_source == ""@ {
            assert forall|i: int| 0 <= i < samples.len() implies says_nothing(
                (#[trigger] samples[i]).1.energy.energy_source@,
            ) by {
                if i < n {
                    assert(front[i] == samples[i]);
                }
            }
        }
    }
}

/// The energy source of a point is that of its samples where they agree, and
/// unavailable where none of them says one.
pub proof fn lemma_source(start: u64, samples: Seq<Sample>, label: Seq<char>)
    requires
        !says_nothing(label),
        label != "mixed"@,
        forall|i: int|
            0 <= i < samples.len() ==> says_nothing(
                (#[trigger] samples[i]).1.energy.energy_source@,
            ) || samples[i].1.energy.energy_source@ == label,
    ensures
        ({
            let source = filled(start, samples).finished().energy_source;
            if exists|i: int|
                0 <= i < samples.len() && (#[trigger] samples[i]).1.energy.energy_source@ == label {
                source == label
            } else {
                source == "unavailable"@
            }
        }),
{
    lemma_sources(start, samples, label);
    if exists|i: int|
        0 <= i < samples.len() && (#[trigger] samples[i]).1.energy.energy_source@ == label {
        let i = choose|i: int|
            0 <= i < samples.len() && (#[trigger] samples[i]).1.energy.energy_source@ == label;
        assert(!says_nothing(samples[i].1.energy.energy_source@));
    } else {
        assert forall|i: int| 0 <= i < samples.len() implies says_nothing(
            (#[trigger] samples[i]).1.energy.energy_source@,
        ) by {}
    }
}

/// What holds of the energy source holds of the confidence in it.
pub proof fn lemma_confidence(start: u64, samples: Seq<Sample>, others: Seq<Sample>)
    requires
        samples.len() == others.len(),
        forall|i: int|
            0 <= i < samples.len() ==> (#[trigger] samples[i]).1.energy.energy_confidence@
                == others[i].1.energy.energy_source@,
    ensures
        filled(start, samples).energy_confidence == filled(start, others).energy_source,
        filled(start, samples).finished().energy_confidence == filled(
            start,
            others,
        ).finished().energy_source,
    decreases samples.len(),
{
    if samples.len() > 0 {
        let front = samples.drop_last();
        let rest = others.drop_last();
        assert forall|i: int| 0 <= i < front.len() implies (
        #[trigger] front[i]).1.energy.energy_confidence@ == rest[i].1.energy.energy_source@ by {
            assert(front[i] == samples[i] && rest[i] == others[i]);
        }
        lemma_confidence(start, front, rest);
        assert(samples[samples.len() - 1] == samples.last());
        assert(others[others.len() - 1] == others.last());
    }
}

/// Two samples that name different sources leave a mixed point.
pub proof fn lemma_mixed_sources(start: u64, samples: Seq<Sample>, i: int, j: int)
    requires
        0 <= i < j < samples.len(),
        !says_nothing(samples[i].1.energy.energy_source@),
        !says_nothing(samples[j].1.energy.energy_source@),
        samples[i].1.energy.energy_source@ != samples[j].1.energy.energy_source@,
        forall|k: int|
            0 <= k < samples.len() ==> (#[trigger] samples[k]).1.energy.energy_source@ != "mixed"@,
    ensures
        filled(start, samples).finished().energy_source == "mixed"@,
    decreases samples.len(),
{
    let front = samples.drop_last();
    let n = samples.len() - 1;
    reveal_strlit("");
    reveal_strlit("mixed");
    assert(""@.len() == 0 && "mixed"@.len() == 5);
    assert(samples.last() == samples[n]);
    assert(samples[n].1.energy.energy_source@ != "mixed"@);
    let before = filled(start, front).energy_source;
    if j < n {
        assert(front[i] == samples[i] && front[j] == samples[j]);
        assert forall|k: int| 0 <= k < front.len() implies (
        #[trigger] front[k]).1.energy.energy_source@ != "mixed"@ by {
            assert(front[k] == samples[k]);
        }
        lemma_mixed_sources(start, front, i, j);
        assert(before == "mixed"@) by {
            if before == ""@ {
                lemma_sources(start, front, samples[i].1.energy.energy_source@);
                assert(says_nothing(front[i].1.energy.energy_source@));
            }
        }
    } else {
        lemma_sources(start, front, samples[i].1.energy.energy_source@);
        assert(front[i] == samples[i]);
        assert(before != ""@);
        lemma_kept_source(start, front, i);
    }
}

/// A source that was named is kept, or the bucket is mixed.
proof fn lemma_kept_source(start: u64, samples: Seq<Sample>, i: int)
    requires
        0 <= i < samples.len(),
        !says_nothing(samples[i].1.energy.energy_source@),
    ensures
        filled(start, samples).energy_source == samples[i].1.energy.energy_source@ || filled(
            start,
            samples,
        ).energy_source == "mixed"@,
    decreases samples.len(),
{
    let front = samples.drop_last();
    reveal_strlit("");
    reveal_strlit("mixed");
    assert(""@.len() == 0 && "mixed"@.len() == 5);
    if i < samples.len() - 1 {
        assert(front[i] == samples[i]);
        lemma_kept_source(start, front, i);
    } else {
        assert(samples.last() == samples[i]);
    }
}

// ---------------------------------------------------------------------
// Recording

/// A sample goes into its application's bucket of the present fifteen seconds, with
/// the samples that are there already, and into no other.
pub proof fn lemma_record_fills(
    s: SeriesView<HistoryPoint, Pending>,
    before: u64,
    id: Seq<char>,
    now: u64,
    samples: Seq<Sample>,
    duration_ms: u64,
    usage: ResourceUsage,
    other: Seq<char>,
)
    requires
        chronological::<PendingPoint>(s, before),
        before <= now,
        now + 15_000 <= u64::MAX,
        if s.pending.contains_key(id) && s.pending[id].timestamp_ms + 15_000 > now {
            s.pending[id] == filled((now - now % 15_000) as u64, samples)
        } else {
            samples.len() == 0
        },
    ensures
        ({
            let after = usage_recorded(s, id, now, duration_ms, usage);
            &&& after.pending.contains_key(id)
            &&& after.pending[id] == filled(
                (now - now % 15_000) as u64,
                samples.push((duration_ms, usage)),
            )
            &&& other != id ==> after.pending.contains_key(other) == (s.pending.contains_key(other)
                && s.pending[other].timestamp_ms + 15_000 > now)
            &&& other != id && after.pending.contains_key(other) ==> after.pending[other]
                == s.pending[other]
        }),
{
    lemma_bucket_is_present::<PendingPoint>(s, before, id, now);
    let start = bucket_start(now, BUCKET_MILLISECONDS);
    let more = samples.push((duration_ms, usage));
    assert(more.drop_last() =~= samples);
    let over = flushed::<PendingPoint>(s, now);
    assert forall|one: Seq<char>| #[trigger] over.pending.contains_key(one) == (
    s.pending.contains_key(one) && s.pending[one].timestamp_ms + 15_000 > now) by {
        if s.pending.contains_key(one) {
            assert(is_expired::<PendingPoint>(s, now)(one) == (counter_sum(
                s.pending[one].timestamp_ms,
                15_000,
            ) <= now));
        }
    }
    assert(over.pending.contains_key(id) == (s.pending.contains_key(id)
        && s.pending[id].timestamp_ms + 15_000 > now));
    assert(over.pending.contains_key(other) == (s.pending.contains_key(other)
        && s.pending[other].timestamp_ms + 15_000 > now));
    let after = usage_recorded(s, id, now, duration_ms, usage);
    assert(start == now - now % 15_000);
    assert(more.last() == (duration_ms, usage));
    assert(filled(start, more) == filled(start, samples).plus(duration_ms, usage));
    if over.pending.contains_key(id) {
        assert(over.pending[id] == s.pending[id]);
    } else {
        assert(samples =~= Seq::empty());
        assert(filled(start, samples) == Pending::empty(start));
    }
    assert(after.pending[id] == filled(start, samples).plus(duration_ms, usage));
    assert(other != id ==> after.pending.contains_key(other) == over.pending.contains_key(other));
}

/// A bucket that is over becomes the last point of its application's history, as its
/// samples make it.
pub proof fn lemma_bucket_becomes_point(
    s: SeriesView<HistoryPoint, Pending>,
    id: Seq<char>,
    start: u64,
    samples: Seq<Sample>,
    now: u64,
)
    requires
        s.pending.contains_key(id),
        s.pending[id] == filled(start, samples),
        0 < lasted(samples) <= u64::MAX,
        samples.len() <= u64::MAX,
        start + 15_000 <= now,
    ensures
        ({
            let after = flushed::<PendingPoint>(s, now);
            &&& after.points.contains_key(id)
            &&& after.points[id] == list_of(s.points, id).push(filled(start, samples).finished())
            &&& !after.pending.contains_key(id)
        }),
{
    lemma_weights(start, samples, Averaged::Cpu);
    lemma_frame(start, samples);
    assert(is_expired::<PendingPoint>(s, now)(id));
}

} // verus!
