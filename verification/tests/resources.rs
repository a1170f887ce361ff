use app_daemon::disk::{
    allocated_bytes, component_count, disk_breakdown, disk_roots, process_files, socket_inode,
    temporary_path, xdg_directory, Directories, FileSize, LinkedFile, Places,
};
use app_daemon::energy::{
    counter_delta, counts_zone, read_batteries, zone_reading, BatterySample, EnergySampler,
    PowerSupply,
};
use app_daemon::gpu::{gpu_processes, parse_gpu_fdinfo};
use app_daemon::key_values::{equals_key_values, whitespace_key_values};
use app_daemon::network::{
    absorb_response, diag_request, parse_diag_message, read_u16, read_u32, DumpStep,
    INET_DIAG_INFO, INET_DIAG_MESSAGE_LENGTH, NLMSG_DONE, TCP_INFO_BYTES_ACKED_OFFSET,
    TCP_INFO_BYTES_RECEIVED_OFFSET, TCP_INFO_COUNTERS_LENGTH,
};
use app_daemon::procfs::{
    cgroup_directory, parse_cgroup_counters, parse_cgroup_members,
    parse_process_cgroup, parse_process_io, parse_process_memory, parse_process_stat,
    parse_system_cpu, specific_application_cgroup, ProcessStat,
};
use app_daemon::resources::{
    CgroupUsage, DiskBreakdown, DiskFile, DiskFileId, MemoryUsage, NetworkCounters, ProcessFiles,
    ProcessIo, ProcessUsage,
};
use app_daemon::sampler::{PreviousProcess, ProcessDetails, Reading, ResourceSampler};
use app_daemon::snapshot::ResourceSnapshot;
use app_daemon::table::Table;

fn big_endian() -> bool {
    u16::from_ne_bytes([0, 1]) == 1
}

fn files(sockets: Vec<u64>) -> ProcessFiles {
    ProcessFiles {
        open: Table::new(),
        referenced: Table::new(),
        sockets,
        fd_available: true,
    }
}

fn process(parent_pid: u32, cpu_ticks: u64, files: ProcessFiles) -> ProcessUsage {
    ProcessUsage {
        parent_pid,
        cpu_ticks,
        memory: MemoryUsage::default(),
        thread_count: 0,
        major_faults: 0,
        gpu_available: false,
        gpu_nanoseconds: 0,
        gpu_busiest_nanoseconds: 0,
        gpu_memory_resident_bytes: 0,
        gpu_memory_allocated_bytes: 0,
        io: ProcessIo::default(),
        files,
        storage_available: false,
    }
}

fn table<V>(entries: Vec<(u32, V)>) -> Table<u32, V> {
    let mut table = Table::new();
    for (key, value) in entries {
        table.insert(key, value);
    }
    table
}

#[test]
fn handles_counter_rollover() {
    assert_eq!(counter_delta(900, 100, 1_000), 200);
    assert_eq!(counter_delta(100, 250, 1_000), 150);
}

#[test]
fn rejects_malformed_metrics() {
    assert!(parse_gpu_fdinfo("drm-engine-gfx: nope\n").is_none());
    assert!(parse_gpu_fdinfo("drm-client-id: 4\ndrm-engine-gfx: nope\n").is_none());
}

#[test]
fn parses_standard_metrics() {
    let value = "drm-pdev: 0000:03:00.0\ndrm-client-id: 7\ndrm-engine-gfx: 250000000 ns\ndrm-engine-compute: 10 ms\ndrm-memory-vram: 64 MiB\ndrm-resident-vram: 32 MiB\n";
    let (id, client) = parse_gpu_fdinfo(value).expect("DRM client metrics");
    assert_eq!(id, "0000:03:00.0/7");
    assert_eq!(
        client.engine_nanoseconds.get(&"gfx".to_owned()),
        Some(&250_000_000)
    );
    assert_eq!(
        client.engine_nanoseconds.get(&"compute".to_owned()),
        Some(&10_000_000)
    );
    assert_eq!(
        client.resident_regions.get(&"vram".to_owned()),
        Some(&(32 * 1024 * 1024))
    );
    assert_eq!(
        client.allocated_regions.get(&"vram".to_owned()),
        Some(&(64 * 1024 * 1024))
    );
}

#[test]
fn counts_a_shared_gpu_client_for_one_process() {
    let shared = "drm-client-id: 7\ndrm-engine-gfx: 100 ns\ndrm-resident-vram: 2 KiB\n";
    let own = "drm-client-id: 8\ndrm-engine-gfx: 50 ns\ndrm-resident-vram: 1 KiB\n";
    let usages = gpu_processes(&vec![
        vec![shared.to_owned(), shared.to_owned()],
        vec![shared.to_owned(), own.to_owned()],
        vec!["pos: 0\n".to_owned()],
    ]);
    let first = usages[0].as_ref().expect("first process");
    assert_eq!(first.resident_memory_bytes, 2_048);
    assert_eq!(first.engines.len(), 1);
    assert_eq!(first.engines[0].nanoseconds, 100);
    let second = usages[1].as_ref().expect("second process");
    assert_eq!(second.resident_memory_bytes, 1_024);
    assert_eq!(second.engines.len(), 1);
    assert_eq!(second.engines[0].nanoseconds, 50);
    assert!(usages[2].is_none());
}

#[test]
fn parses_tcp_info_counters_for_requested_inode() {
    let big = big_endian();
    let inode = 42_u64;
    let mut message = vec![0_u8; INET_DIAG_MESSAGE_LENGTH + 4 + TCP_INFO_COUNTERS_LENGTH];
    message[68..72].copy_from_slice(&(inode as u32).to_ne_bytes());
    message[INET_DIAG_MESSAGE_LENGTH..INET_DIAG_MESSAGE_LENGTH + 2]
        .copy_from_slice(&((4 + TCP_INFO_COUNTERS_LENGTH) as u16).to_ne_bytes());
    message[INET_DIAG_MESSAGE_LENGTH + 2..INET_DIAG_MESSAGE_LENGTH + 4]
        .copy_from_slice(&INET_DIAG_INFO.to_ne_bytes());
    let payload = INET_DIAG_MESSAGE_LENGTH + 4;
    message[payload + TCP_INFO_BYTES_ACKED_OFFSET..payload + TCP_INFO_BYTES_ACKED_OFFSET + 8]
        .copy_from_slice(&1234_u64.to_ne_bytes());
    message[payload + TCP_INFO_BYTES_RECEIVED_OFFSET..payload + TCP_INFO_BYTES_RECEIVED_OFFSET + 8]
        .copy_from_slice(&5678_u64.to_ne_bytes());
    let mut counters = Table::new();
    parse_diag_message(&message, &[inode], &mut counters, big);
    assert_eq!(
        counters.get(&inode),
        Some(&NetworkCounters {
            transmitted_bytes: 1234,
            received_bytes: 5678,
        })
    );
    let mut others = Table::new();
    parse_diag_message(&message, &[7], &mut others, big);
    assert_eq!(others.len(), 0);

    let mut response = Vec::new();
    response.extend(((16 + message.len()) as u32).to_ne_bytes());
    response.extend(20_u16.to_ne_bytes());
    response.extend(0_u16.to_ne_bytes());
    response.extend(9_u32.to_ne_bytes());
    response.extend(0_u32.to_ne_bytes());
    response.extend(&message);
    let mut absorbed = Table::new();
    assert!(absorb_response(&response, 9, &[inode], &mut absorbed, big) == DumpStep::More);
    assert_eq!(absorbed.len(), 1);
    let mut done = Vec::new();
    done.extend(16_u32.to_ne_bytes());
    done.extend(NLMSG_DONE.to_ne_bytes());
    done.extend(0_u16.to_ne_bytes());
    done.extend(9_u32.to_ne_bytes());
    done.extend(0_u32.to_ne_bytes());
    assert!(absorb_response(&done, 9, &[inode], &mut absorbed, big) == DumpStep::Done);
    let torn = 99_u32.to_ne_bytes().repeat(4);
    assert!(absorb_response(&torn, 9, &[inode], &mut absorbed, big) == DumpStep::Failed);
}

#[test]
fn asks_the_kernel_for_all_sockets_of_a_family() {
    for big in [false, true] {
        let request = diag_request(2, 6, 77, big);
        assert_eq!(request.len(), 72);
        assert_eq!(read_u32(&request, 0, big), 72);
        assert_eq!(read_u16(&request, 4, big), 20);
        assert_eq!(read_u32(&request, 8, big), 77);
        assert_eq!(request[16], 2);
        assert_eq!(request[17], 6);
    }
}

fn quiet_reading(now_nanoseconds: u64) -> Reading {
    Reading {
        now_nanoseconds,
        system_ticks: 100,
        logical_cpus: 8,
        processes: table(vec![(
            42,
            ProcessStat {
                parent_pid: 1,
                total_ticks: 10,
                start_ticks: 5,
                major_faults: 0,
                thread_count: 2,
            },
        )]),
        cgroup_path_by_root: Table::new(),
        cgroup_members_by_root: Table::new(),
        cgroup_counters: Table::new(),
        details: table(vec![(
            42,
            ProcessDetails {
                memory: MemoryUsage {
                    rss_bytes: 2_048,
                    pss_bytes: 1_024,
                    rss_available: true,
                    pss_available: true,
                    ..MemoryUsage::default()
                },
                io: Some(ProcessIo::default()),
            },
        )]),
        gpu: Table::new(),
        power_zones: Table::new(),
        battery: BatterySample {
            full_picowatt_hours: 0,
            discharge_picowatts: 0,
        },
        network: Some(Table::new()),
    }
}

#[test]
fn samples_through_an_injected_provider() {
    let mut sampler = ResourceSampler::new();
    let mut targets = Table::new();
    targets.insert("example.desktop".to_owned(), vec![42]);
    sampler.remember_files(&[42], table(vec![(42, files(Vec::new()))]), 0);
    let snapshot = sampler.sample_for_targets(&targets, quiet_reading(0));
    let usage = snapshot.usage_for_target(&"example.desktop".to_owned(), &[42]);
    assert_eq!(snapshot.logical_cpus, 8);
    assert_eq!(usage.compute.memory_bytes, 1_024);
    assert_eq!(usage.compute.thread_count, 2);
    assert_eq!(usage.measurement.memory_source, "pss");
    assert!(usage.measurement.network_connections_available);
}

#[test]
fn reports_what_changed_between_two_samples() {
    let mut sampler = ResourceSampler::new();
    let mut targets = Table::new();
    targets.insert("example.desktop".to_owned(), vec![42]);
    sampler.remember_files(&[42], table(vec![(42, files(vec![5, 6, 5]))]), 0);
    assert_eq!(sampler.known_sockets(), vec![5, 6]);
    let first = sampler.sample_for_targets(&targets, quiet_reading(1_000_000_000));
    assert_eq!(first.interval_nanoseconds, 0);
    let mut later = quiet_reading(3_000_000_000);
    later.system_ticks = 500;
    later.processes = table(vec![(
        42,
        ProcessStat {
            parent_pid: 1,
            total_ticks: 60,
            start_ticks: 5,
            major_faults: 4,
            thread_count: 2,
        },
    )]);
    let second = sampler.sample_for_targets(&targets, later);
    assert_eq!(second.interval_nanoseconds, 2_000_000_000);
    let usage = second.usage_for_target(&"example.desktop".to_owned(), &[42]);
    // 50 of 400 ticks of eight processors.
    assert_eq!(usage.compute.cpu_percent_tenths, 1_000);
    assert_eq!(usage.compute.cpu_percent_of_machine_tenths, 125);
    assert_eq!(usage.compute.major_faults_per_second_hundredths, 200);
    assert_eq!(usage.network.network_connection_count, 2);
}

#[test]
fn parses_proc_stat_with_spaces_in_command() {
    let stat = "42 (application helper) S 7 0 0 0 0 0 0 0 0 0 120 30 0 0 0 0 0 0 99 0 0";
    let process = parse_process_stat(stat).expect("valid stat");
    assert_eq!(process.parent_pid, 7);
    assert_eq!(process.total_ticks, 150);
    assert_eq!(process.start_ticks, 99);
    assert_eq!(process.major_faults, 0);
    assert!(parse_process_stat("42 no command").is_none());
}

#[test]
fn parses_cgroup_cpu_and_io_counters() {
    let cpu = whitespace_key_values("usage_usec 125000\nuser_usec 100000\n");
    assert_eq!(cpu.get(&"usage_usec".to_owned()), Some(&125_000));
    let io = equals_key_values("8:0 rbytes=4096 wbytes=8192 rios=3 wios=4");
    assert_eq!(io.get(&"rbytes".to_owned()), Some(&4096));
    assert_eq!(io.get(&"wios".to_owned()), Some(&4));
}

#[test]
fn totals_process_trees_without_double_counting_shared_roots() {
    let file = |inode: u64, bytes: u64| {
        (
            DiskFileId { device: 1, inode },
            DiskFile {
                bytes,
                temporary: false,
            },
        )
    };
    let usage_of = |parent_pid: u32,
                    cpu_ticks: u64,
                    memory_bytes: u64,
                    read: u64,
                    write: u64,
                    open_files: Vec<(DiskFileId, DiskFile)>| {
        let mut open = Table::new();
        let mut referenced = Table::new();
        for (id, file) in open_files {
            open.insert(id, file);
            referenced.insert(id, file);
        }
        let mut usage = process(
            parent_pid,
            cpu_ticks,
            ProcessFiles {
                open,
                referenced,
                sockets: Vec::new(),
                fd_available: true,
            },
        );
        usage.memory.rss_bytes = memory_bytes;
        usage.io.physical_read_bytes = read;
        usage.io.physical_write_bytes = write;
        usage.storage_available = true;
        usage
    };
    let mut snapshot = ResourceSnapshot::new();
    snapshot.processes = table(vec![
        (
            10,
            usage_of(1, 20, 100, 10, 20, vec![file(1, 1024), file(2, 2048)]),
        ),
        (11, usage_of(10, 35, 200, 30, 40, vec![file(1, 1024)])),
        (20, usage_of(1, 10, 50, 50, 60, Vec::new())),
    ]);
    snapshot.children = table(vec![(1, vec![10, 20]), (10, vec![11])]);
    snapshot.logical_cpus = 4;
    snapshot.system_ticks = 4_000;
    snapshot.total_process_ticks = 100;
    snapshot.interval_nanoseconds = 2_000_000_000;
    snapshot.system_energy_microjoules = 18_000_000;
    snapshot.battery_full_picowatt_hours = 50_000_000_000_000;
    snapshot.energy_source = "rapl";
    let usage = snapshot.usage_for_roots(&[10, 10, 11]);
    assert_eq!(usage.compute.cpu_percent_tenths, 55);
    assert_eq!(usage.compute.cpu_percent_of_machine_tenths, 14);
    assert_eq!(usage.compute.memory_bytes, 300);
    assert_eq!(usage.storage.disk_read_bytes, 40);
    assert_eq!(usage.storage.disk_write_bytes, 60);
    assert_eq!(usage.storage.disk_read_bytes_per_second_tenths, 200);
    assert_eq!(usage.storage.disk_write_bytes_per_second_tenths, 300);
    assert_eq!(usage.storage.open_file_disk_bytes, 3072);
    assert_eq!(usage.storage.referenced_file_permanent_bytes, 3072);
    assert_eq!(usage.energy.energy_mwh_e4, 27_500);
    assert_eq!(usage.energy.energy_source, "rapl");
}

#[test]
fn attributes_no_battery_power_to_applications() {
    let mut snapshot = ResourceSnapshot::new();
    snapshot.processes = table(vec![(10, process(1, 20, files(Vec::new())))]);
    snapshot.children = table(vec![(1, vec![10])]);
    snapshot.logical_cpus = 1;
    snapshot.system_ticks = 100;
    snapshot.total_process_ticks = 20;
    snapshot.interval_nanoseconds = 2_000_000_000;
    snapshot.system_discharge_picowatts = 10_000_000_000_000;
    snapshot.energy_source = "battery";
    let usage = snapshot.usage_for_roots(&[10]);
    assert_eq!(usage.energy.energy_mwh_e4, 0);
    assert_eq!(usage.energy.system_power_watts_e3, 10_000);
    snapshot.interval_nanoseconds = 2_000_200_000;
    snapshot.system_discharge_picowatts = 1_500_050_000;
    let small = snapshot.usage_for_roots(&[10]);
    assert_eq!(small.energy.system_power_watts_e3, 2);
}

#[test]
fn aggregates_network_deltas_for_known_application_sockets() {
    let socket_inode = 77;
    let mut snapshot = ResourceSnapshot::new();
    let mut usage = process(1, 0, files(vec![socket_inode]));
    usage.memory.rss_available = true;
    snapshot.processes = table(vec![(42, usage)]);
    snapshot.children = table(vec![(1, vec![42])]);
    snapshot.network_deltas.insert(
        socket_inode,
        NetworkCounters {
            received_bytes: 4_096,
            transmitted_bytes: 2_048,
        },
    );
    snapshot.network_counters_available = true;
    snapshot.interval_nanoseconds = 2_000_000_000;
    let usage = snapshot.usage_for_roots(&[42]);
    assert_eq!(usage.network.network_receive_bytes, 4_096);
    assert_eq!(usage.network.network_transmit_bytes, 2_048);
    assert_eq!(usage.network.network_receive_bytes_per_second_tenths, 20_480);
    assert_eq!(usage.network.network_transmit_bytes_per_second_tenths, 10_240);
    assert!(usage.measurement.network_bytes_available);
}

#[test]
fn includes_descendants_that_move_out_of_an_application_cgroup() {
    let socket_inode = 88;
    let path = "/user.slice/app-example.scope".to_owned();
    let mut snapshot = ResourceSnapshot::new();
    snapshot.processes = table(vec![
        (10, process(1, 20, files(Vec::new()))),
        (11, process(10, 50, files(vec![socket_inode]))),
    ]);
    snapshot.children = table(vec![(1, vec![10]), (10, vec![11])]);
    snapshot.cgroup_members_by_root = table(vec![(10, vec![10])]);
    snapshot.cgroup_path_by_root = table(vec![(10, path.clone())]);
    snapshot.cgroup_usage.insert(
        path,
        CgroupUsage {
            cpu_percent_tenths: 20,
            ..CgroupUsage::default()
        },
    );
    snapshot.network_deltas.insert(
        socket_inode,
        NetworkCounters {
            received_bytes: 1_000,
            transmitted_bytes: 500,
        },
    );
    snapshot.network_counters_available = true;
    snapshot.logical_cpus = 1;
    snapshot.system_ticks = 1_000;
    snapshot.interval_nanoseconds = 2_000_000_000;

    let usage = snapshot.usage_for_roots(&[10]);
    assert_eq!(usage.compute.process_count, 2);
    assert_eq!(usage.compute.cpu_percent_tenths, 70);
    assert_eq!(usage.network.network_receive_bytes_per_second_tenths, 5_000);
    assert_eq!(usage.network.network_transmit_bytes_per_second_tenths, 2_500);
    assert_eq!(usage.measurement.attribution_method, "mixed");
    assert!(usage.measurement.network_bytes_available);
}

#[test]
fn prefers_cgroup_counters_for_a_whole_application() {
    let path = "/user.slice/app-example.scope".to_owned();
    let mut snapshot = ResourceSnapshot::new();
    snapshot.processes = table(vec![(10, process(1, 20, files(Vec::new())))]);
    snapshot.children = table(vec![(1, vec![10])]);
    snapshot.cgroup_members_by_root = table(vec![(10, vec![10])]);
    snapshot.cgroup_path_by_root = table(vec![(10, path.clone())]);
    snapshot.cgroup_usage.insert(
        path,
        CgroupUsage {
            cpu_percent_tenths: 99,
            ..CgroupUsage::default()
        },
    );
    snapshot.logical_cpus = 1;
    snapshot.system_ticks = 1_000;
    snapshot.interval_nanoseconds = 2_000_000_000;
    let usage = snapshot.usage_for_roots(&[10]);
    assert_eq!(usage.measurement.attribution_method, "cgroup");
    assert_eq!(usage.compute.cpu_percent_tenths, 99);
    let alone = ResourceSnapshot::new().usage_for_roots(&[10]);
    assert_eq!(alone.measurement.attribution_method, "process-tree");
}

#[test]
fn ignores_previous_counters_after_pid_reuse() {
    let mut sampler = ResourceSampler::new();
    sampler.previous_processes.insert(
        42,
        PreviousProcess {
            total_ticks: 100,
            start_ticks: 7,
            major_faults: 10,
            io: Some(ProcessIo {
                physical_read_bytes: 1_000,
                physical_write_bytes: 2_000,
                ..ProcessIo::default()
            }),
        },
    );
    let process = ProcessStat {
        parent_pid: 1,
        total_ticks: 500,
        start_ticks: 8,
        major_faults: 20,
        thread_count: 1,
    };
    let current = ProcessIo {
        physical_read_bytes: 4_000,
        physical_write_bytes: 8_000,
        ..ProcessIo::default()
    };
    assert_eq!(sampler.cpu_ticks(42, &process, 100), 0);
    assert_eq!(
        sampler.io_delta(42, &process, current).physical_read_bytes,
        0
    );
    assert_eq!(sampler.major_fault_delta(42, &process), 0);
    let same = ProcessStat {
        start_ticks: 7,
        ..process
    };
    assert_eq!(sampler.cpu_ticks(42, &same, 100), 400);
    assert_eq!(
        sampler.io_delta(42, &same, current).physical_read_bytes,
        3_000
    );
    assert_eq!(sampler.major_fault_delta(42, &same), 10);
}

#[test]
fn reads_process_files_of_the_kernel() {
    let io = parse_process_io("rchar: 10\nwchar: 20\nsyscr: 1\nsyscw: 2\nread_bytes: 30\nwrite_bytes: 40\ncancelled_write_bytes: 5\n");
    assert_eq!(io.logical_read_bytes, 10);
    assert_eq!(io.physical_write_bytes, 40);
    assert_eq!(io.cancelled_write_bytes, 5);
    let memory = parse_process_memory(
        Some("Rss: 8 kB\nPss: 4 kB\nPrivate_Clean: 1 kB\nPrivate_Dirty: 2 kB\nSwap: 1 kB\n"),
        None,
    );
    assert_eq!(memory.pss_bytes, 4_096);
    assert_eq!(memory.private_bytes, 3_072);
    assert!(memory.pss_available);
    let (ticks, processors) = parse_system_cpu(Some("cpu 1 2 3 4\ncpu0 1 1 1 1\ncpu1 0 1 2 3\nintr 5\n"));
    assert_eq!(ticks, 10);
    assert_eq!(processors, 2);
    assert_eq!(parse_system_cpu(None), (0, 1));
    assert_eq!(
        parse_process_cgroup("1:name=old:/x\n0::/user.slice/app-a.scope\n").as_deref(),
        Some("/user.slice/app-a.scope")
    );
    let counters = parse_cgroup_counters(
        Some("usage_usec 125000\n"),
        Some("4096\n"),
        None,
        Some("8:0 rbytes=1 wbytes=2 rios=3 wios=4\n8:16 rbytes=10 wbytes=20 rios=30 wios=40\n"),
    )
    .expect("counters");
    assert_eq!(counters.cpu_usage_usec, 125_000);
    assert_eq!(counters.memory_bytes, 4_096);
    assert_eq!(counters.read_bytes, 11);
    assert_eq!(counters.write_operations, 44);
    assert_eq!(parse_cgroup_members(&vec!["7\n8\nx\n".to_owned()]).len(), 2);
}

#[test]
fn counts_zones_of_the_machine_once() {
    let zones = vec!["intel-rapl:0".to_owned(), "intel-rapl:0:1".to_owned()];
    assert!(counts_zone(&zones, "intel-rapl:0"));
    assert!(!counts_zone(&zones, "intel-rapl:0:1"));
    assert_eq!(
        zone_reading(&Some("5\n".to_owned()), &Some("9".to_owned())),
        Some((5, 9))
    );
    assert_eq!(zone_reading(&None, &None), None);
    let mut sampler = EnergySampler::new();
    let battery = BatterySample {
        full_picowatt_hours: 1,
        discharge_picowatts: 5_000_000_000_000,
    };
    let mut zones = Table::new();
    zones.insert("intel-rapl:0".to_owned(), (900, 1_000));
    let first = sampler.sample(zones, battery, 2_000_000_000);
    assert_eq!(first.source, "battery");
    assert_eq!(first.microjoules, 0);
    assert_eq!(first.discharge_picowatts, 5_000_000_000_000);
    let mut zones = Table::new();
    zones.insert("intel-rapl:0".to_owned(), (100, 1_000));
    let second = sampler.sample(zones, battery, 2_000_000_000);
    assert_eq!(second.source, "rapl");
    assert_eq!(second.microjoules, 200);
    assert_eq!(second.discharge_picowatts, 0);
}

#[test]
fn adds_up_batteries() {
    let supply = |kind: &str, status: &str| PowerSupply {
        kind: Some(kind.to_owned()),
        status: Some(status.to_owned()),
        voltage_now: Some("10000000".to_owned()),
        energy_full: None,
        charge_full: Some("3000000".to_owned()),
        power_now: Some("4000000".to_owned()),
        current_now: None,
    };
    let sample = read_batteries(&vec![
        supply("Battery\n", "Discharging\n"),
        supply("Battery", "Charging"),
        supply("Mains", "Discharging"),
    ]);
    assert_eq!(sample.full_picowatt_hours, 60_000_000_000_000);
    assert_eq!(sample.discharge_picowatts, 4_000_000_000_000);
}

#[test]
fn finds_the_files_of_processes_and_applications() {
    let places = Places {
        home: Some("/home/user".to_owned()),
        runtime: None,
        cache: None,
    };
    assert!(temporary_path("/tmp/a", &places));
    assert!(temporary_path("/home/user/.cache/x", &places));
    assert!(!temporary_path("/home/user/.cached/x", &places));
    assert_eq!(component_count("/a//b/./c"), 4);
    assert_eq!(socket_inode("socket:[77]"), Some(77));
    assert_eq!(socket_inode("pipe:[77]"), None);
    let link = |link: &str, inode: u64, blocks: u64| LinkedFile {
        link: link.to_owned(),
        file: Some(FileSize {
            id: DiskFileId { device: 1, inode },
            blocks,
        }),
    };
    let open = vec![
        link("/a", 1, 2),
        link("/b", 1, 2),
        LinkedFile {
            link: "socket:[9]".to_owned(),
            file: None,
        },
    ];
    let files = process_files(Some(&open), &vec![link("/tmp/c", 2, 4)], &places);
    assert_eq!(files.open.len(), 1);
    assert_eq!(files.referenced.len(), 2);
    assert_eq!(files.sockets, vec![9]);
    assert!(!process_files(None, &open, &places).fd_available);
    let size = |inode: u64, blocks: u64| FileSize {
        id: DiskFileId { device: 1, inode },
        blocks,
    };
    assert_eq!(allocated_bytes(&vec![size(1, 2), size(1, 2), size(2, 1)]), 1_536);
    let disk = disk_breakdown(&vec![size(1, 2)], &vec![size(2, 4)]);
    assert_eq!(
        disk,
        DiskBreakdown {
            total_bytes: 3_072,
            temporary_bytes: 2_048,
            permanent_bytes: 1_024,
        }
    );
    let home = Some("/home/user".to_owned());
    let directories = Directories {
        home: home.clone(),
        data: xdg_directory(None, &home, ".local/share"),
        config: xdg_directory(Some("/config".to_owned()), &home, ".config"),
        state: None,
        cache: None,
        runtime: None,
    };
    let roots = disk_roots("org.example.Editor.desktop", &directories).expect("roots");
    assert!(roots.permanent.contains(&"/config/org.example.Editor".to_owned()));
    assert!(roots
        .permanent
        .contains(&"/home/user/.local/share/Editor".to_owned()));
    assert!(disk_roots("window-group:term", &directories).is_none());
}

#[test]
fn recognises_application_control_groups() {
    assert!(specific_application_cgroup("/user.slice/app.slice/app-firefox-1.scope"));
    assert!(!specific_application_cgroup("/user.slice/session-1.scope"));
    assert_eq!(
        cgroup_directory("/user.slice/app-a.scope"),
        "/sys/fs/cgroup/user.slice/app-a.scope"
    );
}

#[test]
fn keeps_shares_within_the_whole() {
    let mut snapshot = ResourceSnapshot::new();
    snapshot.logical_cpus = 2;
    snapshot.system_ticks = 100;
    snapshot.interval_nanoseconds = 1_000_000_000;
    snapshot.energy_source = "rapl";
    snapshot.system_energy_microjoules = 3_600_000;
    let mut held = files(Vec::new());
    for (inode, bytes, temporary) in [(1, 512, true), (2, 1_024, false)] {
        let id = DiskFileId { device: 1, inode };
        held.referenced.insert(id, DiskFile { bytes, temporary });
    }
    let mut busy = process(1, 150, held);
    busy.gpu_nanoseconds = 3_000_000_000;
    busy.gpu_busiest_nanoseconds = 2_000_000_000;
    snapshot.insert(10, busy);
    let usage = snapshot.usage_for_roots(&[10, 11]);
    assert_eq!(usage.compute.cpu_percent_tenths, 3_000);
    assert_eq!(usage.compute.cpu_percent_of_machine_tenths, 1_000);
    assert_eq!(usage.compute.gpu_percent_tenths, 3_000);
    assert_eq!(usage.compute.gpu_busy_percent_tenths, 1_000);
    assert_eq!(usage.energy.attributed_fraction_e4, 10_000);
    assert_eq!(usage.energy.energy_mwh_e4, 10_000);
    assert_eq!(usage.energy.power_watts_e3, 3_600);
    assert_eq!(usage.measurement.coverage_part, 1);
    assert_eq!(usage.measurement.coverage_whole, 2);
    assert_eq!(usage.storage.referenced_file_disk_bytes, 1_536);
    assert_eq!(usage.storage.referenced_file_temporary_bytes, 512);
    assert_eq!(usage.storage.referenced_file_permanent_bytes, 1_024);
}

#[test]
fn compares_the_first_sample_with_nothing() {
    let mut sampler = ResourceSampler::new();
    let mut reading = quiet_reading(1_000_000_000);
    reading.system_ticks = 500;
    let stat = ProcessStat {
        parent_pid: 1,
        total_ticks: 70,
        start_ticks: 5,
        major_faults: 9,
        thread_count: 3,
    };
    reading.processes.insert(20, stat);
    let snapshot = sampler.sample_for_targets(&Table::new(), reading);
    let sampled = snapshot.processes.get(&20).expect("process");
    assert_eq!(sampled.cpu_ticks, 0);
    assert_eq!(sampled.major_faults, 0);
    assert_eq!(sampled.thread_count, 3);
    assert_eq!(snapshot.interval_nanoseconds, 0);
}

fn grouped(members: Vec<u32>) -> ResourceSnapshot {
    let path = "/user.slice/app-example.scope".to_owned();
    let mut snapshot = ResourceSnapshot::new();
    snapshot.system_ticks = 1_000;
    snapshot.interval_nanoseconds = 1_000_000_000;
    snapshot.cgroup_members_by_root = table(vec![(10, members)]);
    snapshot.cgroup_path_by_root = table(vec![(10, path.clone())]);
    snapshot.cgroup_usage.insert(
        path,
        CgroupUsage {
            cpu_percent_tenths: 20,
            read_bytes: 64,
            ..CgroupUsage::default()
        },
    );
    snapshot.insert(11, process(1, 50, files(Vec::new())));
    snapshot
}

#[test]
fn counts_a_control_group_without_its_exited_root() {
    let snapshot = grouped(vec![11]);
    assert_eq!(snapshot.attributed_pids(&[10]), [11]);
    let usage = snapshot.usage_for_roots(&[10]);
    assert_eq!(usage.measurement.attribution_method, "cgroup");
    assert_eq!(usage.measurement.coverage_part, 1);
    assert_eq!(usage.measurement.coverage_whole, 1);
    assert_eq!(usage.compute.cpu_percent_tenths, 20);
    assert_eq!(usage.storage.disk_read_bytes, 64);
    let mixed = snapshot.usage_for_roots(&[10, 12]);
    assert_eq!(mixed.measurement.attribution_method, "mixed");
    assert_eq!(mixed.measurement.coverage_part, 1);
    assert_eq!(mixed.measurement.coverage_whole, 2);
    assert_eq!(mixed.compute.cpu_percent_tenths, 50);
}

#[test]
fn charges_nothing_where_no_processor_is_known() {
    let mut snapshot = ResourceSnapshot::new();
    snapshot.logical_cpus = 0;
    snapshot.system_ticks = 100;
    snapshot.interval_nanoseconds = 1_000_000_000;
    snapshot.energy_source = "rapl";
    snapshot.system_energy_microjoules = 3_600_000;
    snapshot.insert(10, process(1, 50, files(Vec::new())));
    let usage = snapshot.usage_for_roots(&[10]);
    assert_eq!(usage.compute.cpu_percent_tenths, 0);
    assert_eq!(usage.compute.cpu_percent_of_machine_tenths, 0);
    assert_eq!(usage.energy.energy_mwh_e4, 0);
    assert_eq!(usage.energy.power_watts_e3, 0);
    assert_eq!(usage.energy.attributed_fraction_e4, 0);
    assert_eq!(usage.energy.system_power_watts_e3, 3_600);
    assert_eq!(usage.energy.energy_confidence, "low");
}
