use docker_io_reporter::container::cgroup_stat_paths;
use docker_io_reporter::container::container_display_name;
use docker_io_reporter::container::inspected_pid;
use docker_io_reporter::container::proc_cgroup_file_path;
use docker_io_reporter::device::device_name_from_target;
use docker_io_reporter::device::device_registry_path;
use docker_io_reporter::device::DeviceDirectory;
use docker_io_reporter::format::format_iopressure;
use docker_io_reporter::format::format_iostat;
use docker_io_reporter::format::write_utf8;
use docker_io_reporter::format::MetricsBuffer;
use docker_io_reporter::parse::parse_io_pressure;
use docker_io_reporter::parse::parse_io_stat;
use docker_io_reporter::CollectError;

#[test]
fn iostat_example_renders_exactly() {
    let records = parse_io_stat("254:0 rbytes=1024 wbytes=0").unwrap();
    assert_eq!(records.len(), 1);
    assert_eq!(records[0].device, "254:0");
    assert_eq!(records[0].entries.len(), 2);
    assert_eq!(records[0].entries[0].key, "rbytes");
    assert_eq!(records[0].entries[0].value, "1024");

    let mut dir = DeviceDirectory::new();
    dir.insert(String::from("254:0"), String::from("sda"));
    let mut out = MetricsBuffer::new();
    format_iostat("web", &records, &dir, &mut out).unwrap();
    assert_eq!(
        out.into_text(),
        "docker_iostat_rbytes{device=\"sda\",container=\"web\"} 1024\n\
         docker_iostat_wbytes{device=\"sda\",container=\"web\"} 0\n"
    );
}

#[test]
fn iopressure_example_renders_exactly() {
    let records = parse_io_pressure("some avg10=0.00 avg60=0.00 total=0").unwrap();
    assert_eq!(records.len(), 1);
    assert_eq!(records[0].kind, "some");
    assert_eq!(records[0].entries.len(), 3);

    let mut out = MetricsBuffer::new();
    format_iopressure("db", &records, &mut out);
    let text = out.into_text();
    assert_eq!(
        text,
        "docker_iopressure_avg10{type=\"some\",container=\"db\"} 0.00\n\
         docker_iopressure_avg60{type=\"some\",container=\"db\"} 0.00\n\
         docker_iopressure_total{type=\"some\",container=\"db\"} 0\n"
    );
    assert_eq!(text.lines().count(), 3);
    for line in text.lines() {
        assert!(line.starts_with("docker_iopressure_"));
        assert!(line.contains("type=\"some\",container=\"db\""));
    }
}

#[test]
fn line_count_matches_pair_count() {
    let text = "254:0 rbytes=1 wbytes=2 rios=3 wios=4\n253:1 rbytes=5\n";
    let records = parse_io_stat(text).unwrap();
    let mut dir = DeviceDirectory::new();
    dir.insert(String::from("254:0"), String::from("sda"));
    dir.insert(String::from("253:1"), String::from("dm-1"));
    let mut out = MetricsBuffer::new();
    format_iostat("c", &records, &dir, &mut out).unwrap();
    assert_eq!(out.as_str().lines().count(), 5);
}

#[test]
fn token_without_separator_fails_stat() {
    let r = parse_io_stat("254:0 rbytes=1024 junk");
    assert_eq!(r.err(), Some(CollectError::MalformedLineError));
}

#[test]
fn token_without_separator_fails_pressure() {
    let r = parse_io_pressure("some avg10");
    assert_eq!(r.err(), Some(CollectError::MalformedLineError));
}

#[test]
fn malformed_line_poisons_whole_file() {
    let r = parse_io_stat("254:0 rbytes=1\n253:1 broken\n252:2 wbytes=2");
    assert!(r.is_err());
}

#[test]
fn empty_line_is_malformed() {
    let r = parse_io_stat("254:0 rbytes=1\n\n253:1 wbytes=2");
    assert_eq!(r.err(), Some(CollectError::MalformedLineError));
}

#[test]
fn empty_file_has_no_records() {
    let records = parse_io_stat("").unwrap();
    assert_eq!(records.len(), 0);
}

#[test]
fn trailing_newline_is_optional() {
    let with = parse_io_stat("254:0 rbytes=1\n").unwrap();
    let without = parse_io_stat("254:0 rbytes=1").unwrap();
    assert_eq!(with.len(), 1);
    assert_eq!(without.len(), 1);
    assert_eq!(with[0].entries.len(), 1);
}

#[test]
fn value_may_contain_separator() {
    let records = parse_io_stat("254:0 a=b=c").unwrap();
    assert_eq!(records[0].entries[0].key, "a");
    assert_eq!(records[0].entries[0].value, "b=c");
}

#[test]
fn device_only_line_renders_nothing() {
    let records = parse_io_stat("254:0\n").unwrap();
    assert_eq!(records.len(), 1);
    assert_eq!(records[0].entries.len(), 0);
    let mut dir = DeviceDirectory::new();
    dir.insert(String::from("254:0"), String::from("sda"));
    let mut out = MetricsBuffer::new();
    format_iostat("c", &records, &dir, &mut out).unwrap();
    assert_eq!(out.as_str(), "");
}

#[test]
fn repeated_resolution_is_idempotent() {
    let mut dir = DeviceDirectory::new();
    dir.insert(String::from("254:0"), String::from("sda"));
    dir.insert(String::from("8:0"), String::from("nvme0n1"));
    let first = dir.lookup("254:0");
    let second = dir.lookup("254:0");
    assert_eq!(first, second);
    assert_eq!(first.as_deref(), Some("sda"));
}

#[test]
fn lookup_of_unknown_device_is_none() {
    let dir = DeviceDirectory::new();
    assert_eq!(dir.lookup("254:0"), None);
}

#[test]
fn unresolved_device_aborts_rendering_midway() {
    let records = parse_io_stat("254:0 rbytes=1\n9:9 wbytes=2\n254:0 rios=3").unwrap();
    let mut dir = DeviceDirectory::new();
    dir.insert(String::from("254:0"), String::from("sda"));
    let mut out = MetricsBuffer::new();
    let r = format_iostat("c", &records, &dir, &mut out);
    assert_eq!(r.err(), Some(CollectError::DeviceResolutionError));
    assert_eq!(
        out.as_str(),
        "docker_iostat_rbytes{device=\"sda\",container=\"c\"} 1\n"
    );
}

#[test]
fn device_name_is_final_path_component() {
    assert_eq!(
        device_name_from_target("../devices/virtual/block/dm-0").unwrap(),
        "dm-0"
    );
    assert_eq!(device_name_from_target("sda").unwrap(), "sda");
}

#[test]
fn device_name_missing_component_fails() {
    assert_eq!(
        device_name_from_target("").err(),
        Some(CollectError::DeviceResolutionError)
    );
    assert_eq!(
        device_name_from_target("a/b/").err(),
        Some(CollectError::DeviceResolutionError)
    );
}

#[test]
fn registry_path_joins_identifier() {
    assert_eq!(device_registry_path("254:0"), "/sys/dev/block/254:0");
}

#[test]
fn cgroup_v2_marker_required() {
    let r = cgroup_stat_paths("1:name=systemd:/init.scope\n");
    assert_eq!(r.err(), Some(CollectError::UnsupportedCgroupVersionError));
    let r2 = cgroup_stat_paths("");
    assert_eq!(r2.err(), Some(CollectError::UnsupportedCgroupVersionError));
}

#[test]
fn cgroup_paths_derive_from_suffix() {
    let p = cgroup_stat_paths("0::/docker/0123abc\n").unwrap();
    assert_eq!(p.io_stat, "/sys/fs/cgroup/docker/0123abc/io.stat");
    assert_eq!(p.io_pressure, "/sys/fs/cgroup/docker/0123abc/io.pressure");
}

#[test]
fn proc_path_uses_decimal_pid() {
    assert_eq!(proc_cgroup_file_path(1234), "/proc/1234/cgroup");
    assert_eq!(proc_cgroup_file_path(0), "/proc/0/cgroup");
    assert_eq!(proc_cgroup_file_path(-5), "/proc/-5/cgroup");
}

#[test]
fn display_name_strips_one_leading_slash() {
    assert_eq!(
        container_display_name(&Some(vec![String::from("/web")])),
        Some(String::from("web"))
    );
    assert_eq!(
        container_display_name(&Some(vec![String::from("web")])),
        Some(String::from("web"))
    );
}

#[test]
fn missing_names_yield_no_display_name() {
    assert_eq!(container_display_name(&None), None);
    assert_eq!(container_display_name(&Some(vec![])), None);
}

#[test]
fn missing_pid_is_inspection_error() {
    assert_eq!(inspected_pid(Some(42)), Ok(42));
    assert_eq!(inspected_pid(None).err(), Some(CollectError::InspectionError));
}

#[test]
fn write_utf8_appends() {
    let mut out = MetricsBuffer::new();
    write_utf8(&mut out, "hello ");
    write_utf8(&mut out, "world\n");
    assert_eq!(out.into_text(), "hello world\n");
}

#[test]
fn failing_container_does_not_disturb_others() {
    // One cycle over three containers, driven as the orchestrator drives
    // it: the middle one reports no pid, fails inspection, is logged and
    // skipped; the other two still contribute all their metrics.
    let containers: [(&str, Option<i64>, &str); 3] = [
        ("alpha", Some(10), "254:0 rbytes=1"),
        ("beta", None, "254:0 rbytes=2"),
        ("gamma", Some(30), "254:0 rbytes=3"),
    ];
    let mut dir = DeviceDirectory::new();
    dir.insert(String::from("254:0"), String::from("sda"));
    let mut out = MetricsBuffer::new();
    let mut failures: Vec<CollectError> = Vec::new();
    for (name, pid, stat_text) in containers {
        let result = match inspected_pid(pid) {
            Ok(_) => match parse_io_stat(stat_text) {
                Ok(records) => format_iostat(name, &records, &dir, &mut out),
                Err(e) => Err(e),
            },
            Err(e) => Err(e),
        };
        if let Err(e) = result {
            failures.push(e);
        }
    }
    assert_eq!(failures, vec![CollectError::InspectionError]);
    assert_eq!(
        out.into_text(),
        "docker_iostat_rbytes{device=\"sda\",container=\"alpha\"} 1\n\
         docker_iostat_rbytes{device=\"sda\",container=\"gamma\"} 3\n"
    );
}

#[test]
fn error_descriptions_are_stable() {
    assert_eq!(
        CollectError::InspectionError.describe(),
        "container inspection reported no process id"
    );
    assert_eq!(
        CollectError::CgroupReadError.describe(),
        "error reading cgroup information"
    );
    assert_eq!(
        CollectError::UnsupportedCgroupVersionError.describe(),
        "error parsing cgroup: the host does not use cgroup v2"
    );
    assert_eq!(
        CollectError::StatFileReadError.describe(),
        "error reading a cgroup statistics file"
    );
    assert_eq!(
        CollectError::MalformedLineError.describe(),
        "malformed statistics line"
    );
    assert_eq!(
        CollectError::DeviceResolutionError.describe(),
        "could not resolve a block-device name"
    );
    assert_eq!(
        CollectError::EnumerationError.describe(),
        "error enumerating containers"
    );
}
