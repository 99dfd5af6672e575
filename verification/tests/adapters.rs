//! Readings of the machine as observations.

use agentworld::adapters::{
    build_payload, c_array_to_string, decode_flags, is_process_id, observe_file, observe_process,
    observe_system, sysctl_value_to_i64, sysctl_value_to_u64, FsEventsAdapter, FsEventsConfig,
    KernelValue, LoadAverage, NetworkAdapter, ProcessAdapter, ProcessInfo, StaticInfo, SystemAdapter,
};
use agentworld::json::Json;
use agentworld::observation::{Source, SourceBehavior, Timestamp};

const ITEM_CREATED: u32 = 0x100;
const IS_FILE: u32 = 0x10000;

fn at() -> Timestamp {
    Timestamp { mono_ns: 3, wall_anchor_ns: 4 }
}

fn machine() -> StaticInfo {
    StaticInfo {
        ncpu: sysctl_value_to_i64(KernelValue::Int(10)),
        memsize: sysctl_value_to_u64(KernelValue::U64(34_359_738_368)),
        model: Some("Mac15,6".into()),
        ostype: Some("Darwin".into()),
        osrelease: Some("24.0.0".into()),
        osversion: None,
    }
}

#[test]
fn decode_flags_picks_matching_names() {
    let flags = ITEM_CREATED | IS_FILE;
    let names = decode_flags(flags);
    assert!(names.contains(&"created".to_string()), "got {names:?}");
    assert!(names.contains(&"is_file".to_string()), "got {names:?}");
    assert!(!names.contains(&"removed".to_string()), "got {names:?}");
    assert!(!names.contains(&"is_dir".to_string()), "got {names:?}");
}

#[test]
fn decode_flags_empty_when_none() {
    assert!(decode_flags(0).is_empty());
}

#[test]
fn decode_flags_names_every_bit_from_the_lowest_up() {
    let all = decode_flags(u32::MAX);
    assert_eq!(all.len(), 23);
    assert_eq!(all[0], "must_scan_subdirs");
    assert_eq!(all[22], "cloned");
    assert_eq!(decode_flags(0x40_0000), vec!["cloned"]);
    assert!(decode_flags(0x80_0000).is_empty(), "a bit without a name");
}

#[test]
fn c_array_to_string_truncates_at_nul() {
    let mut arr: [i8; 8] = [0; 8];
    for (i, b) in b"abc".iter().enumerate() {
        arr[i] = *b as i8;
    }
    assert_eq!(c_array_to_string(&arr), "abc");
}

#[test]
fn c_array_to_string_full_array_no_nul() {
    let mut arr: [i8; 4] = [0; 4];
    for (i, b) in b"abcd".iter().enumerate() {
        arr[i] = *b as i8;
    }
    assert_eq!(c_array_to_string(&arr), "abcd");
}

#[test]
fn c_array_to_string_reads_utf8_and_replaces_what_is_not() {
    let arr: Vec<i8> = "é".bytes().map(|b| b as i8).collect();
    assert_eq!(c_array_to_string(&arr), "é");
    assert_eq!(c_array_to_string(&[b'a' as i8, -1, b'b' as i8]), "a\u{fffd}b");
}

#[test]
fn static_info_populated_on_macos() {
    let s = machine();
    assert!(s.ncpu.is_some(), "hw.ncpu must be readable");
    assert!(s.memsize.is_some(), "hw.memsize must be readable");
    assert_eq!(s.ostype.as_deref(), Some("Darwin"));
}

#[test]
fn payload_includes_loadavg_and_static_fields() {
    let load = Some(LoadAverage { one: "1.5".into(), five: "2.25".into(), fifteen: "3".into() });
    let p = build_payload(&machine(), &load);
    assert!(p.get("ncpu").is_some());
    assert!(p.get("memsize").is_some());
    assert!(p.get("loadavg_1m").is_some());
    assert!(matches!(p.get("loadavg_5m"), Some(Json::Real(t)) if t == "2.25"));
    assert!(matches!(build_payload(&machine(), &None).get("loadavg_1m"), Some(Json::Null)));
}

#[test]
fn system_is_observed_without_a_process() {
    let obs = observe_system(&SystemAdapter::new(machine()).static_info, &None, at());
    assert_eq!(obs.source, Source::System);
    assert_eq!(obs.pid, None);
    assert_eq!(obs.payload.str_at("ostype"), Some("Darwin"));
    assert!(matches!(obs.payload.get("osversion"), Some(Json::Null)));
}

#[test]
fn kernel_numbers_keep_their_value_or_are_none() {
    assert_eq!(sysctl_value_to_i64(KernelValue::S8(-3)), Some(-3));
    assert_eq!(sysctl_value_to_i64(KernelValue::U64(u64::MAX)), None);
    assert_eq!(sysctl_value_to_i64(KernelValue::Ulong(u64::MAX)), Some(-1));
    assert_eq!(sysctl_value_to_i64(KernelValue::Ulong(1 << 63)), Some(i64::MIN));
    assert_eq!(sysctl_value_to_i64(KernelValue::Other), None);
    assert_eq!(sysctl_value_to_u64(KernelValue::Int(-1)), None);
    assert_eq!(sysctl_value_to_u64(KernelValue::Long(7)), Some(7));
    assert_eq!(sysctl_value_to_u64(KernelValue::S32(7)), None);
}

#[test]
fn files_and_processes_are_observed() {
    let f = observe_file("/tmp/hello.txt", ITEM_CREATED, 99, at());
    assert_eq!(f.source, Source::FileSystem);
    assert_eq!(f.pid, None);
    assert_eq!(f.payload.str_at("path"), Some("/tmp/hello.txt"));
    assert_eq!(f.payload.u64_at("event_id"), Some(99));
    let p = observe_process(
        &ProcessInfo {
            pid: 12,
            ppid: 1,
            uid: 501,
            gid: 20,
            pgid: 12,
            comm: "sh".into(),
            name: "sh".into(),
            exec_path: None,
            start_unix_secs: 1_700_000_000,
            status: 2,
            nfiles: 4,
        },
        at(),
    );
    assert_eq!(p.pid, Some(12));
    assert_eq!(p.payload.str_at("comm"), Some("sh"));
    assert_eq!(p.payload.u64_at("start_unix_secs"), Some(1_700_000_000));
    assert!(matches!(p.payload.get("exec_path"), Some(Json::Null)));
    assert!(is_process_id(1) && !is_process_id(0) && !is_process_id(-4));
}

#[test]
fn adapters_say_how_they_are_driven() {
    let fs = FsEventsAdapter::new(None);
    assert_eq!(fs.config.roots, vec!["/tmp"]);
    assert_eq!(fs.config.latency_ms, 100);
    assert_eq!(fs.behavior(), SourceBehavior::Stream);
    let fs = FsEventsAdapter::with_config(FsEventsConfig { roots: vec!["/x".into()], latency_ms: 20 });
    assert_eq!(fs.config.roots, vec!["/x"]);
    assert_eq!(fs.source(), Source::FileSystem);
    assert_eq!(NetworkAdapter::new().source(), Source::Network);
    assert_eq!(ProcessAdapter::new().behavior(), SourceBehavior::Snapshot);
    assert_eq!(SystemAdapter::new(machine()).behavior(), SourceBehavior::Snapshot);
}
