//! Socket tables.

use agentworld::netstat::{extract_process, parse_netstat, row_to_observation};
use agentworld::observation::{Source, Timestamp};
use agentworld::pcblist::{parse_pcblist, pids_of, with_names};

const SAMPLE: &str = "\
Active Internet connections
Proto Recv-Q Send-Q  Local Address                                 Foreign Address                               (state)          rxbytes      txbytes  rhiwat  shiwat          process:pid    state  options           gencnt    flags   flags1 usecnt rtncnt fltrs
tcp4       0      0  10.0.0.218.53005       160.79.104.10.443                       ESTABLISHED       121046      3959109  131072  320184           client:23680  00102 00000000 0000000000073738 20000081 04000900      3      0 000004
tcp4       0      0  10.0.0.218.53107       23.216.5.151.443                        ESTABLISHED       157106582        2016 4194240  131712  Code - Insiders:661    00102 00020000 0000000000077161 00180081 040c0900      2      0 000000
udp4       0      0  10.0.0.218.63657       160.79.104.10.443                                         2415188       588764 1048576   29040    Client Helper:94258  00102 00000000 000000000004be3e 20000000 04200900      2      0 000002
udp4       0      0  *.*                    *.*                                                            0            0  786896    9216        symptomsd:470    00000 00000000 0000000000040590 00000000 00002800      1      0 000000
";

#[test]
fn parses_tcp_with_state_and_pid() {
    let rows = parse_netstat(SAMPLE);
    let client = rows
        .iter()
        .find(|r| r.pid == Some(23680))
        .expect("client row");
    assert_eq!(client.proto, "tcp4");
    assert_eq!(client.local_addr, "10.0.0.218.53005");
    assert_eq!(client.foreign_addr, "160.79.104.10.443");
    assert_eq!(client.state.as_deref(), Some("ESTABLISHED"));
    assert_eq!(client.rxbytes, Some(121046));
    assert_eq!(client.txbytes, Some(3959109));
    assert_eq!(client.process_name, "client");
}

#[test]
fn handles_process_name_with_spaces() {
    let rows = parse_netstat(SAMPLE);
    let vscode = rows
        .iter()
        .find(|r| r.pid == Some(661))
        .expect("vscode row");
    assert_eq!(vscode.process_name, "Code - Insiders");
    assert_eq!(vscode.proto, "tcp4");
}

#[test]
fn udp_has_no_state_but_keeps_pid() {
    let rows = parse_netstat(SAMPLE);
    let helper = rows
        .iter()
        .find(|r| r.pid == Some(94258))
        .expect("helper row");
    assert_eq!(helper.proto, "udp4");
    assert_eq!(helper.state, None);
    assert_eq!(helper.process_name, "Client Helper");
    assert_eq!(helper.rxbytes, Some(2415188));
}

#[test]
fn unbound_udp_keeps_wildcards() {
    let rows = parse_netstat(SAMPLE);
    let sym = rows
        .iter()
        .find(|r| r.pid == Some(470))
        .expect("symptomsd row");
    assert_eq!(sym.local_addr, "*.*");
    assert_eq!(sym.foreign_addr, "*.*");
    assert_eq!(sym.process_name, "symptomsd");
}

#[test]
fn extract_process_basic() {
    assert_eq!(extract_process("client:23680  00102").0, "client");
    assert_eq!(extract_process("client:23680  00102").1, Some(23680));
    assert_eq!(
        extract_process("Code - Insiders:661 00102").0,
        "Code - Insiders"
    );
    assert_eq!(extract_process("Code - Insiders:661 00102").1, Some(661));
}

#[test]
fn ignores_empty_lines() {
    let mixed = format!("{SAMPLE}\n\n");
    let rows = parse_netstat(&mixed);
    assert_eq!(rows.len(), 4);
}

#[test]
fn rows_become_observations() {
    let rows = parse_netstat(SAMPLE);
    let at = Timestamp { mono_ns: 9, wall_anchor_ns: 1 };
    let obs = row_to_observation(&rows[0], at);
    assert_eq!(obs.source, Source::Network);
    assert_eq!(obs.timestamp, at);
    assert_eq!(obs.pid, Some(23680));
    assert_eq!(obs.payload.str_at("foreign_addr"), Some("160.79.104.10.443"));
    assert_eq!(obs.payload.u64_at("rxbytes"), Some(121046));
    assert_eq!(obs.payload.str_at("state"), Some("ESTABLISHED"));
}

/// A record: its length, its kind, and bytes at offsets.
fn record(len: usize, kind: u32, bytes: &[(usize, &[u8])]) -> Vec<u8> {
    let mut v = vec![0u8; len.div_ceil(8) * 8];
    v[0..4].copy_from_slice(&(len as u32).to_le_bytes());
    v[4..8].copy_from_slice(&kind.to_le_bytes());
    for (at, b) in bytes {
        v[*at..*at + b.len()].copy_from_slice(b);
    }
    v
}

/// The records of one connection between its frames.
fn snapshot(tcp: bool, state: u32) -> Vec<u8> {
    let mut buf = record(24, 0, &[]);
    buf.extend(record(
        104,
        0x10,
        &[
            (16, &443u16.to_be_bytes()),
            (18, &8080u16.to_be_bytes()),
            (44, &[0x1]),
            (60, &[1, 2, 3, 4]),
            (76, &[127, 0, 0, 1]),
        ],
    ));
    buf.extend(record(72, 0x1, &[(68, &4242u32.to_le_bytes())]));
    buf.extend(record(32, 0x2, &[]));
    buf.extend(record(32, 0x4, &[]));
    buf.extend(record(
        136,
        0x8,
        &[(16, &100u64.to_le_bytes()), (48, &11u64.to_le_bytes()), (32, &7u64.to_le_bytes())],
    ));
    if tcp {
        buf.extend(record(48, 0x20, &[(36, &state.to_le_bytes())]));
    }
    buf.extend(record(24, 0, &[]));
    buf
}

/// TCP rows must carry a valid state string and UDP rows none.
#[test]
fn tcp_states_and_udp_statelessness() {
    let states = [
        "CLOSED", "LISTEN", "SYN_SENT", "SYN_RCVD", "ESTABLISHED", "CLOSE_WAIT", "FIN_WAIT_1",
        "CLOSING", "LAST_ACK", "FIN_WAIT_2", "TIME_WAIT",
    ];
    for n in 0..=11u32 {
        let mut rows = parse_pcblist(&snapshot(true, n), true);
        rows.extend(parse_pcblist(&snapshot(false, n), false));
        assert_eq!(rows.len(), 2);
        for r in &rows {
            if r.proto.starts_with("tcp") {
                if let Some(s) = r.state.as_deref() {
                    assert!(states.contains(&s));
                }
                assert_eq!(r.state.is_some(), n < 11);
            } else {
                assert!(r.state.is_none(), "udp row has state {:?}", r.state);
            }
        }
    }
}

#[test]
fn kernel_records_become_rows() {
    let rows = parse_pcblist(&snapshot(true, 4), true);
    assert_eq!(rows.len(), 1);
    let r = &rows[0];
    assert_eq!(r.proto, "tcp4");
    assert_eq!(r.local_addr, "127.0.0.1.8080");
    assert_eq!(r.foreign_addr, "1.2.3.4.443");
    assert_eq!(r.state.as_deref(), Some("ESTABLISHED"));
    assert_eq!(r.rxbytes, Some(111));
    assert_eq!(r.txbytes, Some(7));
    assert_eq!(pids_of(&rows), vec![4242]);
    let named = with_names(rows, &vec![(4242, "server".to_string())]);
    assert_eq!(named[0].process_name, "server");
    // A list that is cut short ends where it is cut.
    let whole = snapshot(true, 4);
    assert!(parse_pcblist(&whole[..100], true).is_empty());
    assert!(parse_pcblist(&[], true).is_empty());
}
