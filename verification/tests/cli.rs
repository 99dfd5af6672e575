//! Arguments of the tools.

use agentworld::cli::{
    launchd_plist, parse_agents_args, parse_events_args, parse_graph_args, parse_kinds, parse_mvp_args,
    parse_observe_args, parse_query_args, resolve_store_path, tick_outruns_window, wants_kind, AgentTask,
    Command, QueryTask,
};
use agentworld::events::EventKind;

fn words(line: &str) -> Vec<String> {
    line.split_whitespace().map(String::from).collect()
}

fn message<A>(c: Command<A>) -> String {
    match c {
        Command::Fail(m) => m,
        _ => panic!("the arguments were accepted"),
    }
}

fn options<A>(c: Command<A>) -> A {
    match c {
        Command::Run(a) => a,
        Command::Fail(m) => panic!("{m}"),
        _ => panic!("no options"),
    }
}

#[test]
fn the_recorder_runs_once_by_default() {
    let a = options(parse_mvp_args(&words("")));
    assert_eq!((a.duration_secs, a.tick_secs, a.window_secs), (30, 60, 300));
    assert!(!a.daemon && !a.no_store && !a.no_narrate);
    assert_eq!(a.model, "gemma3:4b");
    assert_eq!((a.store_ttl_secs, a.retention_days), (3600, 30));
    assert!(!tick_outruns_window(&a));
}

#[test]
fn the_recorder_reads_its_options() {
    let a = options(parse_mvp_args(&words(
        "--daemon --tick 600 --window 60 --model m --ollama-url u --store-path p --no-store \
         --no-narrate --retention-days 0 --store-ttl 5 --duration 9",
    )));
    assert!(a.daemon && a.no_store && a.no_narrate);
    assert_eq!((a.duration_secs, a.tick_secs, a.window_secs), (9, 600, 60));
    assert_eq!((a.model.as_str(), a.ollama_url.as_str()), ("m", "u"));
    assert_eq!(a.store_path.as_deref(), Some("p"));
    assert_eq!((a.store_ttl_secs, a.retention_days), (5, 0));
    assert!(tick_outruns_window(&a));
}

#[test]
fn the_recorder_says_what_is_wrong() {
    let fail = |line: &str| message(parse_mvp_args(&words(line)));
    assert_eq!(fail("--duration"), "--duration requires a value (seconds)");
    assert_eq!(fail("--duration soon"), "--duration must be an integer number of seconds");
    assert_eq!(fail("--tick -1"), "--tick must be an integer number of seconds");
    assert_eq!(fail("--model"), "--model requires a value");
    assert_eq!(fail("--retention-days x"), "--retention-days must be an integer (0 disables)");
    assert_eq!(fail("--daemon --wat"), "unknown argument: --wat");
    // What comes first decides.
    assert!(matches!(parse_mvp_args(&words("--help --wat")), Command::Help));
    assert!(matches!(parse_mvp_args(&words("-h")), Command::Help));
    assert!(matches!(parse_mvp_args(&words("--print-launchd-plist")), Command::Plist));
}

#[test]
fn the_observer_and_the_graph_writer_read_their_options() {
    let a = options(parse_observe_args(&words("--raw --duration 60 --out trace.ndjson")));
    assert!(a.raw);
    assert_eq!((a.duration_secs, a.out.as_deref()), (Some(60), Some("trace.ndjson")));
    assert_eq!(message(parse_observe_args(&words("--out"))), "--out requires a path");
    assert_eq!(message(parse_graph_args(&words(""))), "--out-dir is required");
    assert_eq!(options(parse_graph_args(&words("--out-dir o"))).out_dir.as_deref(), Some("o"));
}

#[test]
fn kinds_are_lists_of_names() {
    assert_eq!(
        parse_kinds(" dns_query, ,connection_opened ").unwrap(),
        vec![EventKind::DnsQuery, EventKind::ConnectionOpened]
    );
    assert_eq!(parse_kinds(" , ").unwrap_err(), "--kinds list is empty");
    assert_eq!(
        parse_kinds("dns_query,nope").unwrap_err(),
        "unknown event kind 'nope' (expected snake_case, e.g. dns_query)"
    );
    let a = options(parse_events_args(&words("--kinds app_focus")));
    assert!(wants_kind(&a, EventKind::AppFocus));
    assert!(!wants_kind(&a, EventKind::DnsQuery));
    assert!(wants_kind(&options(parse_events_args(&words(""))), EventKind::DnsQuery));
}

#[test]
fn agents_need_a_task() {
    let a = options(parse_agents_args(&words("process-anomaly --store w.db --max-items 5 --pretty")));
    assert_eq!(a.task, AgentTask::ProcessAnomaly);
    assert_eq!((a.store_path.as_deref(), a.max_input_items, a.pretty), (Some("w.db"), 5, true));
    assert_eq!(
        message(parse_agents_args(&words(""))),
        "missing subcommand (timeline|process-anomaly|network-review|dns-review)"
    );
    assert_eq!(message(parse_agents_args(&words("dance"))), "unknown subcommand: dance");
    assert!(matches!(parse_agents_args(&words("--help")), Command::Help));
}

#[test]
fn queries_need_a_name() {
    let a = options(parse_query_args(&words("events --since-mins 5 --limit 2 --kinds dns_query")));
    assert_eq!(a.task, QueryTask::Events);
    assert_eq!((a.since_mins, a.limit), (5, Some(2)));
    assert_eq!(a.kinds, Some(vec![EventKind::DnsQuery]));
    assert_eq!(options(parse_query_args(&words("summary"))).since_mins, 60);
    assert!(matches!(parse_query_args(&words("")), Command::Usage));
    assert_eq!(message(parse_query_args(&words("prune --older-than-days x"))), "--older-than-days must be an integer");
}

#[test]
fn the_store_is_where_it_is_said_to_be() {
    let home = Some("/Users/me".to_string());
    assert_eq!(
        resolve_store_path(false, &None, &home).as_deref(),
        Some("/Users/me/Library/Application Support/agentworld/world.db")
    );
    assert_eq!(
        resolve_store_path(false, &None, &Some("/".into())).as_deref(),
        Some("/Library/Application Support/agentworld/world.db")
    );
    assert_eq!(resolve_store_path(false, &Some("x.db".into()), &home).as_deref(), Some("x.db"));
    assert_eq!(resolve_store_path(true, &Some("x.db".into()), &home), None);
    assert_eq!(resolve_store_path(false, &None, &None), None);
}

#[test]
fn the_service_runs_the_program_without_narration() {
    let p = launchd_plist("/opt/aw-mvp", "/Users/me");
    assert!(p.starts_with("<?xml version=\"1.0\" encoding=\"UTF-8\"?>\n<!DOCTYPE plist"));
    assert!(p.contains("        <string>/opt/aw-mvp</string>\n        <string>--daemon</string>"));
    assert!(p.contains("<string>/Users/me/Library/Logs/agentworld/aw-mvp.log</string>"));
    assert!(p.ends_with("</dict>\n</plist>"));
}
