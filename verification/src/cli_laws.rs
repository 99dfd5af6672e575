//! What holds of command lines: what is written out as options is what the
//! options ask for.

use vstd::prelude::*;
use vstd::string::*;

use crate::cli::{
    agent_task_of, agents_command, agents_defaults, agents_options, events_options, graph_command,
    graph_options, kinds_of, kinds_so_far, mvp_command, mvp_defaults, observe_options,
    query_command, query_defaults, query_options, query_task_of, AgentTask, AgentsArgsView, Asked,
    EventsArgsView, GraphArgsView, MvpArgsView, ObserveArgsView, QueryArgsView, QueryTask,
};
use crate::events::{kind_name_round_trip, EventKind};
use crate::name_laws::{is_free, joined_is_cut_again};
use crate::netstat::u64_of;
use crate::text::{decimal, decimal_round_trip, joined, trim, trim_end, trim_start};

verus! {

// ---------- parts of a command line ------------------------------------------------

/// A number reads back as it was written.
pub proof fn number_reads_back(n: u64)
    ensures
        u64_of(decimal(n as nat)) == Some(n),
{
    decimal_round_trip(n as nat);
    assert(decimal(n as nat)[0] != '+');
}

/// An option with a value.
pub open spec fn given(name: Seq<char>, value: Seq<char>) -> Seq<Seq<char>> {
    seq![name, value]
}

/// An option with a value, if there is one.
pub open spec fn given_if(name: Seq<char>, value: Option<Seq<char>>) -> Seq<Seq<char>> {
    match value {
        Some(v) => seq![name, v],
        None => Seq::empty(),
    }
}

/// An option with a number, if there is one.
pub open spec fn counted_if(name: Seq<char>, value: Option<u64>) -> Seq<Seq<char>> {
    match value {
        Some(n) => seq![name, decimal(n as nat)],
        None => Seq::empty(),
    }
}

/// An option without a value, if it is wanted.
pub open spec fn flag(name: Seq<char>, wanted: bool) -> Seq<Seq<char>> {
    if wanted {
        seq![name]
    } else {
        Seq::empty()
    }
}

// ---------- lists of kinds ---------------------------------------------------------

/// The names of kinds.
pub open spec fn names(ks: Seq<EventKind>) -> Seq<Seq<char>> {
    ks.map_values(|k: EventKind| k.spec_name())
}

/// Kinds, written one after the other.
pub open spec fn listed(ks: Seq<EventKind>) -> Seq<char> {
    joined(names(ks), ","@)
}

proof fn name_is_plain(k: EventKind)
    ensures
        trim(k.spec_name()) == k.spec_name(),
        k.spec_name().len() > 0,
        is_free(k.spec_name(), ','),
{
    reveal_strlit("process_birth");
    reveal_strlit("process_death");
    reveal_strlit("app_focus");
    reveal_strlit("connection_opened");
    reveal_strlit("connection_closed");
    reveal_strlit("connection_completed");
    reveal_strlit("file_changed");
    reveal_strlit("dns_query");
    let s = k.spec_name();
    assert(s.len() > 0);
    assert('a' as u32 == 97 && 'c' as u32 == 99 && 'd' as u32 == 100 && 'f' as u32 == 102 && 'h'
        as u32 == 104 && 'p' as u32 == 112 && 's' as u32 == 115 && 'y' as u32 == 121);
    assert(trim_start(s) == s);
    assert(trim_end(s) == s);
}

proof fn names_are_known(ks: Seq<EventKind>)
    ensures
        kinds_so_far(names(ks)) == Ok::<Seq<EventKind>, Seq<char>>(ks),
    decreases ks.len(),
{
    if ks.len() == 0 {
        assert(ks =~= Seq::<EventKind>::empty());
    } else {
        let t = ks.drop_last();
        names_are_known(t);
        assert(names(ks).drop_last() =~= names(t));
        name_is_plain(ks.last());
        kind_name_round_trip(ks.last());
        assert(t.push(ks.last()) =~= ks);
    }
}

/// A list of kinds reads back as it was written.
pub proof fn kinds_read_back(ks: Seq<EventKind>)
    requires
        ks.len() > 0,
    ensures
        kinds_of(listed(ks)) == Ok::<Seq<EventKind>, Seq<char>>(ks),
{
    reveal_strlit(",");
    assert(","@ =~= seq![',']);
    let n = names(ks);
    assert forall|i: int| 0 <= i < n.len() implies is_free(#[trigger] n[i], ',') by {
        name_is_plain(ks[i]);
    }
    joined_is_cut_again(n, ',');
    names_are_known(ks);
}

// ---------- the command lines ------------------------------------------------------

/// A recording, as options.
pub open spec fn mvp_line(a: MvpArgsView) -> Seq<Seq<char>> {
    given("--duration"@, decimal(a.duration_secs as nat)) + given(
        "--tick"@,
        decimal(a.tick_secs as nat),
    ) + given("--window"@, decimal(a.window_secs as nat)) + given("--model"@, a.model) + given(
        "--ollama-url"@,
        a.ollama_url,
    ) + given("--store-ttl"@, decimal(a.store_ttl_secs as nat)) + given(
        "--retention-days"@,
        decimal(a.retention_days as nat),
    ) + given_if("--store-path"@, a.store_path) + flag("--daemon"@, a.daemon) + flag(
        "--no-store"@,
        a.no_store,
    ) + flag("--no-narrate"@, a.no_narrate)
}

proof fn mvp_names_differ()
    ensures
        ({
            let d = "--duration"@;
            let t = "--tick"@;
            let w = "--window"@;
            let m = "--model"@;
            let o = "--ollama-url"@;
            let l = "--store-ttl"@;
            let r = "--retention-days"@;
            let p = "--store-path"@;
            let b = "--daemon"@;
            let n = "--no-store"@;
            let q = "--no-narrate"@;
            &&& d.len() == 10 && t.len() == 6 && w.len() == 8 && m.len() == 7 && o.len() == 12
            &&& l.len() == 11 && r.len() == 16 && p.len() == 12 && b.len() == 8 && n.len() == 10
            &&& q.len() == 12 && "--print-launchd-plist"@.len() == 21
            &&& d != n && w != b && o != p && o != q && p != q
        }),
{
    reveal_strlit("--duration");
    reveal_strlit("--tick");
    reveal_strlit("--window");
    reveal_strlit("--model");
    reveal_strlit("--ollama-url");
    reveal_strlit("--store-ttl");
    reveal_strlit("--retention-days");
    reveal_strlit("--store-path");
    reveal_strlit("--daemon");
    reveal_strlit("--no-store");
    reveal_strlit("--no-narrate");
    reveal_strlit("--print-launchd-plist");
    assert("--duration"@[2] == 'd' && "--no-store"@[2] == 'n');
    assert("--window"@[2] == 'w' && "--daemon"@[2] == 'd');
    assert("--ollama-url"@[2] == 'o' && "--store-path"@[2] == 's' && "--no-narrate"@[2] == 'n');
}

/// A recording that is written out as options is the one that is asked for.
pub proof fn mvp_line_is_followed(a: MvpArgsView)
    ensures
        mvp_command(mvp_line(a), 0, mvp_defaults()) == Asked::Run(a),
{
    mvp_names_differ();
    number_reads_back(a.duration_secs);
    number_reads_back(a.tick_secs);
    number_reads_back(a.window_secs);
    number_reads_back(a.store_ttl_secs);
    number_reads_back(a.retention_days);
    let line = mvp_line(a);
    let d = mvp_defaults();
    assert(line[0] == "--duration"@ && line[1] == decimal(a.duration_secs as nat));
    assert(line[2] == "--tick"@ && line[3] == decimal(a.tick_secs as nat));
    assert(line[4] == "--window"@ && line[5] == decimal(a.window_secs as nat));
    assert(line[6] == "--model"@ && line[7] == a.model);
    assert(line[8] == "--ollama-url"@ && line[9] == a.ollama_url);
    assert(line[10] == "--store-ttl"@ && line[11] == decimal(a.store_ttl_secs as nat));
    assert(line[12] == "--retention-days"@ && line[13] == decimal(a.retention_days as nat));
    let d1 = MvpArgsView { duration_secs: a.duration_secs, ..d };
    let d2 = MvpArgsView { tick_secs: a.tick_secs, ..d1 };
    let d3 = MvpArgsView { window_secs: a.window_secs, ..d2 };
    let d4 = MvpArgsView { model: a.model, ..d3 };
    let d5 = MvpArgsView { ollama_url: a.ollama_url, ..d4 };
    let d6 = MvpArgsView { store_ttl_secs: a.store_ttl_secs, ..d5 };
    let d7 = MvpArgsView { retention_days: a.retention_days, ..d6 };
    let d8 = MvpArgsView { store_path: a.store_path, ..d7 };
    let d9 = MvpArgsView { daemon: a.daemon, ..d8 };
    let d10 = MvpArgsView { no_store: a.no_store, ..d9 };
    assert(mvp_command(line, 0, d) == mvp_command(line, 2, d1));
    assert(mvp_command(line, 2, d1) == mvp_command(line, 4, d2));
    assert(mvp_command(line, 4, d2) == mvp_command(line, 6, d3));
    assert(mvp_command(line, 6, d3) == mvp_command(line, 8, d4));
    assert(mvp_command(line, 8, d4) == mvp_command(line, 10, d5));
    assert(mvp_command(line, 10, d5) == mvp_command(line, 12, d6));
    assert(mvp_command(line, 12, d6) == mvp_command(line, 14, d7));
    let p8 = 14 + given_if("--store-path"@, a.store_path).len();
    let p9 = p8 + flag("--daemon"@, a.daemon).len();
    let p10 = p9 + flag("--no-store"@, a.no_store).len();
    let p11 = p10 + flag("--no-narrate"@, a.no_narrate).len();
    assert(line.len() == p11);
    if a.store_path is Some {
        assert(line[14] == "--store-path"@ && line[15] == a.store_path->0);
    }
    assert(mvp_command(line, 14, d7) == mvp_command(line, p8 as int, d8));
    if a.daemon {
        assert(line[p8 as int] == "--daemon"@);
    }
    assert(mvp_command(line, p8 as int, d8) == mvp_command(line, p9 as int, d9));
    if a.no_store {
        assert(line[p9 as int] == "--no-store"@);
    }
    assert(mvp_command(line, p9 as int, d9) == mvp_command(line, p10 as int, d10));
    if a.no_narrate {
        assert(line[p10 as int] == "--no-narrate"@);
    }
    assert(mvp_command(line, p10 as int, d10) == mvp_command(line, p11 as int, a));
}

/// An observation, as options.
pub open spec fn observe_line(a: ObserveArgsView) -> Seq<Seq<char>> {
    counted_if("--duration"@, a.duration_secs) + given_if("--out"@, a.out) + flag("--raw"@, a.raw)
}

/// An observation that is written out as options is the one that is asked for.
pub proof fn observe_line_is_followed(a: ObserveArgsView)
    ensures
        observe_options(
            observe_line(a),
            0,
            (ObserveArgsView { raw: false, duration_secs: None, out: None }),
        ) == Asked::Run(a),
{
    reveal_strlit("--duration");
    reveal_strlit("--out");
    reveal_strlit("--raw");
    assert("--duration"@.len() == 10 && "--out"@.len() == 5 && "--raw"@.len() == 5);
    assert("--out"@[2] == 'o' && "--raw"@[2] == 'r');
    let line = observe_line(a);
    let d = ObserveArgsView { raw: false, duration_secs: None, out: None };
    let d1 = ObserveArgsView { duration_secs: a.duration_secs, ..d };
    let d2 = ObserveArgsView { out: a.out, ..d1 };
    let p1 = counted_if("--duration"@, a.duration_secs).len();
    let p2 = p1 + given_if("--out"@, a.out).len();
    let p3 = p2 + flag("--raw"@, a.raw).len();
    assert(line.len() == p3);
    if a.duration_secs is Some {
        number_reads_back(a.duration_secs->0);
        assert(line[0] == "--duration"@ && line[1] == decimal(a.duration_secs->0 as nat));
    }
    assert(observe_options(line, 0, d) == observe_options(line, p1 as int, d1));
    if a.out is Some {
        assert(line[p1 as int] == "--out"@ && line[(p1 + 1) as int] == a.out->0);
    }
    assert(observe_options(line, p1 as int, d1) == observe_options(line, p2 as int, d2));
    if a.raw {
        assert(line[p2 as int] == "--raw"@);
    }
    assert(observe_options(line, p2 as int, d2) == observe_options(line, p3 as int, a));
}

/// A choice of kinds that is written out as an option is the one that is asked
/// for.
pub proof fn events_line_is_followed(a: EventsArgsView)
    requires
        a.kinds is Some ==> a.kinds->0.len() > 0,
    ensures
        events_options(
            given_if(
                "--kinds"@,
                match a.kinds {
                    Some(ks) => Some(listed(ks)),
                    None => None,
                },
            ),
            0,
            (EventsArgsView { kinds: None }),
        ) == Asked::Run(a),
{
    if a.kinds is Some {
        kinds_read_back(a.kinds->0);
        let line = given_if("--kinds"@, Some(listed(a.kinds->0)));
        assert(line[0] == "--kinds"@ && line[1] == listed(a.kinds->0));
        assert(events_options(line, 2, a) == Asked::Run(a));
    }
}

/// The directory of graphs is the one that is given, and it has to be given.
pub proof fn graph_line_is_followed(dir: Seq<char>)
    ensures
        graph_command(seq!["--out-dir"@, dir]) == Asked::Run(GraphArgsView { out_dir: Some(dir) }),
        graph_command(Seq::empty()) is Fail,
{
    let line = seq!["--out-dir"@, dir];
    let a = GraphArgsView { out_dir: Some(dir) };
    assert(graph_options(line, 2, a) == Asked::Run(a));
}

/// The name of a task of the agents.
pub open spec fn agent_name(t: AgentTask) -> Seq<char> {
    match t {
        AgentTask::Timeline => "timeline"@,
        AgentTask::ProcessAnomaly => "process-anomaly"@,
        AgentTask::NetworkReview => "network-review"@,
        AgentTask::DnsReview => "dns-review"@,
    }
}

/// A task of the agents, as a command line.
pub open spec fn agents_line(a: AgentsArgsView) -> Seq<Seq<char>> {
    seq![agent_name(a.task)] + given("--model"@, a.model) + given("--ollama-url"@, a.ollama_url)
        + given("--max-items"@, decimal(a.max_input_items as nat)) + given_if(
        "--graph"@,
        a.graph_path,
    ) + given_if("--store"@, a.store_path) + flag("--pretty"@, a.pretty)
}

/// A task of the agents that is written out is the one that is asked for.
pub proof fn agents_line_is_followed(a: AgentsArgsView)
    ensures
        agents_command(agents_line(a)) == Asked::Run(a),
{
    reveal_strlit("timeline");
    reveal_strlit("process-anomaly");
    reveal_strlit("network-review");
    reveal_strlit("dns-review");
    assert("timeline"@.len() == 8 && "process-anomaly"@.len() == 15 && "network-review"@.len() == 14
        && "dns-review"@.len() == 10);
    reveal_strlit("--model");
    reveal_strlit("--ollama-url");
    reveal_strlit("--max-items");
    reveal_strlit("--graph");
    reveal_strlit("--store");
    reveal_strlit("--pretty");
    assert("--model"@.len() == 7 && "--ollama-url"@.len() == 12 && "--max-items"@.len() == 11
        && "--graph"@.len() == 7 && "--store"@.len() == 7 && "--pretty"@.len() == 8);
    assert("--model"@[2] == 'm' && "--graph"@[2] == 'g' && "--store"@[2] == 's');
    number_reads_back(a.max_input_items);
    let line = agents_line(a);
    assert(line[0] == agent_name(a.task));
    assert(agent_task_of(line[0]) == Some(a.task));
    let d = agents_defaults(a.task);
    let d1 = AgentsArgsView { model: a.model, ..d };
    let d2 = AgentsArgsView { ollama_url: a.ollama_url, ..d1 };
    let d3 = AgentsArgsView { max_input_items: a.max_input_items, ..d2 };
    let d4 = AgentsArgsView { graph_path: a.graph_path, ..d3 };
    let d5 = AgentsArgsView { store_path: a.store_path, ..d4 };
    assert(line[1] == "--model"@ && line[2] == a.model);
    assert(line[3] == "--ollama-url"@ && line[4] == a.ollama_url);
    assert(line[5] == "--max-items"@ && line[6] == decimal(a.max_input_items as nat));
    assert(agents_options(line, 1, d) == agents_options(line, 3, d1));
    assert(agents_options(line, 3, d1) == agents_options(line, 5, d2));
    assert(agents_options(line, 5, d2) == agents_options(line, 7, d3));
    let p4 = 7 + given_if("--graph"@, a.graph_path).len();
    let p5 = p4 + given_if("--store"@, a.store_path).len();
    let p6 = p5 + flag("--pretty"@, a.pretty).len();
    assert(line.len() == p6);
    if a.graph_path is Some {
        assert(line[7] == "--graph"@ && line[8] == a.graph_path->0);
    }
    assert(agents_options(line, 7, d3) == agents_options(line, p4 as int, d4));
    if a.store_path is Some {
        assert(line[p4 as int] == "--store"@ && line[(p4 + 1) as int] == a.store_path->0);
    }
    assert(agents_options(line, p4 as int, d4) == agents_options(line, p5 as int, d5));
    if a.pretty {
        assert(line[p5 as int] == "--pretty"@);
    }
    assert(agents_options(line, p5 as int, d5) == agents_options(line, p6 as int, a));
}

/// The name of a query.
pub open spec fn query_name(t: QueryTask) -> Seq<char> {
    match t {
        QueryTask::Summary => "summary"@,
        QueryTask::Processes => "processes"@,
        QueryTask::Endpoints => "endpoints"@,
        QueryTask::Domains => "domains"@,
        QueryTask::Focus => "focus"@,
        QueryTask::Events => "events"@,
        QueryTask::Topology => "topology"@,
        QueryTask::Prune => "prune"@,
    }
}

/// A query, as a command line.
pub open spec fn query_line(a: QueryArgsView) -> Seq<Seq<char>> {
    seq![query_name(a.task)] + given("--since-mins"@, decimal(a.since_mins as nat)) + given_if(
        "--store"@,
        a.store,
    ) + counted_if("--limit"@, a.limit) + counted_if("--older-than-days"@, a.older_than_days)
        + given_if(
        "--kinds"@,
        match a.kinds {
            Some(ks) => Some(listed(ks)),
            None => None,
        },
    ) + flag("--pretty"@, a.pretty)
}

proof fn query_is_named(t: QueryTask)
    ensures
        query_task_of(query_name(t)) == Some(t),
{
    reveal_strlit("summary");
    reveal_strlit("processes");
    reveal_strlit("endpoints");
    reveal_strlit("domains");
    reveal_strlit("focus");
    reveal_strlit("events");
    reveal_strlit("topology");
    reveal_strlit("prune");
    assert("summary"@.len() == 7 && "processes"@.len() == 9 && "endpoints"@.len() == 9
        && "domains"@.len() == 7 && "focus"@.len() == 5 && "events"@.len() == 6
        && "topology"@.len() == 8 && "prune"@.len() == 5);
    assert("summary"@[0] == 's' && "domains"@[0] == 'd' && "processes"@[0] == 'p' && "endpoints"@[0]
        == 'e' && "focus"@[0] == 'f' && "prune"@[0] == 'p');
}

proof fn query_names_differ()
    ensures
        "--since-mins"@.len() == 12,
        "--store"@.len() == 7,
        "--limit"@.len() == 7,
        "--older-than-days"@.len() == 17,
        "--kinds"@.len() == 7,
        "--pretty"@.len() == 8,
        "--store"@ != "--limit"@,
        "--store"@ != "--kinds"@,
        "--limit"@ != "--kinds"@,
{
    reveal_strlit("--since-mins");
    reveal_strlit("--store");
    reveal_strlit("--limit");
    reveal_strlit("--older-than-days");
    reveal_strlit("--kinds");
    reveal_strlit("--pretty");
    assert("--since-mins"@.len() == 12 && "--store"@.len() == 7 && "--limit"@.len() == 7
        && "--older-than-days"@.len() == 17 && "--kinds"@.len() == 7 && "--pretty"@.len() == 8);
    assert("--store"@[2] == 's' && "--limit"@[2] == 'l' && "--kinds"@[2] == 'k');
}

/// The places of the parts of a query that is written out.
pub open spec fn query_places(a: QueryArgsView) -> (int, int, int, int, int) {
    let p = 3 + given_if("--store"@, a.store).len();
    let q = p + counted_if("--limit"@, a.limit).len();
    let r = q + counted_if("--older-than-days"@, a.older_than_days).len();
    let s = r + if a.kinds is Some {
        2int
    } else {
        0
    };
    let t = s + flag("--pretty"@, a.pretty).len();
    (p as int, q as int, r as int, s, t)
}

/// Whether a command line has each part of a query at its place.
pub open spec fn writes_query(line: Seq<Seq<char>>, a: QueryArgsView) -> bool {
    let (p, q, r, s, t) = query_places(a);
    &&& line.len() == t
    &&& line[0] == query_name(a.task)
    &&& line[1] == "--since-mins"@ && line[2] == decimal(a.since_mins as nat)
    &&& a.store is Some ==> line[3] == "--store"@ && line[4] == a.store->0
    &&& a.limit is Some ==> line[p] == "--limit"@ && line[p + 1] == decimal(a.limit->0 as nat)
    &&& a.older_than_days is Some ==> line[q] == "--older-than-days"@ && line[q + 1] == decimal(
        a.older_than_days->0 as nat,
    )
    &&& a.kinds is Some ==> line[r] == "--kinds"@ && line[r + 1] == listed(a.kinds->0)
    &&& a.pretty ==> line[s] == "--pretty"@
}

proof fn query_is_written(a: QueryArgsView)
    ensures
        writes_query(query_line(a), a),
{
}

proof fn query_is_read(line: Seq<Seq<char>>, a: QueryArgsView)
    requires
        writes_query(line, a),
        a.kinds is Some ==> a.kinds->0.len() > 0,
    ensures
        query_options(line, 1, query_defaults(a.task)) == Asked::Run(a),
{
    query_names_differ();
    let (p, q, r, s, t) = query_places(a);
    let d = query_defaults(a.task);
    let d1 = QueryArgsView { since_mins: a.since_mins, ..d };
    let d2 = QueryArgsView { store: a.store, ..d1 };
    let d3 = QueryArgsView { limit: a.limit, ..d2 };
    let d4 = QueryArgsView { older_than_days: a.older_than_days, ..d3 };
    let d5 = QueryArgsView { kinds: a.kinds, ..d4 };
    number_reads_back(a.since_mins);
    assert(query_options(line, 1, d) == query_options(line, 3, d1));
    assert(query_options(line, 3, d1) == query_options(line, p, d2));
    if a.limit is Some {
        number_reads_back(a.limit->0);
    }
    assert(query_options(line, p, d2) == query_options(line, q, d3));
    if a.older_than_days is Some {
        number_reads_back(a.older_than_days->0);
    }
    assert(query_options(line, q, d3) == query_options(line, r, d4));
    if a.kinds is Some {
        kinds_read_back(a.kinds->0);
    }
    assert(query_options(line, r, d4) == query_options(line, s, d5));
    assert(query_options(line, s, d5) == query_options(line, t, a));
}

/// A query that is written out is the one that is asked for.
pub proof fn query_line_is_followed(a: QueryArgsView)
    requires
        a.kinds is Some ==> a.kinds->0.len() > 0,
    ensures
        query_command(query_line(a)) == Asked::Run(a),
{
    query_is_named(a.task);
    query_is_written(a);
    query_is_read(query_line(a), a);
}

} // verus!
