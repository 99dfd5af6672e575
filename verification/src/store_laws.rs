//! What holds of the store whatever is merged into it, pruned from it or read
//! from it.

use vstd::prelude::*;

use crate::events::{timestamp_json_round_trip, EventView};
use crate::graph::{
    AppNodeView, DomainNodeView, EdgeView, FileNodeView, GraphView, Interval, ProcessNodeView,
    SocketNodeView,
};
use crate::json::{entry, str_array, JsonView};
use crate::observation::Timestamp;
use crate::order::{ascending, sort_by_key};
use crate::seqs::{
    distinct_by, filter_map_start, filter_map_step, first_where, first_where_is_first, take_all,
};
use crate::store::{
    column, column_round_trip, process_id_round_trip, socket_id_round_trip, unix_ns, EdgeRowView,
    NodeKind, NodeRowView, StoreView,
};
use crate::store_admin::{keep_edge, keep_event, keep_node, new_store, pruned};
use crate::store_history::{new_apps, new_domains, see_app, see_domain, sighting_age};
use crate::store_load::{
    edge_of_row, event_row, event_time, events_between, has_node, loaded, nodes_in, overlaps,
    pick_app, pick_domain, pick_edge, pick_edge_within, pick_event, pick_file, pick_process,
    pick_socket, windowed,
};
use crate::store_merge::{
    bump, edge_again, edge_key, edge_row, edge_rows, is_edge, is_node, key_of, merged, node_again,
    node_at, node_key, node_rows, upsert_edge, upsert_edges, upsert_node, upsert_nodes, EdgeKey,
};
use crate::store_rows::{
    app_attrs, app_of_row, app_row, domain_attrs, domain_of_row, domain_row, file_attrs,
    file_of_row, file_row, interval_json, interval_of, intervals_json, intervals_of, process_attrs,
    process_of_row, process_row, socket_attrs, socket_of_row, socket_row, strings_of,
};

verus! {

// ---------- upserts ------------------------------------------------------------

/// A row that was put in is found under its key, joined with what the table
/// had there; every other key is untouched.
pub proof fn upsert_node_reads_back(
    nodes: Seq<NodeRowView>,
    row: NodeRowView,
    kind: NodeKind,
    id: Seq<char>,
)
    ensures
        node_at(upsert_node(nodes, row), kind, id) == if kind == row.kind && id == row.id {
            match node_at(nodes, kind, id) {
                Some(old) => Some(node_again(old, row)),
                None => Some(row),
            }
        } else {
            node_at(nodes, kind, id)
        },
        upsert_node(nodes, row).len() == nodes.len() + if node_at(nodes, row.kind, row.id) is None {
            1int
        } else {
            0int
        },
{
    let after = upsert_node(nodes, row);
    let p = is_node(row.kind, row.id);
    let q = is_node(kind, id);
    first_where_is_first(nodes, p);
    first_where_is_first(nodes, q);
    first_where_is_first(after, q);
    let at = match first_where(nodes, p) {
        Some(i) => i,
        None => nodes.len() as int,
    };
    assert forall|j: int| 0 <= j < after.len() && j != at implies after[j] == nodes[j] by {}
    if kind == row.kind && id == row.id {
        assert(q(after[at]));
        assert forall|j: int| 0 <= j < at implies !q(#[trigger] after[j]) by {
            assert(after[j] == nodes[j]);
        }
    } else {
        assert(!q(after[at]));
        match first_where(nodes, q) {
            Some(k) => {
                assert(k != at);
                assert(after[k] == nodes[k]);
                assert forall|j: int| 0 <= j < k implies !q(#[trigger] after[j]) by {
                    if j != at {
                        assert(after[j] == nodes[j]);
                    }
                }
            },
            None => {
                assert forall|j: int| 0 <= j < after.len() implies !q(#[trigger] after[j]) by {
                    if j != at {
                        assert(after[j] == nodes[j]);
                    }
                }
            },
        }
    }
}

/// The edge with a key, if the table has it.
pub open spec fn edge_at(edges: Seq<EdgeRowView>, key: EdgeKey) -> Option<EdgeRowView> {
    match first_where(edges, is_edge(key)) {
        Some(i) => Some(edges[i]),
        None => None,
    }
}

/// An edge that was put in is found under its key, joined with what the table
/// had there; every other key is untouched.
pub proof fn upsert_edge_reads_back(edges: Seq<EdgeRowView>, row: EdgeRowView, key: EdgeKey)
    ensures
        edge_at(upsert_edge(edges, row), key) == if key == key_of(row) {
            match edge_at(edges, key) {
                Some(old) => Some(edge_again(old, row)),
                None => Some(row),
            }
        } else {
            edge_at(edges, key)
        },
        upsert_edge(edges, row).len() == edges.len() + if edge_at(edges, key_of(row)) is None {
            1int
        } else {
            0int
        },
{
    let after = upsert_edge(edges, row);
    let p = is_edge(key_of(row));
    let q = is_edge(key);
    first_where_is_first(edges, p);
    first_where_is_first(edges, q);
    first_where_is_first(after, q);
    let at = match first_where(edges, p) {
        Some(i) => i,
        None => edges.len() as int,
    };
    assert forall|j: int| 0 <= j < after.len() && j != at implies after[j] == edges[j] by {}
    assert(key_of(after[at]) == key_of(row));
    if key == key_of(row) {
        assert(q(after[at]));
        assert forall|j: int| 0 <= j < at implies !q(#[trigger] after[j]) by {
            assert(after[j] == edges[j]);
        }
    } else {
        assert(!q(after[at]));
        match first_where(edges, q) {
            Some(k) => {
                assert(k != at);
                assert(after[k] == edges[k]);
                assert forall|j: int| 0 <= j < k implies !q(#[trigger] after[j]) by {
                    if j != at {
                        assert(after[j] == edges[j]);
                    }
                }
            },
            None => {
                assert forall|j: int| 0 <= j < after.len() implies !q(#[trigger] after[j]) by {
                    if j != at {
                        assert(after[j] == edges[j]);
                    }
                }
            },
        }
    }
}

/// Whether no two rows of a table have the same key.
pub open spec fn keys_are_unique(s: StoreView) -> bool {
    distinct_by(s.nodes, node_key()) && distinct_by(s.edges, edge_key())
}

proof fn upsert_node_keeps_keys(nodes: Seq<NodeRowView>, row: NodeRowView)
    requires
        distinct_by(nodes, node_key()),
    ensures
        distinct_by(upsert_node(nodes, row), node_key()),
{
    first_where_is_first(nodes, is_node(row.kind, row.id));
    let after = upsert_node(nodes, row);
    let key = node_key();
    assert forall|i: int, j: int| 0 <= i < j < after.len() implies key(#[trigger] after[i]) != key(
        #[trigger] after[j],
    ) by {
        match first_where(nodes, is_node(row.kind, row.id)) {
            Some(k) => {
                assert(key(after[i]) == key(nodes[i]));
                assert(key(after[j]) == key(nodes[j]));
            },
            None => {
                if j == nodes.len() {
                    assert(!is_node(row.kind, row.id)(nodes[i]));
                } else {
                    assert(key(nodes[i]) != key(nodes[j]));
                }
            },
        }
    }
}

proof fn upsert_edge_keeps_keys(edges: Seq<EdgeRowView>, row: EdgeRowView)
    requires
        distinct_by(edges, edge_key()),
    ensures
        distinct_by(upsert_edge(edges, row), edge_key()),
{
    first_where_is_first(edges, is_edge(key_of(row)));
    let after = upsert_edge(edges, row);
    let key = edge_key();
    assert forall|i: int, j: int| 0 <= i < j < after.len() implies key(#[trigger] after[i]) != key(
        #[trigger] after[j],
    ) by {
        match first_where(edges, is_edge(key_of(row))) {
            Some(k) => {
                assert(key(after[i]) == key(edges[i]));
                assert(key(after[j]) == key(edges[j]));
            },
            None => {
                if j == edges.len() {
                    assert(!is_edge(key_of(row))(edges[i]));
                } else {
                    assert(key(edges[i]) != key(edges[j]));
                }
            },
        }
    }
}

proof fn upsert_nodes_keeps_keys(nodes: Seq<NodeRowView>, rows: Seq<NodeRowView>)
    requires
        distinct_by(nodes, node_key()),
    ensures
        distinct_by(upsert_nodes(nodes, rows), node_key()),
    decreases rows.len(),
{
    if rows.len() > 0 {
        upsert_nodes_keeps_keys(nodes, rows.drop_last());
        upsert_node_keeps_keys(upsert_nodes(nodes, rows.drop_last()), rows.last());
    }
}

proof fn upsert_edges_keeps_keys(edges: Seq<EdgeRowView>, rows: Seq<EdgeRowView>)
    requires
        distinct_by(edges, edge_key()),
    ensures
        distinct_by(upsert_edges(edges, rows), edge_key()),
    decreases rows.len(),
{
    if rows.len() > 0 {
        upsert_edges_keeps_keys(edges, rows.drop_last());
        upsert_edge_keeps_keys(upsert_edges(edges, rows.drop_last()), rows.last());
    }
}

/// Merging never makes two rows of the same key.
pub proof fn merge_keeps_keys_unique(s: StoreView, g: GraphView)
    requires
        keys_are_unique(s),
    ensures
        keys_are_unique(merged(s, g)),
{
    upsert_nodes_keeps_keys(s.nodes, node_rows(g));
    upsert_edges_keeps_keys(s.edges, edge_rows(merged(s, g).nodes, g));
}

// ---------- lifetimes ------------------------------------------------------------

/// A known node stays known, and its lifetime only widens: it was first seen
/// no later and last seen no earlier than before.
pub proof fn lifetimes_only_widen(
    nodes: Seq<NodeRowView>,
    rows: Seq<NodeRowView>,
    kind: NodeKind,
    id: Seq<char>,
)
    ensures
        node_at(nodes, kind, id) matches Some(old) ==> (node_at(
            upsert_nodes(nodes, rows),
            kind,
            id,
        ) matches Some(new) && new.first_seen <= old.first_seen && new.last_seen >= old.last_seen),
    decreases rows.len(),
{
    if rows.len() > 0 {
        lifetimes_only_widen(nodes, rows.drop_last(), kind, id);
        upsert_node_reads_back(upsert_nodes(nodes, rows.drop_last()), rows.last(), kind, id);
    }
}

/// Every row that was put in is in the table, over at least its own lifetime.
pub proof fn merged_rows_are_there(nodes: Seq<NodeRowView>, rows: Seq<NodeRowView>, i: int)
    requires
        0 <= i < rows.len(),
    ensures
        node_at(upsert_nodes(nodes, rows), rows[i].kind, rows[i].id) matches Some(r)
            && r.first_seen <= rows[i].first_seen && r.last_seen >= rows[i].last_seen,
    decreases rows.len(),
{
    let rest = upsert_nodes(nodes, rows.drop_last());
    upsert_node_reads_back(rest, rows.last(), rows[i].kind, rows[i].id);
    if i < rows.len() - 1 {
        assert(rows.drop_last()[i] == rows[i]);
        merged_rows_are_there(nodes, rows.drop_last(), i);
    }
}

/// Of a node that the rows name once, the table holds the row's attributes,
/// first seen at the earlier and last seen at the later of both times.
pub proof fn merge_joins_lifetimes(nodes: Seq<NodeRowView>, rows: Seq<NodeRowView>, i: int)
    requires
        0 <= i < rows.len(),
        distinct_by(rows, node_key()),
    ensures
        node_at(upsert_nodes(nodes, rows), rows[i].kind, rows[i].id) == Some(
            match node_at(nodes, rows[i].kind, rows[i].id) {
                Some(old) => node_again(old, rows[i]),
                None => rows[i],
            },
        ),
    decreases rows.len(),
{
    let t = rows.drop_last();
    let kind = rows[i].kind;
    let id = rows[i].id;
    let key = node_key();
    assert(distinct_by(t, key)) by {
        assert forall|a: int, b: int| 0 <= a < b < t.len() implies key(#[trigger] t[a]) != key(
            #[trigger] t[b],
        ) by {
            assert(key(rows[a]) != key(rows[b]));
        }
    }
    upsert_node_reads_back(upsert_nodes(nodes, t), rows.last(), kind, id);
    if i < rows.len() - 1 {
        assert(t[i] == rows[i]);
        merge_joins_lifetimes(nodes, t, i);
        assert(key(rows[i]) != key(rows[rows.len() - 1]));
    } else {
        untouched_by_others(nodes, t, kind, id);
    }
}

/// A node that no row names is untouched.
pub proof fn untouched_by_others(
    nodes: Seq<NodeRowView>,
    rows: Seq<NodeRowView>,
    kind: NodeKind,
    id: Seq<char>,
)
    requires
        forall|j: int| 0 <= j < rows.len() ==> node_key()(#[trigger] rows[j]) != (kind, id),
    ensures
        node_at(upsert_nodes(nodes, rows), kind, id) == node_at(nodes, kind, id),
    decreases rows.len(),
{
    if rows.len() > 0 {
        let t = rows.drop_last();
        assert forall|j: int| 0 <= j < t.len() implies node_key()(#[trigger] t[j]) != (kind, id) by {
            assert(t[j] == rows[j]);
        }
        untouched_by_others(nodes, t, kind, id);
        assert(node_key()(rows[rows.len() - 1]) != (kind, id));
        upsert_node_reads_back(upsert_nodes(nodes, t), rows.last(), kind, id);
    }
}

// ---------- merging again --------------------------------------------------------

proof fn known_rows_add_nothing(nodes: Seq<NodeRowView>, rows: Seq<NodeRowView>)
    requires
        forall|i: int|
            0 <= i < rows.len() ==> node_at(nodes, (#[trigger] rows[i]).kind, rows[i].id) is Some,
    ensures
        upsert_nodes(nodes, rows).len() == nodes.len(),
    decreases rows.len(),
{
    if rows.len() > 0 {
        let t = rows.drop_last();
        assert forall|i: int| 0 <= i < t.len() implies node_at(
            nodes,
            (#[trigger] t[i]).kind,
            t[i].id,
        ) is Some by {
            assert(t[i] == rows[i]);
        }
        known_rows_add_nothing(nodes, t);
        let last = rows[rows.len() - 1];
        lifetimes_only_widen(nodes, t, last.kind, last.id);
        upsert_node_reads_back(upsert_nodes(nodes, t), last, last.kind, last.id);
    }
}

proof fn edges_stay_known(edges: Seq<EdgeRowView>, rows: Seq<EdgeRowView>, key: EdgeKey)
    ensures
        edge_at(edges, key) is Some ==> edge_at(upsert_edges(edges, rows), key) is Some,
    decreases rows.len(),
{
    if rows.len() > 0 {
        edges_stay_known(edges, rows.drop_last(), key);
        upsert_edge_reads_back(upsert_edges(edges, rows.drop_last()), rows.last(), key);
    }
}

pub(crate) proof fn merged_edges_are_there(edges: Seq<EdgeRowView>, rows: Seq<EdgeRowView>, i: int)
    requires
        0 <= i < rows.len(),
    ensures
        edge_at(upsert_edges(edges, rows), key_of(rows[i])) is Some,
    decreases rows.len(),
{
    let t = rows.drop_last();
    upsert_edge_reads_back(upsert_edges(edges, t), rows.last(), key_of(rows[i]));
    if i < rows.len() - 1 {
        assert(t[i] == rows[i]);
        merged_edges_are_there(edges, t, i);
    }
}

proof fn known_edges_add_nothing(edges: Seq<EdgeRowView>, rows: Seq<EdgeRowView>)
    requires
        forall|i: int|
            0 <= i < rows.len() ==> edge_at(edges, key_of(#[trigger] rows[i])) is Some,
    ensures
        upsert_edges(edges, rows).len() == edges.len(),
    decreases rows.len(),
{
    if rows.len() > 0 {
        let t = rows.drop_last();
        assert forall|i: int| 0 <= i < t.len() implies edge_at(
            edges,
            key_of(#[trigger] t[i]),
        ) is Some by {
            assert(t[i] == rows[i]);
        }
        known_edges_add_nothing(edges, t);
        let last = rows[rows.len() - 1];
        edges_stay_known(edges, t, key_of(last));
        upsert_edge_reads_back(upsert_edges(edges, t), last, key_of(last));
    }
}

/// The rows of an edge over two node tables have the same key.
proof fn edge_keys_do_not_depend_on_nodes(
    a: Seq<NodeRowView>,
    b: Seq<NodeRowView>,
    e: EdgeView,
)
    ensures
        key_of(edge_row(a, e)) == key_of(edge_row(b, e)),
        edge_row(a, e).attrs == edge_row(b, e).attrs,
{
}

/// Merging a graph again adds no row to any table.
pub proof fn merging_again_adds_nothing(s: StoreView, g: GraphView)
    ensures
        merged(merged(s, g), g).nodes.len() == merged(s, g).nodes.len(),
        merged(merged(s, g), g).edges.len() == merged(s, g).edges.len(),
        merged(merged(s, g), g).events == s.events,
        merged(merged(s, g), g).meta == s.meta,
{
    let once = merged(s, g);
    let twice = merged(once, g);
    let rows = node_rows(g);
    assert forall|i: int| 0 <= i < rows.len() implies node_at(
        once.nodes,
        (#[trigger] rows[i]).kind,
        rows[i].id,
    ) is Some by {
        merged_rows_are_there(s.nodes, rows, i);
    }
    known_rows_add_nothing(once.nodes, rows);
    let first = edge_rows(once.nodes, g);
    let second = edge_rows(twice.nodes, g);
    assert forall|i: int| 0 <= i < second.len() implies edge_at(
        once.edges,
        key_of(#[trigger] second[i]),
    ) is Some by {
        edge_keys_do_not_depend_on_nodes(once.nodes, twice.nodes, g.edges[i]);
        assert(key_of(second[i]) == key_of(first[i]));
        merged_edges_are_there(s.edges, first, i);
    }
    known_edges_add_nothing(once.edges, second);
}

proof fn edge_joined(edges: Seq<EdgeRowView>, rows: Seq<EdgeRowView>, i: int)
    requires
        0 <= i < rows.len(),
        distinct_by(rows, edge_key()),
    ensures
        edge_at(upsert_edges(edges, rows), key_of(rows[i])) == Some(
            match edge_at(edges, key_of(rows[i])) {
                Some(old) => edge_again(old, rows[i]),
                None => rows[i],
            },
        ),
    decreases rows.len(),
{
    let t = rows.drop_last();
    let key = edge_key();
    assert(distinct_by(t, key)) by {
        assert forall|a: int, b: int| 0 <= a < b < t.len() implies key(#[trigger] t[a]) != key(
            #[trigger] t[b],
        ) by {
            assert(key(rows[a]) != key(rows[b]));
        }
    }
    upsert_edge_reads_back(upsert_edges(edges, t), rows.last(), key_of(rows[i]));
    if i < rows.len() - 1 {
        assert(t[i] == rows[i]);
        edge_joined(edges, t, i);
        assert(key(rows[i]) != key(rows[rows.len() - 1]));
    } else {
        assert forall|j: int| 0 <= j < t.len() implies key_of(#[trigger] t[j]) != key_of(
            rows[i],
        ) by {
            assert(key(rows[j]) != key(rows[i]));
        }
        edge_untouched(edges, t, key_of(rows[i]));
    }
}

proof fn edge_untouched(edges: Seq<EdgeRowView>, rows: Seq<EdgeRowView>, key: EdgeKey)
    requires
        forall|j: int| 0 <= j < rows.len() ==> key_of(#[trigger] rows[j]) != key,
    ensures
        edge_at(upsert_edges(edges, rows), key) == edge_at(edges, key),
    decreases rows.len(),
{
    if rows.len() > 0 {
        let t = rows.drop_last();
        assert forall|j: int| 0 <= j < t.len() implies key_of(#[trigger] t[j]) != key by {
            assert(t[j] == rows[j]);
        }
        edge_untouched(edges, t, key);
        assert(key_of(rows[rows.len() - 1]) != key);
        upsert_edge_reads_back(upsert_edges(edges, t), rows.last(), key);
    }
}

/// Merging a graph that names each of its edges once, into a store that knows
/// the edge, counts the edge once more and keeps when it was first seen.
pub proof fn merging_counts_a_known_edge_once(s: StoreView, g: GraphView, i: int)
    requires
        0 <= i < g.edges.len(),
        distinct_by(edge_rows(merged(s, g).nodes, g), edge_key()),
    ensures
        ({
            let row = edge_rows(merged(s, g).nodes, g)[i];
            edge_at(s.edges, key_of(row)) matches Some(old) ==> (edge_at(
                merged(s, g).edges,
                key_of(row),
            ) matches Some(new) && new.count == bump(old.count) && new.first_seen == old.first_seen
                && new.last_seen >= old.last_seen && new.attrs == row.attrs)
        }),
{
    edge_joined(s.edges, edge_rows(merged(s, g).nodes, g), i);
}

/// The keys of a process's attributes are different.
pub(crate) proof fn process_keys_differ()
    ensures
        "comm"@ != "name"@,
        "comm"@ != "exec_path"@,
        "name"@ != "exec_path"@,
        "comm"@ != "ppid"@,
        "name"@ != "ppid"@,
        "exec_path"@ != "ppid"@,
        "comm"@ != "uid"@,
        "name"@ != "uid"@,
        "exec_path"@ != "uid"@,
        "ppid"@ != "uid"@,
        "comm"@ != "start_unix_secs"@,
        "name"@ != "start_unix_secs"@,
        "exec_path"@ != "start_unix_secs"@,
        "ppid"@ != "start_unix_secs"@,
        "uid"@ != "start_unix_secs"@,
        "comm"@ != "death"@,
        "name"@ != "death"@,
        "exec_path"@ != "death"@,
        "ppid"@ != "death"@,
        "uid"@ != "death"@,
        "start_unix_secs"@ != "death"@,
{
    reveal_strlit("comm");
    reveal_strlit("name");
    reveal_strlit("exec_path");
    reveal_strlit("ppid");
    reveal_strlit("uid");
    reveal_strlit("start_unix_secs");
    reveal_strlit("death");
    assert("comm"@.len() == 4);
    assert("name"@.len() == 4);
    assert("exec_path"@.len() == 9);
    assert("ppid"@.len() == 4);
    assert("uid"@.len() == 3);
    assert("start_unix_secs"@.len() == 15);
    assert("death"@.len() == 5);
    assert("comm"@[0] != "name"@[0]);
    assert("comm"@[0] != "ppid"@[0]);
    assert("name"@[0] != "ppid"@[0]);
}

/// The keys of an application's attributes are different.
proof fn app_keys_differ()
    ensures
        "name"@ != "exec_path"@,
        "name"@ != "intervals"@,
        "exec_path"@ != "intervals"@,
{
    reveal_strlit("name");
    reveal_strlit("exec_path");
    reveal_strlit("intervals");
    assert("name"@.len() == 4);
    assert("exec_path"@.len() == 9);
    assert("intervals"@.len() == 9);
    assert("exec_path"@[0] != "intervals"@[0]);
}

/// The keys of a connection's attributes are different.
proof fn socket_keys_differ()
    ensures
        "state"@ != "process_name"@,
        "state"@ != "pid_at_open"@,
        "process_name"@ != "pid_at_open"@,
        "state"@ != "rxbytes_last"@,
        "process_name"@ != "rxbytes_last"@,
        "pid_at_open"@ != "rxbytes_last"@,
        "state"@ != "txbytes_last"@,
        "process_name"@ != "txbytes_last"@,
        "pid_at_open"@ != "txbytes_last"@,
        "rxbytes_last"@ != "txbytes_last"@,
        "state"@ != "proto"@,
        "process_name"@ != "proto"@,
        "pid_at_open"@ != "proto"@,
        "rxbytes_last"@ != "proto"@,
        "txbytes_last"@ != "proto"@,
        "state"@ != "local_addr"@,
        "process_name"@ != "local_addr"@,
        "pid_at_open"@ != "local_addr"@,
        "rxbytes_last"@ != "local_addr"@,
        "txbytes_last"@ != "local_addr"@,
        "proto"@ != "local_addr"@,
        "state"@ != "foreign_addr"@,
        "process_name"@ != "foreign_addr"@,
        "pid_at_open"@ != "foreign_addr"@,
        "rxbytes_last"@ != "foreign_addr"@,
        "txbytes_last"@ != "foreign_addr"@,
        "proto"@ != "foreign_addr"@,
        "local_addr"@ != "foreign_addr"@,
{
    reveal_strlit("state");
    reveal_strlit("process_name");
    reveal_strlit("pid_at_open");
    reveal_strlit("rxbytes_last");
    reveal_strlit("txbytes_last");
    reveal_strlit("proto");
    reveal_strlit("local_addr");
    reveal_strlit("foreign_addr");
    assert("state"@.len() == 5);
    assert("process_name"@.len() == 12);
    assert("pid_at_open"@.len() == 11);
    assert("rxbytes_last"@.len() == 12);
    assert("txbytes_last"@.len() == 12);
    assert("proto"@.len() == 5);
    assert("local_addr"@.len() == 10);
    assert("foreign_addr"@.len() == 12);
    assert("process_name"@[0] != "rxbytes_last"@[0]);
    assert("process_name"@[0] != "txbytes_last"@[0]);
    assert("rxbytes_last"@[0] != "txbytes_last"@[0]);
    assert("state"@[0] != "proto"@[0]);
    assert("process_name"@[0] != "foreign_addr"@[0]);
    assert("rxbytes_last"@[0] != "foreign_addr"@[0]);
    assert("txbytes_last"@[0] != "foreign_addr"@[0]);
}

/// The keys of a file's attributes are different.
proof fn file_keys_differ()
    ensures
        "flags"@ != "touch_count"@,
{
    reveal_strlit("flags");
    reveal_strlit("touch_count");
    assert("flags"@.len() == 5);
    assert("touch_count"@.len() == 11);
}

/// The keys of a name's attributes are different.
proof fn domain_keys_differ()
    ensures
        "qtypes"@ != "masked"@,
        "qtypes"@ != "query_count"@,
        "masked"@ != "query_count"@,
{
    reveal_strlit("qtypes");
    reveal_strlit("masked");
    reveal_strlit("query_count");
    assert("qtypes"@.len() == 6);
    assert("masked"@.len() == 6);
    assert("query_count"@.len() == 11);
    assert("qtypes"@[0] != "masked"@[0]);
}

/// The keys of an interval are different.
pub(crate) proof fn interval_keys_differ()
    ensures
        "from"@ != "to"@,
{
    reveal_strlit("from");
    reveal_strlit("to");
    assert("from"@.len() == 4);
    assert("to"@.len() == 2);
}

// ---------- reading back ---------------------------------------------------------

/// A timestamp as unix nanoseconds without an anchor, which is how it comes
/// back from a column.
pub open spec fn at_unix(ts: Timestamp) -> Timestamp {
    Timestamp { mono_ns: unix_ns(ts), wall_anchor_ns: 0 }
}

/// A process as the store gives it back.
pub open spec fn stored_process(p: ProcessNodeView) -> ProcessNodeView {
    ProcessNodeView { birth: at_unix(p.birth), ..p }
}

/// A connection as the store gives it back: closed if it closed after it
/// opened.
pub open spec fn stored_socket(s: SocketNodeView) -> SocketNodeView {
    SocketNodeView {
        opened: at_unix(s.opened),
        closed: match s.closed {
            Some(c) if column(c) > column(s.opened) => Some(at_unix(c)),
            _ => None,
        },
        ..s
    }
}

/// A file as the store gives it back.
pub open spec fn stored_file(f: FileNodeView) -> FileNodeView {
    FileNodeView { first_seen: at_unix(f.first_seen), last_seen: at_unix(f.last_seen), ..f }
}

/// A name as the store gives it back.
pub open spec fn stored_domain(d: DomainNodeView) -> DomainNodeView {
    DomainNodeView { first_seen: at_unix(d.first_seen), last_seen: at_unix(d.last_seen), ..d }
}

/// A graph as the store gives it back.
pub open spec fn stored(g: GraphView) -> GraphView {
    GraphView {
        processes: Seq::new(g.processes.len(), |i: int| stored_process(g.processes[i])),
        sockets: Seq::new(g.sockets.len(), |i: int| stored_socket(g.sockets[i])),
        files: Seq::new(g.files.len(), |i: int| stored_file(g.files[i])),
        domains: Seq::new(g.domains.len(), |i: int| stored_domain(g.domains[i])),
        ..g
    }
}

/// The first entry with a key is the one that is read.
pub(crate) proof fn entry_is(fields: Seq<(Seq<char>, JsonView)>, key: Seq<char>, i: int)
    requires
        0 <= i < fields.len(),
        fields[i].0 == key,
        forall|j: int| 0 <= j < i ==> (#[trigger] fields[j]).0 != key,
    ensures
        entry(fields, key) == Some(fields[i].1),
    decreases i,
{
    if i > 0 {
        assert(fields[0].0 != key);
        let t = fields.skip(1);
        assert forall|j: int| 0 <= j < i - 1 implies (#[trigger] t[j]).0 != key by {
            assert(t[j] == fields[j + 1]);
        }
        entry_is(t, key, i - 1);
    }
}

/// A process is read back from its row.
pub proof fn process_row_reads_back(p: ProcessNodeView)
    ensures
        process_of_row(process_row(p)) == stored_process(p),
{
    process_keys_differ();
    let f = process_attrs(p)->Object_0;
    entry_is(f, "comm"@, 0);
    entry_is(f, "name"@, 1);
    entry_is(f, "exec_path"@, 2);
    entry_is(f, "ppid"@, 3);
    entry_is(f, "uid"@, 4);
    entry_is(f, "death"@, 6);
    process_id_round_trip(p.id);
    column_round_trip(p.birth);
    match p.death {
        Some(d) => {
            timestamp_json_round_trip(d);
        },
        None => {},
    }
}

/// An interval is read back from its own JSON object.
pub proof fn interval_round_trip(i: Interval)
    ensures
        interval_of(interval_json(i)) == Some(i),
{
    interval_keys_differ();
    let f = interval_json(i)->Object_0;
    entry_is(f, "from"@, 0);
    entry_is(f, "to"@, 1);
    timestamp_json_round_trip(i.from);
    match i.to {
        Some(t) => {
            timestamp_json_round_trip(t);
        },
        None => {},
    }
}

/// An application is read back from its row, unchanged.
pub proof fn app_row_reads_back(a: AppNodeView)
    ensures
        app_of_row(app_row(a)) == a,
{
    app_keys_differ();
    let f = app_attrs(a)->Object_0;
    entry_is(f, "name"@, 0);
    entry_is(f, "exec_path"@, 1);
    entry_is(f, "intervals"@, 2);
    let v = intervals_json(a.intervals)->Array_0;
    assert forall|i: int| 0 <= i < v.len() implies interval_of(#[trigger] v[i]) == Some(
        a.intervals[i],
    ) by {
        interval_round_trip(a.intervals[i]);
    }
    assert(intervals_of(Some(JsonView::Array(v))) =~= a.intervals);
}

/// A connection is read back from its row.
pub proof fn socket_row_reads_back(s: SocketNodeView)
    ensures
        socket_of_row(socket_row(s)) == stored_socket(s),
{
    socket_keys_differ();
    let f = socket_attrs(s)->Object_0;
    entry_is(f, "state"@, 0);
    entry_is(f, "process_name"@, 1);
    entry_is(f, "pid_at_open"@, 2);
    entry_is(f, "rxbytes_last"@, 3);
    entry_is(f, "txbytes_last"@, 4);
    entry_is(f, "proto"@, 5);
    entry_is(f, "local_addr"@, 6);
    entry_is(f, "foreign_addr"@, 7);
    column_round_trip(s.opened);
    match s.closed {
        Some(c) => {
            column_round_trip(c);
        },
        None => {},
    }
}

proof fn strings_round_trip(s: Seq<Seq<char>>)
    ensures
        strings_of(Some(str_array(s))) == s,
{
    let v = str_array(s)->Array_0;
    assert forall|i: int| 0 <= i < v.len() implies (#[trigger] v[i]).as_str() == Some(s[i]) by {}
    assert(strings_of(Some(str_array(s))) =~= s);
}

/// A file is read back from its row.
pub proof fn file_row_reads_back(n: FileNodeView)
    ensures
        file_of_row(file_row(n)) == stored_file(n),
{
    file_keys_differ();
    let f = file_attrs(n)->Object_0;
    entry_is(f, "flags"@, 0);
    entry_is(f, "touch_count"@, 1);
    strings_round_trip(n.flags);
    column_round_trip(n.first_seen);
    column_round_trip(n.last_seen);
}

/// A name is read back from its row.
pub proof fn domain_row_reads_back(d: DomainNodeView)
    ensures
        domain_of_row(domain_row(d)) == stored_domain(d),
{
    domain_keys_differ();
    let f = domain_attrs(d)->Object_0;
    entry_is(f, "qtypes"@, 0);
    entry_is(f, "masked"@, 1);
    entry_is(f, "query_count"@, 2);
    strings_round_trip(d.qtypes);
    column_round_trip(d.first_seen);
    column_round_trip(d.last_seen);
}

/// Whether an edge's row can be read back: no bar stands in a connection's
/// protocol or local address.
pub open spec fn edge_is_readable(e: EdgeView) -> bool {
    match e {
        EdgeView::OpenedSocket { process, socket } => !socket.proto.contains('|')
            && !socket.local_addr.contains('|'),
        _ => true,
    }
}

/// An edge is read back from its row, unchanged.
pub proof fn edge_row_reads_back(nodes: Seq<NodeRowView>, e: EdgeView)
    requires
        edge_is_readable(e),
    ensures
        edge_of_row(edge_row(nodes, e)) == Some(e),
{
    match e {
        EdgeView::ParentOf { parent, child } => {
            process_id_round_trip(parent);
            process_id_round_trip(child);
        },
        EdgeView::FrontmostDuring { app, process, overlap } => {
            process_id_round_trip(process);
            interval_round_trip(overlap);
            let f = edge_row(nodes, e).attrs->Object_0;
            entry_is(f, "overlap"@, 0);
        },
        EdgeView::OpenedSocket { process, socket } => {
            process_id_round_trip(process);
            socket_id_round_trip(socket);
        },
        EdgeView::QueriedDomain { process, domain, count } => {
            process_id_round_trip(process);
            let f = edge_row(nodes, e).attrs->Object_0;
            entry_is(f, "queries"@, 0);
        },
    }
}

/// Filtering two sequences one after the other.
proof fn filter_map_of_sum<A, B>(a: Seq<A>, b: Seq<A>, f: spec_fn(A) -> Option<B>)
    ensures
        (a + b).filter_map(f) == a.filter_map(f) + b.filter_map(f),
    decreases b.len(),
{
    if b.len() == 0 {
        assert(a + b =~= a);
        filter_map_start(b, f);
        take_all(b);
        assert(a.filter_map(f) + b.filter_map(f) =~= a.filter_map(f));
    } else {
        let n = b.len() - 1;
        let t = b.take(n);
        filter_map_of_sum(a, t, f);
        filter_map_step(b, f, n);
        take_all(b);
        let ab = a + b;
        filter_map_step(ab, f, a.len() + n);
        take_all(ab);
        assert(ab.take(a.len() + n) =~= a + t);
        assert(ab[a.len() + n] == b[n]);
        match f(b[n]) {
            Some(x) => {
                assert((a.filter_map(f) + t.filter_map(f)).push(x) =~= a.filter_map(f)
                    + t.filter_map(f).push(x));
            },
            None => {},
        }
    }
}

/// Filtering keeps everything that the function maps.
proof fn filter_map_of_all<A, B>(s: Seq<A>, f: spec_fn(A) -> Option<B>, t: Seq<B>)
    requires
        t.len() == s.len(),
        forall|i: int| 0 <= i < s.len() ==> f(#[trigger] s[i]) == Some(t[i]),
    ensures
        s.filter_map(f) == t,
    decreases s.len(),
{
    if s.len() == 0 {
        filter_map_start(s, f);
        take_all(s);
        assert(t =~= Seq::empty());
    } else {
        let n = s.len() - 1;
        let s1 = s.take(n);
        let t1 = t.take(n);
        assert forall|i: int| 0 <= i < s1.len() implies f(#[trigger] s1[i]) == Some(t1[i]) by {
            assert(f(s[i]) == Some(t[i]));
        }
        filter_map_of_all(s1, f, t1);
        filter_map_step(s, f, n);
        take_all(s);
        assert(f(s[n]) == Some(t[n]));
        assert(t =~= t1.push(t[n]));
    }
}

/// Filtering drops everything that the function does not map.
proof fn filter_map_of_none<A, B>(s: Seq<A>, f: spec_fn(A) -> Option<B>)
    requires
        forall|i: int| 0 <= i < s.len() ==> f(#[trigger] s[i]) is None,
    ensures
        s.filter_map(f) == Seq::<B>::empty(),
    decreases s.len(),
{
    if s.len() == 0 {
        filter_map_start(s, f);
        take_all(s);
    } else {
        let n = s.len() - 1;
        let s1 = s.take(n);
        assert forall|i: int| 0 <= i < s1.len() implies f(#[trigger] s1[i]) is None by {
            assert(f(s[i]) is None);
        }
        filter_map_of_none(s1, f);
        filter_map_step(s, f, n);
        take_all(s);
        assert(f(s[n]) is None);
    }
}

/// Rows of different keys put into an empty table stand there as they are.
pub(crate) proof fn new_rows_stand(rows: Seq<NodeRowView>)
    requires
        distinct_by(rows, node_key()),
    ensures
        upsert_nodes(Seq::empty(), rows) == rows,
    decreases rows.len(),
{
    let key = node_key();
    if rows.len() > 0 {
        let t = rows.drop_last();
        let last = rows[rows.len() - 1];
        assert forall|a: int, b: int| 0 <= a < b < t.len() implies key(#[trigger] t[a]) != key(
            #[trigger] t[b],
        ) by {
            assert(key(rows[a]) != key(rows[b]));
        }
        new_rows_stand(t);
        let p = is_node(last.kind, last.id);
        first_where_is_first(t, p);
        match first_where(t, p) {
            Some(i) => {
                assert(key(rows[i]) != key(rows[rows.len() - 1]));
            },
            None => {},
        }
        assert(rows =~= t.push(last));
    } else {
        assert(rows =~= Seq::empty());
    }
}

/// Edge rows of different keys put into an empty table stand there as they
/// are.
pub(crate) proof fn new_edges_stand(rows: Seq<EdgeRowView>)
    requires
        distinct_by(rows, edge_key()),
    ensures
        upsert_edges(Seq::empty(), rows) == rows,
    decreases rows.len(),
{
    let key = edge_key();
    if rows.len() > 0 {
        let t = rows.drop_last();
        let last = rows[rows.len() - 1];
        assert forall|a: int, b: int| 0 <= a < b < t.len() implies key(#[trigger] t[a]) != key(
            #[trigger] t[b],
        ) by {
            assert(key(rows[a]) != key(rows[b]));
        }
        new_edges_stand(t);
        let p = is_edge(key_of(last));
        first_where_is_first(t, p);
        match first_where(t, p) {
            Some(i) => {
                assert(key(rows[i]) != key(rows[rows.len() - 1]));
            },
            None => {},
        }
        assert(rows =~= t.push(last));
    } else {
        assert(rows =~= Seq::empty());
    }
}

/// The nodes of a graph, laid out as rows, are read back by kind.
proof fn node_rows_read_back(g: GraphView)
    ensures
        nodes_in(node_rows(g), None) == (GraphView { edges: Seq::empty(), ..stored(g) }),
{
    let ps = Seq::new(g.processes.len(), |i: int| process_row(g.processes[i]));
    let aps = Seq::new(g.apps.len(), |i: int| app_row(g.apps[i]));
    let ss = Seq::new(g.sockets.len(), |i: int| socket_row(g.sockets[i]));
    let fs = Seq::new(g.files.len(), |i: int| file_row(g.files[i]));
    let ds = Seq::new(g.domains.len(), |i: int| domain_row(g.domains[i]));
    let w: Option<(i64, i64)> = None;
    let want = stored(g);
    {
        let f = pick_process(w);
        filter_map_of_sum(ps + aps + ss + fs, ds, f);
        filter_map_of_sum(ps + aps + ss, fs, f);
        filter_map_of_sum(ps + aps, ss, f);
        filter_map_of_sum(ps, aps, f);
        assert forall|i: int| 0 <= i < ps.len() implies f(#[trigger] ps[i]) == Some(
            want.processes[i],
        ) by {
            process_row_reads_back(g.processes[i]);
        }
        filter_map_of_all(ps, f, want.processes);
        filter_map_of_none(aps, f);
        filter_map_of_none(ss, f);
        filter_map_of_none(fs, f);
        filter_map_of_none(ds, f);
        assert(node_rows(g).filter_map(f) =~= want.processes);
    }
    {
        let f = pick_app(w);
        filter_map_of_sum(ps + aps + ss + fs, ds, f);
        filter_map_of_sum(ps + aps + ss, fs, f);
        filter_map_of_sum(ps + aps, ss, f);
        filter_map_of_sum(ps, aps, f);
        assert forall|i: int| 0 <= i < aps.len() implies f(#[trigger] aps[i]) == Some(
            want.apps[i],
        ) by {
            app_row_reads_back(g.apps[i]);
        }
        filter_map_of_none(ps, f);
        filter_map_of_all(aps, f, want.apps);
        filter_map_of_none(ss, f);
        filter_map_of_none(fs, f);
        filter_map_of_none(ds, f);
        assert(node_rows(g).filter_map(f) =~= want.apps);
    }
    {
        let f = pick_socket(w);
        filter_map_of_sum(ps + aps + ss + fs, ds, f);
        filter_map_of_sum(ps + aps + ss, fs, f);
        filter_map_of_sum(ps + aps, ss, f);
        filter_map_of_sum(ps, aps, f);
        assert forall|i: int| 0 <= i < ss.len() implies f(#[trigger] ss[i]) == Some(
            want.sockets[i],
        ) by {
            socket_row_reads_back(g.sockets[i]);
        }
        filter_map_of_none(ps, f);
        filter_map_of_none(aps, f);
        filter_map_of_all(ss, f, want.sockets);
        filter_map_of_none(fs, f);
        filter_map_of_none(ds, f);
        assert(node_rows(g).filter_map(f) =~= want.sockets);
    }
    {
        let f = pick_file(w);
        filter_map_of_sum(ps + aps + ss + fs, ds, f);
        filter_map_of_sum(ps + aps + ss, fs, f);
        filter_map_of_sum(ps + aps, ss, f);
        filter_map_of_sum(ps, aps, f);
        assert forall|i: int| 0 <= i < fs.len() implies f(#[trigger] fs[i]) == Some(
            want.files[i],
        ) by {
            file_row_reads_back(g.files[i]);
        }
        filter_map_of_none(ps, f);
        filter_map_of_none(aps, f);
        filter_map_of_none(ss, f);
        filter_map_of_all(fs, f, want.files);
        filter_map_of_none(ds, f);
        assert(node_rows(g).filter_map(f) =~= want.files);
    }
    {
        let f = pick_domain(w);
        filter_map_of_sum(ps + aps + ss + fs, ds, f);
        filter_map_of_sum(ps + aps + ss, fs, f);
        filter_map_of_sum(ps + aps, ss, f);
        filter_map_of_sum(ps, aps, f);
        assert forall|i: int| 0 <= i < ds.len() implies f(#[trigger] ds[i]) == Some(
            want.domains[i],
        ) by {
            domain_row_reads_back(g.domains[i]);
        }
        filter_map_of_none(ps, f);
        filter_map_of_none(aps, f);
        filter_map_of_none(ss, f);
        filter_map_of_none(fs, f);
        filter_map_of_all(ds, f, want.domains);
        assert(node_rows(g).filter_map(f) =~= want.domains);
    }
    assert(nodes_in(node_rows(g), None) =~= (GraphView { edges: Seq::empty(), ..want }));
}

/// A graph that names each node and each edge once, merged into a new store,
/// is read back: every node and every edge, in order, with its times as unix
/// nanoseconds.
pub proof fn merge_then_load_reads_back(g: GraphView)
    requires
        distinct_by(node_rows(g), node_key()),
        distinct_by(edge_rows(node_rows(g), g), edge_key()),
        forall|i: int| 0 <= i < g.edges.len() ==> edge_is_readable(#[trigger] g.edges[i]),
    ensures
        loaded(merged(new_store(), g)) == stored(g),
{
    let rows = node_rows(g);
    new_rows_stand(rows);
    let s = merged(new_store(), g);
    assert(s.nodes == rows);
    let es = edge_rows(rows, g);
    new_edges_stand(es);
    assert(s.edges == es);
    node_rows_read_back(g);
    assert forall|i: int| 0 <= i < es.len() implies pick_edge()(#[trigger] es[i]) == Some(
        g.edges[i],
    ) by {
        assert(edge_is_readable(g.edges[i]));
        edge_row_reads_back(rows, g.edges[i]);
    }
    filter_map_of_all(es, pick_edge(), g.edges);
    assert(loaded(s) =~= stored(g));
}

// ---------- windows --------------------------------------------------------------

/// Which nodes a graph has does not depend on its edges.
proof fn more_edges_same_nodes(g: GraphView, edges: Seq<EdgeView>, kind: NodeKind, id: Seq<char>)
    ensures
        has_node(GraphView { edges, ..g }, kind, id) == has_node(g, kind, id),
{
    let w = GraphView { edges, ..g };
    assert(w.processes == g.processes && w.apps == g.apps && w.sockets == g.sockets);
    assert(w.files == g.files && w.domains == g.domains);
    match kind {
        NodeKind::Process => {},
        NodeKind::App => {},
        NodeKind::Socket => {},
        NodeKind::File => {},
        NodeKind::Domain => {},
    }
}

/// Every edge of a window has both of its ends in the window.
pub proof fn window_edges_have_both_ends(s: StoreView, from: i64, to: i64, i: int)
    requires
        0 <= i < windowed(s, from, to).edges.len(),
    ensures
        exists|r: EdgeRowView|
            s.edges.contains(r) && edge_of_row(r) == Some(windowed(s, from, to).edges[i])
                && #[trigger] has_node(windowed(s, from, to), r.from_kind, r.from_id) && has_node(
                windowed(s, from, to),
                r.to_kind,
                r.to_id,
            ),
{
    let g = nodes_in(s.nodes, Some((from, to)));
    let w = windowed(s, from, to);
    let f = pick_edge_within(g);
    let e = w.edges[i];
    assert(s.edges.filter_map(f).contains(e));
    s.edges.lemma_filter_map_contains(f, e);
    let r = choose|r: EdgeRowView| #[trigger] s.edges.contains(r) && f(r) == Some(e);
    more_edges_same_nodes(g, w.edges, r.from_kind, r.from_id);
    more_edges_same_nodes(g, w.edges, r.to_kind, r.to_id);
}

/// A window that ends before anything was seen, or begins after everything was
/// last seen, holds no node.
pub proof fn window_beside_everything_is_empty(s: StoreView, from: i64, to: i64)
    requires
        (forall|i: int| 0 <= i < s.nodes.len() ==> (#[trigger] s.nodes[i]).first_seen > to) || (
        forall|i: int| 0 <= i < s.nodes.len() ==> (#[trigger] s.nodes[i]).last_seen < from),
    ensures
        windowed(s, from, to) == GraphView::empty(),
{
    let w = Some((from, to));
    assert forall|i: int| 0 <= i < s.nodes.len() implies !overlaps(#[trigger] s.nodes[i], w) by {}
    filter_map_of_none(s.nodes, pick_process(w));
    filter_map_of_none(s.nodes, pick_app(w));
    filter_map_of_none(s.nodes, pick_socket(w));
    filter_map_of_none(s.nodes, pick_file(w));
    filter_map_of_none(s.nodes, pick_domain(w));
    let g = nodes_in(s.nodes, w);
    filter_map_of_none(s.edges, pick_edge_within(g));
    assert(windowed(s, from, to) =~= GraphView::empty());
}

proof fn filter_map_same<A, B>(s: Seq<A>, f: spec_fn(A) -> Option<B>, g: spec_fn(A) -> Option<B>)
    requires
        forall|i: int| 0 <= i < s.len() ==> f(#[trigger] s[i]) == g(s[i]),
    ensures
        s.filter_map(f) == s.filter_map(g),
    decreases s.len(),
{
    if s.len() == 0 {
        filter_map_start(s, f);
        filter_map_start(s, g);
        take_all(s);
    } else {
        let n = s.len() - 1;
        let t = s.take(n);
        assert forall|i: int| 0 <= i < t.len() implies f(#[trigger] t[i]) == g(t[i]) by {
            assert(f(s[i]) == g(s[i]));
        }
        filter_map_same(t, f, g);
        filter_map_step(s, f, n);
        filter_map_step(s, g, n);
        take_all(s);
        assert(f(s[n]) == g(s[n]));
    }
}

/// A window that every node overlaps holds all the nodes of the whole graph.
pub proof fn window_around_everything_has_every_node(s: StoreView, from: i64, to: i64)
    requires
        forall|i: int| 0 <= i < s.nodes.len() ==> overlaps(#[trigger] s.nodes[i], Some((from, to))),
    ensures
        nodes_in(s.nodes, Some((from, to))) == nodes_in(s.nodes, None),
{
    let w = Some((from, to));
    filter_map_same(s.nodes, pick_process(w), pick_process(None));
    filter_map_same(s.nodes, pick_app(w), pick_app(None));
    filter_map_same(s.nodes, pick_socket(w), pick_socket(None));
    filter_map_same(s.nodes, pick_file(w), pick_file(None));
    filter_map_same(s.nodes, pick_domain(w), pick_domain(None));
}

// ---------- retention ------------------------------------------------------------

/// After retention no edge is left without one of its ends, and nothing is
/// left that was last seen before the cutoff.
pub proof fn pruned_store_has_no_dangling_edge(s: StoreView, cutoff: i64)
    ensures
        forall|i: int|
            0 <= i < pruned(s, cutoff).edges.len() ==> {
                let e = #[trigger] pruned(s, cutoff).edges[i];
                &&& e.last_seen >= cutoff
                &&& node_at(pruned(s, cutoff).nodes, e.from_kind, e.from_id) is Some
                &&& node_at(pruned(s, cutoff).nodes, e.to_kind, e.to_id) is Some
            },
        forall|i: int|
            0 <= i < pruned(s, cutoff).nodes.len() ==> (#[trigger] pruned(
                s,
                cutoff,
            ).nodes[i]).last_seen >= cutoff,
        forall|i: int|
            0 <= i < pruned(s, cutoff).events.len() ==> (#[trigger] pruned(
                s,
                cutoff,
            ).events[i]).ts_unix_ns >= cutoff,
{
    let p = pruned(s, cutoff);
    assert forall|i: int| 0 <= i < p.edges.len() implies ({
        let e = #[trigger] p.edges[i];
        &&& e.last_seen >= cutoff
        &&& node_at(p.nodes, e.from_kind, e.from_id) is Some
        &&& node_at(p.nodes, e.to_kind, e.to_id) is Some
    }) by {
        let f = keep_edge(cutoff, p.nodes);
        assert(s.edges.filter_map(f).contains(p.edges[i]));
        s.edges.lemma_filter_map_contains(f, p.edges[i]);
    }
    assert forall|i: int| 0 <= i < p.nodes.len() implies (#[trigger] p.nodes[i]).last_seen
        >= cutoff by {
        let f = keep_node(cutoff);
        assert(s.nodes.filter_map(f).contains(p.nodes[i]));
        s.nodes.lemma_filter_map_contains(f, p.nodes[i]);
    }
    assert forall|i: int| 0 <= i < p.events.len() implies (#[trigger] p.events[i]).ts_unix_ns
        >= cutoff by {
        let f = keep_event(cutoff);
        assert(s.events.filter_map(f).contains(p.events[i]));
        s.events.lemma_filter_map_contains(f, p.events[i]);
    }
}

/// Retention with a cutoff that nothing lies before changes nothing, in a
/// store whose edges all have their ends.
pub proof fn prune_before_everything_changes_nothing(s: StoreView, cutoff: i64)
    requires
        forall|i: int| 0 <= i < s.nodes.len() ==> (#[trigger] s.nodes[i]).last_seen >= cutoff,
        forall|i: int| 0 <= i < s.events.len() ==> (#[trigger] s.events[i]).ts_unix_ns >= cutoff,
        forall|i: int|
            0 <= i < s.edges.len() ==> {
                let e = #[trigger] s.edges[i];
                &&& e.last_seen >= cutoff
                &&& node_at(s.nodes, e.from_kind, e.from_id) is Some
                &&& node_at(s.nodes, e.to_kind, e.to_id) is Some
            },
    ensures
        pruned(s, cutoff) == s,
{
    filter_map_of_all(s.nodes, keep_node(cutoff), s.nodes);
    filter_map_of_all(s.edges, keep_edge(cutoff, s.nodes), s.edges);
    filter_map_of_all(s.events, keep_event(cutoff), s.events);
}

/// Retention twice with the same cutoff is retention once.
pub proof fn pruning_again_changes_nothing(s: StoreView, cutoff: i64)
    ensures
        pruned(pruned(s, cutoff), cutoff) == pruned(s, cutoff),
{
    pruned_store_has_no_dangling_edge(s, cutoff);
    prune_before_everything_changes_nothing(pruned(s, cutoff), cutoff);
}

// ---------- novelty --------------------------------------------------------------

/// A name or an application that was first seen before a time is never new
/// since that time, however often it is merged again.
pub proof fn merging_again_does_not_make_new(s: StoreView, g: GraphView, id: Seq<char>, from: i64)
    requires
        keys_are_unique(s),
    ensures
        (node_at(s.nodes, NodeKind::Domain, id) matches Some(r) && r.first_seen < from)
            ==> !new_domains(merged(s, g).nodes, from).contains(id),
        (node_at(s.nodes, NodeKind::App, id) matches Some(r) && r.first_seen < from) ==> forall|
            i: int,
        |
            0 <= i < new_apps(merged(s, g).nodes, from).len() ==> (#[trigger] new_apps(
                merged(s, g).nodes,
                from,
            )[i]).id != id,
{
    let after = merged(s, g).nodes;
    merge_keeps_keys_unique(s, g);
    lifetimes_only_widen(s.nodes, node_rows(g), NodeKind::Domain, id);
    lifetimes_only_widen(s.nodes, node_rows(g), NodeKind::App, id);
    if node_at(s.nodes, NodeKind::Domain, id) matches Some(r) && r.first_seen < from {
        if new_domains(after, from).contains(id) {
            let i = choose|i: int|
                0 <= i < new_domains(after, from).len() && new_domains(after, from)[i] == id;
            fresh_sighting_is_a_row(after, from, false, i);
            let k = choose|k: int|
                0 <= k < after.len() && #[trigger] after[k].kind == NodeKind::Domain && after[k].id
                    == id && after[k].first_seen >= from;
            only_row_of_key(after, NodeKind::Domain, id, k);
        }
    }
    if node_at(s.nodes, NodeKind::App, id) matches Some(r) && r.first_seen < from {
        assert forall|i: int| 0 <= i < new_apps(after, from).len() implies (#[trigger] new_apps(
            after,
            from,
        )[i]).id != id by {
            if new_apps(after, from)[i].id == id {
                fresh_sighting_is_a_row(after, from, true, i);
                let k = choose|k: int|
                    0 <= k < after.len() && #[trigger] after[k].kind == NodeKind::App && after[k].id
                        == id && after[k].first_seen >= from;
                only_row_of_key(after, NodeKind::App, id, k);
            }
        }
    }
}

/// A row of a key is the one that is found under it.
proof fn only_row_of_key(nodes: Seq<NodeRowView>, kind: NodeKind, id: Seq<char>, k: int)
    requires
        distinct_by(nodes, node_key()),
        0 <= k < nodes.len(),
        nodes[k].kind == kind,
        nodes[k].id == id,
    ensures
        node_at(nodes, kind, id) == Some(nodes[k]),
{
    let p = is_node(kind, id);
    first_where_is_first(nodes, p);
    assert(p(nodes[k]));
    let i = first_where(nodes, p)->0;
    if i != k {
        assert(node_key()(nodes[i]) != node_key()(nodes[k]));
    }
}

/// What is listed as new is a row that was first seen at or after the time.
proof fn fresh_sighting_is_a_row(nodes: Seq<NodeRowView>, from: i64, apps: bool, i: int)
    requires
        0 <= i < if apps {
            new_apps(nodes, from).len()
        } else {
            new_domains(nodes, from).len()
        },
    ensures
        exists|k: int|
            0 <= k < nodes.len() && #[trigger] nodes[k].kind == (if apps {
                NodeKind::App
            } else {
                NodeKind::Domain
            }) && nodes[k].id == (if apps {
                new_apps(nodes, from)[i].id
            } else {
                new_domains(nodes, from)[i]
            }) && nodes[k].first_seen >= from,
{
    broadcast use vstd::seq_lib::group_to_multiset_ensures;

    let f = if apps {
        see_app(from)
    } else {
        see_domain(from)
    };
    let hits = nodes.filter_map(f);
    let sorted = sort_by_key(hits, sighting_age());
    crate::order::sort_by_key_sorts(hits, sighting_age());
    assert(sorted.to_multiset().contains(sorted[i]));
    assert(hits.contains(sorted[i]));
    nodes.lemma_filter_map_contains(f, sorted[i]);
    let r = choose|r: NodeRowView| #[trigger] nodes.contains(r) && f(r) == Some(sorted[i]);
    let k = choose|k: int| 0 <= k < nodes.len() && nodes[k] == r;
    assert(nodes[k].kind == r.kind);
}

// ---------- events ---------------------------------------------------------------

/// Sorting what is in order changes nothing.
proof fn sorted_stays<A>(s: Seq<A>, key: spec_fn(A) -> int)
    requires
        ascending(s, key),
    ensures
        sort_by_key(s, key) == s,
    decreases s.len(),
{
    if s.len() > 0 {
        let t = s.drop_last();
        assert forall|i: int, j: int| 0 <= i < j < t.len() implies key(#[trigger] t[i]) <= key(
            #[trigger] t[j],
        ) by {
            assert(key(s[i]) <= key(s[j]));
        }
        sorted_stays(t, key);
        if t.len() > 0 {
            assert(key(s[s.len() - 2]) <= key(s[s.len() - 1]));
        }
        assert(s =~= t.push(s.last()));
    } else {
        assert(s =~= Seq::empty());
    }
}

/// Events appended in the order of their time to an empty history are read
/// back in that order, all of them, with their times as unix nanoseconds.
pub proof fn appended_events_are_read_back(es: Seq<EventView>)
    requires
        forall|i: int, j: int|
            0 <= i < j < es.len() ==> column((#[trigger] es[i]).timestamp) <= column(
                (#[trigger] es[j]).timestamp,
            ),
    ensures
        events_between(
            Seq::new(es.len(), |i: int| event_row(es[i])),
            i64::MIN,
            i64::MAX,
            None,
            es.len() as int,
        ) == Seq::new(
            es.len(),
            |i: int| EventView { timestamp: at_unix(es[i].timestamp), ..es[i] },
        ),
{
    let rows = Seq::new(es.len(), |i: int| event_row(es[i]));
    let f = pick_event(i64::MIN, i64::MAX, None);
    filter_map_of_all(rows, f, rows);
    assert forall|i: int, j: int| 0 <= i < j < rows.len() implies event_time()(#[trigger] rows[i])
        <= event_time()(#[trigger] rows[j]) by {
        assert(column(es[i].timestamp) <= column(es[j].timestamp));
    }
    sorted_stays(rows, event_time());
    let want = Seq::new(es.len(), |i: int| EventView { timestamp: at_unix(es[i].timestamp), ..es[i] });
    let got = events_between(rows, i64::MIN, i64::MAX, None, es.len() as int);
    assert forall|i: int| 0 <= i < es.len() implies got[i] == want[i] by {
        column_round_trip(es[i].timestamp);
    }
    assert(got =~= want);
}

} // verus!
