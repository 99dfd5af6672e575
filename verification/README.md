# agentworld

A world model of one machine: observations of files, processes, connections,
windows and the system are reconstructed into events, folded into a graph,
merged into a store, and told as prose.

`src/` is the library. It is written in Verus: its functions have contracts, and
the contracts are proved. Without a contract are the constructors of types that
hold nothing, and the functions that only read the clock or ask for a terminal:
of what those find nothing can be said. What the library takes from other crates
stands behind a few wrappers, each with a comment that says what is believed of
it.

| where | what |
| --- | --- |
| `observation`, `json`, `json_parse`, `json_text`, `json_path`, `json_key`, `json_members`, `json_record`, `ndjson` | observations, JSON trees, texts, paths, members and records, lines of JSON |
| `adapters`, `netstat`, `pcblist`, `inet`, `es_log`, `dns_log` | readings of the machine as observations |
| `process_lifecycle`, `network_lifecycle`, `fsevents_coalesce`, `window_lifecycle`, `dns_lifecycle`, `process_table`, `reconstructor` | observations to events |
| `graph`, `graph_builder`, `graph_laws`, `analytics`, `components`, `dot`, `topology` | the graph, its laws, its shape and its drawing |
| `store*`, `merge_laws`, `novelty_laws` | the tables, merging, loading, queries, retention, and their laws |
| `timeline`, `suspicions`, `capture`, `narrator`, `baseline` | a window as facts, flags and a prompt |
| `process_anomaly`, `anomaly_laws`, `network_reviewer`, `dns_reviewer`, `agents`, `llm` | what a language model is asked, and what its reply says |
| `daemon`, `query`, `cli`, `cli_fmt` | what the tools decide and print |
| `text`, `seqs`, `order`, `tally`, `ip` | texts, sequences, sorting, counting, addresses |

`app/` is ordinary Rust around it: the command-line tools, the sources, the
database file, the language model's server, and scores in floating point.
`tests/` runs the library from outside.
