//! A world model of one machine.
//!
//! Observations of processes, sockets, files, windows and name lookups are
//! reconstructed into events, folded into a graph, and merged into a store
//! that answers questions about what happened on the machine.

pub mod adapters;
pub mod agents;
pub mod alarm_laws;
pub mod analytics;
pub mod anomaly_laws;
pub mod baseline;
pub mod capture;
pub mod capture_laws;
pub mod cli;
pub mod cli_fmt;
pub mod cli_laws;
pub mod components;
pub mod daemon;
pub mod dns_lifecycle;
pub mod dns_log;
pub mod dns_reviewer;
pub mod dot;
pub mod es_log;
pub mod events;
pub mod focus_laws;
pub mod fsevents_coalesce;
pub mod graph;
pub mod graph_builder;
pub mod graph_laws;
pub mod graph_summary_laws;
pub mod history_laws;
pub mod inet;
pub mod ingest_laws;
pub mod ip;
pub mod json;
pub mod json_key;
pub mod json_members;
pub mod json_parse;
pub mod json_path;
pub mod json_record;
pub mod json_text;
pub mod lifecycle_laws;
pub mod llm;
pub mod merge_laws;
pub mod name_laws;
pub mod narrator;
pub mod ndjson;
pub mod netstat;
pub mod network_lifecycle;
pub mod network_reviewer;
pub mod node_laws;
pub mod novelty_laws;
pub mod observation;
pub mod order;
pub mod pcblist;
pub mod process_anomaly;
pub mod process_lifecycle;
pub mod process_table;
pub mod query;
pub mod query_laws;
pub mod reader_laws;
pub mod reconstructor;
pub mod report_laws;
pub mod review_laws;
pub mod run_laws;
pub mod seqs;
pub mod shape_laws;
pub mod sighting_laws;
pub mod stage_laws;
pub mod store;
pub mod store_admin;
pub mod store_history;
pub mod store_laws;
pub mod store_lineage;
pub mod store_load;
pub mod store_merge;
pub mod store_query;
pub mod store_rows;
pub mod store_trends;
pub mod summary_laws;
pub mod suspicion_laws;
pub mod suspicions;
pub mod tally;
pub mod text;
pub mod text_laws;
pub mod timeline;
pub mod topology;
pub mod window_lifecycle;
