//! Records of the endpoint-security log: one JSON document per line.

use vstd::prelude::*;
use vstd::string::*;

use crate::json::{copy_strings, Json, JsonView};
use crate::json_parse::{json_document, parse_json};
use crate::observation::{Observation, ObservationView, Source, Timestamp};
use crate::text::{trim, trim_text};

verus! {

/// The events that are subscribed to, and whether the logger is run with
/// elevated rights.
#[derive(Debug)]
pub struct EsLoggerConfig {
    pub events: Vec<String>,
    /// Whether `sudo -n` is put before the command.
    pub use_sudo: bool,
}

impl Clone for EsLoggerConfig {
    fn clone(&self) -> (r: Self)
        ensures
            r.events.deep_view() == self.events.deep_view(),
            r.use_sudo == self.use_sudo,
    {
        EsLoggerConfig {
            events: copy_strings(&self.events),
            use_sudo: self.use_sudo,
        }
    }
}

impl EsLoggerConfig {
    /// The events of a process's life.
    pub open spec fn default_events() -> Seq<Seq<char>> {
        seq!["exec"@, "fork"@, "exit"@]
    }
}

impl Default for EsLoggerConfig {
    fn default() -> (r: Self)
        ensures
            r.events.deep_view() == EsLoggerConfig::default_events(),
            r.use_sudo,
    {
        let mut events: Vec<String> = Vec::new();
        events.push("exec".to_owned());
        events.push("fork".to_owned());
        events.push("exit".to_owned());
        assert(events.deep_view() =~= EsLoggerConfig::default_events());
        EsLoggerConfig { events, use_sudo: true }
    }
}

/// The source of endpoint-security records.
#[derive(Debug)]
pub struct EsLoggerAdapter {
    config: EsLoggerConfig,
}

impl EsLoggerAdapter {
    /// What the source is configured to do.
    pub closed spec fn spec_config(self) -> EsLoggerConfig {
        self.config
    }

    /// A source of the events of a process's life.
    pub fn new() -> (r: Self)
        ensures
            r.spec_config().events.deep_view() == EsLoggerConfig::default_events(),
            r.spec_config().use_sudo,
    {
        EsLoggerAdapter::with_config(EsLoggerConfig::default())
    }

    /// A source with a configuration.
    pub fn with_config(config: EsLoggerConfig) -> (r: Self)
        ensures
            r.spec_config() == config,
    {
        EsLoggerAdapter { config }
    }

    /// The configuration.
    pub fn config(&self) -> (r: &EsLoggerConfig)
        ensures
            *r == self.spec_config(),
    {
        &self.config
    }

    /// The command line that starts the logger.
    pub fn command_line(&self) -> (r: Vec<String>)
        ensures
            r.deep_view() == logger_command(
                self.spec_config().use_sudo,
                self.spec_config().events.deep_view(),
            ),
    {
        let mut out: Vec<String> = Vec::new();
        if self.config.use_sudo {
            out.push("sudo".to_owned());
            out.push("-n".to_owned());
        }
        out.push("eslogger".to_owned());
        let ghost start = logger_command(self.config.use_sudo, Seq::empty());
        assert(out.deep_view() =~= start);
        crate::store_lineage::append_texts(&mut out, &self.config.events);
        assert(out.deep_view() =~= logger_command(
            self.config.use_sudo,
            self.config.events.deep_view(),
        ));
        out
    }
}

impl Default for EsLoggerAdapter {
    fn default() -> (r: Self)
        ensures
            r.spec_config().events.deep_view() == EsLoggerConfig::default_events(),
            r.spec_config().use_sudo,
    {
        EsLoggerAdapter::new()
    }
}

/// The command line that starts the logger for events.
pub open spec fn logger_command(use_sudo: bool, events: Seq<Seq<char>>) -> Seq<Seq<char>> {
    (if use_sudo {
        seq!["sudo"@, "-n"@, "eslogger"@]
    } else {
        seq!["eslogger"@]
    }) + events
}

/// The acting process of a record: the id in its audit token.
pub open spec fn acting_pid(v: JsonView) -> Option<u32> {
    match v.get("process"@) {
        Some(p) => match p.get("audit_token"@) {
            Some(t) => t.u32_at("pid"@),
            None => None,
        },
        None => None,
    }
}

/// The observation of a record, which it carries whole.
pub open spec fn record_observation(v: JsonView, at: Timestamp) -> ObservationView {
    ObservationView {
        timestamp: at,
        source: Source::Process,
        pid: acting_pid(v),
        payload: v,
        tags: None,
    }
}

/// The observation of a line: none of a blank one, nor of one that is no JSON
/// document.
pub open spec fn line_observation(
    line: Seq<char>,
    document: Option<JsonView>,
    at: Timestamp,
) -> Option<ObservationView> {
    match document {
        Some(v) if trim(line).len() > 0 => Some(record_observation(v, at)),
        _ => None,
    }
}

/// The acting process of a record.
pub fn extract_pid(v: &Json) -> (r: Option<u32>)
    ensures
        r == acting_pid(v@),
{
    match v.get("process") {
        Some(p) => match p.get("audit_token") {
            Some(t) => t.u32_at("pid"),
            None => None,
        },
        None => None,
    }
}

/// The observation of a record.
pub fn observe_record(v: Json, at: Timestamp) -> (r: Observation)
    ensures
        r.deep_view() == record_observation(v@, at),
{
    let pid: Option<u32> = extract_pid(&v);
    Observation { timestamp: at, source: Source::Process, pid, payload: v, tags: None }
}

/// Reads one line of the log.
pub fn parse_line(line: &str, at: Timestamp) -> (r: Option<Observation>)
    ensures
        r.deep_view() == line_observation(line@, json_document(line@), at),
{
    if trim_text(line).as_str().is_empty() {
        return None;
    }
    match parse_json(line) {
        Some(v) => Some(observe_record(v, at)),
        None => None,
    }
}

} // verus!
