//! What the sources of the machine report, as observations.
//!
//! Reading the machine is left to the callers; here a reading becomes an
//! observation: bits get names, and numbers their type.

use vstd::arithmetic::power2::{lemma_pow2_unfold, pow2};
use vstd::prelude::*;
use vstd::string::*;

use crate::json::{copy_strings, int_of_u64, opt_int, opt_str, put, str_array, Json, JsonView};
use crate::observation::{Observation, ObservationView, Source, SourceBehavior, Timestamp};
use crate::seqs::{filter_map_start, filter_map_step, push_item, take_all};

verus! {

// ---------- files -------------------------------------------------------------------

/// Which directories are watched, and how long changes are gathered.
#[derive(Debug)]
pub struct FsEventsConfig {
    pub roots: Vec<String>,
    pub latency_ms: u64,
}

impl Clone for FsEventsConfig {
    fn clone(&self) -> (r: Self)
        ensures
            r.roots.deep_view() == self.roots.deep_view(),
            r.latency_ms == self.latency_ms,
    {
        FsEventsConfig {
            roots: copy_strings(&self.roots),
            latency_ms: self.latency_ms,
        }
    }
}

impl FsEventsConfig {
    /// Watches the home directory, or the temporary one where there is none.
    pub fn for_home(home: Option<String>) -> (r: Self)
        ensures
            r.roots.deep_view() == seq![
                match home.deep_view() {
                    Some(h) => h,
                    None => "/tmp"@,
                },
            ],
            r.latency_ms == 100,
    {
        let root: String = match home {
            Some(h) => h,
            None => "/tmp".to_string(),
        };
        let mut roots: Vec<String> = Vec::new();
        push_item(&mut roots, root);
        FsEventsConfig { roots, latency_ms: 100 }
    }
}

/// Watches files.
#[derive(Debug)]
pub struct FsEventsAdapter {
    pub config: FsEventsConfig,
}

impl FsEventsAdapter {
    /// Watches the home directory.
    pub fn new(home: Option<String>) -> (r: Self)
        ensures
            r.config.roots.deep_view() == seq![
                match home.deep_view() {
                    Some(h) => h,
                    None => "/tmp"@,
                },
            ],
            r.config.latency_ms == 100,
    {
        FsEventsAdapter { config: FsEventsConfig::for_home(home) }
    }

    /// Watches as configured.
    pub fn with_config(config: FsEventsConfig) -> (r: Self)
        ensures
            r.config == config,
    {
        FsEventsAdapter { config }
    }

    /// Files are the source.
    pub fn source(&self) -> (r: Source)
        ensures
            r == Source::FileSystem,
    {
        Source::FileSystem
    }

    /// Changes come as a stream.
    pub fn behavior(&self) -> (r: SourceBehavior)
        ensures
            r == SourceBehavior::Stream,
    {
        SourceBehavior::Stream
    }
}

/// What the bits of a change mean, from the lowest up.
pub open spec fn flag_names() -> Seq<Seq<char>> {
    seq![
        "must_scan_subdirs"@,
        "user_dropped"@,
        "kernel_dropped"@,
        "ids_wrapped"@,
        "history_done"@,
        "root_changed"@,
        "mount"@,
        "unmount"@,
        "created"@,
        "removed"@,
        "inode_meta_mod"@,
        "renamed"@,
        "modified"@,
        "finder_info_mod"@,
        "change_owner"@,
        "xattr_mod"@,
        "is_file"@,
        "is_dir"@,
        "is_symlink"@,
        "own_event"@,
        "is_hardlink"@,
        "is_last_hardlink"@,
        "cloned"@,
    ]
}

/// Whether a bit is set.
pub open spec fn bit_set(bits: u32, i: int) -> bool {
    (bits as int / pow2(i as nat) as int) % 2 == 1
}

/// The name of a bit that is set.
pub open spec fn flag_at(bits: u32) -> spec_fn(int) -> Option<Seq<char>> {
    |i: int|
        if bit_set(bits, i) {
            Some(flag_names()[i])
        } else {
            None
        }
}

/// The numbers from zero on.
pub open spec fn numbers(n: nat) -> Seq<int> {
    Seq::new(n, |i: int| i)
}

/// The names of the bits that are set.
pub open spec fn flags_of(bits: u32) -> Seq<Seq<char>> {
    numbers(flag_names().len()).filter_map(flag_at(bits))
}

/// The names of the bits that are set, from the lowest up.
pub fn decode_flags(bits: u32) -> (r: Vec<String>)
    ensures
        r.deep_view() == flags_of(bits),
{
    let names = [
        "must_scan_subdirs",
        "user_dropped",
        "kernel_dropped",
        "ids_wrapped",
        "history_done",
        "root_changed",
        "mount",
        "unmount",
        "created",
        "removed",
        "inode_meta_mod",
        "renamed",
        "modified",
        "finder_info_mod",
        "change_owner",
        "xattr_mod",
        "is_file",
        "is_dir",
        "is_symlink",
        "own_event",
        "is_hardlink",
        "is_last_hardlink",
        "cloned",
    ];
    let ghost texts = flag_names();
    assert forall|k: int| 0 <= k < 23 implies (#[trigger] names@[k])@ == texts[k] by {}
    let ghost all = numbers(texts.len());
    let ghost g = flag_at(bits);
    let mut out: Vec<String> = Vec::new();
    let mut rest: u32 = bits;
    let mut i: usize = 0;
    proof {
        filter_map_start(all, g);
        assert(out.deep_view() =~= Seq::<Seq<char>>::empty());
        vstd::arithmetic::power2::lemma2_to64();
    }
    while i < 23
        invariant
            texts == flag_names(),
            all == numbers(23),
            g == flag_at(bits),
            names@.len() == 23,
            forall|k: int| 0 <= k < 23 ==> (#[trigger] names@[k])@ == texts[k],
            i <= 23,
            rest == bits as int / pow2(i as nat) as int,
            out.deep_view() == all.take(i as int).filter_map(g),
        decreases 23 - i,
    {
        proof {
            filter_map_step(all, g, i as int);
            vstd::arithmetic::power2::lemma_pow2_pos(i as nat);
            lemma_pow2_unfold((i + 1) as nat);
            vstd::arithmetic::div_mod::lemma_div_denominator(
                bits as int,
                pow2(i as nat) as int,
                2,
            );
        }
        if rest % 2 == 1 {
            push_item(&mut out, names[i].to_string());
        }
        rest = rest / 2;
        i = i + 1;
    }
    proof {
        take_all(all);
    }
    out
}

/// The observation of a change of a file.
pub open spec fn file_observation(
    path: Seq<char>,
    bits: u32,
    event_id: u64,
    at: Timestamp,
) -> ObservationView {
    ObservationView {
        timestamp: at,
        source: Source::FileSystem,
        pid: None,
        payload: JsonView::Object(
            seq![
                ("path"@, JsonView::Str(path)),
                ("flags"@, str_array(flags_of(bits))),
                ("event_id"@, JsonView::Int(event_id as int)),
            ],
        ),
        tags: None,
    }
}

/// The observation of a change of a file. Who changed it is not reported.
pub fn observe_file(path: &str, bits: u32, event_id: u64, at: Timestamp) -> (r: Observation)
    ensures
        r.deep_view() == file_observation(path@, bits, event_id, at),
{
    let mut f: Vec<(String, Json)> = Vec::new();
    put(&mut f, "path", Json::text(path));
    put(&mut f, "flags", Json::text_array(&decode_flags(bits)));
    put(&mut f, "event_id", Json::U64(event_id));
    assert(f.deep_view() =~= file_observation(path@, bits, event_id, at).payload->Object_0);
    Observation {
        timestamp: at,
        source: Source::FileSystem,
        pid: None,
        payload: Json::object(f),
        tags: None,
    }
}

// ---------- connections -------------------------------------------------------------

/// Lists connections.
#[derive(Debug, Clone, Copy, PartialEq, Eq, Structural)]
pub struct NetworkAdapter;

impl NetworkAdapter {
    /// The adapter.
    pub fn new() -> Self {
        NetworkAdapter
    }

    /// The network is the source.
    pub fn source(&self) -> (r: Source)
        ensures
            r == Source::Network,
    {
        Source::Network
    }

    /// Connections are listed again and again.
    pub fn behavior(&self) -> (r: SourceBehavior)
        ensures
            r == SourceBehavior::Snapshot,
    {
        SourceBehavior::Snapshot
    }
}

impl Default for NetworkAdapter {
    fn default() -> Self {
        NetworkAdapter
    }
}

// ---------- processes ---------------------------------------------------------------

/// Lists processes.
#[derive(Debug, Clone, Copy, PartialEq, Eq, Structural)]
pub struct ProcessAdapter;

impl ProcessAdapter {
    /// The adapter.
    pub fn new() -> Self {
        ProcessAdapter
    }

    /// Processes are the source.
    pub fn source(&self) -> (r: Source)
        ensures
            r == Source::Process,
    {
        Source::Process
    }

    /// Processes are listed again and again.
    pub fn behavior(&self) -> (r: SourceBehavior)
        ensures
            r == SourceBehavior::Snapshot,
    {
        SourceBehavior::Snapshot
    }
}

impl Default for ProcessAdapter {
    fn default() -> Self {
        ProcessAdapter
    }
}

/// What the kernel says of a process.
#[derive(Debug)]
pub struct ProcessInfo {
    pub pid: u32,
    pub ppid: u32,
    pub uid: u32,
    pub gid: u32,
    pub pgid: u32,
    pub comm: String,
    pub name: String,
    pub exec_path: Option<String>,
    pub start_unix_secs: u64,
    pub status: u32,
    pub nfiles: u32,
}

/// The observation of a process.
pub open spec fn process_observation(p: ProcessInfo, at: Timestamp) -> ObservationView {
    ObservationView {
        timestamp: at,
        source: Source::Process,
        pid: Some(p.pid),
        payload: JsonView::Object(
            seq![
                ("ppid"@, JsonView::Int(p.ppid as int)),
                ("uid"@, JsonView::Int(p.uid as int)),
                ("gid"@, JsonView::Int(p.gid as int)),
                ("pgid"@, JsonView::Int(p.pgid as int)),
                ("comm"@, JsonView::Str(p.comm@)),
                ("name"@, JsonView::Str(p.name@)),
                ("exec_path"@, opt_str(p.exec_path.deep_view())),
                ("start_unix_secs"@, JsonView::Int(p.start_unix_secs as int)),
                ("status"@, JsonView::Int(p.status as int)),
                ("nfiles"@, JsonView::Int(p.nfiles as int)),
            ],
        ),
        tags: None,
    }
}

/// The observation of a process.
pub fn observe_process(p: &ProcessInfo, at: Timestamp) -> (r: Observation)
    ensures
        r.deep_view() == process_observation(*p, at),
{
    let mut f: Vec<(String, Json)> = Vec::new();
    put(&mut f, "ppid", Json::U64(p.ppid as u64));
    put(&mut f, "uid", Json::U64(p.uid as u64));
    put(&mut f, "gid", Json::U64(p.gid as u64));
    put(&mut f, "pgid", Json::U64(p.pgid as u64));
    put(&mut f, "comm", Json::text(p.comm.as_str()));
    put(&mut f, "name", Json::text(p.name.as_str()));
    put(&mut f, "exec_path", Json::opt_text(&p.exec_path));
    put(&mut f, "start_unix_secs", Json::U64(p.start_unix_secs));
    put(&mut f, "status", Json::U64(p.status as u64));
    put(&mut f, "nfiles", Json::U64(p.nfiles as u64));
    assert(f.deep_view() =~= process_observation(*p, at).payload->Object_0);
    Observation {
        timestamp: at,
        source: Source::Process,
        pid: Some(p.pid),
        payload: Json::object(f),
        tags: None,
    }
}

/// Whether a process id is that of a process.
pub fn is_process_id(pid: i32) -> (r: bool)
    ensures
        r == (pid > 0),
{
    pid > 0
}

/// What `String::from_utf8_lossy` makes of bytes.
pub uninterp spec fn utf8_lossy(bytes: Seq<u8>) -> Seq<char>;

/// Bytes as text with `String::from_utf8_lossy`, which puts a replacement
/// character for what is not UTF-8.
///
/// Claimed of it: the text depends on the bytes alone, and bytes below 128 are
/// the characters with their number.
#[verifier::external_body]
fn lossy_text(bytes: &[u8]) -> (r: String)
    ensures
        r@ == utf8_lossy(bytes@),
        (forall|i: int| 0 <= i < bytes@.len() ==> #[trigger] bytes@[i] < 128) ==> r@
            == bytes@.map_values(|b: u8| b as char),
{
    String::from_utf8_lossy(bytes).into_owned()
}

/// The bytes of an array of C characters up to the first zero.
pub open spec fn c_bytes(arr: Seq<i8>) -> Seq<u8>
    decreases arr.len(),
{
    if arr.len() == 0 || arr[0] == 0 {
        Seq::empty()
    } else {
        seq![(arr[0] as int % 256) as u8] + c_bytes(arr.skip(1))
    }
}

/// The text of an array of C characters: up to the first zero, or all of it.
pub fn c_array_to_string(arr: &[i8]) -> (r: String)
    ensures
        r@ == utf8_lossy(c_bytes(arr@)),
        (forall|i: int|
            0 <= i < c_bytes(arr@).len() ==> #[trigger] c_bytes(arr@)[i] < 128) ==> r@ == c_bytes(
            arr@,
        ).map_values(|b: u8| b as char),
{
    let mut bytes: Vec<u8> = Vec::new();
    let mut i: usize = 0;
    assert(arr@.skip(0) =~= arr@);
    assert(bytes@ + c_bytes(arr@.skip(0)) =~= c_bytes(arr@));
    while i < arr.len() && arr[i] != 0
        invariant
            i <= arr@.len(),
            bytes@ + c_bytes(arr@.skip(i as int)) == c_bytes(arr@),
        decreases arr@.len() - i,
    {
        let ghost rest = arr@.skip(i as int);
        assert(rest[0] == arr@[i as int]);
        assert(rest.skip(1) =~= arr@.skip(i + 1));
        let c: i16 = arr[i] as i16;
        let b: u8 = if c < 0 {
            (c + 256) as u8
        } else {
            c as u8
        };
        let ghost before = bytes@;
        bytes.push(b);
        assert(before.push(b) + c_bytes(arr@.skip(i + 1)) =~= before + c_bytes(rest));
        i = i + 1;
    }
    proof {
        let rest = arr@.skip(i as int);
        if i < arr@.len() {
            assert(rest[0] == arr@[i as int]);
        }
        assert(bytes@ + c_bytes(rest) =~= bytes@);
    }
    lossy_text(bytes.as_slice())
}

// ---------- the system --------------------------------------------------------------

/// A number of the kernel in the type that the kernel gives it.
#[derive(Debug, Clone, Copy, PartialEq, Eq, Structural)]
pub enum KernelValue {
    Int(i32),
    S8(i8),
    S16(i16),
    S32(i32),
    S64(i64),
    Long(i64),
    Uint(u32),
    U8(u8),
    U16(u16),
    U32(u32),
    U64(u64),
    Ulong(u64),
    /// No number.
    Other,
}

/// A value as a signed number. A `U64` that is too large is none, and an
/// unsigned long that is too large wraps.
pub open spec fn signed_of(v: KernelValue) -> Option<i64> {
    match v {
        KernelValue::Int(i) => Some(i as i64),
        KernelValue::S8(i) => Some(i as i64),
        KernelValue::S16(i) => Some(i as i64),
        KernelValue::S32(i) => Some(i as i64),
        KernelValue::S64(i) => Some(i),
        KernelValue::Long(i) => Some(i),
        KernelValue::Uint(i) => Some(i as i64),
        KernelValue::U8(i) => Some(i as i64),
        KernelValue::U16(i) => Some(i as i64),
        KernelValue::U32(i) => Some(i as i64),
        KernelValue::U64(i) => if i <= i64::MAX {
            Some(i as i64)
        } else {
            None
        },
        KernelValue::Ulong(i) => Some(
            if i <= i64::MAX {
                i as i64
            } else {
                (i - 0x1_0000_0000_0000_0000) as i64
            },
        ),
        KernelValue::Other => None,
    }
}

/// A value as a number that is not negative. The narrow signed types are none.
pub open spec fn unsigned_of(v: KernelValue) -> Option<u64> {
    match v {
        KernelValue::Uint(i) => Some(i as u64),
        KernelValue::U8(i) => Some(i as u64),
        KernelValue::U16(i) => Some(i as u64),
        KernelValue::U32(i) => Some(i as u64),
        KernelValue::U64(i) => Some(i),
        KernelValue::Ulong(i) => Some(i),
        KernelValue::Int(i) => if i >= 0 {
            Some(i as u64)
        } else {
            None
        },
        KernelValue::S64(i) => if i >= 0 {
            Some(i as u64)
        } else {
            None
        },
        KernelValue::Long(i) => if i >= 0 {
            Some(i as u64)
        } else {
            None
        },
        _ => None,
    }
}

/// A value as a signed number.
pub fn sysctl_value_to_i64(v: KernelValue) -> (r: Option<i64>)
    ensures
        r == signed_of(v),
{
    match v {
        KernelValue::Int(i) => Some(i as i64),
        KernelValue::S8(i) => Some(i as i64),
        KernelValue::S16(i) => Some(i as i64),
        KernelValue::S32(i) => Some(i as i64),
        KernelValue::S64(i) => Some(i),
        KernelValue::Long(i) => Some(i),
        KernelValue::Uint(i) => Some(i as i64),
        KernelValue::U8(i) => Some(i as i64),
        KernelValue::U16(i) => Some(i as i64),
        KernelValue::U32(i) => Some(i as i64),
        KernelValue::U64(i) => if i <= 0x7fff_ffff_ffff_ffff {
            Some(i as i64)
        } else {
            None
        },
        KernelValue::Ulong(i) => if i <= 0x7fff_ffff_ffff_ffff {
            Some(i as i64)
        } else {
            Some(-((u64::MAX - i) as i64) - 1)
        },
        KernelValue::Other => None,
    }
}

/// A value as a number that is not negative.
pub fn sysctl_value_to_u64(v: KernelValue) -> (r: Option<u64>)
    ensures
        r == unsigned_of(v),
{
    match v {
        KernelValue::Uint(i) => Some(i as u64),
        KernelValue::U8(i) => Some(i as u64),
        KernelValue::U16(i) => Some(i as u64),
        KernelValue::U32(i) => Some(i as u64),
        KernelValue::U64(i) => Some(i),
        KernelValue::Ulong(i) => Some(i),
        KernelValue::Int(i) => if i >= 0 {
            Some(i as u64)
        } else {
            None
        },
        KernelValue::S64(i) => if i >= 0 {
            Some(i as u64)
        } else {
            None
        },
        KernelValue::Long(i) => if i >= 0 {
            Some(i as u64)
        } else {
            None
        },
        _ => None,
    }
}

/// What does not change about the machine, as far as it could be read.
#[derive(Debug)]
pub struct StaticInfo {
    pub ncpu: Option<i64>,
    pub memsize: Option<u64>,
    pub model: Option<String>,
    pub ostype: Option<String>,
    pub osrelease: Option<String>,
    pub osversion: Option<String>,
}

/// Reports on the machine.
#[derive(Debug)]
pub struct SystemAdapter {
    pub static_info: StaticInfo,
}

impl SystemAdapter {
    /// The adapter, for what does not change.
    pub fn new(static_info: StaticInfo) -> (r: Self)
        ensures
            r.static_info == static_info,
    {
        SystemAdapter { static_info }
    }

    /// The system is the source.
    pub fn source(&self) -> (r: Source)
        ensures
            r == Source::System,
    {
        Source::System
    }

    /// The machine is read again and again.
    pub fn behavior(&self) -> (r: SourceBehavior)
        ensures
            r == SourceBehavior::Snapshot,
    {
        SourceBehavior::Snapshot
    }
}

/// The load over one, five and fifteen minutes, in decimal.
#[derive(Debug)]
pub struct LoadAverage {
    pub one: String,
    pub five: String,
    pub fifteen: String,
}

/// A load, or null.
pub open spec fn load_json(s: Option<Seq<char>>) -> JsonView {
    match s {
        Some(t) => JsonView::Real(t),
        None => JsonView::Null,
    }
}

/// A signed number, or null.
pub open spec fn signed_json(n: Option<i64>) -> JsonView {
    match n {
        Some(k) => JsonView::Int(k as int),
        None => JsonView::Null,
    }
}

/// What is reported of the machine; null for what could not be read.
pub open spec fn system_payload(s: StaticInfo, load: Option<LoadAverage>) -> JsonView {
    JsonView::Object(
        seq![
            ("ncpu"@, signed_json(s.ncpu)),
            ("memsize"@, opt_int(int_of_u64(s.memsize))),
            ("model"@, opt_str(s.model.deep_view())),
            ("ostype"@, opt_str(s.ostype.deep_view())),
            ("osrelease"@, opt_str(s.osrelease.deep_view())),
            ("osversion"@, opt_str(s.osversion.deep_view())),
            (
                "loadavg_1m"@,
                load_json(
                    match load {
                        Some(l) => Some(l.one@),
                        None => None,
                    },
                ),
            ),
            (
                "loadavg_5m"@,
                load_json(
                    match load {
                        Some(l) => Some(l.five@),
                        None => None,
                    },
                ),
            ),
            (
                "loadavg_15m"@,
                load_json(
                    match load {
                        Some(l) => Some(l.fifteen@),
                        None => None,
                    },
                ),
            ),
        ],
    )
}

/// What is reported of the machine.
pub fn build_payload(s: &StaticInfo, load: &Option<LoadAverage>) -> (r: Json)
    ensures
        r@ == system_payload(*s, *load),
{
    let ncpu: Json = match s.ncpu {
        Some(n) => Json::I64(n),
        None => Json::Null,
    };
    let (one, five, fifteen): (Json, Json, Json) = match load {
        Some(l) => (
            Json::Real(l.one.clone()),
            Json::Real(l.five.clone()),
            Json::Real(l.fifteen.clone()),
        ),
        None => (Json::Null, Json::Null, Json::Null),
    };
    let mut f: Vec<(String, Json)> = Vec::new();
    put(&mut f, "ncpu", ncpu);
    put(&mut f, "memsize", Json::opt_u64(s.memsize));
    put(&mut f, "model", Json::opt_text(&s.model));
    put(&mut f, "ostype", Json::opt_text(&s.ostype));
    put(&mut f, "osrelease", Json::opt_text(&s.osrelease));
    put(&mut f, "osversion", Json::opt_text(&s.osversion));
    put(&mut f, "loadavg_1m", one);
    put(&mut f, "loadavg_5m", five);
    put(&mut f, "loadavg_15m", fifteen);
    assert(f.deep_view() =~= system_payload(*s, *load)->Object_0);
    Json::object(f)
}

/// The observation of the machine. It belongs to no process.
pub fn observe_system(s: &StaticInfo, load: &Option<LoadAverage>, at: Timestamp) -> (r: Observation)
    ensures
        r.deep_view() == (ObservationView {
            timestamp: at,
            source: Source::System,
            pid: None,
            payload: system_payload(*s, *load),
            tags: None,
        }),
{
    Observation {
        timestamp: at,
        source: Source::System,
        pid: None,
        payload: build_payload(s, load),
        tags: None,
    }
}

} // verus!
