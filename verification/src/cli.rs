//! The arguments of the command-line tools.

use vstd::prelude::*;
use vstd::string::*;

use crate::events::{event_kind_from_string, kind_of_name, EventKind};
use crate::netstat::u64_of;
use crate::seqs::take_all;
use crate::text::{chars_of, flat, pieces, pieces_of, str_eq, trim, trim_text, u64_from_text, Parts};

verus! {

/// What arguments ask for.
#[derive(Debug)]
pub enum Command<A> {
    /// To run with options.
    Run(A),
    /// To print how the tool is used.
    Help,
    /// To print how the tool is used, because the arguments do not say.
    Usage,
    /// To print the description of a background service.
    Plist,
    /// Nothing that the tool knows; the text says why.
    Fail(String),
}

/// What a `Command` holds.
pub enum Asked<A> {
    Run(A),
    Help,
    Usage,
    Plist,
    Fail(Seq<char>),
}

impl<A: DeepView> DeepView for Command<A> {
    type V = Asked<A::V>;

    open spec fn deep_view(&self) -> Asked<A::V> {
        match self {
            Command::Run(a) => Asked::Run(a.deep_view()),
            Command::Help => Asked::Help,
            Command::Usage => Asked::Usage,
            Command::Plist => Asked::Plist,
            Command::Fail(m) => Asked::Fail(m@),
        }
    }
}

/// What an option did: it set something and took so many arguments, or it
/// ended the reading.
pub enum Step<A> {
    Next(A, int),
    End(Asked<A>),
}

/// What an option did.
enum Took {
    Next(usize),
    Help,
    Plist,
    Fail(String),
}

impl Took {
    /// Whether this is what a step did.
    closed spec fn agrees<A>(self, step: Step<A>, a: A) -> bool {
        match self {
            Took::Next(n) => step == Step::Next(a, n as int),
            Took::Help => step == Step::End(Asked::<A>::Help),
            Took::Plist => step == Step::End(Asked::<A>::Plist),
            Took::Fail(m) => step == Step::End(Asked::<A>::Fail(m@)),
        }
    }
}

/// The argument behind a position.
pub open spec fn value_behind(args: Seq<Seq<char>>, i: int) -> Option<Seq<char>> {
    if i + 1 < args.len() {
        Some(args[i + 1])
    } else {
        None
    }
}

/// The text behind an option, or the complaint that it is missing.
pub open spec fn text_value(value: Option<Seq<char>>, missing: Seq<char>) -> Result<
    Seq<char>,
    Seq<char>,
> {
    match value {
        Some(v) => Ok(v),
        None => Err(missing),
    }
}

/// The number behind an option, or the complaint that it is missing or none.
pub open spec fn number_value(
    value: Option<Seq<char>>,
    missing: Seq<char>,
    wrong: Seq<char>,
) -> Result<u64, Seq<char>> {
    match value {
        Some(v) => match u64_of(v) {
            Some(n) => Ok(n),
            None => Err(wrong),
        },
        None => Err(missing),
    }
}

/// An argument that the tool does not know.
pub open spec fn unknown(arg: Seq<char>) -> Seq<char> {
    flat(seq!["unknown argument: "@, arg])
}

fn take_text(args: &Vec<String>, i: usize, missing: &str) -> (r: Result<String, String>)
    requires
        i < args@.len(),
    ensures
        match text_value(value_behind(args.deep_view(), i as int), missing@) {
            Ok(v) => r is Ok && r->Ok_0@ == v && i + 1 < args@.len(),
            Err(m) => r is Err && r->Err_0@ == m,
        },
{
    if i < args.len() - 1 {
        assert(args.deep_view()[i + 1] == args@[i + 1]@);
        Ok(args[i + 1].clone())
    } else {
        Err(missing.to_string())
    }
}

fn take_number(args: &Vec<String>, i: usize, missing: &str, wrong: &str) -> (r: Result<u64, String>)
    requires
        i < args@.len(),
    ensures
        match number_value(value_behind(args.deep_view(), i as int), missing@, wrong@) {
            Ok(v) => r is Ok && r->Ok_0 == v && i + 1 < args@.len(),
            Err(m) => r is Err && r->Err_0@ == m,
        },
{
    if i < args.len() - 1 {
        assert(args.deep_view()[i + 1] == args@[i + 1]@);
        match u64_from_text(args[i + 1].as_str()) {
            Some(n) => Ok(n),
            None => Err(wrong.to_string()),
        }
    } else {
        Err(missing.to_string())
    }
}

fn unknown_argument(arg: &str) -> (r: String)
    ensures
        r@ == unknown(arg@),
{
    let mut p = Parts::new();
    p.add("unknown argument: ");
    p.add(arg);
    p.finish()
}

fn is_help(arg: &str) -> (r: bool)
    ensures
        r == (arg@ == "-h"@ || arg@ == "--help"@),
{
    str_eq(arg, "-h") || str_eq(arg, "--help")
}

// ---------- kinds of events ---------------------------------------------------------

/// The complaint about a name that is no kind.
pub open spec fn no_kind(s: Seq<char>) -> Seq<char> {
    flat(seq!["unknown event kind '"@, s, "' (expected snake_case, e.g. dns_query)"@])
}

/// The kinds that a list of names separated by commas asks for, so far.
pub open spec fn kinds_so_far(parts: Seq<Seq<char>>) -> Result<Seq<EventKind>, Seq<char>>
    decreases parts.len(),
{
    if parts.len() == 0 {
        Ok(Seq::empty())
    } else {
        match kinds_so_far(parts.drop_last()) {
            Err(m) => Err(m),
            Ok(v) => {
                let p = trim(parts.last());
                if p.len() == 0 {
                    Ok(v)
                } else {
                    match kind_of_name(p) {
                        Some(k) => Ok(v.push(k)),
                        None => Err(no_kind(p)),
                    }
                }
            },
        }
    }
}

/// The kinds that a list of names separated by commas asks for; at least one.
pub open spec fn kinds_of(s: Seq<char>) -> Result<Seq<EventKind>, Seq<char>> {
    match kinds_so_far(pieces(s, ',')) {
        Err(m) => Err(m),
        Ok(v) => if v.len() == 0 {
            Err("--kinds list is empty"@)
        } else {
            Ok(v)
        },
    }
}

/// A wrong name early in a list is what the whole list is refused for.
proof fn first_wrong_name_stays(parts: Seq<Seq<char>>, i: int)
    requires
        0 <= i <= parts.len(),
        kinds_so_far(parts.take(i)) is Err,
    ensures
        kinds_so_far(parts) == kinds_so_far(parts.take(i)),
    decreases parts.len() - i,
{
    if i < parts.len() {
        assert(parts.take(i + 1).drop_last() =~= parts.take(i));
        first_wrong_name_stays(parts, i + 1);
    } else {
        assert(parts.take(i) =~= parts);
    }
}

/// Reads a list of kinds, `dns_query,connection_opened`.
pub fn parse_kinds(s: &str) -> (r: Result<Vec<EventKind>, String>)
    ensures
        match kinds_of(s@) {
            Ok(v) => r is Ok && r->Ok_0@ == v,
            Err(m) => r is Err && r->Err_0@ == m,
        },
{
    let parts: Vec<String> = pieces_of(s, ',');
    let ghost all = parts.deep_view();
    let mut out: Vec<EventKind> = Vec::new();
    let mut i: usize = 0;
    assert(kinds_so_far(all.take(0)) == Ok::<Seq<EventKind>, Seq<char>>(out@));
    while i < parts.len()
        invariant
            all == parts.deep_view(),
            all == pieces(s@, ','),
            i <= parts@.len(),
            kinds_so_far(all.take(i as int)) == Ok::<Seq<EventKind>, Seq<char>>(out@),
        decreases parts@.len() - i,
    {
        assert(all[i as int] == parts@[i as int]@);
        assert(all.take(i + 1).drop_last() =~= all.take(i as int));
        let p: String = trim_text(parts[i].as_str());
        if !p.as_str().is_empty() {
            match event_kind_from_string(p.as_str()) {
                Some(k) => {
                    out.push(k);
                },
                None => {
                    let mut t = Parts::new();
                    t.add("unknown event kind '");
                    t.add(p.as_str());
                    t.add("' (expected snake_case, e.g. dns_query)");
                    proof {
                        first_wrong_name_stays(all, i + 1);
                    }
                    return Err(t.finish());
                },
            }
        }
        i = i + 1;
    }
    proof {
        take_all(all);
    }
    if out.len() == 0 {
        return Err("--kinds list is empty".to_string());
    }
    Ok(out)
}

// ---------- the recorder ------------------------------------------------------------

/// How the recorder runs.
#[derive(Debug)]
pub struct MvpArgs {
    /// How long one capture takes.
    pub duration_secs: u64,
    /// Whether to run on and narrate as time goes by.
    pub daemon: bool,
    /// The time between paragraphs.
    pub tick_secs: u64,
    /// How far back a paragraph looks.
    pub window_secs: u64,
    pub model: String,
    pub ollama_url: String,
    /// Where the store is; none for the usual place.
    pub store_path: Option<String>,
    pub no_store: bool,
    pub store_ttl_secs: u64,
    /// Never to ask a model.
    pub no_narrate: bool,
    /// For how long rows are kept; zero keeps them.
    pub retention_days: u64,
}

/// What `MvpArgs` hold.
pub struct MvpArgsView {
    pub duration_secs: u64,
    pub daemon: bool,
    pub tick_secs: u64,
    pub window_secs: u64,
    pub model: Seq<char>,
    pub ollama_url: Seq<char>,
    pub store_path: Option<Seq<char>>,
    pub no_store: bool,
    pub store_ttl_secs: u64,
    pub no_narrate: bool,
    pub retention_days: u64,
}

impl DeepView for MvpArgs {
    type V = MvpArgsView;

    open spec fn deep_view(&self) -> MvpArgsView {
        MvpArgsView {
            duration_secs: self.duration_secs,
            daemon: self.daemon,
            tick_secs: self.tick_secs,
            window_secs: self.window_secs,
            model: self.model@,
            ollama_url: self.ollama_url@,
            store_path: self.store_path.deep_view(),
            no_store: self.no_store,
            store_ttl_secs: self.store_ttl_secs,
            no_narrate: self.no_narrate,
            retention_days: self.retention_days,
        }
    }
}

/// How the recorder runs without options: one capture of 30 seconds.
pub open spec fn mvp_defaults() -> MvpArgsView {
    MvpArgsView {
        duration_secs: 30,
        daemon: false,
        tick_secs: 60,
        window_secs: 300,
        model: "gemma3:4b"@,
        ollama_url: "http://127.0.0.1:11434"@,
        store_path: None,
        no_store: false,
        store_ttl_secs: 3600,
        no_narrate: false,
        retention_days: 30,
    }
}

impl Default for MvpArgs {
    fn default() -> (r: Self)
        ensures
            r.deep_view() == mvp_defaults(),
    {
        MvpArgs {
            duration_secs: 30,
            daemon: false,
            tick_secs: 60,
            window_secs: 300,
            model: "gemma3:4b".to_string(),
            ollama_url: "http://127.0.0.1:11434".to_string(),
            store_path: None,
            no_store: false,
            store_ttl_secs: 3600,
            no_narrate: false,
            retention_days: 30,
        }
    }
}

/// What an option of the recorder does.
pub open spec fn mvp_step(a: MvpArgsView, arg: Seq<char>, value: Option<Seq<char>>) -> Step<
    MvpArgsView,
> {
    if arg == "--duration"@ {
        match number_value(
            value,
            "--duration requires a value (seconds)"@,
            "--duration must be an integer number of seconds"@,
        ) {
            Ok(n) => Step::Next(MvpArgsView { duration_secs: n, ..a }, 2),
            Err(m) => Step::End(Asked::Fail(m)),
        }
    } else if arg == "--daemon"@ {
        Step::Next(MvpArgsView { daemon: true, ..a }, 1)
    } else if arg == "--tick"@ {
        match number_value(
            value,
            "--tick requires a value (seconds)"@,
            "--tick must be an integer number of seconds"@,
        ) {
            Ok(n) => Step::Next(MvpArgsView { tick_secs: n, ..a }, 2),
            Err(m) => Step::End(Asked::Fail(m)),
        }
    } else if arg == "--window"@ {
        match number_value(
            value,
            "--window requires a value (seconds)"@,
            "--window must be an integer number of seconds"@,
        ) {
            Ok(n) => Step::Next(MvpArgsView { window_secs: n, ..a }, 2),
            Err(m) => Step::End(Asked::Fail(m)),
        }
    } else if arg == "--model"@ {
        match text_value(value, "--model requires a value"@) {
            Ok(v) => Step::Next(MvpArgsView { model: v, ..a }, 2),
            Err(m) => Step::End(Asked::Fail(m)),
        }
    } else if arg == "--ollama-url"@ {
        match text_value(value, "--ollama-url requires a value"@) {
            Ok(v) => Step::Next(MvpArgsView { ollama_url: v, ..a }, 2),
            Err(m) => Step::End(Asked::Fail(m)),
        }
    } else if arg == "--store-path"@ {
        match text_value(value, "--store-path requires a value"@) {
            Ok(v) => Step::Next(MvpArgsView { store_path: Some(v), ..a }, 2),
            Err(m) => Step::End(Asked::Fail(m)),
        }
    } else if arg == "--no-store"@ {
        Step::Next(MvpArgsView { no_store: true, ..a }, 1)
    } else if arg == "--no-narrate"@ {
        Step::Next(MvpArgsView { no_narrate: true, ..a }, 1)
    } else if arg == "--retention-days"@ {
        match number_value(
            value,
            "--retention-days requires a value"@,
            "--retention-days must be an integer (0 disables)"@,
        ) {
            Ok(n) => Step::Next(MvpArgsView { retention_days: n, ..a }, 2),
            Err(m) => Step::End(Asked::Fail(m)),
        }
    } else if arg == "--print-launchd-plist"@ {
        Step::End(Asked::Plist)
    } else if arg == "--store-ttl"@ {
        match number_value(
            value,
            "--store-ttl requires a value (seconds)"@,
            "--store-ttl must be an integer number of seconds"@,
        ) {
            Ok(n) => Step::Next(MvpArgsView { store_ttl_secs: n, ..a }, 2),
            Err(m) => Step::End(Asked::Fail(m)),
        }
    } else if arg == "-h"@ || arg == "--help"@ {
        Step::End(Asked::Help)
    } else {
        Step::End(Asked::Fail(unknown(arg)))
    }
}

/// What the arguments from a position on ask of the recorder.
pub open spec fn mvp_command(args: Seq<Seq<char>>, i: int, a: MvpArgsView) -> Asked<MvpArgsView>
    decreases args.len() - i,
{
    if i < 0 || i >= args.len() {
        Asked::Run(a)
    } else {
        match mvp_step(a, args[i], value_behind(args, i)) {
            Step::Next(b, n) => if n > 0 {
                mvp_command(args, i + n, b)
            } else {
                Asked::Run(b)
            },
            Step::End(c) => c,
        }
    }
}

fn mvp_option(a: &mut MvpArgs, args: &Vec<String>, i: usize) -> (r: Took)
    requires
        i < args@.len(),
    ensures
        r.agrees(
            mvp_step(
                old(a).deep_view(),
                args.deep_view()[i as int],
                value_behind(args.deep_view(), i as int),
            ),
            final(a).deep_view(),
        ),
        r matches Took::Next(n) ==> 1 <= n <= 2 && i + n <= args@.len(),
{
    let arg: &str = args[i].as_str();
    assert(args.deep_view()[i as int] == arg@);
    if str_eq(arg, "--duration") {
        match take_number(
            args,
            i,
            "--duration requires a value (seconds)",
            "--duration must be an integer number of seconds",
        ) {
            Ok(n) => {
                a.duration_secs = n;
                Took::Next(2)
            },
            Err(m) => Took::Fail(m),
        }
    } else if str_eq(arg, "--daemon") {
        a.daemon = true;
        Took::Next(1)
    } else if str_eq(arg, "--tick") {
        match take_number(
            args,
            i,
            "--tick requires a value (seconds)",
            "--tick must be an integer number of seconds",
        ) {
            Ok(n) => {
                a.tick_secs = n;
                Took::Next(2)
            },
            Err(m) => Took::Fail(m),
        }
    } else if str_eq(arg, "--window") {
        match take_number(
            args,
            i,
            "--window requires a value (seconds)",
            "--window must be an integer number of seconds",
        ) {
            Ok(n) => {
                a.window_secs = n;
                Took::Next(2)
            },
            Err(m) => Took::Fail(m),
        }
    } else if str_eq(arg, "--model") {
        match take_text(args, i, "--model requires a value") {
            Ok(v) => {
                a.model = v;
                Took::Next(2)
            },
            Err(m) => Took::Fail(m),
        }
    } else if str_eq(arg, "--ollama-url") {
        match take_text(args, i, "--ollama-url requires a value") {
            Ok(v) => {
                a.ollama_url = v;
                Took::Next(2)
            },
            Err(m) => Took::Fail(m),
        }
    } else if str_eq(arg, "--store-path") {
        match take_text(args, i, "--store-path requires a value") {
            Ok(v) => {
                a.store_path = Some(v);
                Took::Next(2)
            },
            Err(m) => Took::Fail(m),
        }
    } else if str_eq(arg, "--no-store") {
        a.no_store = true;
        Took::Next(1)
    } else if str_eq(arg, "--no-narrate") {
        a.no_narrate = true;
        Took::Next(1)
    } else if str_eq(arg, "--retention-days") {
        match take_number(
            args,
            i,
            "--retention-days requires a value",
            "--retention-days must be an integer (0 disables)",
        ) {
            Ok(n) => {
                a.retention_days = n;
                Took::Next(2)
            },
            Err(m) => Took::Fail(m),
        }
    } else if str_eq(arg, "--print-launchd-plist") {
        Took::Plist
    } else if str_eq(arg, "--store-ttl") {
        match take_number(
            args,
            i,
            "--store-ttl requires a value (seconds)",
            "--store-ttl must be an integer number of seconds",
        ) {
            Ok(n) => {
                a.store_ttl_secs = n;
                Took::Next(2)
            },
            Err(m) => Took::Fail(m),
        }
    } else if is_help(arg) {
        Took::Help
    } else {
        Took::Fail(unknown_argument(arg))
    }
}

/// What the arguments ask of the recorder.
pub fn parse_mvp_args(args: &Vec<String>) -> (r: Command<MvpArgs>)
    ensures
        r.deep_view() == mvp_command(args.deep_view(), 0, mvp_defaults()),
{
    let ghost all = args.deep_view();
    let mut a = MvpArgs::default();
    let mut i: usize = 0;
    while i < args.len()
        invariant
            all == args.deep_view(),
            i <= args@.len(),
            mvp_command(all, i as int, a.deep_view()) == mvp_command(all, 0, mvp_defaults()),
        decreases args@.len() - i,
    {
        match mvp_option(&mut a, args, i) {
            Took::Next(n) => {
                i = i + n;
            },
            Took::Help => {
                return Command::Help;
            },
            Took::Plist => {
                return Command::Plist;
            },
            Took::Fail(m) => {
                return Command::Fail(m);
            },
        }
    }
    Command::Run(a)
}

/// Whether each paragraph sees only a fraction of what was captured.
pub fn tick_outruns_window(a: &MvpArgs) -> (r: bool)
    ensures
        r == (a.daemon && a.tick_secs > a.window_secs),
{
    a.daemon && a.tick_secs > a.window_secs
}

// ---------- the observer ------------------------------------------------------------

/// How the observer runs.
#[derive(Debug)]
pub struct ObserveArgs {
    /// Whether to write observations as well as events.
    pub raw: bool,
    /// When to stop; none runs on.
    pub duration_secs: Option<u64>,
    /// The file to write to; none for the standard output.
    pub out: Option<String>,
}

/// What `ObserveArgs` hold.
pub struct ObserveArgsView {
    pub raw: bool,
    pub duration_secs: Option<u64>,
    pub out: Option<Seq<char>>,
}

impl DeepView for ObserveArgs {
    type V = ObserveArgsView;

    open spec fn deep_view(&self) -> ObserveArgsView {
        ObserveArgsView {
            raw: self.raw,
            duration_secs: self.duration_secs,
            out: self.out.deep_view(),
        }
    }
}

/// What an option of the observer does.
pub open spec fn observe_step(a: ObserveArgsView, arg: Seq<char>, value: Option<Seq<char>>) -> Step<ObserveArgsView> {
    if arg == "--raw"@ {
        Step::Next(ObserveArgsView { raw: true, ..a }, 1)
    } else if arg == "--duration"@ {
        match number_value(value, "--duration requires a value (seconds)"@, "--duration must be an integer number of seconds"@) {
            Ok(n) => Step::Next(ObserveArgsView { duration_secs: Some(n), ..a }, 2),
            Err(m) => Step::End(Asked::Fail(m)),
        }
    } else if arg == "--out"@ {
        match text_value(value, "--out requires a path"@) {
            Ok(v) => Step::Next(ObserveArgsView { out: Some(v), ..a }, 2),
            Err(m) => Step::End(Asked::Fail(m)),
        }
    } else if arg == "-h"@ || arg == "--help"@ {
        Step::End(Asked::Help)
    } else {
        Step::End(Asked::Fail(unknown(arg)))
    }
}

/// What the arguments from a position on ask of the observer.
pub open spec fn observe_options(args: Seq<Seq<char>>, i: int, a: ObserveArgsView) -> Asked<ObserveArgsView>
    decreases args.len() - i,
{
    if i < 0 || i >= args.len() {
        Asked::Run(a)
    } else {
        match observe_step(a, args[i], value_behind(args, i)) {
            Step::Next(b, n) => if n > 0 {
                observe_options(args, i + n, b)
            } else {
                Asked::Run(b)
            },
            Step::End(c) => c,
        }
    }
}

fn observe_option(a: &mut ObserveArgs, args: &Vec<String>, i: usize) -> (r: Took)
    requires
        i < args@.len(),
    ensures
        r.agrees(
            observe_step(
                old(a).deep_view(),
                args.deep_view()[i as int],
                value_behind(args.deep_view(), i as int),
            ),
            final(a).deep_view(),
        ),
        r matches Took::Next(n) ==> 1 <= n <= 2 && i + n <= args@.len(),
{
    let arg: &str = args[i].as_str();
    assert(args.deep_view()[i as int] == arg@);
    if str_eq(arg, "--raw") {
        a.raw = true;
        Took::Next(1)
    } else if str_eq(arg, "--duration") {
        match take_number(args, i, "--duration requires a value (seconds)", "--duration must be an integer number of seconds") {
            Ok(n) => {
                a.duration_secs = Some(n);
                Took::Next(2)
            },
            Err(m) => Took::Fail(m),
        }
    } else if str_eq(arg, "--out") {
        match take_text(args, i, "--out requires a path") {
            Ok(v) => {
                a.out = Some(v);
                Took::Next(2)
            },
            Err(m) => Took::Fail(m),
        }
    } else if is_help(arg) {
        Took::Help
    } else {
        Took::Fail(unknown_argument(arg))
    }
}

fn read_observe_options(start: ObserveArgs, args: &Vec<String>, from: usize) -> (r: Command<ObserveArgs>)
    requires
        from <= args@.len(),
    ensures
        r.deep_view() == observe_options(args.deep_view(), from as int, start.deep_view()),
{
    let ghost all = args.deep_view();
    let ghost v = start.deep_view();
    let mut a = start;
    let mut i: usize = from;
    while i < args.len()
        invariant
            all == args.deep_view(),
            v == start.deep_view(),
            i <= args@.len(),
            observe_options(all, i as int, a.deep_view()) == observe_options(all, from as int, v),
        decreases args@.len() - i,
    {
        match observe_option(&mut a, args, i) {
            Took::Next(n) => {
                i = i + n;
            },
            Took::Help => {
                return Command::Help;
            },
            Took::Plist => {
                return Command::Plist;
            },
            Took::Fail(m) => {
                return Command::Fail(m);
            },
        }
    }
    Command::Run(a)
}

/// What the arguments ask of the observer.
pub fn parse_observe_args(args: &Vec<String>) -> (r: Command<ObserveArgs>)
    ensures
        r.deep_view() == observe_options(
            args.deep_view(),
            0,
            (ObserveArgsView { raw: false, duration_secs: None, out: None }),
        ),
{
    read_observe_options(ObserveArgs { raw: false, duration_secs: None, out: None }, args, 0)
}

// ---------- the reconstructor -------------------------------------------------------

/// How the reconstructor runs.
#[derive(Debug)]
pub struct EventsArgs {
    /// The kinds to write; none for all.
    pub kinds: Option<Vec<EventKind>>,
}

/// What `EventsArgs` hold.
pub struct EventsArgsView {
    pub kinds: Option<Seq<EventKind>>,
}

impl DeepView for EventsArgs {
    type V = EventsArgsView;

    open spec fn deep_view(&self) -> EventsArgsView {
        EventsArgsView {
            kinds: self.kinds.deep_view(),
        }
    }
}

/// What an option of the reconstructor does.
pub open spec fn events_step(a: EventsArgsView, arg: Seq<char>, value: Option<Seq<char>>) -> Step<EventsArgsView> {
    if arg == "--kinds"@ {
        match text_value(value, "--kinds requires a comma-separated list"@) {
            Ok(v) => match kinds_of(v) {
                Ok(ks) => Step::Next(EventsArgsView { kinds: Some(ks), ..a }, 2),
                Err(m) => Step::End(Asked::Fail(m)),
            },
            Err(m) => Step::End(Asked::Fail(m)),
        }
    } else if arg == "-h"@ || arg == "--help"@ {
        Step::End(Asked::Help)
    } else {
        Step::End(Asked::Fail(unknown(arg)))
    }
}

/// What the arguments from a position on ask of the reconstructor.
pub open spec fn events_options(args: Seq<Seq<char>>, i: int, a: EventsArgsView) -> Asked<EventsArgsView>
    decreases args.len() - i,
{
    if i < 0 || i >= args.len() {
        Asked::Run(a)
    } else {
        match events_step(a, args[i], value_behind(args, i)) {
            Step::Next(b, n) => if n > 0 {
                events_options(args, i + n, b)
            } else {
                Asked::Run(b)
            },
            Step::End(c) => c,
        }
    }
}

fn events_option(a: &mut EventsArgs, args: &Vec<String>, i: usize) -> (r: Took)
    requires
        i < args@.len(),
    ensures
        r.agrees(
            events_step(
                old(a).deep_view(),
                args.deep_view()[i as int],
                value_behind(args.deep_view(), i as int),
            ),
            final(a).deep_view(),
        ),
        r matches Took::Next(n) ==> 1 <= n <= 2 && i + n <= args@.len(),
{
    let arg: &str = args[i].as_str();
    assert(args.deep_view()[i as int] == arg@);
    if str_eq(arg, "--kinds") {
        match take_text(args, i, "--kinds requires a comma-separated list") {
            Ok(v) => match parse_kinds(v.as_str()) {
                Ok(ks) => {
                    assert(ks.deep_view() =~= ks@);
                    a.kinds = Some(ks);
                    Took::Next(2)
                },
                Err(m) => Took::Fail(m),
            },
            Err(m) => Took::Fail(m),
        }
    } else if is_help(arg) {
        Took::Help
    } else {
        Took::Fail(unknown_argument(arg))
    }
}

fn read_events_options(start: EventsArgs, args: &Vec<String>, from: usize) -> (r: Command<EventsArgs>)
    requires
        from <= args@.len(),
    ensures
        r.deep_view() == events_options(args.deep_view(), from as int, start.deep_view()),
{
    let ghost all = args.deep_view();
    let ghost v = start.deep_view();
    let mut a = start;
    let mut i: usize = from;
    while i < args.len()
        invariant
            all == args.deep_view(),
            v == start.deep_view(),
            i <= args@.len(),
            events_options(all, i as int, a.deep_view()) == events_options(all, from as int, v),
        decreases args@.len() - i,
    {
        match events_option(&mut a, args, i) {
            Took::Next(n) => {
                i = i + n;
            },
            Took::Help => {
                return Command::Help;
            },
            Took::Plist => {
                return Command::Plist;
            },
            Took::Fail(m) => {
                return Command::Fail(m);
            },
        }
    }
    Command::Run(a)
}

/// What the arguments ask of the reconstructor.
pub fn parse_events_args(args: &Vec<String>) -> (r: Command<EventsArgs>)
    ensures
        r.deep_view() == events_options(args.deep_view(), 0, (EventsArgsView { kinds: None })),
{
    read_events_options(EventsArgs { kinds: None }, args, 0)
}

/// Whether an event of a kind is to be written.
pub fn wants_kind(a: &EventsArgs, kind: EventKind) -> (r: bool)
    ensures
        r == match a.deep_view().kinds {
            Some(ks) => ks.contains(kind),
            None => true,
        },
{
    match &a.kinds {
        Some(ks) => {
            assert(ks.deep_view() =~= ks@);
            let mut i: usize = 0;
            while i < ks.len()
                invariant
                    a.deep_view().kinds == Some(ks@),
                    i <= ks@.len(),
                    forall|k: int| 0 <= k < i ==> ks@[k] != kind,
                decreases ks@.len() - i,
            {
                if ks[i] == kind {
                    return true;
                }
                i = i + 1;
            }
            false
        },
        None => true,
    }
}

// ---------- the graph writer --------------------------------------------------------

/// How the graph writer runs.
#[derive(Debug)]
pub struct GraphArgs {
    /// The directory to write to.
    pub out_dir: Option<String>,
}

/// What `GraphArgs` hold.
pub struct GraphArgsView {
    pub out_dir: Option<Seq<char>>,
}

impl DeepView for GraphArgs {
    type V = GraphArgsView;

    open spec fn deep_view(&self) -> GraphArgsView {
        GraphArgsView {
            out_dir: self.out_dir.deep_view(),
        }
    }
}

/// What an option of the graph writer does.
pub open spec fn graph_step(a: GraphArgsView, arg: Seq<char>, value: Option<Seq<char>>) -> Step<GraphArgsView> {
    if arg == "--out-dir"@ {
        match text_value(value, "--out-dir requires a path"@) {
            Ok(v) => Step::Next(GraphArgsView { out_dir: Some(v), ..a }, 2),
            Err(m) => Step::End(Asked::Fail(m)),
        }
    } else if arg == "-h"@ || arg == "--help"@ {
        Step::End(Asked::Help)
    } else {
        Step::End(Asked::Fail(unknown(arg)))
    }
}

/// What the arguments from a position on ask of the graph writer.
pub open spec fn graph_options(args: Seq<Seq<char>>, i: int, a: GraphArgsView) -> Asked<GraphArgsView>
    decreases args.len() - i,
{
    if i < 0 || i >= args.len() {
        Asked::Run(a)
    } else {
        match graph_step(a, args[i], value_behind(args, i)) {
            Step::Next(b, n) => if n > 0 {
                graph_options(args, i + n, b)
            } else {
                Asked::Run(b)
            },
            Step::End(c) => c,
        }
    }
}

fn graph_option(a: &mut GraphArgs, args: &Vec<String>, i: usize) -> (r: Took)
    requires
        i < args@.len(),
    ensures
        r.agrees(
            graph_step(
                old(a).deep_view(),
                args.deep_view()[i as int],
                value_behind(args.deep_view(), i as int),
            ),
            final(a).deep_view(),
        ),
        r matches Took::Next(n) ==> 1 <= n <= 2 && i + n <= args@.len(),
{
    let arg: &str = args[i].as_str();
    assert(args.deep_view()[i as int] == arg@);
    if str_eq(arg, "--out-dir") {
        match take_text(args, i, "--out-dir requires a path") {
            Ok(v) => {
                a.out_dir = Some(v);
                Took::Next(2)
            },
            Err(m) => Took::Fail(m),
        }
    } else if is_help(arg) {
        Took::Help
    } else {
        Took::Fail(unknown_argument(arg))
    }
}

fn read_graph_options(start: GraphArgs, args: &Vec<String>, from: usize) -> (r: Command<GraphArgs>)
    requires
        from <= args@.len(),
    ensures
        r.deep_view() == graph_options(args.deep_view(), from as int, start.deep_view()),
{
    let ghost all = args.deep_view();
    let ghost v = start.deep_view();
    let mut a = start;
    let mut i: usize = from;
    while i < args.len()
        invariant
            all == args.deep_view(),
            v == start.deep_view(),
            i <= args@.len(),
            graph_options(all, i as int, a.deep_view()) == graph_options(all, from as int, v),
        decreases args@.len() - i,
    {
        match graph_option(&mut a, args, i) {
            Took::Next(n) => {
                i = i + n;
            },
            Took::Help => {
                return Command::Help;
            },
            Took::Plist => {
                return Command::Plist;
            },
            Took::Fail(m) => {
                return Command::Fail(m);
            },
        }
    }
    Command::Run(a)
}

/// What the arguments ask of the graph writer, which needs a directory.
pub open spec fn graph_command(args: Seq<Seq<char>>) -> Asked<GraphArgsView> {
    match graph_options(args, 0, (GraphArgsView { out_dir: None })) {
        Asked::Run(a) => if a.out_dir is None {
            Asked::Fail("--out-dir is required"@)
        } else {
            Asked::Run(a)
        },
        c => c,
    }
}

/// What the arguments ask of the graph writer.
pub fn parse_graph_args(args: &Vec<String>) -> (r: Command<GraphArgs>)
    ensures
        r.deep_view() == graph_command(args.deep_view()),
{
    match read_graph_options(GraphArgs { out_dir: None }, args, 0) {
        Command::Run(a) => if a.out_dir.is_none() {
            Command::Fail("--out-dir is required".to_string())
        } else {
            Command::Run(a)
        },
        c => c,
    }
}

// ---------- the agents --------------------------------------------------------------

/// Task of an agent.
#[derive(Debug, Clone, Copy, PartialEq, Eq, Structural)]
pub enum AgentTask {
    Timeline,
    ProcessAnomaly,
    NetworkReview,
    DnsReview,
}

/// The task of an agent that a word asks for.
pub open spec fn agent_task_of(s: Seq<char>) -> Option<AgentTask> {
    if s == "timeline"@ {
        Some(AgentTask::Timeline)
    } else if s == "process-anomaly"@ {
        Some(AgentTask::ProcessAnomaly)
    } else if s == "network-review"@ {
        Some(AgentTask::NetworkReview)
    } else if s == "dns-review"@ {
        Some(AgentTask::DnsReview)
    } else {
        None
    }
}

fn read_agent_task(s: &str) -> (r: Option<AgentTask>)
    ensures
        r == agent_task_of(s@),
{
    if str_eq(s, "timeline") {
        Some(AgentTask::Timeline)
    } else if str_eq(s, "process-anomaly") {
        Some(AgentTask::ProcessAnomaly)
    } else if str_eq(s, "network-review") {
        Some(AgentTask::NetworkReview)
    } else if str_eq(s, "dns-review") {
        Some(AgentTask::DnsReview)
    } else {
        None
    }
}

/// How an agent runs.
#[derive(Debug)]
pub struct AgentsArgs {
    pub task: AgentTask,
    pub model: String,
    pub ollama_url: String,
    pub graph_path: Option<String>,
    pub store_path: Option<String>,
    /// Whether to print for a reader.
    pub pretty: bool,
    pub max_input_items: u64,
}

/// What `AgentsArgs` hold.
pub struct AgentsArgsView {
    pub task: AgentTask,
    pub model: Seq<char>,
    pub ollama_url: Seq<char>,
    pub graph_path: Option<Seq<char>>,
    pub store_path: Option<Seq<char>>,
    pub pretty: bool,
    pub max_input_items: u64,
}

impl DeepView for AgentsArgs {
    type V = AgentsArgsView;

    open spec fn deep_view(&self) -> AgentsArgsView {
        AgentsArgsView {
            task: self.task,
            model: self.model@,
            ollama_url: self.ollama_url@,
            graph_path: self.graph_path.deep_view(),
            store_path: self.store_path.deep_view(),
            pretty: self.pretty,
            max_input_items: self.max_input_items,
        }
    }
}

/// What an option of an agent does.
pub open spec fn agents_step(a: AgentsArgsView, arg: Seq<char>, value: Option<Seq<char>>) -> Step<AgentsArgsView> {
    if arg == "--model"@ {
        match text_value(value, "--model requires a value"@) {
            Ok(v) => Step::Next(AgentsArgsView { model: v, ..a }, 2),
            Err(m) => Step::End(Asked::Fail(m)),
        }
    } else if arg == "--ollama-url"@ {
        match text_value(value, "--ollama-url requires a value"@) {
            Ok(v) => Step::Next(AgentsArgsView { ollama_url: v, ..a }, 2),
            Err(m) => Step::End(Asked::Fail(m)),
        }
    } else if arg == "--graph"@ {
        match text_value(value, "--graph requires a path"@) {
            Ok(v) => Step::Next(AgentsArgsView { graph_path: Some(v), ..a }, 2),
            Err(m) => Step::End(Asked::Fail(m)),
        }
    } else if arg == "--store"@ {
        match text_value(value, "--store requires a path"@) {
            Ok(v) => Step::Next(AgentsArgsView { store_path: Some(v), ..a }, 2),
            Err(m) => Step::End(Asked::Fail(m)),
        }
    } else if arg == "--pretty"@ {
        Step::Next(AgentsArgsView { pretty: true, ..a }, 1)
    } else if arg == "--max-items"@ {
        match number_value(value, "--max-items requires a value"@, "--max-items must be an integer"@) {
            Ok(n) => Step::Next(AgentsArgsView { max_input_items: n, ..a }, 2),
            Err(m) => Step::End(Asked::Fail(m)),
        }
    } else if arg == "-h"@ || arg == "--help"@ {
        Step::End(Asked::Help)
    } else {
        Step::End(Asked::Fail(unknown(arg)))
    }
}

/// What the arguments from a position on ask of an agent.
pub open spec fn agents_options(args: Seq<Seq<char>>, i: int, a: AgentsArgsView) -> Asked<AgentsArgsView>
    decreases args.len() - i,
{
    if i < 0 || i >= args.len() {
        Asked::Run(a)
    } else {
        match agents_step(a, args[i], value_behind(args, i)) {
            Step::Next(b, n) => if n > 0 {
                agents_options(args, i + n, b)
            } else {
                Asked::Run(b)
            },
            Step::End(c) => c,
        }
    }
}

fn agents_option(a: &mut AgentsArgs, args: &Vec<String>, i: usize) -> (r: Took)
    requires
        i < args@.len(),
    ensures
        r.agrees(
            agents_step(
                old(a).deep_view(),
                args.deep_view()[i as int],
                value_behind(args.deep_view(), i as int),
            ),
            final(a).deep_view(),
        ),
        r matches Took::Next(n) ==> 1 <= n <= 2 && i + n <= args@.len(),
{
    let arg: &str = args[i].as_str();
    assert(args.deep_view()[i as int] == arg@);
    if str_eq(arg, "--model") {
        match take_text(args, i, "--model requires a value") {
            Ok(v) => {
                a.model = v;
                Took::Next(2)
            },
            Err(m) => Took::Fail(m),
        }
    } else if str_eq(arg, "--ollama-url") {
        match take_text(args, i, "--ollama-url requires a value") {
            Ok(v) => {
                a.ollama_url = v;
                Took::Next(2)
            },
            Err(m) => Took::Fail(m),
        }
    } else if str_eq(arg, "--graph") {
        match take_text(args, i, "--graph requires a path") {
            Ok(v) => {
                a.graph_path = Some(v);
                Took::Next(2)
            },
            Err(m) => Took::Fail(m),
        }
    } else if str_eq(arg, "--store") {
        match take_text(args, i, "--store requires a path") {
            Ok(v) => {
                a.store_path = Some(v);
                Took::Next(2)
            },
            Err(m) => Took::Fail(m),
        }
    } else if str_eq(arg, "--pretty") {
        a.pretty = true;
        Took::Next(1)
    } else if str_eq(arg, "--max-items") {
        match take_number(args, i, "--max-items requires a value", "--max-items must be an integer") {
            Ok(n) => {
                a.max_input_items = n;
                Took::Next(2)
            },
            Err(m) => Took::Fail(m),
        }
    } else if is_help(arg) {
        Took::Help
    } else {
        Took::Fail(unknown_argument(arg))
    }
}

fn read_agents_options(start: AgentsArgs, args: &Vec<String>, from: usize) -> (r: Command<AgentsArgs>)
    requires
        from <= args@.len(),
    ensures
        r.deep_view() == agents_options(args.deep_view(), from as int, start.deep_view()),
{
    let ghost all = args.deep_view();
    let ghost v = start.deep_view();
    let mut a = start;
    let mut i: usize = from;
    while i < args.len()
        invariant
            all == args.deep_view(),
            v == start.deep_view(),
            i <= args@.len(),
            agents_options(all, i as int, a.deep_view()) == agents_options(all, from as int, v),
        decreases args@.len() - i,
    {
        match agents_option(&mut a, args, i) {
            Took::Next(n) => {
                i = i + n;
            },
            Took::Help => {
                return Command::Help;
            },
            Took::Plist => {
                return Command::Plist;
            },
            Took::Fail(m) => {
                return Command::Fail(m);
            },
        }
    }
    Command::Run(a)
}

/// How an agent runs without options.
pub open spec fn agents_defaults(task: AgentTask) -> AgentsArgsView {
    AgentsArgsView {
        task,
        model: "gemma3:4b"@,
        ollama_url: "http://127.0.0.1:11434"@,
        graph_path: None,
        store_path: None,
        pretty: false,
        max_input_items: 200,
    }
}

/// What the arguments ask of the agents: first a task, then options.
pub open spec fn agents_command(args: Seq<Seq<char>>) -> Asked<AgentsArgsView> {
    if args.len() == 0 {
        Asked::Fail(
            "missing subcommand (timeline|process-anomaly|network-review|dns-review)"@,
        )
    } else {
        match agent_task_of(args[0]) {
            Some(task) => agents_options(args, 1, agents_defaults(task)),
            None => if args[0] == "-h"@ || args[0] == "--help"@ {
                Asked::Help
            } else {
                Asked::Fail(flat(seq!["unknown subcommand: "@, args[0]]))
            },
        }
    }
}

/// What the arguments ask of the agents.
pub fn parse_agents_args(args: &Vec<String>) -> (r: Command<AgentsArgs>)
    ensures
        r.deep_view() == agents_command(args.deep_view()),
{
    if args.len() == 0 {
        return Command::Fail(
            "missing subcommand (timeline|process-anomaly|network-review|dns-review)".to_string(),
        );
    }
    assert(args.deep_view()[0] == args@[0]@);
    let word: &str = args[0].as_str();
    match read_agent_task(word) {
        Some(task) => {
            let start = AgentsArgs {
                task,
                model: "gemma3:4b".to_string(),
                ollama_url: "http://127.0.0.1:11434".to_string(),
                graph_path: None,
                store_path: None,
                pretty: false,
                max_input_items: 200,
            };
            read_agents_options(start, args, 1)
        },
        None => if is_help(word) {
            Command::Help
        } else {
            Command::Fail(unknown_subcommand(word))
        },
    }
}

fn unknown_subcommand(word: &str) -> (r: String)
    ensures
        r@ == flat(seq!["unknown subcommand: "@, word@]),
{
    let mut p = Parts::new();
    p.add("unknown subcommand: ");
    p.add(word);
    p.finish()
}

// ---------- queries -----------------------------------------------------------------

/// Query of the store.
#[derive(Debug, Clone, Copy, PartialEq, Eq, Structural)]
pub enum QueryTask {
    Summary,
    Processes,
    Endpoints,
    Domains,
    Focus,
    Events,
    Topology,
    Prune,
}

/// The query of the store that a word asks for.
pub open spec fn query_task_of(s: Seq<char>) -> Option<QueryTask> {
    if s == "summary"@ {
        Some(QueryTask::Summary)
    } else if s == "processes"@ {
        Some(QueryTask::Processes)
    } else if s == "endpoints"@ {
        Some(QueryTask::Endpoints)
    } else if s == "domains"@ {
        Some(QueryTask::Domains)
    } else if s == "focus"@ {
        Some(QueryTask::Focus)
    } else if s == "events"@ {
        Some(QueryTask::Events)
    } else if s == "topology"@ {
        Some(QueryTask::Topology)
    } else if s == "prune"@ {
        Some(QueryTask::Prune)
    } else {
        None
    }
}

fn read_query_task(s: &str) -> (r: Option<QueryTask>)
    ensures
        r == query_task_of(s@),
{
    if str_eq(s, "summary") {
        Some(QueryTask::Summary)
    } else if str_eq(s, "processes") {
        Some(QueryTask::Processes)
    } else if str_eq(s, "endpoints") {
        Some(QueryTask::Endpoints)
    } else if str_eq(s, "domains") {
        Some(QueryTask::Domains)
    } else if str_eq(s, "focus") {
        Some(QueryTask::Focus)
    } else if str_eq(s, "events") {
        Some(QueryTask::Events)
    } else if str_eq(s, "topology") {
        Some(QueryTask::Topology)
    } else if str_eq(s, "prune") {
        Some(QueryTask::Prune)
    } else {
        None
    }
}

/// How a query runs.
#[derive(Debug)]
pub struct QueryArgs {
    pub task: QueryTask,
    pub store: Option<String>,
    /// Whether to print for a reader.
    pub pretty: bool,
    /// How many rows to print; none for the query's own number.
    pub limit: Option<u64>,
    pub since_mins: u64,
    pub older_than_days: Option<u64>,
    pub kinds: Option<Vec<EventKind>>,
}

/// What `QueryArgs` hold.
pub struct QueryArgsView {
    pub task: QueryTask,
    pub store: Option<Seq<char>>,
    pub pretty: bool,
    pub limit: Option<u64>,
    pub since_mins: u64,
    pub older_than_days: Option<u64>,
    pub kinds: Option<Seq<EventKind>>,
}

impl DeepView for QueryArgs {
    type V = QueryArgsView;

    open spec fn deep_view(&self) -> QueryArgsView {
        QueryArgsView {
            task: self.task,
            store: self.store.deep_view(),
            pretty: self.pretty,
            limit: self.limit,
            since_mins: self.since_mins,
            older_than_days: self.older_than_days,
            kinds: self.kinds.deep_view(),
        }
    }
}

/// What an option of a query does.
pub open spec fn query_step(a: QueryArgsView, arg: Seq<char>, value: Option<Seq<char>>) -> Step<QueryArgsView> {
    if arg == "--store"@ {
        match text_value(value, "--store requires a path"@) {
            Ok(v) => Step::Next(QueryArgsView { store: Some(v), ..a }, 2),
            Err(m) => Step::End(Asked::Fail(m)),
        }
    } else if arg == "--pretty"@ {
        Step::Next(QueryArgsView { pretty: true, ..a }, 1)
    } else if arg == "--limit"@ {
        match number_value(value, "--limit requires a value"@, "--limit must be an integer"@) {
            Ok(n) => Step::Next(QueryArgsView { limit: Some(n), ..a }, 2),
            Err(m) => Step::End(Asked::Fail(m)),
        }
    } else if arg == "--kinds"@ {
        match text_value(value, "--kinds requires a comma-separated list"@) {
            Ok(v) => match kinds_of(v) {
                Ok(ks) => Step::Next(QueryArgsView { kinds: Some(ks), ..a }, 2),
                Err(m) => Step::End(Asked::Fail(m)),
            },
            Err(m) => Step::End(Asked::Fail(m)),
        }
    } else if arg == "--since-mins"@ {
        match number_value(value, "--since-mins requires a value"@, "--since-mins must be an integer"@) {
            Ok(n) => Step::Next(QueryArgsView { since_mins: n, ..a }, 2),
            Err(m) => Step::End(Asked::Fail(m)),
        }
    } else if arg == "--older-than-days"@ {
        match number_value(value, "--older-than-days requires a value"@, "--older-than-days must be an integer"@) {
            Ok(n) => Step::Next(QueryArgsView { older_than_days: Some(n), ..a }, 2),
            Err(m) => Step::End(Asked::Fail(m)),
        }
    } else if arg == "-h"@ || arg == "--help"@ {
        Step::End(Asked::Help)
    } else {
        Step::End(Asked::Fail(unknown(arg)))
    }
}

/// What the arguments from a position on ask of a query.
pub open spec fn query_options(args: Seq<Seq<char>>, i: int, a: QueryArgsView) -> Asked<QueryArgsView>
    decreases args.len() - i,
{
    if i < 0 || i >= args.len() {
        Asked::Run(a)
    } else {
        match query_step(a, args[i], value_behind(args, i)) {
            Step::Next(b, n) => if n > 0 {
                query_options(args, i + n, b)
            } else {
                Asked::Run(b)
            },
            Step::End(c) => c,
        }
    }
}

fn query_option(a: &mut QueryArgs, args: &Vec<String>, i: usize) -> (r: Took)
    requires
        i < args@.len(),
    ensures
        r.agrees(
            query_step(
                old(a).deep_view(),
                args.deep_view()[i as int],
                value_behind(args.deep_view(), i as int),
            ),
            final(a).deep_view(),
        ),
        r matches Took::Next(n) ==> 1 <= n <= 2 && i + n <= args@.len(),
{
    let arg: &str = args[i].as_str();
    assert(args.deep_view()[i as int] == arg@);
    if str_eq(arg, "--store") {
        match take_text(args, i, "--store requires a path") {
            Ok(v) => {
                a.store = Some(v);
                Took::Next(2)
            },
            Err(m) => Took::Fail(m),
        }
    } else if str_eq(arg, "--pretty") {
        a.pretty = true;
        Took::Next(1)
    } else if str_eq(arg, "--limit") {
        match take_number(args, i, "--limit requires a value", "--limit must be an integer") {
            Ok(n) => {
                a.limit = Some(n);
                Took::Next(2)
            },
            Err(m) => Took::Fail(m),
        }
    } else if str_eq(arg, "--kinds") {
        match take_text(args, i, "--kinds requires a comma-separated list") {
            Ok(v) => match parse_kinds(v.as_str()) {
                Ok(ks) => {
                    assert(ks.deep_view() =~= ks@);
                    a.kinds = Some(ks);
                    Took::Next(2)
                },
                Err(m) => Took::Fail(m),
            },
            Err(m) => Took::Fail(m),
        }
    } else if str_eq(arg, "--since-mins") {
        match take_number(args, i, "--since-mins requires a value", "--since-mins must be an integer") {
            Ok(n) => {
                a.since_mins = n;
                Took::Next(2)
            },
            Err(m) => Took::Fail(m),
        }
    } else if str_eq(arg, "--older-than-days") {
        match take_number(args, i, "--older-than-days requires a value", "--older-than-days must be an integer") {
            Ok(n) => {
                a.older_than_days = Some(n);
                Took::Next(2)
            },
            Err(m) => Took::Fail(m),
        }
    } else if is_help(arg) {
        Took::Help
    } else {
        Took::Fail(unknown_argument(arg))
    }
}

fn read_query_options(start: QueryArgs, args: &Vec<String>, from: usize) -> (r: Command<QueryArgs>)
    requires
        from <= args@.len(),
    ensures
        r.deep_view() == query_options(args.deep_view(), from as int, start.deep_view()),
{
    let ghost all = args.deep_view();
    let ghost v = start.deep_view();
    let mut a = start;
    let mut i: usize = from;
    while i < args.len()
        invariant
            all == args.deep_view(),
            v == start.deep_view(),
            i <= args@.len(),
            query_options(all, i as int, a.deep_view()) == query_options(all, from as int, v),
        decreases args@.len() - i,
    {
        match query_option(&mut a, args, i) {
            Took::Next(n) => {
                i = i + n;
            },
            Took::Help => {
                return Command::Help;
            },
            Took::Plist => {
                return Command::Plist;
            },
            Took::Fail(m) => {
                return Command::Fail(m);
            },
        }
    }
    Command::Run(a)
}

/// How a query runs without options: over the last hour.
pub open spec fn query_defaults(task: QueryTask) -> QueryArgsView {
    QueryArgsView {
        task,
        store: None,
        pretty: false,
        limit: None,
        since_mins: 60,
        older_than_days: None,
        kinds: None,
    }
}

/// What the arguments ask of the store: first a query, then options.
pub open spec fn query_command(args: Seq<Seq<char>>) -> Asked<QueryArgsView> {
    if args.len() == 0 {
        Asked::Usage
    } else {
        match query_task_of(args[0]) {
            Some(task) => query_options(args, 1, query_defaults(task)),
            None => if args[0] == "-h"@ || args[0] == "--help"@ {
                Asked::Help
            } else {
                Asked::Fail(flat(seq!["unknown subcommand: "@, args[0]]))
            },
        }
    }
}

/// What the arguments ask of the store.
pub fn parse_query_args(args: &Vec<String>) -> (r: Command<QueryArgs>)
    ensures
        r.deep_view() == query_command(args.deep_view()),
{
    if args.len() == 0 {
        return Command::Usage;
    }
    assert(args.deep_view()[0] == args@[0]@);
    let word: &str = args[0].as_str();
    match read_query_task(word) {
        Some(task) => {
            let start = QueryArgs {
                task,
                store: None,
                pretty: false,
                limit: None,
                since_mins: 60,
                older_than_days: None,
                kinds: None,
            };
            read_query_options(start, args, 1)
        },
        None => if is_help(word) {
            Command::Help
        } else {
            Command::Fail(unknown_subcommand(word))
        },
    }
}

// ---------- places ------------------------------------------------------------------

/// Where the store is kept, below the home directory.
pub const STORE_BELOW_HOME: &'static str = "Library/Application Support/agentworld/world.db";

/// A path below a directory.
pub open spec fn path_below(dir: Seq<char>, path: Seq<char>) -> Seq<char> {
    if dir.len() == 0 || dir.last() == '/' {
        dir + path
    } else {
        dir + "/"@ + path
    }
}

/// The path of the store: none where there is to be none, the given one, or
/// the usual one where there is a home directory.
pub open spec fn store_place(
    no_store: bool,
    given: Option<Seq<char>>,
    home: Option<Seq<char>>,
) -> Option<Seq<char>> {
    if no_store {
        None
    } else {
        match given {
            Some(p) => Some(p),
            None => match home {
                Some(h) => Some(path_below(h, STORE_BELOW_HOME@)),
                None => None,
            },
        }
    }
}

/// The path of the store.
pub fn resolve_store_path(no_store: bool, given: &Option<String>, home: &Option<String>) -> (r: Option<
    String,
>)
    ensures
        r.deep_view() == store_place(no_store, given.deep_view(), home.deep_view()),
{
    if no_store {
        return None;
    }
    match given {
        Some(p) => Some(p.clone()),
        None => match home {
            Some(h) => {
                let cs: Vec<char> = chars_of(h.as_str());
                let n: usize = cs.len();
                let mut s: String = h.clone();
                if n > 0 && cs[n - 1] != '/' {
                    s.append("/");
                }
                s.append(STORE_BELOW_HOME);
                Some(s)
            },
            None => None,
        },
    }
}

/// The description of a background service that runs the recorder, between
/// the path of the program and the home directory.
pub open spec fn plist_parts(exe: Seq<char>, home: Seq<char>) -> Seq<Seq<char>> {
    seq![
        PLIST_HEAD@,
        exe,
        PLIST_OPTIONS@,
        home,
        "/Library/Logs/agentworld/aw-mvp.log</string>\n    <key>StandardErrorPath</key>\n    <string>"@,
        home,
        "/Library/Logs/agentworld/aw-mvp.err.log</string>\n</dict>\n</plist>"@,
    ]
}

/// What stands before the path of the program.
pub const PLIST_HEAD: &'static str = "<?xml version=\"1.0\" encoding=\"UTF-8\"?>\n<!DOCTYPE plist PUBLIC \"-//Apple//DTD PLIST 1.0//EN\" \"http://www.apple.com/DTDs/PropertyList-1.0.dtd\">\n<plist version=\"1.0\">\n<dict>\n    <key>Label</key>\n    <string>com.agentworld.aw-mvp</string>\n    <key>ProgramArguments</key>\n    <array>\n        <string>";

/// What stands behind it.
pub const PLIST_OPTIONS: &'static str = "</string>\n        <string>--daemon</string>\n        <string>--no-narrate</string>\n    </array>\n    <key>RunAtLoad</key>\n    <true/>\n    <key>KeepAlive</key>\n    <true/>\n    <key>ProcessType</key>\n    <string>Background</string>\n    <key>StandardOutPath</key>\n    <string>";

/// The description of a background service that runs the recorder.
pub fn launchd_plist(exe: &str, home: &str) -> (r: String)
    ensures
        r@ == flat(plist_parts(exe@, home@)),
{
    let mut p = Parts::new();
    p.add(PLIST_HEAD);
    p.add(exe);
    p.add(PLIST_OPTIONS);
    p.add(home);
    p.add(
        "/Library/Logs/agentworld/aw-mvp.log</string>\n    <key>StandardErrorPath</key>\n    <string>",
    );
    p.add(home);
    p.add("/Library/Logs/agentworld/aw-mvp.err.log</string>\n</dict>\n</plist>");
    p.finish()
}

} // verus!
