//! What holds of the time that applications spend in front, over any events.

use vstd::prelude::*;

use crate::events::{EventKind, EventView};
use crate::graph::{AppNodeView, Interval};
use crate::graph_builder::{close_app, close_last, focus_id, is_app, know_app, open_app, BuilderView};
use crate::graph_laws::fed;
use crate::observation::Timestamp;
use crate::seqs::{first_where, first_where_is_first};

verus! {

// ---------- changes of focus -------------------------------------------------------

/// Whether an event brings an application to the front: it names its bundle
/// id or, without one, its executable path.
pub open spec fn brings(app: Seq<char>, ev: EventView) -> bool {
    let bundle = ev.payload.str_at("to_bundle_id"@);
    let path = ev.payload.str_at("to_exec_path"@);
    &&& ev.kind == EventKind::AppFocus
    &&& app.len() > 0
    &&& bundle == Some(app) || (path == Some(app) && (bundle matches Some(b) ==> b.len() == 0))
}

/// Whether an event brings some application to the front.
pub open spec fn brings_some(ev: EventView) -> bool {
    &&& ev.kind == EventKind::AppFocus
    &&& (ev.payload.str_at("to_bundle_id"@) matches Some(b) && b.len() > 0) || (
    ev.payload.str_at("to_exec_path"@) matches Some(p) && p.len() > 0)
}

/// The positions of the events that bring an application to the front.
pub open spec fn places(evs: Seq<EventView>, app: Seq<char>) -> Seq<int>
    decreases evs.len(),
{
    if evs.len() == 0 {
        Seq::empty()
    } else if brings(app, evs.last()) {
        places(evs.drop_last(), app).push(evs.len() - 1)
    } else {
        places(evs.drop_last(), app)
    }
}

/// Whether a change of focus is the next after a position.
pub open spec fn is_next(evs: Seq<EventView>, k: int, m: int) -> bool {
    &&& k < m < evs.len()
    &&& brings_some(evs[m])
    &&& forall|j: int| k < j < m ==> !brings_some(#[trigger] evs[j])
}

/// Whether an application that came to the front at a position was in front
/// since another: it came to the front there, nothing else did until the
/// position, and something else was in front before.
pub open spec fn is_start(evs: Seq<EventView>, app: Seq<char>, s: int, k: int) -> bool {
    &&& 0 <= s <= k < evs.len()
    &&& brings(app, evs[s])
    &&& forall|j: int| s <= j <= k && brings_some(#[trigger] evs[j]) ==> brings(app, evs[j])
    &&& forall|p: int|
        0 <= p && brings_some(evs[p]) && #[trigger] is_next(evs, p, s) ==> !brings(app, evs[p])
}

/// Whether an interval begins when the application at a position came to the
/// front.
pub open spec fn begins_at(evs: Seq<EventView>, app: Seq<char>, k: int, from: Timestamp) -> bool {
    exists|s: int| #[trigger] is_start(evs, app, s, k) && from == evs[s].timestamp
}

/// Whether an interval ends with the next change of focus, or at a given end
/// where there is none.
pub open spec fn ends_at(
    evs: Seq<EventView>,
    k: int,
    to: Option<Timestamp>,
    end: Option<Timestamp>,
) -> bool {
    &&& forall|m: int| #[trigger] is_next(evs, k, m) ==> to == Some(evs[m].timestamp)
    &&& (forall|m: int| k < m < evs.len() ==> !brings_some(#[trigger] evs[m])) ==> to == end
}

/// Whether intervals are those of an application: one for every event that
/// brought it to the front, in their order, each from when it came to the front
/// to the next change of focus.
pub open spec fn tells_focus(
    v: Seq<Interval>,
    evs: Seq<EventView>,
    app: Seq<char>,
    end: Option<Timestamp>,
) -> bool {
    let ks = places(evs, app);
    &&& v.len() == ks.len()
    &&& forall|j: int|
        0 <= j < ks.len() ==> begins_at(evs, app, #[trigger] ks[j], v[j].from) && ends_at(
            evs,
            ks[j],
            v[j].to,
            end,
        )
}

/// The intervals of an application among some, and none where it is not.
pub open spec fn intervals_of(apps: Seq<AppNodeView>, app: Seq<char>) -> Seq<Interval> {
    match first_where(apps, is_app(app)) {
        Some(i) => apps[i].intervals,
        None => Seq::empty(),
    }
}

// ---------- lists of applications --------------------------------------------------

proof fn update_finds(apps: Seq<AppNodeView>, i: int, a: AppNodeView, x: Seq<char>)
    requires
        0 <= i < apps.len(),
        a.id == apps[i].id,
    ensures
        first_where(apps.update(i, a), is_app(x)) == first_where(apps, is_app(x)),
{
    let after = apps.update(i, a);
    first_where_is_first(apps, is_app(x));
    first_where_is_first(after, is_app(x));
    assert forall|j: int| 0 <= j < apps.len() implies (#[trigger] after[j]).id == apps[j].id by {}
    match (first_where(apps, is_app(x)), first_where(after, is_app(x))) {
        (Some(p), Some(q)) => {
            if p < q {
                assert(!is_app(x)(after[p]));
            }
            if q < p {
                assert(!is_app(x)(apps[q]));
            }
        },
        (Some(p), None) => {
            assert(!is_app(x)(after[p]));
        },
        (None, Some(q)) => {
            assert(!is_app(x)(apps[q]));
        },
        (None, None) => {},
    }
}

proof fn push_finds(apps: Seq<AppNodeView>, a: AppNodeView, x: Seq<char>)
    ensures
        first_where(apps.push(a), is_app(x)) == match first_where(apps, is_app(x)) {
            Some(i) => Some(i),
            None => if a.id == x {
                Some(apps.len() as int)
            } else {
                None
            },
        },
{
    let after = apps.push(a);
    first_where_is_first(apps, is_app(x));
    first_where_is_first(after, is_app(x));
    assert forall|j: int| 0 <= j < apps.len() implies #[trigger] after[j] == apps[j] by {}
    assert(after[apps.len() as int] == a);
    match (first_where(apps, is_app(x)), first_where(after, is_app(x))) {
        (Some(p), Some(q)) => {
            if p < q {
                assert(!is_app(x)(after[p]));
            }
            if q < p {
                assert(!is_app(x)(apps[q]));
            }
        },
        (Some(p), None) => {
            assert(!is_app(x)(after[p]));
        },
        (None, Some(q)) => {
            if q < apps.len() {
                assert(!is_app(x)(apps[q]));
            }
        },
        (None, None) => {
            assert(!is_app(x)(after[apps.len() as int]));
        },
    }
}

/// Closing the last interval of an application leaves every other as it was.
proof fn close_finds(apps: Seq<AppNodeView>, id: Seq<char>, at: Option<Timestamp>, x: Seq<char>)
    ensures
        first_where(close_app(apps, id, at), is_app(x)) == first_where(apps, is_app(x)),
        intervals_of(close_app(apps, id, at), x) == if x == id {
            close_last(intervals_of(apps, x), at)
        } else {
            intervals_of(apps, x)
        },
{
    first_where_is_first(apps, is_app(id));
    first_where_is_first(apps, is_app(x));
    match first_where(apps, is_app(id)) {
        Some(i) => {
            update_finds(apps, i, close_app(apps, id, at)[i], x);
        },
        None => {},
    }
}

/// An application that gets an open interval keeps those that it had.
proof fn open_finds(apps: Seq<AppNodeView>, id: Seq<char>, from: Timestamp, x: Seq<char>)
    ensures
        first_where(open_app(apps, id, from), is_app(x)) == first_where(apps, is_app(x)),
        intervals_of(open_app(apps, id, from), x) == if x == id && first_where(
            apps,
            is_app(id),
        ) is Some {
            intervals_of(apps, x).push(Interval { from, to: None })
        } else {
            intervals_of(apps, x)
        },
{
    first_where_is_first(apps, is_app(id));
    first_where_is_first(apps, is_app(x));
    match first_where(apps, is_app(id)) {
        Some(i) => {
            update_finds(apps, i, open_app(apps, id, from)[i], x);
        },
        None => {},
    }
}

proof fn know_finds(
    apps: Seq<AppNodeView>,
    id: Seq<char>,
    name: Option<Seq<char>>,
    exec_path: Option<Seq<char>>,
    x: Seq<char>,
)
    ensures
        first_where(know_app(apps, id, name, exec_path), is_app(x)) is Some <==> x == id
            || first_where(apps, is_app(x)) is Some,
        intervals_of(know_app(apps, id, name, exec_path), x) == intervals_of(apps, x),
{
    let after = know_app(apps, id, name, exec_path);
    first_where_is_first(apps, is_app(id));
    first_where_is_first(apps, is_app(x));
    match first_where(apps, is_app(id)) {
        Some(i) => {
            update_finds(apps, i, after[i], x);
        },
        None => {
            push_finds(apps, after.last(), x);
        },
    }
}

// ---------- positions --------------------------------------------------------------

/// An event brings an application to the front exactly if its focus is the
/// application's.
proof fn brings_the_focus(app: Seq<char>, ev: EventView)
    requires
        ev.kind == EventKind::AppFocus,
    ensures
        brings(app, ev) <==> focus_id(ev) == Some(app),
        brings_some(ev) <==> focus_id(ev) is Some,
{
}

proof fn brought_is_one(a: Seq<char>, b: Seq<char>, ev: EventView)
    requires
        brings(a, ev),
        brings(b, ev),
    ensures
        a == b,
        brings_some(ev),
{
}

proof fn places_are_there(evs: Seq<EventView>, app: Seq<char>)
    ensures
        forall|j: int|
            0 <= j < places(evs, app).len() ==> 0 <= (#[trigger] places(evs, app)[j]) < evs.len()
                && brings(app, evs[places(evs, app)[j]]),
        forall|i: int, j: int|
            0 <= i < j < places(evs, app).len() ==> places(evs, app)[i] < places(evs, app)[j],
        forall|k: int|
            0 <= k < evs.len() && brings(app, #[trigger] evs[k]) ==> places(evs, app).contains(k),
    decreases evs.len(),
{
    if evs.len() > 0 {
        let t = evs.drop_last();
        places_are_there(t, app);
        let (ks, before) = (places(evs, app), places(t, app));
        assert forall|j: int| 0 <= j < ks.len() implies 0 <= (#[trigger] ks[j]) < evs.len()
            && brings(app, evs[ks[j]]) by {
            if j < before.len() {
                assert(before[j] == ks[j]);
                assert(t[ks[j]] == evs[ks[j]]);
            }
        }
        assert forall|k: int| 0 <= k < evs.len() && brings(app, #[trigger] evs[k]) implies ks.contains(
            k,
        ) by {
            if k < t.len() {
                assert(t[k] == evs[k]);
                let j = choose|j: int| 0 <= j < before.len() && before[j] == k;
                assert(ks[j] == k);
            } else {
                assert(ks.last() == k);
            }
        }
    }
}

/// Whether a change of focus is the last.
spec fn is_last_focus(evs: Seq<EventView>, k: int) -> bool {
    &&& 0 <= k < evs.len()
    &&& brings_some(evs[k])
    &&& forall|m: int| k < m < evs.len() ==> !brings_some(#[trigger] evs[m])
}

proof fn last_place(evs: Seq<EventView>, app: Seq<char>, k: int)
    requires
        is_last_focus(evs, k),
        brings(app, evs[k]),
    ensures
        places(evs, app).len() > 0,
        places(evs, app).last() == k,
    decreases evs.len(),
{
    let t = evs.drop_last();
    if k < t.len() {
        assert(!brings_some(evs[evs.len() - 1]));
        assert(evs[k] == t[k]);
        assert(is_last_focus(t, k)) by {
            assert forall|m: int| k < m < t.len() implies !brings_some(#[trigger] t[m]) by {
                assert(t[m] == evs[m]);
            }
        }
        last_place(t, app, k);
    }
}

/// What began before an event began so after it.
proof fn beginning_stays(evs: Seq<EventView>, app: Seq<char>, k: int, from: Timestamp)
    requires
        evs.len() > 0,
        k < evs.len() - 1,
        begins_at(evs.drop_last(), app, k, from),
    ensures
        begins_at(evs, app, k, from),
{
    let t = evs.drop_last();
    let s = choose|s: int| #[trigger] is_start(t, app, s, k) && from == t[s].timestamp;
    assert forall|j: int| 0 <= j < t.len() implies #[trigger] evs[j] == t[j] by {}
    assert forall|j: int| s <= j <= k && brings_some(#[trigger] evs[j]) implies brings(
        app,
        evs[j],
    ) by {
        assert(t[j] == evs[j]);
    }
    assert forall|p: int|
        0 <= p && brings_some(evs[p]) && #[trigger] is_next(evs, p, s) implies !brings(
        app,
        evs[p],
    ) by {
        assert(is_next(t, p, s));
    }
    assert(is_start(evs, app, s, k));
}

/// What an event that is no change of focus, or comes after a later one, does
/// not end.
proof fn end_stays(
    evs: Seq<EventView>,
    k: int,
    to: Option<Timestamp>,
    end: Option<Timestamp>,
)
    requires
        evs.len() > 0,
        0 <= k < evs.len() - 1,
        ends_at(evs.drop_last(), k, to, end),
        !brings_some(evs.last()) || exists|m: int|
            k < m < evs.len() - 1 && brings_some(#[trigger] evs[m]),
    ensures
        ends_at(evs, k, to, end),
{
    let t = evs.drop_last();
    let n = evs.len() - 1;
    assert forall|j: int| 0 <= j < n implies #[trigger] evs[j] == t[j] by {}
    assert forall|m: int| #[trigger] is_next(evs, k, m) implies to == Some(evs[m].timestamp) by {
        if m < n {
            assert forall|j: int| k < j < m implies !brings_some(#[trigger] t[j]) by {
                assert(evs[j] == t[j]);
            }
            assert(is_next(t, k, m));
        } else {
            let q = choose|q: int| k < q < n && brings_some(#[trigger] evs[q]);
            assert(!brings_some(evs[q]));
        }
    }
    if forall|m: int| k < m < evs.len() ==> !brings_some(#[trigger] evs[m]) {
        assert forall|m: int| k < m < t.len() implies !brings_some(#[trigger] t[m]) by {
            assert(evs[m] == t[m]);
        }
    }
}

/// Whether the builder knows what is in front, and since when.
spec fn knows_front(evs: Seq<EventView>, front: Option<(Seq<char>, Timestamp)>) -> bool {
    match front {
        Some((id, from)) => exists|k: int| #[trigger]
            is_last_focus(evs, k) && brings(id, evs[k]) && begins_at(evs, id, k, from),
        None => forall|k: int| 0 <= k < evs.len() ==> !brings_some(#[trigger] evs[k]),
    }
}

/// An event that is no change of focus changes no interval.
proof fn other_event(b: BuilderView, ev: EventView)
    requires
        !brings_some(ev),
    ensures
        b.after(ev).apps == b.apps,
        b.after(ev).current_frontmost == b.current_frontmost,
{
    if ev.kind == EventKind::AppFocus {
        brings_the_focus(Seq::empty(), ev);
    }
}

/// Intervals before a change of focus, of an application that was not in front
/// then.
proof fn others_stay(v: Seq<Interval>, evs: Seq<EventView>, app: Seq<char>, j: int)
    requires
        evs.len() > 0,
        tells_focus(v, evs.drop_last(), app, None),
        0 <= j < v.len(),
        !brings_some(evs.last()) || exists|m: int|
            places(evs.drop_last(), app)[j] < m < evs.len() - 1 && brings_some(#[trigger] evs[m]),
    ensures
        begins_at(evs, app, places(evs.drop_last(), app)[j], v[j].from),
        ends_at(evs, places(evs.drop_last(), app)[j], v[j].to, None),
{
    let t = evs.drop_last();
    let k = places(t, app)[j];
    places_are_there(t, app);
    beginning_stays(evs, app, k, v[j].from);
    end_stays(evs, k, v[j].to, None);
}

proof fn intervals_are_told(evs: Seq<EventView>, app: Seq<char>)
    ensures
        tells_focus(intervals_of(fed(evs).apps, app), evs, app, None),
        first_where(fed(evs).apps, is_app(app)) is Some <==> places(evs, app).len() > 0,
        knows_front(evs, fed(evs).current_frontmost),
    decreases evs.len(),
{
    if evs.len() > 0 {
        let t = evs.drop_last();
        let n = evs.len() - 1;
        let ev = evs.last();
        let b = fed(t);
        let v = intervals_of(b.apps, app);
        let ks = places(t, app);
        intervals_are_told(t, app);
        places_are_there(t, app);
        assert forall|j: int| 0 <= j < n implies #[trigger] evs[j] == t[j] by {}
        assert(evs[n] == ev);
        if !brings_some(ev) {
            other_event(b, ev);
            assert forall|j: int| 0 <= j < ks.len() implies begins_at(
                evs,
                app,
                #[trigger] ks[j],
                v[j].from,
            ) && ends_at(evs, ks[j], v[j].to, None) by {
                others_stay(v, evs, app, j);
            }
            match b.current_frontmost {
                Some((id, from)) => {
                    let k = choose|k: int| #[trigger]
                        is_last_focus(t, k) && brings(id, t[k]) && begins_at(t, id, k, from);
                    beginning_stays(evs, id, k, from);
                    assert forall|m: int| k < m < evs.len() implies !brings_some(
                        #[trigger] evs[m],
                    ) by {
                        if m < n {
                            assert(!brings_some(t[m]));
                        }
                    }
                    assert(is_last_focus(evs, k));
                },
                None => {
                    assert forall|k: int| 0 <= k < evs.len() implies !brings_some(
                        #[trigger] evs[k],
                    ) by {
                        if k < n {
                            assert(!brings_some(t[k]));
                        }
                    }
                },
            }
        } else {
            focus_moves(evs, app);
        }
    }
}

/// The intervals of an application that had some, at a change of focus: the last
/// is closed where it was in front.
spec fn closed_at(
    v: Seq<Interval>,
    app: Seq<char>,
    front: Option<(Seq<char>, Timestamp)>,
    at: Timestamp,
) -> Seq<Interval> {
    match front {
        Some((prev, from)) if prev == app => close_last(v, Some(at)),
        _ => v,
    }
}

/// Since when an application that comes to the front is there.
spec fn in_front_since(
    id: Seq<char>,
    front: Option<(Seq<char>, Timestamp)>,
    at: Timestamp,
) -> Timestamp {
    match front {
        Some((prev, from)) if prev == id => from,
        _ => at,
    }
}

/// What a change of focus does to the intervals of an application.
proof fn moved_intervals(b: BuilderView, ev: EventView, id: Seq<char>, app: Seq<char>)
    requires
        brings(id, ev),
        b.current_frontmost matches Some((prev, from)) && prev == app ==> first_where(
            b.apps,
            is_app(app),
        ) is Some,
    ensures
        ({
            let (front, at) = (b.current_frontmost, ev.timestamp);
            let v = closed_at(intervals_of(b.apps, app), app, front, at);
            let since = in_front_since(id, front, at);
            &&& b.after(ev).current_frontmost == Some((id, since))
            &&& first_where(b.after(ev).apps, is_app(app)) is Some <==> app == id || first_where(
                b.apps,
                is_app(app),
            ) is Some
            &&& intervals_of(b.after(ev).apps, app) == if app == id {
                v.push(Interval { from: since, to: None })
            } else {
                v
            }
        }),
{
    brings_the_focus(id, ev);
    let name = ev.payload.str_at("to_name"@);
    let path = ev.payload.str_at("to_exec_path"@);
    match b.current_frontmost {
        Some((prev, from)) => {
            let closed = close_app(b.apps, prev, Some(ev.timestamp));
            close_finds(b.apps, prev, Some(ev.timestamp), app);
            open_finds(closed, prev, from, app);
            know_finds(closed, id, name, path, app);
            open_finds(know_app(closed, id, name, path), id, ev.timestamp, app);
        },
        None => {
            know_finds(b.apps, id, name, path, app);
            open_finds(know_app(b.apps, id, name, path), id, ev.timestamp, app);
        },
    }
}

/// What comes to the front is there since it came.
proof fn front_begins(
    evs: Seq<EventView>,
    id: Seq<char>,
    front: Option<(Seq<char>, Timestamp)>,
)
    requires
        evs.len() > 0,
        brings(id, evs.last()),
        knows_front(evs.drop_last(), front),
    ensures
        begins_at(evs, id, evs.len() - 1, in_front_since(id, front, evs.last().timestamp)),
{
    let t = evs.drop_last();
    let n = evs.len() - 1;
    assert forall|j: int| 0 <= j < n implies #[trigger] evs[j] == t[j] by {}
    match front {
        Some((prev, from)) => {
            let k = choose|k: int| #[trigger]
                is_last_focus(t, k) && brings(prev, t[k]) && begins_at(t, prev, k, from);
            if prev == id {
                let s = choose|s: int| #[trigger] is_start(t, id, s, k) && from == t[s].timestamp;
                assert forall|j: int| s <= j <= n && brings_some(#[trigger] evs[j]) implies brings(
                    id,
                    evs[j],
                ) by {
                    if j < n {
                        assert(brings_some(t[j]));
                    }
                }
                assert forall|p: int|
                    0 <= p && brings_some(evs[p]) && #[trigger] is_next(evs, p, s) implies !brings(
                    id,
                    evs[p],
                ) by {
                    assert(is_next(t, p, s));
                }
                assert(is_start(evs, id, s, n));
            } else {
                assert forall|p: int|
                    0 <= p && brings_some(evs[p]) && #[trigger] is_next(evs, p, n) implies !brings(
                    id,
                    evs[p],
                ) by {
                    if p < k {
                        assert(!brings_some(evs[k]));
                    } else if p > k {
                        assert(!brings_some(t[p]));
                    } else if brings(id, evs[p]) {
                        brought_is_one(id, prev, t[k]);
                    }
                }
                assert(is_start(evs, id, n, n));
            }
        },
        None => {
            assert forall|p: int|
                0 <= p && brings_some(evs[p]) && #[trigger] is_next(evs, p, n) implies !brings(
                id,
                evs[p],
            ) by {
                assert(!brings_some(t[p]));
            }
            assert(is_start(evs, id, n, n));
        },
    }
}

/// The intervals that an application had are still told after a change of
/// focus.
proof fn old_intervals_are_told(
    v: Seq<Interval>,
    evs: Seq<EventView>,
    app: Seq<char>,
    front: Option<(Seq<char>, Timestamp)>,
    j: int,
)
    requires
        evs.len() > 0,
        brings_some(evs.last()),
        tells_focus(v, evs.drop_last(), app, None),
        knows_front(evs.drop_last(), front),
        0 <= j < v.len(),
    ensures
        ({
            let w = closed_at(v, app, front, evs.last().timestamp);
            let k = places(evs.drop_last(), app)[j];
            &&& w.len() == v.len()
            &&& begins_at(evs, app, k, w[j].from)
            &&& ends_at(evs, k, w[j].to, None)
        }),
{
    let t = evs.drop_last();
    let n = evs.len() - 1;
    let ks = places(t, app);
    let at = evs.last().timestamp;
    let w = closed_at(v, app, front, at);
    places_are_there(t, app);
    assert forall|j: int| 0 <= j < n implies #[trigger] evs[j] == t[j] by {}
    let here = ks[j];
    assert(brings(app, t[here]));
    brought_is_one(app, app, t[here]);
    match front {
        Some((prev, from)) => {
            let k = choose|k: int| #[trigger]
                is_last_focus(t, k) && brings(prev, t[k]) && begins_at(t, prev, k, from);
            assert(here <= k);
            if here == k {
                brought_is_one(app, prev, t[k]);
                last_place(t, app, k);
                assert(ks[ks.len() - 1] == k);
                assert(j == ks.len() - 1);
                assert(ends_at(t, k, v[j].to, None));
                assert(v.last().to is None);
                assert(w[j] == Interval { from: v[j].from, to: Some(at) });
                beginning_stays(evs, app, k, v[j].from);
                assert forall|m: int| #[trigger] is_next(evs, k, m) implies m == n by {
                    if m < n {
                        assert(!brings_some(t[m]));
                    }
                }
                assert(brings_some(evs[n]));
            } else {
                if app == prev {
                    last_place(t, app, k);
                    assert(ks[ks.len() - 1] == k);
                    assert(j < ks.len() - 1);
                }
                assert(w[j] == v[j]);
                assert(k < n && brings_some(evs[k]));
                others_stay(v, evs, app, j);
            }
        },
        None => {
            assert(!brings_some(t[here]));
        },
    }
}

proof fn focus_moves(evs: Seq<EventView>, app: Seq<char>)
    requires
        evs.len() > 0,
        brings_some(evs.last()),
        tells_focus(intervals_of(fed(evs.drop_last()).apps, app), evs.drop_last(), app, None),
        first_where(fed(evs.drop_last()).apps, is_app(app)) is Some <==> places(
            evs.drop_last(),
            app,
        ).len() > 0,
        knows_front(evs.drop_last(), fed(evs.drop_last()).current_frontmost),
    ensures
        tells_focus(intervals_of(fed(evs).apps, app), evs, app, None),
        first_where(fed(evs).apps, is_app(app)) is Some <==> places(evs, app).len() > 0,
        knows_front(evs, fed(evs).current_frontmost),
{
    let t = evs.drop_last();
    let n = evs.len() - 1;
    let ev = evs.last();
    let b = fed(t);
    let front = b.current_frontmost;
    let id = focus_id(ev)->0;
    let v = intervals_of(b.apps, app);
    let ks = places(t, app);
    let kn = places(evs, app);
    let w = intervals_of(fed(evs).apps, app);
    brings_the_focus(id, ev);
    brings_the_focus(app, ev);
    match front {
        Some((prev, from)) => {
            if prev == app {
                let k = choose|k: int| #[trigger]
                    is_last_focus(t, k) && brings(prev, t[k]) && begins_at(t, prev, k, from);
                last_place(t, app, k);
            }
        },
        None => {},
    }
    moved_intervals(b, ev, id, app);
    front_begins(evs, id, front);
    assert(is_last_focus(evs, n));
    let x = closed_at(v, app, front, ev.timestamp);
    assert(x.len() == v.len());
    assert forall|j: int| 0 <= j < kn.len() implies begins_at(
        evs,
        app,
        #[trigger] kn[j],
        w[j].from,
    ) && ends_at(evs, kn[j], w[j].to, None) by {
        if j < ks.len() {
            assert(kn[j] == ks[j]);
            old_intervals_are_told(v, evs, app, front, j);
            assert(w[j] == x[j]);
        } else {
            assert(kn[j] == n && app == id);
        }
    }
}

/// After any events, and whatever the time of the last event or observation is,
/// an application is in the graph exactly if an event brought it to the front.
/// It has one interval for every such event, in their order, and none is ever
/// lost: each is from when the application came to the front to the next change
/// of focus, and the last, where none follows, ends with the last event or
/// observation. An event that brings to the front what is there already goes on
/// from when it came there.
pub proof fn every_focus_is_told(evs: Seq<EventView>, app: Seq<char>, end: Option<Timestamp>)
    ensures
        ({
            let apps = (BuilderView { last_ts: end, ..fed(evs) }).graph().apps;
            &&& first_where(apps, is_app(app)) is Some <==> places(evs, app).len() > 0
            &&& tells_focus(intervals_of(apps, app), evs, app, end)
        }),
{
    intervals_are_told(evs, app);
    let b = fed(evs);
    let v = intervals_of(b.apps, app);
    let ks = places(evs, app);
    let apps = (BuilderView { last_ts: end, ..b }).graph().apps;
    let w = intervals_of(apps, app);
    places_are_there(evs, app);
    match b.current_frontmost {
        Some((id, from)) => {
            close_finds(b.apps, id, end, app);
            let k = choose|k: int| #[trigger]
                is_last_focus(evs, k) && brings(id, evs[k]) && begins_at(evs, id, k, from);
            if app == id {
                last_place(evs, app, k);
                assert(ks[ks.len() - 1] == k);
                assert(v.last().to is None);
            }
            assert forall|j: int| 0 <= j < ks.len() implies begins_at(
                evs,
                app,
                #[trigger] ks[j],
                w[j].from,
            ) && ends_at(evs, ks[j], w[j].to, end) by {
                assert(brings(app, evs[ks[j]]));
                assert(brings_some(evs[ks[j]]));
                if ks[j] == k {
                    brought_is_one(app, id, evs[k]);
                    assert(j == ks.len() - 1);
                    assert forall|m: int| #[trigger] is_next(evs, k, m) implies false by {
                        assert(!brings_some(evs[m]));
                    }
                } else {
                    assert(w[j] == v[j]);
                    assert(ks[j] < k && k < evs.len() && brings_some(evs[k]));
                }
            }
        },
        None => {
            assert(ks.len() == 0) by {
                if ks.len() > 0 {
                    assert(brings(app, evs[ks[0]]));
                }
            }
        },
    }
}

} // verus!
