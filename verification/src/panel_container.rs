//! Decisions over all panels: which panels take a new theme, what goes
//! when an applet's client disconnects, which panel an applet's client
//! belongs to, which window a new one replaces, and when the panels last
//! changed.

use vstd::prelude::*;
use crate::panel_space::PanelBackgroundKind;

verus! {

/// A change of the system's themes.
#[derive(Clone, Copy, Debug, PartialEq, Eq, Structural)]
pub enum ThemeChange {
    /// the dark theme changed
    Dark,
    /// the light theme changed
    Light,
    /// the system switched between dark and light, to the given mode
    Mode { dark: bool },
}

/// Whether a panel is drawn dark: as the system is, unless its background
/// is configured dark or light.
pub open spec fn drawn_dark(background: PanelBackgroundKind, system_dark: bool) -> bool {
    match background {
        PanelBackgroundKind::ThemeDefault | PanelBackgroundKind::Color => system_dark,
        PanelBackgroundKind::Dark => true,
        PanelBackgroundKind::Light => false,
    }
}

/// Whether a panel takes the new theme: a changed dark theme goes to the
/// panels drawn dark, a changed light theme to those drawn light; a switch
/// of the system's mode (when it is one) goes to the panels with the
/// theme's own background.
pub open spec fn takes_theme(background: PanelBackgroundKind, system_dark: bool, change: ThemeChange) -> bool {
    match change {
        ThemeChange::Dark => drawn_dark(background, system_dark),
        ThemeChange::Light => !drawn_dark(background, system_dark),
        ThemeChange::Mode { dark } => dark != system_dark && background == PanelBackgroundKind::ThemeDefault,
    }
}

/// For each panel, by its background, whether it takes the new theme, as
/// [`takes_theme`] says; `system_dark` is the mode before the change.
pub fn retheme(backgrounds: &Vec<PanelBackgroundKind>, system_dark: bool, change: ThemeChange) -> (res: Vec<bool>)
    ensures
        res@.len() == backgrounds@.len(),
        forall|i: int| 0 <= i < res@.len() ==> (#[trigger] res@[i]) == takes_theme(backgrounds@[i], system_dark, change),
{
    let mut res: Vec<bool> = Vec::new();
    let mut i: usize = 0;
    while i < backgrounds.len()
        invariant
            i <= backgrounds@.len(),
            res@.len() == i,
            forall|k: int| 0 <= k < i ==> (#[trigger] res@[k]) == takes_theme(backgrounds@[k], system_dark, change),
        decreases backgrounds@.len() - i,
    {
        let dark = crate::panel_space::is_dark(backgrounds[i], system_dark);
        let t = match change {
            ThemeChange::Dark => dark,
            ThemeChange::Light => !dark,
            ThemeChange::Mode { dark: d } => d != system_dark && backgrounds[i] == PanelBackgroundKind::ThemeDefault,
        };
        res.push(t);
        i = i + 1;
    }
    res
}

/// Each panel takes exactly one of a changed dark theme and a changed light
/// theme.
pub proof fn lemma_one_theme_per_panel(background: PanelBackgroundKind, system_dark: bool)
    ensures
        takes_theme(background, system_dark, ThemeChange::Dark) != takes_theme(background, system_dark, ThemeChange::Light),
{
}

/// A panel as the cleanup of a client sees it: whether one of its windows
/// belongs to the client, and the clients of its popups (none where a
/// popup's surface has no client any more).
#[derive(Clone, Debug)]
pub struct ClientUse {
    pub has_window: bool,
    pub popup_clients: Vec<Option<u64>>,
}

/// What the cleanup does to one panel: whether it unmaps the client's
/// window, which popups stay, and whether the panel is redrawn.
#[derive(Clone, Debug)]
pub struct CleanupStep {
    pub unmap_window: bool,
    pub keep_popups: Vec<bool>,
    pub dirty: bool,
}

/// Whether a popup stays: its surface still has a client, and not the one
/// that left.
pub open spec fn popup_stays(c: Option<u64>, client: u64) -> bool {
    match c {
        Some(x) => x != client,
        None => false,
    }
}

/// Whether the cleanup finds something of the client on the panel.
pub open spec fn touches(u: ClientUse, client: u64) -> bool {
    u.has_window || exists|k: int| 0 <= k < u.popup_clients@.len() && !popup_stays(#[trigger] u.popup_clients@[k], client)
}

/// When the client `client` disconnects: the panels are cleaned in order,
/// each losing the client's window and the popups whose surface is the
/// client's or has no client; the first panel where anything went is
/// redrawn and ends the cleanup.
pub fn cleanup_client(spaces: &Vec<ClientUse>, client: u64) -> (res: Vec<CleanupStep>)
    ensures
        res@.len() <= spaces@.len(),
        forall|i: int| 0 <= i < res@.len() ==> {
            let s = #[trigger] res@[i];
            &&& s.unmap_window == spaces@[i].has_window
            &&& s.keep_popups@.len() == spaces@[i].popup_clients@.len()
            &&& forall|k: int| 0 <= k < s.keep_popups@.len() ==> (#[trigger] s.keep_popups@[k]) == popup_stays(spaces@[i].popup_clients@[k], client)
            &&& s.dirty == touches(spaces@[i], client)
        },
        forall|i: int| 0 <= i < res@.len() - 1 ==> !touches(#[trigger] spaces@[i], client),
        res@.len() < spaces@.len() ==> res@.len() > 0 && touches(spaces@[res@.len() - 1], client),
{
    let mut res: Vec<CleanupStep> = Vec::new();
    let mut i: usize = 0;
    while i < spaces.len()
        invariant
            i <= spaces@.len(),
            res@.len() == i,
            forall|j: int| 0 <= j < res@.len() ==> {
                let s = #[trigger] res@[j];
                &&& s.unmap_window == spaces@[j].has_window
                &&& s.keep_popups@.len() == spaces@[j].popup_clients@.len()
                &&& forall|k: int| 0 <= k < s.keep_popups@.len() ==> (#[trigger] s.keep_popups@[k]) == popup_stays(spaces@[j].popup_clients@[k], client)
                &&& s.dirty == touches(spaces@[j], client)
            },
            forall|j: int| 0 <= j < res@.len() ==> !touches(#[trigger] spaces@[j], client),
        decreases spaces@.len() - i,
    {
        let u = &spaces[i];
        let mut keep: Vec<bool> = Vec::new();
        let mut removed = false;
        let mut k: usize = 0;
        while k < u.popup_clients.len()
            invariant
                k <= u.popup_clients@.len(),
                keep@.len() == k,
                forall|q: int| 0 <= q < k ==> (#[trigger] keep@[q]) == popup_stays(u.popup_clients@[q], client),
                removed == exists|q: int| 0 <= q < k && !popup_stays(#[trigger] u.popup_clients@[q], client),
            decreases u.popup_clients@.len() - k,
        {
            let stays = match u.popup_clients[k] {
                Some(x) => x != client,
                None => false,
            };
            keep.push(stays);
            if !stays {
                removed = true;
            }
            proof {
                if !stays {
                    assert(!popup_stays(u.popup_clients@[k as int], client));
                }
            }
            k = k + 1;
        }
        let dirty = u.has_window || removed;
        res.push(CleanupStep { unmap_window: u.has_window, keep_popups: keep, dirty });
        if dirty {
            return res;
        }
        i = i + 1;
    }
    res
}

/// Whether a panel has the client among the clients of its applets; a
/// missing client matches nothing.
pub open spec fn has_client(clients: Seq<Option<u64>>, client: Option<u64>) -> bool {
    exists|k: int| 0 <= k < clients.len() && (#[trigger] clients[k]) is Some && client == clients[k]
}

/// The first panel, in order, that has the client among its applets'
/// clients (`clients[i]` for panel `i`, its three sections together).
pub fn space_for_client(clients: &Vec<Vec<Option<u64>>>, client: Option<u64>) -> (res: Option<usize>)
    ensures
        match res {
            Some(i) => i < clients@.len() && has_client(clients@[i as int]@, client)
                && forall|j: int| 0 <= j < i ==> !has_client(#[trigger] clients@[j]@, client),
            None => forall|j: int| 0 <= j < clients@.len() ==> !has_client(#[trigger] clients@[j]@, client),
        },
{
    let mut i: usize = 0;
    while i < clients.len()
        invariant
            i <= clients@.len(),
            forall|j: int| 0 <= j < i ==> !has_client(#[trigger] clients@[j]@, client),
        decreases clients@.len() - i,
    {
        let row = &clients[i];
        let mut k: usize = 0;
        while k < row.len()
            invariant
                i < clients@.len(),
                *row == clients@[i as int],
                forall|j: int| 0 <= j < i ==> !has_client(#[trigger] clients@[j]@, client),
                k <= row@.len(),
                forall|q: int| 0 <= q < k ==> !((#[trigger] row@[q]) is Some && client == row@[q]),
            decreases row@.len() - k,
        {
            let hit = match row[k] {
                Some(c) => client == Some(c),
                None => false,
            };
            if hit {
                assert(row@[k as int] is Some && client == row@[k as int]);
                return Some(i);
            }
            k = k + 1;
        }
        i = i + 1;
    }
    None
}

/// The latest of the panels' last changes, in nanoseconds of one
/// monotonic clock: none without panels.
pub fn latest_dirty(times: &Vec<u64>) -> (res: Option<u64>)
    ensures
        match res {
            Some(t) => (exists|i: int| 0 <= i < times@.len() && times@[i] == t)
                && forall|i: int| 0 <= i < times@.len() ==> (#[trigger] times@[i]) <= t,
            None => times@.len() == 0,
        },
{
    let mut acc: Option<u64> = None;
    let mut i: usize = 0;
    while i < times.len()
        invariant
            i <= times@.len(),
            i == 0 <==> acc is None,
            acc matches Some(t) ==> (exists|k: int| 0 <= k < i && times@[k] == t)
                && forall|k: int| 0 <= k < i ==> (#[trigger] times@[k]) <= t,
        decreases times@.len() - i,
    {
        let t = times[i];
        match acc {
            Some(a) => {
                if a < t {
                    acc = Some(t);
                }
            },
            None => {
                acc = Some(t);
            },
        }
        i = i + 1;
    }
    acc
}

/// Adding a window to a panel: the first window already there whose client
/// is the new window's (two windows without a client count as the same
/// client) is taken down first.
pub fn add_window(clients: &Vec<Option<u64>>, new_client: Option<u64>) -> (res: Option<usize>)
    ensures
        match res {
            Some(i) => i < clients@.len() && clients@[i as int] == new_client
                && forall|j: int| 0 <= j < i ==> (#[trigger] clients@[j]) != new_client,
            None => forall|j: int| 0 <= j < clients@.len() ==> (#[trigger] clients@[j]) != new_client,
        },
{
    let mut i: usize = 0;
    while i < clients.len()
        invariant
            i <= clients@.len(),
            forall|j: int| 0 <= j < i ==> (#[trigger] clients@[j]) != new_client,
        decreases clients@.len() - i,
    {
        let same = match (clients[i], new_client) {
            (Some(a), Some(b)) => a == b,
            (None, None) => true,
            _ => false,
        };
        if same {
            return Some(i);
        }
        i = i + 1;
    }
    None
}

/// The entries of `list` not named `name`, in order.
pub open spec fn without_name<T>(list: Seq<(String, T)>, name: Seq<char>) -> Seq<(String, T)>
    decreases list.len(),
{
    if list.len() == 0 {
        seq![]
    } else {
        let rest = without_name(list.drop_last(), name);
        if list.last().0@ == name { rest } else { rest.push(list.last()) }
    }
}

/// Removes every entry named `name` (a panel's spaces or configuration
/// entries when the panel goes), keeping the others in order.
pub fn remove_space<T>(list: &mut Vec<(String, T)>, name: &String)
    ensures
        final(list)@ == without_name(old(list)@, name@),
{
    let mut kept: Vec<(String, T)> = Vec::new();
    let ghost orig = list@;
    let mut rest: Vec<(String, T)> = Vec::new();
    std::mem::swap(&mut rest, list);
    assert(rest@ == orig);
    assert(orig.len() == rest.len());
    let mut i: usize = 0;
    while rest.len() > 0
        invariant
            i + rest@.len() == orig.len(),
            orig.len() <= usize::MAX,
            rest@ =~= orig.subrange(i as int, orig.len() as int),
            kept@ == without_name(orig.take(i as int), name@),
        decreases rest@.len(),
    {
        let ghost t = orig.take(i + 1);
        assert(t.drop_last() =~= orig.take(i as int));
        let e = rest.remove(0);
        assert(e == orig[i as int]);
        assert(t.last() == orig[i as int]);
        if !e.0.eq(name) {
            kept.push(e);
        }
        i = i + 1;
        assert(rest@ =~= orig.subrange(i as int, orig.len() as int));
    }
    assert(orig.take(i as int) =~= orig);
    *list = kept;
}

/// Puts a new or changed entry in place of the entries of its name: those
/// go, and it comes last.
pub fn replace_entry<T>(list: &mut Vec<(String, T)>, name: String, entry: T)
    ensures
        final(list)@ == without_name(old(list)@, name@).push((name, entry)),
{
    remove_space(list, &name);
    list.push((name, entry));
}

/// Whether the applets of a panel are started: only when none of its three
/// sections has started any yet.
pub fn spawn_needed(left: usize, center: usize, right: usize) -> (res: bool)
    ensures
        res == (left == 0 && center == 0 && right == 0),
{
    left == 0 && center == 0 && right == 0
}

/// Whether no two entries share a name.
pub open spec fn names_distinct<T>(list: Seq<(String, T)>) -> bool {
    forall|i: int, j: int| 0 <= i < j < list.len() ==> #[trigger] list[i].0@ != #[trigger] list[j].0@
}

proof fn lemma_without_name_facts<T>(list: Seq<(String, T)>, name: Seq<char>)
    ensures
        forall|k: int| 0 <= k < without_name(list, name).len() ==>
            (#[trigger] without_name(list, name)[k]).0@ != name && list.contains(without_name(list, name)[k]),
        forall|k: int| 0 <= k < list.len() && (#[trigger] list[k]).0@ != name ==> without_name(list, name).contains(list[k]),
        names_distinct(list) ==> names_distinct(without_name(list, name)),
    decreases list.len(),
{
    if list.len() > 0 {
        let d = list.drop_last();
        lemma_without_name_facts(d, name);
        let rest = without_name(d, name);
        let w = without_name(list, name);
        let last = list.last();
        assert forall|k: int| 0 <= k < w.len() implies (#[trigger] w[k]).0@ != name && list.contains(w[k]) by {
            if k < rest.len() {
                assert(w[k] == rest[k]);
                let m = choose|m: int| 0 <= m < d.len() && d[m] == rest[k];
                assert(list[m] == d[m]);
            } else {
                assert(w[k] == last);
                assert(list[list.len() - 1] == last);
            }
        }
        assert forall|k: int| 0 <= k < list.len() && (#[trigger] list[k]).0@ != name implies w.contains(list[k]) by {
            if k < list.len() - 1 {
                assert(d[k] == list[k]);
                assert(rest.contains(list[k]));
                let m = choose|m: int| 0 <= m < rest.len() && rest[m] == list[k];
                assert(w[m] == rest[m]);
            } else {
                assert(w[w.len() - 1] == list[k]);
            }
        }
        if names_distinct(list) {
            assert forall|a: int, b: int| 0 <= a < b < d.len() implies #[trigger] d[a].0@ != #[trigger] d[b].0@ by {
                assert(d[a] == list[a]);
                assert(d[b] == list[b]);
            }
            assert forall|a: int, b: int| 0 <= a < b < w.len() implies #[trigger] w[a].0@ != #[trigger] w[b].0@ by {
                if b < rest.len() {
                    assert(w[a] == rest[a]);
                    assert(w[b] == rest[b]);
                } else {
                    assert(w[b] == last);
                    assert(w[a] == rest[a]);
                    let m = choose|m: int| 0 <= m < d.len() && d[m] == rest[a];
                    assert(list[m] == d[m]);
                    assert(list[m].0@ != list[list.len() - 1].0@);
                }
            }
        }
    }
}

/// Putting an entry in place of those of its name keeps the names
/// distinct: afterwards exactly one entry has that name, the one given, and
/// every entry of another name is still there.
pub proof fn lemma_replace_keeps_names_distinct<T>(list: Seq<(String, T)>, name: String, entry: T)
    requires
        names_distinct(list),
    ensures
        names_distinct(without_name(list, name@).push((name, entry))),
        forall|k: int| 0 <= k < without_name(list, name@).push((name, entry)).len()
            && (#[trigger] without_name(list, name@).push((name, entry))[k]).0@ == name@
            ==> without_name(list, name@).push((name, entry))[k] == (name, entry),
        forall|k: int| 0 <= k < list.len() && (#[trigger] list[k]).0@ != name@
            ==> without_name(list, name@).push((name, entry)).contains(list[k]),
{
    lemma_without_name_facts(list, name@);
    let w = without_name(list, name@);
    let r = w.push((name, entry));
    assert forall|a: int, b: int| 0 <= a < b < r.len() implies #[trigger] r[a].0@ != #[trigger] r[b].0@ by {
        assert(r[a] == w[a]);
        if b < w.len() {
            assert(r[b] == w[b]);
        }
    }
    assert forall|k: int| 0 <= k < r.len() && (#[trigger] r[k]).0@ == name@ implies r[k] == (name, entry) by {
        if k < w.len() {
            assert(r[k] == w[k]);
        }
    }
    assert forall|k: int| 0 <= k < list.len() && (#[trigger] list[k]).0@ != name@ implies r.contains(list[k]) by {
        assert(w.contains(list[k]));
        let m = choose|m: int| 0 <= m < w.len() && w[m] == list[k];
        assert(r[m] == w[m]);
    }
}

} // verus!

