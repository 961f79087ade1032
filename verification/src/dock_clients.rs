//! Placing a new surface of the dock among the dock's applets.
//!
//! The dock launched its applets in three lists, each applet with a
//! priority. A new surface joins the list of the applet that made it, takes
//! that applet's priority, and the surfaces of the list are kept in the
//! order in which their applets are listed. The pointer focuses the first
//! visible surface under it, and surfaces are found again by identity.

use vstd::prelude::*;
use crate::sorting::{stable_order, stably_sorted};
use crate::dock_space::TopLevelSlot;

verus! {

/// One of the dock's three lists of applets.
#[derive(Clone, Copy, Debug, PartialEq, Eq, Structural)]
pub enum DockSection {
    Left,
    Center,
    Right,
}

/// The first position in the list of the applet with the given client.
pub open spec fn client_position(clients: Seq<(u32, u64)>, client: u64) -> Option<int>
    decreases clients.len(),
{
    if clients.len() == 0 {
        None
    } else {
        match client_position(clients.drop_last(), client) {
            Some(p) => Some(p),
            None => if clients.last().1 == client { Some(clients.len() - 1) } else { None },
        }
    }
}

proof fn lemma_client_position(clients: Seq<(u32, u64)>, client: u64)
    ensures
        match client_position(clients, client) {
            Some(p) => 0 <= p < clients.len() && clients[p].1 == client
                && forall|q: int| 0 <= q < p ==> (#[trigger] clients[q]).1 != client,
            None => forall|q: int| 0 <= q < clients.len() ==> (#[trigger] clients[q]).1 != client,
        },
    decreases clients.len(),
{
    if clients.len() > 0 {
        lemma_client_position(clients.drop_last(), client);
        let d = clients.drop_last();
        assert forall|q: int| 0 <= q < d.len() implies d[q] == clients[q] by {}
    }
}

fn find_client(clients: &Vec<(u32, u64)>, client: u64) -> (res: Option<usize>)
    ensures
        match res {
            Some(p) => p < clients@.len() && client_position(clients@, client) == Some(p as int),
            None => client_position(clients@, client) is None,
        },
{
    let mut i: usize = 0;
    while i < clients.len()
        invariant
            i <= clients@.len(),
            forall|q: int| 0 <= q < i ==> (#[trigger] clients@[q]).1 != client,
        decreases clients@.len() - i,
    {
        if clients[i].1 == client {
            proof {
                lemma_client_position(clients@, client);
                match client_position(clients@, client) {
                    Some(p) => {
                        if p < i {
                            assert(clients@[p].1 != client);
                        } else if p > i {
                            assert(clients@[i as int].1 == client);
                        }
                    },
                    None => { assert(clients@[i as int].1 == client); },
                }
            }
            return Some(i);
        }
        i = i + 1;
    }
    proof {
        lemma_client_position(clients@, client);
        match client_position(clients@, client) {
            Some(p) => { assert(clients@[p].1 != client); },
            None => {},
        }
    }
    None
}

/// The list a new surface of the given client joins, and its priority: the
/// left list if its applet is listed there, else the center, else the
/// right; none when no applet of the dock made it.
pub fn section_for_client(
    client: u64,
    left: &Vec<(u32, u64)>,
    center: &Vec<(u32, u64)>,
    right: &Vec<(u32, u64)>,
) -> (res: Option<(DockSection, u32)>)
    ensures
        res == if client_position(left@, client) is Some {
            Some((DockSection::Left, left@[client_position(left@, client)->0].0))
        } else if client_position(center@, client) is Some {
            Some((DockSection::Center, center@[client_position(center@, client)->0].0))
        } else if client_position(right@, client) is Some {
            Some((DockSection::Right, right@[client_position(right@, client)->0].0))
        } else {
            None
        },
{
    match find_client(left, client) {
        Some(p) => return Some((DockSection::Left, left[p].0)),
        None => {},
    }
    match find_client(center, client) {
        Some(p) => return Some((DockSection::Center, center[p].0)),
        None => {},
    }
    match find_client(right, client) {
        Some(p) => Some((DockSection::Right, right[p].0)),
        None => None,
    }
}

/// The keys the surfaces of a list are sorted by: the positions of their
/// clients among the list's applets.
pub open spec fn client_keys(surfaces: Seq<u64>, clients: Seq<(u32, u64)>) -> Seq<i64> {
    Seq::new(surfaces.len(), |i: int| client_position(clients, surfaces[i])->0 as i64)
}

/// The order of the surfaces of a list after a new one joined: a stable
/// sort by the position of each surface's client among the list's applets.
/// Every surface's client must be among them; the sort would have no
/// consistent order otherwise.
pub fn order_by_clients(surfaces: &Vec<u64>, clients: &Vec<(u32, u64)>) -> (res: Vec<usize>)
    requires
        forall|i: int| 0 <= i < surfaces@.len() ==> client_position(clients@, #[trigger] surfaces@[i]) is Some,
        clients@.len() <= i64::MAX,
    ensures
        stably_sorted(res@, client_keys(surfaces@, clients@)),
{
    let mut keys: Vec<i64> = Vec::new();
    let mut i: usize = 0;
    while i < surfaces.len()
        invariant
            i <= surfaces@.len(),
            clients@.len() <= i64::MAX,
            forall|q: int| 0 <= q < surfaces@.len() ==> client_position(clients@, #[trigger] surfaces@[q]) is Some,
            keys@ == client_keys(surfaces@, clients@).take(i as int),
        decreases surfaces@.len() - i,
    {
        assert(client_position(clients@, surfaces@[i as int]) is Some);
        let p = find_client(clients, surfaces[i]);
        let k = match p {
            Some(p) => p as i64,
            None => 0,
        };
        proof { lemma_client_position(clients@, surfaces@[i as int]); }
        keys.push(k);
        i = i + 1;
        assert(keys@ =~= client_keys(surfaces@, clients@).take(i as int));
    }
    assert(keys@ =~= client_keys(surfaces@, clients@));
    stable_order(&keys)
}

/// Whether the point is on the surface's rectangle.
pub open spec fn slot_contains(t: TopLevelSlot, x: i32, y: i32) -> bool {
    t.x <= x < t.x + t.width && t.y <= y < t.y + t.height
}

/// The surface the pointer at `(x, y)` focuses: the first visible surface,
/// in the dock's order, whose rectangle holds the point; none when no
/// visible surface does, and the focus then stays as it was.
pub fn update_pointer(slots: &Vec<TopLevelSlot>, x: i32, y: i32) -> (res: Option<usize>)
    ensures
        match res {
            Some(i) => i < slots@.len() && !slots@[i as int].hidden && slot_contains(slots@[i as int], x, y)
                && forall|j: int| 0 <= j < i ==> !(!(#[trigger] slots@[j]).hidden && slot_contains(slots@[j], x, y)),
            None => forall|j: int| 0 <= j < slots@.len() ==> !(!(#[trigger] slots@[j]).hidden && slot_contains(slots@[j], x, y)),
        },
{
    let mut i: usize = 0;
    while i < slots.len()
        invariant
            i <= slots@.len(),
            forall|j: int| 0 <= j < i ==> !(!(#[trigger] slots@[j]).hidden && slot_contains(slots@[j], x, y)),
        decreases slots@.len() - i,
    {
        let t = slots[i];
        let inside = (t.x as i64) <= (x as i64) && (x as i64) < (t.x as i64) + (t.width as i64)
            && (t.y as i64) <= (y as i64) && (y as i64) < (t.y as i64) + (t.height as i64);
        if !t.hidden && inside {
            return Some(i);
        }
        i = i + 1;
    }
    None
}

/// A surface of the dock as a lookup sees it: its own surface and the
/// surfaces of its popups.
#[derive(Clone, Debug)]
pub struct SurfaceTree {
    pub surface: u64,
    pub popups: Vec<u64>,
}

/// Where a surface was found: a top-level surface, or a popup of one.
#[derive(Clone, Copy, Debug, PartialEq, Eq, Structural)]
pub enum FoundSurface {
    TopLevel(usize),
    Popup(usize, usize),
}

/// Whether `f` points at the surface `s` in `trees`.
pub open spec fn found_at(trees: Seq<SurfaceTree>, f: FoundSurface, s: u64) -> bool {
    match f {
        FoundSurface::TopLevel(i) => i < trees.len() && trees[i as int].surface == s,
        FoundSurface::Popup(i, k) => i < trees.len() && k < trees[i as int].popups@.len() && trees[i as int].popups@[k as int] == s,
    }
}

/// Whether the tree holds the surface, as itself or as a popup.
pub open spec fn tree_holds(t: SurfaceTree, s: u64) -> bool {
    t.surface == s || t.popups@.contains(s)
}

/// Finds a surface among the dock's surfaces, each top-level surface before
/// its popups and those before the next top-level surface: the first place
/// that holds it.
pub fn find_server_window(trees: &Vec<SurfaceTree>, s: u64) -> (res: Option<FoundSurface>)
    ensures
        match res {
            Some(f) => found_at(trees@, f, s) && match f {
                FoundSurface::TopLevel(i) => forall|j: int| 0 <= j < i ==> !tree_holds(#[trigger] trees@[j], s),
                FoundSurface::Popup(i, k) => trees@[i as int].surface != s
                    && (forall|j: int| 0 <= j < i ==> !tree_holds(#[trigger] trees@[j], s))
                    && forall|q: int| 0 <= q < k ==> trees@[i as int].popups@[q] != s,
            },
            None => forall|j: int| 0 <= j < trees@.len() ==> !tree_holds(#[trigger] trees@[j], s),
        },
{
    let mut i: usize = 0;
    while i < trees.len()
        invariant
            i <= trees@.len(),
            forall|j: int| 0 <= j < i ==> !tree_holds(#[trigger] trees@[j], s),
        decreases trees@.len() - i,
    {
        let t = &trees[i];
        if t.surface == s {
            return Some(FoundSurface::TopLevel(i));
        }
        let mut k: usize = 0;
        while k < t.popups.len()
            invariant
                i < trees@.len(),
                *t == trees@[i as int],
                t.surface != s,
                forall|j: int| 0 <= j < i ==> !tree_holds(#[trigger] trees@[j], s),
                k <= t.popups@.len(),
                forall|q: int| 0 <= q < k ==> t.popups@[q] != s,
            decreases t.popups@.len() - k,
        {
            if t.popups[k] == s {
                return Some(FoundSurface::Popup(i, k));
            }
            k = k + 1;
        }
        proof {
            if t.popups@.contains(s) {
                let q = choose|q: int| 0 <= q < t.popups@.len() && t.popups@[q] == s;
                assert(t.popups@[q] != s);
            }
        }
        i = i + 1;
    }
    None
}

/// Finds what the surface `active` of the dock's own side stands for: when
/// it is the dock's layer surface, the top-level surface that has the
/// focus; otherwise the first popup shown on that surface (`shown_on[i][k]`
/// is the dock-side surface of popup `k` of surface `i`).
pub fn find_server_surface(
    trees: &Vec<SurfaceTree>,
    shown_on: &Vec<Vec<u64>>,
    active: u64,
    layer_surface: u64,
    focused: Option<u64>,
) -> (res: Option<FoundSurface>)
    requires
        shown_on@.len() == trees@.len(),
        forall|i: int| 0 <= i < trees@.len() ==> (#[trigger] shown_on@[i])@.len() == trees@[i].popups@.len(),
    ensures
        active == layer_surface ==> match res {
            Some(FoundSurface::TopLevel(i)) => i < trees@.len() && focused == Some(trees@[i as int].surface)
                && forall|j: int| 0 <= j < i ==> Some((#[trigger] trees@[j]).surface) != focused,
            Some(FoundSurface::Popup(_, _)) => false,
            None => forall|j: int| 0 <= j < trees@.len() ==> Some((#[trigger] trees@[j]).surface) != focused,
        },
        active != layer_surface ==> match res {
            Some(FoundSurface::Popup(i, k)) => i < trees@.len() && k < shown_on@[i as int]@.len()
                && shown_on@[i as int]@[k as int] == active
                && (forall|j: int| 0 <= j < i ==> !(#[trigger] shown_on@[j])@.contains(active))
                && forall|q: int| 0 <= q < k ==> shown_on@[i as int]@[q] != active,
            Some(FoundSurface::TopLevel(_)) => false,
            None => forall|j: int| 0 <= j < trees@.len() ==> !(#[trigger] shown_on@[j])@.contains(active),
        },
{
    if active == layer_surface {
        let mut i: usize = 0;
        while i < trees.len()
            invariant
                active == layer_surface,
                i <= trees@.len(),
                forall|j: int| 0 <= j < i ==> Some((#[trigger] trees@[j]).surface) != focused,
            decreases trees@.len() - i,
        {
            if Some(trees[i].surface) == focused {
                return Some(FoundSurface::TopLevel(i));
            }
            i = i + 1;
        }
        return None;
    }
    let mut i: usize = 0;
    while i < shown_on.len()
        invariant
            active != layer_surface,
            shown_on@.len() == trees@.len(),
            i <= shown_on@.len(),
            forall|j: int| 0 <= j < i ==> !(#[trigger] shown_on@[j])@.contains(active),
        decreases shown_on@.len() - i,
    {
        let row = &shown_on[i];
        let mut k: usize = 0;
        while k < row.len()
            invariant
                active != layer_surface,
                shown_on@.len() == trees@.len(),
                i < shown_on@.len(),
                *row == shown_on@[i as int],
                forall|j: int| 0 <= j < i ==> !(#[trigger] shown_on@[j])@.contains(active),
                k <= row@.len(),
                forall|q: int| 0 <= q < k ==> row@[q] != active,
            decreases row@.len() - k,
        {
            if row[k] == active {
                return Some(FoundSurface::Popup(i, k));
            }
            k = k + 1;
        }
        proof {
            if row@.contains(active) {
                let q = choose|q: int| 0 <= q < row@.len() && row@[q] == active;
                assert(row@[q] != active);
            }
        }
        i = i + 1;
    }
    None
}

} // verus!

