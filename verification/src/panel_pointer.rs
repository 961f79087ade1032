//! Opening an applet's popup by hovering it.
//!
//! While a popup of one applet is open, hovering another applet (or an
//! overflow button) presses it after the configured delay, so that its popup
//! opens instead. The press lands on the part of the applet that the
//! applet's desktop entry names, or near the pointer, kept off the edges.
//! Buttons and keyboard focus are routed here too, and each seat's pointer
//! focus and hover are recorded per seat.

use vstd::prelude::*;
use crate::panel_space::{AppletAutoClickAnchor, HoverId};
use crate::even_layout::trunc_div;
use crate::panel_popup::{HitBox, hits, space_focus};

verus! {

/// The anchor a hover press uses: `Start` and `End` become the edges along
/// the panel's orientation.
pub open spec fn effective_anchor_spec(anchor: AppletAutoClickAnchor, horizontal: bool) -> AppletAutoClickAnchor {
    match anchor {
        AppletAutoClickAnchor::Start => if horizontal { AppletAutoClickAnchor::Left } else { AppletAutoClickAnchor::Top },
        AppletAutoClickAnchor::End => if horizontal { AppletAutoClickAnchor::Right } else { AppletAutoClickAnchor::Bottom },
        a => a,
    }
}

/// The anchor a hover press uses, as [`effective_anchor_spec`] says.
pub fn effective_anchor(anchor: AppletAutoClickAnchor, horizontal: bool) -> (res: AppletAutoClickAnchor)
    ensures
        res == effective_anchor_spec(anchor, horizontal),
{
    match anchor {
        AppletAutoClickAnchor::Start => if horizontal { AppletAutoClickAnchor::Left } else { AppletAutoClickAnchor::Top },
        AppletAutoClickAnchor::End => if horizontal { AppletAutoClickAnchor::Right } else { AppletAutoClickAnchor::Bottom },
        a => a,
    }
}

/// The absolute value.
pub open spec fn abs(v: int) -> int {
    if v < 0 { -v } else { v }
}

/// Where a hover press lands on an applet at `(rx, ry)` of size `(w, h)`:
/// four pixels inside the middle of the named edge, or the center; for
/// `Auto`, at the pointer `(x, y)`, moved four pixels inward when it is
/// within four pixels of an edge.
pub open spec fn click_point(anchor: AppletAutoClickAnchor, x: i32, y: i32, rx: i32, ry: i32, w: i32, h: i32) -> (int, int) {
    match anchor {
        AppletAutoClickAnchor::Top => (rx + trunc_div(w as int, 2), ry + 4),
        AppletAutoClickAnchor::Bottom => (rx + trunc_div(w as int, 2), ry + h - 4),
        AppletAutoClickAnchor::Left => (rx + 4, ry + trunc_div(h as int, 2)),
        AppletAutoClickAnchor::Right => (rx + w - 4, ry + trunc_div(h as int, 2)),
        AppletAutoClickAnchor::Center => (rx + trunc_div(w as int, 2), ry + trunc_div(h as int, 2)),
        AppletAutoClickAnchor::Auto => {
            let relx = x - rx;
            let rely = y - ry;
            let px = if abs(relx) < 4 { x + 4 } else if abs(relx - w) < 4 { x - 4 } else { x as int };
            let py = if abs(rely) < 4 { y + 4 } else if abs(rely - h) < 4 { y - 4 } else { y as int };
            (px, py)
        },
        _ => (x as int, y as int),
    }
}

/// Whether the arithmetic of [`click_point`] stays within `i32`.
pub open spec fn click_fits(anchor: AppletAutoClickAnchor, x: i32, y: i32, rx: i32, ry: i32, w: i32, h: i32) -> bool {
    let in_i32 = |v: int| i32::MIN <= v <= i32::MAX;
    let (px, py) = click_point(anchor, x, y, rx, ry, w, h);
    &&& in_i32(px)
    &&& in_i32(py)
    &&& (anchor == AppletAutoClickAnchor::Bottom ==> in_i32(ry + h))
    &&& (anchor == AppletAutoClickAnchor::Right ==> in_i32(rx + w))
    &&& (anchor == AppletAutoClickAnchor::Auto ==> {
        &&& in_i32(x - rx)
        &&& in_i32(y - ry)
        &&& abs(x - rx) <= i32::MAX
        &&& abs(y - ry) <= i32::MAX
        &&& (abs(x - rx) >= 4 ==> in_i32(x - rx - w) && abs(x - rx - w) <= i32::MAX)
        &&& (abs(y - ry) >= 4 ==> in_i32(y - ry - h) && abs(y - ry - h) <= i32::MAX)
    })
}

/// Where a hover press lands, as [`click_point`] says.
pub fn auto_click_point(anchor: AppletAutoClickAnchor, x: i32, y: i32, rx: i32, ry: i32, w: i32, h: i32) -> (res: (i32, i32))
    requires
        click_fits(anchor, x, y, rx, ry, w, h),
    ensures
        res.0 as int == click_point(anchor, x, y, rx, ry, w, h).0,
        res.1 as int == click_point(anchor, x, y, rx, ry, w, h).1,
{
    match anchor {
        AppletAutoClickAnchor::Top => (rx + w / 2, ry + 4),
        AppletAutoClickAnchor::Bottom => (rx + w / 2, ry + h - 4),
        AppletAutoClickAnchor::Left => (rx + 4, ry + h / 2),
        AppletAutoClickAnchor::Right => (rx + w - 4, ry + h / 2),
        AppletAutoClickAnchor::Center => (rx + w / 2, ry + h / 2),
        AppletAutoClickAnchor::Auto => {
            let relx = x - rx;
            let rely = y - ry;
            let ax = if relx < 0 { -relx } else { relx };
            let px = if ax < 4 {
                x + 4
            } else {
                let dx = relx - w;
                let adx = if dx < 0 { -dx } else { dx };
                if adx < 4 { x - 4 } else { x }
            };
            let ay = if rely < 0 { -rely } else { rely };
            let py = if ay < 4 {
                y + 4
            } else {
                let dy = rely - h;
                let ady = if dy < 0 { -dy } else { dy };
                if ady < 4 { y - 4 } else { y }
            };
            (px, py)
        },
        _ => (x, y),
    }
}

/// What hovering decides: nothing, pressing the hovered overflow button, or
/// pressing the hovered applet.
#[derive(Clone, Copy, Debug, PartialEq, Eq, Structural)]
pub enum AutoHover {
    Nothing,
    Overflow,
    Client,
}

/// Whether the hovered item is another client than the one whose popup is
/// open.
pub open spec fn other_client(popup_client: Option<u64>, hover: Option<HoverId>) -> bool {
    match (popup_client, hover) {
        (Some(a), Some(HoverId::Client(b))) => a != b,
        (Some(_), Some(HoverId::Overflow(_))) => true,
        _ => false,
    }
}

/// Hovering presses only when hover pressing is configured: an overflow
/// button while some applet's popup is open; an applet while another
/// applet's popup, or the overflow popup, is open.
pub open spec fn auto_hover_spec(configured: bool, popup_client: Option<u64>, hover: Option<HoverId>, overflow_open: bool) -> AutoHover {
    if !configured {
        AutoHover::Nothing
    } else if popup_client is Some && hover matches Some(HoverId::Overflow(_)) {
        AutoHover::Overflow
    } else if (other_client(popup_client, hover) || overflow_open) && hover matches Some(HoverId::Client(_)) {
        AutoHover::Client
    } else {
        AutoHover::Nothing
    }
}

/// What hovering decides, as [`auto_hover_spec`] says.
pub fn auto_hover(configured: bool, popup_client: Option<u64>, hover: &Option<HoverId>, overflow_open: bool) -> (res: AutoHover)
    ensures
        res == auto_hover_spec(configured, popup_client, *hover, overflow_open),
{
    if !configured {
        return AutoHover::Nothing;
    }
    let is_overflow = match hover { Some(HoverId::Overflow(_)) => true, _ => false };
    let is_client = match hover { Some(HoverId::Client(_)) => true, _ => false };
    if popup_client.is_some() && is_overflow {
        return AutoHover::Overflow;
    }
    let other = match (popup_client, hover) {
        (Some(a), Some(HoverId::Client(b))) => a != *b,
        (Some(_), Some(HoverId::Overflow(_))) => true,
        _ => false,
    };
    if (other || overflow_open) && is_client {
        AutoHover::Client
    } else {
        AutoHover::Nothing
    }
}

/// What a button event on the panel does: the applet surface it goes to,
/// whether all popups close, and whether the seat's keyboard leaves the
/// panel.
#[derive(Clone, Copy, Debug, PartialEq, Eq, Structural)]
pub struct ButtonPlan {
    pub target: Option<u64>,
    pub close_popups: bool,
    pub keyboard_leave: bool,
}

/// A button event of a seat: when the seat hovers a surface of the panel
/// (`hovered` tells whether it is the panel's own layer surface), the
/// button goes to the applet surface the seat hovers, if any; a press on
/// the bare panel closes the popups. When the seat hovers nothing of the
/// panel, a press closes the popups and the keyboard leaves the panel.
pub fn handle_button(hovered: Option<bool>, applet_target: Option<u64>, press: bool) -> (res: ButtonPlan)
    ensures
        match hovered {
            Some(on_layer) => res == ButtonPlan {
                target: applet_target,
                close_popups: applet_target is None && on_layer && press,
                keyboard_leave: false,
            },
            None => res == ButtonPlan { target: None, close_popups: press, keyboard_leave: true },
        },
{
    match hovered {
        Some(on_layer) => {
            let close = match applet_target {
                None => on_layer && press,
                Some(_) => false,
            };
            ButtonPlan { target: applet_target, close_popups: close, keyboard_leave: false }
        },
        None => ButtonPlan { target: None, close_popups: press, keyboard_leave: true },
    }
}

/// Whether the seat's keyboard leaving a surface makes the panel drop the
/// seat's focus and close its popups: not when the surface is the parent of
/// one of the panel's popups, nor when it is the panel's own layer surface
/// while a popup holds a grab or the overflow popup is open.
pub fn keyboard_leave(parent_of_popup: bool, is_layer_surface: bool, popup_grabs: bool, overflow_open: bool) -> (res: bool)
    ensures
        res == !(parent_of_popup || (is_layer_surface && (popup_grabs || overflow_open))),
{
    if parent_of_popup {
        return false;
    }
    if is_layer_surface && (popup_grabs || overflow_open) {
        return false;
    }
    true
}

fn find_entry(entries: &Vec<(u64, u64)>, seat: u64) -> (res: Option<usize>)
    ensures
        match res {
            Some(i) => i < entries@.len() && entries@[i as int].0 == seat
                && forall|j: int| 0 <= j < i ==> (#[trigger] entries@[j]).0 != seat,
            None => forall|j: int| 0 <= j < entries@.len() ==> (#[trigger] entries@[j]).0 != seat,
        },
{
    let mut i: usize = 0;
    while i < entries.len()
        invariant
            i <= entries@.len(),
            forall|j: int| 0 <= j < i ==> (#[trigger] entries@[j]).0 != seat,
        decreases entries@.len() - i,
    {
        if entries[i].0 == seat {
            return Some(i);
        }
        i = i + 1;
    }
    None
}

/// The entries after a seat's pointer is recorded on `surface`: the
/// seat's first entry takes it, or a new entry is added at the end.
pub open spec fn seat_set(entries: Seq<(u64, u64)>, seat: u64, surface: u64) -> Seq<(u64, u64)> {
    match first_entry(entries, seat) {
        Some(i) => entries.update(i, (seat, surface)),
        None => entries.push((seat, surface)),
    }
}

/// The entries after a seat's hover is forgotten: its first entry is
/// swapped out for the last one, if it has one.
pub open spec fn seat_cleared(entries: Seq<(u64, u64)>, seat: u64) -> Seq<(u64, u64)> {
    match first_entry(entries, seat) {
        Some(i) => entries.update(i, entries.last()).drop_last(),
        None => entries,
    }
}

/// Whether no seat has two entries.
pub open spec fn one_per_seat(entries: Seq<(u64, u64)>) -> bool {
    forall|i: int, j: int| 0 <= i < j < entries.len() ==> #[trigger] entries[i].0 != #[trigger] entries[j].0
}

/// Records what a seat's pointer is on, in the per-seat focus or hover
/// entries `(seat, surface)`: the seat's first entry takes the surface, or,
/// without one, a new entry is added at the end.
pub fn set_seat_surface(entries: &mut Vec<(u64, u64)>, seat: u64, surface: u64)
    ensures
        final(entries)@ == seat_set(old(entries)@, seat, surface),
{
    match find_entry(entries, seat) {
        Some(i) => {
            proof { lemma_first_entry(entries@, seat, i as int); }
            entries.set(i, (seat, surface));
        },
        None => {
            proof { lemma_first_entry_none(entries@, seat); }
            entries.push((seat, surface));
        },
    }
}

/// Forgets a seat's hover when its pointer is on nothing of the panel: its
/// first entry is swapped out for the last one, if it has one.
pub fn clear_seat_surface(entries: &mut Vec<(u64, u64)>, seat: u64)
    ensures
        final(entries)@ == seat_cleared(old(entries)@, seat),
{
    match find_entry(entries, seat) {
        Some(i) => {
            proof { lemma_first_entry(entries@, seat, i as int); }
            let _ = entries.swap_remove(i);
        },
        None => {
            proof { lemma_first_entry_none(entries@, seat); }
        },
    }
}

/// The position of the first entry whose key is `seat`, if any.
pub open spec fn first_entry(entries: Seq<(u64, u64)>, seat: u64) -> Option<int>
    decreases entries.len(),
{
    if entries.len() == 0 {
        None
    } else {
        match first_entry(entries.drop_last(), seat) {
            Some(i) => Some(i),
            None => if entries.last().0 == seat { Some(entries.len() - 1) } else { None },
        }
    }
}

proof fn lemma_first_entry(entries: Seq<(u64, u64)>, seat: u64, i: int)
    requires
        0 <= i < entries.len(),
        entries[i].0 == seat,
        forall|j: int| 0 <= j < i ==> (#[trigger] entries[j]).0 != seat,
    ensures
        first_entry(entries, seat) == Some(i),
    decreases entries.len(),
{
    let d = entries.drop_last();
    if i < entries.len() - 1 {
        lemma_first_entry(d, seat, i);
    } else {
        lemma_first_entry_none(d, seat);
    }
}

proof fn lemma_first_entry_none(entries: Seq<(u64, u64)>, seat: u64)
    requires
        forall|j: int| 0 <= j < entries.len() ==> (#[trigger] entries[j]).0 != seat,
    ensures
        first_entry(entries, seat) is None,
    decreases entries.len(),
{
    if entries.len() > 0 {
        lemma_first_entry_none(entries.drop_last(), seat);
    }
}

proof fn lemma_first_entry_found(entries: Seq<(u64, u64)>, seat: u64)
    ensures
        match first_entry(entries, seat) {
            Some(i) => 0 <= i < entries.len() && entries[i].0 == seat,
            None => forall|j: int| 0 <= j < entries.len() ==> (#[trigger] entries[j]).0 != seat,
        },
    decreases entries.len(),
{
    if entries.len() > 0 {
        lemma_first_entry_found(entries.drop_last(), seat);
        let d = entries.drop_last();
        match first_entry(d, seat) {
            Some(i) => { assert(entries[i] == d[i]); },
            None => {
                assert forall|j: int| 0 <= j < d.len() implies (#[trigger] entries[j]).0 != seat by {
                    assert(entries[j] == d[j]);
                }
            },
        }
    }
}

/// Each seat has at most one focus or hover entry, and recording or
/// forgetting a seat's surface keeps it so: afterwards the seat's entry
/// holds the recorded surface, or the seat has no entry at all.
pub proof fn lemma_one_entry_per_seat(entries: Seq<(u64, u64)>, seat: u64, surface: u64)
    requires
        one_per_seat(entries),
    ensures
        one_per_seat(seat_set(entries, seat, surface)),
        seat_set(entries, seat, surface).contains((seat, surface)),
        one_per_seat(seat_cleared(entries, seat)),
        forall|j: int| 0 <= j < seat_cleared(entries, seat).len() ==> (#[trigger] seat_cleared(entries, seat)[j]).0 != seat,
{
    lemma_first_entry_found(entries, seat);
    let set = seat_set(entries, seat, surface);
    let cleared = seat_cleared(entries, seat);
    match first_entry(entries, seat) {
        Some(i) => {
            assert(set[i] == (seat, surface));
            assert forall|a: int, b: int| 0 <= a < b < set.len() implies #[trigger] set[a].0 != #[trigger] set[b].0 by {
                assert(set[a].0 == entries[a].0);
                assert(set[b].0 == entries[b].0);
            }
            let n = entries.len() - 1;
            assert forall|a: int, b: int| 0 <= a < b < cleared.len() implies #[trigger] cleared[a].0 != #[trigger] cleared[b].0 by {
                let ka = if a == i { n } else { a };
                let kb = if b == i { n } else { b };
                assert(cleared[a].0 == entries[ka].0);
                assert(cleared[b].0 == entries[kb].0);
                assert(ka != kb);
                if ka < kb {
                    assert(entries[ka].0 != entries[kb].0);
                } else {
                    assert(entries[kb].0 != entries[ka].0);
                }
            }
            assert forall|j: int| 0 <= j < cleared.len() implies (#[trigger] cleared[j]).0 != seat by {
                if j == i {
                    assert(cleared[j].0 == entries[n].0);
                    assert(i < n);
                    assert(entries[i].0 != entries[n].0);
                } else {
                    assert(cleared[j].0 == entries[j].0);
                    if j < i {
                        assert(entries[j].0 != entries[i].0);
                    } else {
                        assert(entries[i].0 != entries[j].0);
                    }
                }
            }
        },
        None => {
            assert(set[entries.len() as int] == (seat, surface));
            assert forall|a: int, b: int| 0 <= a < b < set.len() implies #[trigger] set[a].0 != #[trigger] set[b].0 by {
                if b == entries.len() {
                    assert(set[a] == entries[a]);
                } else {
                    assert(set[a] == entries[a]);
                    assert(set[b] == entries[b]);
                }
            }
        },
    }
}

/// Which of the panel's surfaces the pointer's client surface is.
#[derive(Clone, Copy, Debug, PartialEq, Eq, Structural)]
pub enum PointerSurface {
    /// the client surface of the applet popup at this index
    Popup(usize),
    /// the panel's layer surface
    Layer,
    /// the overflow popup
    OverflowPopup,
    /// none of the panel's surfaces
    Other,
}

/// Which of the panel's surfaces `c_surface` is: the first applet popup
/// (`(client surface, server surface)` pairs) whose client surface it is,
/// else the layer surface, else the overflow popup.
pub open spec fn pointer_surface(c_surface: u64, popups: Seq<(u64, u64)>, layer: Option<u64>, overflow: Option<u64>) -> PointerSurface {
    match first_entry(popups, c_surface) {
        Some(j) => PointerSurface::Popup(j as usize),
        None => if layer == Some(c_surface) {
            PointerSurface::Layer
        } else if overflow == Some(c_surface) {
            PointerSurface::OverflowPopup
        } else {
            PointerSurface::Other
        },
    }
}

/// The last element the point is on, the one mapped last.
pub open spec fn last_hit(elements: Seq<HitBox>, x: i32, y: i32) -> Option<int>
    decreases elements.len(),
{
    if elements.len() == 0 {
        None
    } else if hits(elements.last(), x, y) {
        Some(elements.len() - 1)
    } else {
        last_hit(elements.drop_last(), x, y)
    }
}

proof fn lemma_last_hit(elements: Seq<HitBox>, x: i32, y: i32, r: Option<usize>)
    requires
        match r {
            Some(i) => i < elements.len() && hits(elements[i as int], x, y)
                && forall|j: int| i < j < elements.len() ==> !hits(#[trigger] elements[j], x, y),
            None => forall|j: int| 0 <= j < elements.len() ==> !hits(#[trigger] elements[j], x, y),
        },
    ensures
        last_hit(elements, x, y) == match r { Some(i) => Some(i as int), None => None },
    decreases elements.len(),
{
    if elements.len() > 0 {
        let d = elements.drop_last();
        let n = elements.len() - 1;
        match r {
            Some(i) => {
                if (i as int) < n {
                    assert(!hits(elements[n], x, y));
                    assert forall|j: int| i < j < d.len() implies !hits(#[trigger] d[j], x, y) by {
                        assert(d[j] == elements[j]);
                    }
                    assert(d[i as int] == elements[i as int]);
                    lemma_last_hit(d, x, y, r);
                }
            },
            None => {
                assert(!hits(elements[n], x, y));
                assert forall|j: int| 0 <= j < d.len() implies !hits(#[trigger] d[j], x, y) by {
                    assert(d[j] == elements[j]);
                }
                lemma_last_hit(d, x, y, r);
            },
        }
    }
}

/// The hover entries after a motion on no surface of the panel: the seat's
/// first entry goes, the others keeping their order, when it is on one of
/// the panel's own surfaces `own`.
pub open spec fn seat_removed(entries: Seq<(u64, u64)>, seat: u64, own: Seq<u64>) -> Seq<(u64, u64)> {
    match first_entry(entries, seat) {
        Some(p) => if own.contains(entries[p].1) { entries.remove(p) } else { entries },
        None => entries,
    }
}

/// What a pointer motion does to the panel's per-seat focus and hover
/// entries, and the surface the seat then hovers: over an applet popup, the
/// popup's server surface; over the layer surface or the overflow popup,
/// the element of the panel (or of the open overflow section) under the
/// point, the one mapped last, recorded for the seat, or, with none there,
/// the seat's hover forgotten; elsewhere nothing hovered, and a hover of the
/// seat on one of the panel's own surfaces `own` dropped.
pub open spec fn pointer_step(
    kind: PointerSurface,
    popups: Seq<(u64, u64)>,
    panel_hit: Option<u64>,
    overflow_hit: Option<u64>,
    own: Seq<u64>,
    seat: u64,
    focused: Seq<(u64, u64)>,
    hovered: Seq<(u64, u64)>,
) -> (Option<u64>, Seq<(u64, u64)>, Seq<(u64, u64)>) {
    let hit = match kind {
        PointerSurface::Popup(j) => Some(popups[j as int].1),
        PointerSurface::Layer => panel_hit,
        PointerSurface::OverflowPopup => overflow_hit,
        PointerSurface::Other => None,
    };
    match kind {
        PointerSurface::Other => (None, focused, seat_removed(hovered, seat, own)),
        _ => match hit {
            Some(t) => (Some(t), seat_set(focused, seat, t), seat_set(hovered, seat, t)),
            None => (None, focused, seat_cleared(hovered, seat)),
        },
    }
}

/// The target under the point in a space whose elements are `boxes` and
/// whose elements' surfaces are `targets`.
pub open spec fn target_under(boxes: Seq<HitBox>, targets: Seq<u64>, x: i32, y: i32) -> Option<u64> {
    match last_hit(boxes, x, y) {
        Some(i) => Some(targets[i]),
        None => None,
    }
}

fn hit_target(boxes: &Vec<HitBox>, targets: &Vec<u64>, x: i32, y: i32) -> (res: Option<u64>)
    requires
        boxes@.len() == targets@.len(),
    ensures
        res == target_under(boxes@, targets@, x, y),
{
    let r = space_focus(boxes, x, y);
    proof { lemma_last_hit(boxes@, x, y, r); }
    match r {
        Some(i) => Some(targets[i]),
        None => None,
    }
}

fn contains_surface(v: &Vec<u64>, s: u64) -> (res: bool)
    ensures
        res == v@.contains(s),
{
    let mut i: usize = 0;
    while i < v.len()
        invariant
            i <= v@.len(),
            forall|j: int| 0 <= j < i ==> v@[j] != s,
        decreases v@.len() - i,
    {
        if v[i] == s {
            return true;
        }
        i = i + 1;
    }
    false
}

/// A pointer motion of `seat` at `(x, y)` on the client surface
/// `c_surface`, as [`pointer_step`] says: which surface it is
/// ([`pointer_surface`]), what lies under the point on the panel (`panel`,
/// whose elements' surfaces are `panel_targets`) or in the open overflow
/// section (`overflow`, `overflow_targets`), and the panel's own surfaces
/// `own`. Returns the surface the seat now hovers, if any.
pub fn update_pointer(
    x: i32,
    y: i32,
    seat: u64,
    c_surface: u64,
    popups: &Vec<(u64, u64)>,
    layer: Option<u64>,
    overflow_popup: Option<u64>,
    panel: &Vec<HitBox>,
    panel_targets: &Vec<u64>,
    overflow: &Vec<HitBox>,
    overflow_targets: &Vec<u64>,
    own: &Vec<u64>,
    focused: &mut Vec<(u64, u64)>,
    hovered: &mut Vec<(u64, u64)>,
) -> (res: Option<u64>)
    requires
        panel@.len() == panel_targets@.len(),
        overflow@.len() == overflow_targets@.len(),
    ensures
        (res, final(focused)@, final(hovered)@) == pointer_step(
            pointer_surface(c_surface, popups@, layer, overflow_popup),
            popups@,
            target_under(panel@, panel_targets@, x, y),
            target_under(overflow@, overflow_targets@, x, y),
            own@,
            seat,
            old(focused)@,
            old(hovered)@,
        ),
{
    let kind = match find_entry(popups, c_surface) {
        Some(j) => {
            proof { lemma_first_entry(popups@, c_surface, j as int); }
            PointerSurface::Popup(j)
        },
        None => {
            proof { lemma_first_entry_none(popups@, c_surface); }
            if layer == Some(c_surface) {
                PointerSurface::Layer
            } else if overflow_popup == Some(c_surface) {
                PointerSurface::OverflowPopup
            } else {
                PointerSurface::Other
            }
        },
    };
    let hit = match kind {
        PointerSurface::Popup(j) => Some(popups[j].1),
        PointerSurface::Layer => hit_target(panel, panel_targets, x, y),
        PointerSurface::OverflowPopup => hit_target(overflow, overflow_targets, x, y),
        PointerSurface::Other => {
            match find_entry(hovered, seat) {
                Some(p) => {
                    proof { lemma_first_entry(hovered@, seat, p as int); }
                    if contains_surface(own, hovered[p].1) {
                        let _ = hovered.remove(p);
                    }
                },
                None => {
                    proof { lemma_first_entry_none(hovered@, seat); }
                },
            }
            return None;
        },
    };
    match hit {
        Some(t) => {
            set_seat_surface(focused, seat, t);
            set_seat_surface(hovered, seat, t);
            Some(t)
        },
        None => {
            clear_seat_surface(hovered, seat);
            None
        },
    }
}

/// After a pointer motion each seat still has at most one hover entry; a
/// seat that hovers a surface has the entry for it; a motion on no surface
/// of the panel hovers nothing; and one over the layer surface or the
/// overflow popup with nothing under the point leaves the seat no hover.
pub proof fn lemma_pointer_hover(
    kind: PointerSurface,
    popups: Seq<(u64, u64)>,
    panel_hit: Option<u64>,
    overflow_hit: Option<u64>,
    own: Seq<u64>,
    seat: u64,
    focused: Seq<(u64, u64)>,
    hovered: Seq<(u64, u64)>,
)
    requires
        one_per_seat(hovered),
    ensures
        one_per_seat(pointer_step(kind, popups, panel_hit, overflow_hit, own, seat, focused, hovered).2),
        match pointer_step(kind, popups, panel_hit, overflow_hit, own, seat, focused, hovered).0 {
            Some(t) => pointer_step(kind, popups, panel_hit, overflow_hit, own, seat, focused, hovered).2.contains((seat, t)),
            None => true,
        },
        kind is Other ==> pointer_step(kind, popups, panel_hit, overflow_hit, own, seat, focused, hovered).0 is None,
        ((kind is Layer && panel_hit is None) || (kind is OverflowPopup && overflow_hit is None)) ==> {
            let after = pointer_step(kind, popups, panel_hit, overflow_hit, own, seat, focused, hovered).2;
            &&& pointer_step(kind, popups, panel_hit, overflow_hit, own, seat, focused, hovered).0 is None
            &&& forall|j: int| 0 <= j < after.len() ==> (#[trigger] after[j]).0 != seat
        },
{
    lemma_one_entry_per_seat(hovered, seat, 0);
    match kind {
        PointerSurface::Other => {
            lemma_first_entry_found(hovered, seat);
            let after = seat_removed(hovered, seat, own);
            match first_entry(hovered, seat) {
                Some(p) => {
                    if own.contains(hovered[p].1) {
                        assert forall|a: int, b: int| 0 <= a < b < after.len() implies #[trigger] after[a].0 != #[trigger] after[b].0 by {
                            let ka = if a < p { a } else { a + 1 };
                            let kb = if b < p { b } else { b + 1 };
                            assert(after[a] == hovered[ka]);
                            assert(after[b] == hovered[kb]);
                        }
                    }
                },
                None => {},
            }
        },
        _ => {
            let hit = match kind {
                PointerSurface::Popup(j) => Some(popups[j as int].1),
                PointerSurface::Layer => panel_hit,
                PointerSurface::OverflowPopup => overflow_hit,
                PointerSurface::Other => None,
            };
            match hit {
                Some(t) => { lemma_one_entry_per_seat(hovered, seat, t); },
                None => {},
            }
        },
    }
}

} // verus!

