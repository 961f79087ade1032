//! Popups of the panel: the overflow popup, closing popups, and finding
//! what a touch lands on.
//!
//! The overflow popup opens from its button on the side facing the output,
//! eight pixels off the panel; pressing the button again closes it. A touch
//! goes to the applet popup whose surface it is on, to the applet under it
//! in the open overflow popup, or to the applet under it on the panel. A
//! new applet popup is made under its parent popup, closes the other
//! grabbing popups, and takes a grab when its input region covers more than
//! a pixel.

use vstd::prelude::*;
use crate::panel_space::{PanelAnchor, opposite};
use crate::panel_layout::{OverflowSection, sat_i32, saturating_add_i32};

verus! {

/// An element of a space as a touch sees it: where the space put it, the
/// offset and size of its geometry, and the size its window was last
/// configured with (`0` where none was).
#[derive(Clone, Copy, Debug, PartialEq, Eq, Structural)]
pub struct HitBox {
    pub loc_x: i32,
    pub loc_y: i32,
    pub geo_x: i32,
    pub geo_y: i32,
    pub w: i32,
    pub h: i32,
    pub configured_w: i32,
    pub configured_h: i32,
}

/// The width that counts: the geometry's, cut to the configured width.
pub open spec fn hit_width(b: HitBox) -> int {
    if b.configured_w > 0 && b.configured_w < b.w { b.configured_w as int } else { b.w as int }
}

/// The height that counts: the geometry's, cut to the configured height.
pub open spec fn hit_height(b: HitBox) -> int {
    if b.configured_h > 0 && b.configured_h < b.h { b.configured_h as int } else { b.h as int }
}

/// Whether the point is on the element.
pub open spec fn hits(b: HitBox, x: i32, y: i32) -> bool {
    let left = b.loc_x + b.geo_x;
    let top = b.loc_y + b.geo_y;
    &&& left <= x < left + hit_width(b)
    &&& top <= y < top + hit_height(b)
}

fn hits_exec(b: &HitBox, x: i32, y: i32) -> (res: bool)
    ensures
        res == hits(*b, x, y),
{
    let w: i64 = if b.configured_w > 0 && b.configured_w < b.w { b.configured_w as i64 } else { b.w as i64 };
    let h: i64 = if b.configured_h > 0 && b.configured_h < b.h { b.configured_h as i64 } else { b.h as i64 };
    let left: i64 = b.loc_x as i64 + b.geo_x as i64;
    let top: i64 = b.loc_y as i64 + b.geo_y as i64;
    left <= x as i64 && (x as i64) < left + w && top <= y as i64 && (y as i64) < top + h
}

/// The element the point is on, the last mapped one where several are: the
/// index of the last element hit, none when no element is.
pub fn space_focus(elements: &Vec<HitBox>, x: i32, y: i32) -> (res: Option<usize>)
    ensures
        match res {
            Some(i) => i < elements@.len() && hits(elements@[i as int], x, y)
                && forall|j: int| i < j < elements@.len() ==> !hits(#[trigger] elements@[j], x, y),
            None => forall|j: int| 0 <= j < elements@.len() ==> !hits(#[trigger] elements@[j], x, y),
        },
{
    let mut i: usize = elements.len();
    while i > 0
        invariant
            i <= elements@.len(),
            forall|j: int| i <= j < elements@.len() ==> !hits(#[trigger] elements@[j], x, y),
        decreases i,
    {
        i = i - 1;
        if hits_exec(&elements[i], x, y) {
            return Some(i);
        }
    }
    None
}

/// Which surface of the panel a touch is on.
#[derive(Clone, Copy, Debug, PartialEq, Eq, Structural)]
pub enum TouchSurface {
    /// the surface of the applet popup at this index
    Popup(usize),
    /// the surface of the open overflow popup
    OverflowPopup,
    /// the panel's own layer surface
    Panel,
    /// a surface of another panel
    Other,
}

/// What a touch lands on.
#[derive(Clone, Copy, Debug, PartialEq, Eq, Structural)]
pub enum TouchTarget {
    Popup(usize),
    /// the element at this index of the open overflow popup's section
    OverflowElement(usize),
    /// the element at this index of the panel
    PanelElement(usize),
    Nothing,
}

/// What a touch at `(x, y)` lands on: the popup whose surface it is on, the
/// element under it in the overflow popup or on the panel, or nothing.
pub fn touch_under(surface: TouchSurface, overflow: &Vec<HitBox>, panel: &Vec<HitBox>, x: i32, y: i32) -> (res: TouchTarget)
    ensures
        match surface {
            TouchSurface::Popup(p) => res == TouchTarget::Popup(p),
            TouchSurface::OverflowPopup => match res {
                TouchTarget::OverflowElement(i) => i < overflow@.len() && hits(overflow@[i as int], x, y)
                    && forall|j: int| i < j < overflow@.len() ==> !hits(#[trigger] overflow@[j], x, y),
                TouchTarget::Nothing => forall|j: int| 0 <= j < overflow@.len() ==> !hits(#[trigger] overflow@[j], x, y),
                _ => false,
            },
            TouchSurface::Panel => match res {
                TouchTarget::PanelElement(i) => i < panel@.len() && hits(panel@[i as int], x, y)
                    && forall|j: int| i < j < panel@.len() ==> !hits(#[trigger] panel@[j], x, y),
                TouchTarget::Nothing => forall|j: int| 0 <= j < panel@.len() ==> !hits(#[trigger] panel@[j], x, y),
                _ => false,
            },
            TouchSurface::Other => res == TouchTarget::Nothing,
        },
{
    match surface {
        TouchSurface::Popup(p) => TouchTarget::Popup(p),
        TouchSurface::OverflowPopup => match space_focus(overflow, x, y) {
            Some(i) => TouchTarget::OverflowElement(i),
            None => TouchTarget::Nothing,
        },
        TouchSurface::Panel => match space_focus(panel, x, y) {
            Some(i) => TouchTarget::PanelElement(i),
            None => TouchTarget::Nothing,
        },
        TouchSurface::Other => TouchTarget::Nothing,
    }
}

/// The section whose overflow button has the given id: the left or right
/// button's, any other the center's.
pub fn overflow_section_for(id: u64, left_id: u64, right_id: u64) -> (res: OverflowSection)
    ensures
        res == if id == left_id {
            OverflowSection::Left
        } else if id == right_id {
            OverflowSection::Right
        } else {
            OverflowSection::Center
        },
{
    if id == left_id {
        OverflowSection::Left
    } else if id == right_id {
        OverflowSection::Right
    } else {
        OverflowSection::Center
    }
}

/// How far the overflow popup sits off its button: eight pixels toward the
/// output.
pub open spec fn popup_offset(anchor: PanelAnchor) -> (i32, i32) {
    match anchor {
        PanelAnchor::Left => (8i32, 0i32),
        PanelAnchor::Right => (-8i32, 0i32),
        PanelAnchor::Top => (0i32, 8i32),
        PanelAnchor::Bottom => (0i32, -8i32),
    }
}

/// Where the overflow popup of a panel on the given edge opens: its offset
/// from the button, and the side of the button it is anchored to and grows
/// toward.
pub fn overflow_popup_placement(anchor: PanelAnchor) -> (res: ((i32, i32), PanelAnchor))
    ensures
        res.0 == popup_offset(anchor),
        res.1 == opposite(anchor),
{
    match anchor {
        PanelAnchor::Left => ((8, 0), PanelAnchor::Right),
        PanelAnchor::Right => ((-8, 0), PanelAnchor::Left),
        PanelAnchor::Top => ((0, 8), PanelAnchor::Bottom),
        PanelAnchor::Bottom => ((0, -8), PanelAnchor::Top),
    }
}

/// The overflow popup opens away from the panel's edge: its offset points
/// into the output and its side faces the output.
pub proof fn lemma_popup_opens_inward(anchor: PanelAnchor)
    ensures
        anchor == PanelAnchor::Left ==> popup_offset(anchor).0 > 0,
        anchor == PanelAnchor::Right ==> popup_offset(anchor).0 < 0,
        anchor == PanelAnchor::Top ==> popup_offset(anchor).1 > 0,
        anchor == PanelAnchor::Bottom ==> popup_offset(anchor).1 < 0,
        opposite(anchor) != anchor,
{
}

/// A message of an overflow button.
#[derive(Clone, Copy, Debug, PartialEq, Eq, Structural)]
pub enum Message {
    /// the button was pressed: its popup opens or closes
    TogglePopup,
    /// its popup is to close
    HidePopup,
}

/// Whether a message of an overflow button only hides its popup, rather
/// than toggling it.
pub fn hides_only(message: Message) -> (res: bool)
    ensures
        res == (message == Message::HidePopup),
{
    match message {
        Message::TogglePopup => false,
        Message::HidePopup => true,
    }
}

/// What pressing an overflow button does.
#[derive(Clone, Copy, Debug, PartialEq, Eq, Structural)]
pub enum OverflowToggle {
    /// the open overflow popup closes
    Close,
    /// the button or its popup content was not found
    NotFound,
    /// the popup opens for the section, offset from the button by
    /// `(dx, dy)` and anchored to the given side, with the window geometry
    /// `(x, y, width, height)`
    Open { section: OverflowSection, dx: i32, dy: i32, side: PanelAnchor, x: i32, y: i32, width: i32, height: i32 },
}

/// Pressing an overflow button: closes the overflow popup when one is open;
/// otherwise opens the popup of the button's section, when the button and
/// its popup content (at `(px, py)` of size `(pw, ph)`) are found, with a
/// window geometry of at least one pixel each way. The applet popups
/// (`applet_popups`, by surface) close in any case.
pub fn toggle_overflow_popup(
    applet_popups: &mut Vec<u64>,
    popup_open: bool,
    section: Option<OverflowSection>,
    content: Option<(i32, i32, i32, i32)>,
    anchor: PanelAnchor,
) -> (res: OverflowToggle)
    ensures
        final(applet_popups)@.len() == 0,
        popup_open ==> res == OverflowToggle::Close,
        !popup_open && (section is None || content is None) ==> res == OverflowToggle::NotFound,
        !popup_open && section is Some && content is Some ==> {
            let (px, py, pw, ph) = content->0;
            res == OverflowToggle::Open {
                section: section->0,
                dx: popup_offset(anchor).0,
                dy: popup_offset(anchor).1,
                side: opposite(anchor),
                x: px,
                y: py,
                width: if pw < 1 { 1i32 } else { pw },
                height: if ph < 1 { 1i32 } else { ph },
            }
        },
{
    applet_popups.clear();
    if popup_open {
        return OverflowToggle::Close;
    }
    match (section, content) {
        (Some(s), Some((px, py, pw, ph))) => {
            let (offset, side) = overflow_popup_placement(anchor);
            let w = if pw < 1 { 1 } else { pw };
            let h = if ph < 1 { 1 } else { ph };
            OverflowToggle::Open { section: s, dx: offset.0, dy: offset.1, side, x: px, y: py, width: w, height: h }
        },
        _ => OverflowToggle::NotFound,
    }
}

/// Closing the popups that `keep` does not spare: the indices of the applet
/// popups that close, in order, and whether the overflow popup, if open
/// (`Some(spared)`), closes.
pub fn close_popups(keep: &Vec<bool>, overflow: Option<bool>) -> (res: (Vec<usize>, bool))
    ensures
        forall|k: int| 0 <= k < res.0@.len() ==> (#[trigger] res.0@[k]) < keep@.len() && !keep@[res.0@[k] as int],
        forall|k: int, l: int| 0 <= k < l < res.0@.len() ==> res.0@[k] < res.0@[l],
        forall|i: int| 0 <= i < keep@.len() && !#[trigger] keep@[i] ==> res.0@.contains(i as usize),
        res.1 == (overflow matches Some(spared) && !spared),
{
    let mut closed: Vec<usize> = Vec::new();
    let mut i: usize = 0;
    while i < keep.len()
        invariant
            i <= keep@.len(),
            forall|k: int| 0 <= k < closed@.len() ==> (#[trigger] closed@[k]) < i && !keep@[closed@[k] as int],
            forall|k: int, l: int| 0 <= k < l < closed@.len() ==> closed@[k] < closed@[l],
            forall|j: int| 0 <= j < i && !#[trigger] keep@[j] ==> closed@.contains(j as usize),
        decreases keep@.len() - i,
    {
        let ghost before = closed@;
        if !keep[i] {
            closed.push(i);
            assert(closed@[closed@.len() - 1] == i);
        }
        proof {
            assert forall|j: int| 0 <= j < i + 1 && !#[trigger] keep@[j] implies closed@.contains(j as usize) by {
                if j == i {
                    assert(closed@[closed@.len() - 1] == i);
                } else {
                    assert(before.contains(j as usize));
                    let k = choose|k: int| 0 <= k < before.len() && before[k] == j as usize;
                    assert(closed@[k] == j as usize);
                }
            }
        }
        i = i + 1;
    }
    let close_overflow = match overflow {
        Some(spared) => !spared,
        None => false,
    };
    (closed, close_overflow)
}

/// The entries of `entries` whose surface is not among `gone`, in order.
pub open spec fn without(entries: Seq<u64>, gone: Seq<u64>) -> Seq<u64>
    decreases entries.len(),
{
    if entries.len() == 0 {
        seq![]
    } else {
        let rest = without(entries.drop_last(), gone);
        if gone.contains(entries.last()) { rest } else { rest.push(entries.last()) }
    }
}

/// Drops the entries whose surface is among `gone`, keeping the order of
/// the rest.
pub fn forget_surfaces(entries: &mut Vec<u64>, gone: &Vec<u64>)
    ensures
        final(entries)@ == without(old(entries)@, gone@),
{
    let ghost orig = entries@;
    let mut kept: Vec<u64> = Vec::new();
    let mut i: usize = 0;
    while i < entries.len()
        invariant
            entries@ == orig,
            i <= orig.len(),
            kept@ == without(orig.take(i as int), gone@),
        decreases orig.len() - i,
    {
        let ghost t = orig.take(i + 1);
        assert(t.drop_last() =~= orig.take(i as int));
        assert(t.last() == orig[i as int]);
        let e = entries[i];
        let mut found = false;
        let mut k: usize = 0;
        while k < gone.len()
            invariant
                k <= gone@.len(),
                found == exists|q: int| 0 <= q < k && gone@[q] == e,
            decreases gone@.len() - k,
        {
            if gone[k] == e {
                found = true;
            }
            k = k + 1;
        }
        if !found {
            kept.push(e);
        }
        i = i + 1;
    }
    assert(orig.take(i as int) =~= orig);
    *entries = kept;
}

/// After popups close, the seats' focus and hover entries forget them: the
/// panel-side entries (`c_focused`, `c_hovered`) lose the closed popups'
/// own surfaces (`closed`), and the applet-side entries (`s_focused`,
/// `s_hovered`) lose the closed applet popups' applet surfaces
/// (`closed_applet`); all else stays, in order.
pub fn forget_closed_popups(
    c_focused: &mut Vec<u64>,
    c_hovered: &mut Vec<u64>,
    s_focused: &mut Vec<u64>,
    s_hovered: &mut Vec<u64>,
    closed: &Vec<u64>,
    closed_applet: &Vec<u64>,
)
    ensures
        final(c_focused)@ == without(old(c_focused)@, closed@),
        final(c_hovered)@ == without(old(c_hovered)@, closed@),
        final(s_focused)@ == without(old(s_focused)@, closed_applet@),
        final(s_hovered)@ == without(old(s_hovered)@, closed_applet@),
{
    forget_surfaces(c_focused, closed);
    forget_surfaces(c_hovered, closed);
    forget_surfaces(s_focused, closed_applet);
    forget_surfaces(s_hovered, closed_applet);
}

/// The configure state of a popup: waiting for the compositor, or placed at
/// a rectangle that has not been taken yet.
#[derive(Clone, Copy, Debug, PartialEq, Eq, Structural)]
pub enum PopupConfigure {
    WaitConfigure,
    Rectangle { x: i32, y: i32, width: i32, height: i32 },
}

/// What a configured overflow popup takes: its new rectangle, and the size
/// of its viewport, at least one pixel each way.
pub fn handle_overflow_popup_events(state: Option<PopupConfigure>) -> (res: Option<((i32, i32, i32, i32), (i32, i32))>)
    ensures
        match state {
            Some(PopupConfigure::Rectangle { x, y, width, height }) => res == Some((
                (x, y, width, height),
                (if width < 1 { 1i32 } else { width }, if height < 1 { 1i32 } else { height }),
            )),
            _ => res is None,
        },
{
    match state {
        Some(PopupConfigure::Rectangle { x, y, width, height }) => {
            let w = if width < 1 { 1 } else { width };
            let h = if height < 1 { 1 } else { height };
            Some(((x, y, width, height), (w, h)))
        },
        _ => None,
    }
}

/// What a popup's configure sets: the new window rectangle, with a zero
/// width or height replaced by the popup's previous one, and the popup's
/// configure state. An applet popup's state becomes the rectangle to take;
/// the overflow popup only stops waiting for the compositor.
pub fn configure_panel_popup(
    overflow: bool,
    prev_w: i32,
    prev_h: i32,
    x: i32,
    y: i32,
    w: i32,
    h: i32,
    state: Option<PopupConfigure>,
) -> (res: ((i32, i32, i32, i32), Option<PopupConfigure>))
    ensures
        ({
            let width = if w == 0 { prev_w } else { w };
            let height = if h == 0 { prev_h } else { h };
            &&& res.0 == (x, y, width, height)
            &&& !overflow ==> res.1 == Some(PopupConfigure::Rectangle { x, y, width, height })
            &&& overflow ==> res.1 == match state {
                None | Some(PopupConfigure::WaitConfigure) => None,
                Some(r) => Some(r),
            }
        }),
{
    let width = if w == 0 { prev_w } else { w };
    let height = if h == 0 { prev_h } else { h };
    let new_state = if overflow {
        match state {
            None | Some(PopupConfigure::WaitConfigure) => None,
            Some(r) => Some(r),
        }
    } else {
        Some(PopupConfigure::Rectangle { x, y, width, height })
    };
    ((x, y, width, height), new_state)
}

/// The area of an input region from the sizes of its rectangles: their
/// areas summed, each product and each sum saturating.
pub open spec fn region_area(sizes: Seq<(i32, i32)>) -> i32
    decreases sizes.len(),
{
    if sizes.len() == 0 {
        0
    } else {
        sat_i32(region_area(sizes.drop_last()) + sat_i32(sizes.last().0 * sizes.last().1))
    }
}

fn saturating_mul_i32(a: i32, b: i32) -> (r: i32)
    ensures
        r == sat_i32(a * b),
{
    assert(-0x4000_0000_0000_0000 <= (a as int) * (b as int) <= 0x4000_0000_0000_0000) by (nonlinear_arith)
        requires
            -0x8000_0000 <= a < 0x8000_0000,
            -0x8000_0000 <= b < 0x8000_0000,
    ;
    let p: i64 = a as i64 * b as i64;
    if p > i32::MAX as i64 {
        i32::MAX
    } else if p < i32::MIN as i64 {
        i32::MIN
    } else {
        p as i32
    }
}

/// Whether a new applet popup takes a grab: when its input region covers
/// more than one pixel, or when it has no input region of its own.
pub fn popup_takes_grab(input_region: &Option<Vec<(i32, i32)>>) -> (res: bool)
    ensures
        res == match input_region {
            Some(r) => region_area(r@) > 1,
            None => true,
        },
{
    match input_region {
        Some(rects) => {
            let mut area: i32 = 0;
            let mut i: usize = 0;
            while i < rects.len()
                invariant
                    i <= rects@.len(),
                    area == region_area(rects@.take(i as int)),
                decreases rects@.len() - i,
            {
                let ghost t = rects@.take(i + 1);
                assert(t.drop_last() =~= rects@.take(i as int));
                assert(t.last() == rects@[i as int]);
                let (w, h) = rects[i];
                area = saturating_add_i32(area, saturating_mul_i32(w, h));
                i = i + 1;
            }
            assert(rects@.take(i as int) =~= rects@);
            area > 1
        },
        None => true,
    }
}

/// The parent a new applet popup is made under.
#[derive(Clone, Copy, Debug, PartialEq, Eq, Structural)]
pub enum PopupParent {
    /// the applet popup at this index
    Popup(usize),
    /// the open overflow popup
    Overflow,
    /// the panel's layer surface
    Panel,
}

/// The parent of a new applet popup and the popups that stay open: the
/// first applet popup whose applet surface is the new popup's parent
/// (`is_parent`), else the overflow popup when the parent is an applet in
/// it (`overflow`: `(holds the parent, grabs)` when it is open), else the
/// panel. The parent stays open, and so does every popup without a grab;
/// the rest close.
pub fn add_popup_plan(is_parent: &Vec<bool>, grabs: &Vec<bool>, overflow: Option<(bool, bool)>) -> (res: (PopupParent, Vec<bool>, Option<bool>))
    requires
        is_parent@.len() == grabs@.len(),
    ensures
        match res.0 {
            PopupParent::Popup(i) => i < is_parent@.len() && is_parent@[i as int]
                && forall|j: int| 0 <= j < i ==> !(#[trigger] is_parent@[j]),
            PopupParent::Overflow => (forall|j: int| 0 <= j < is_parent@.len() ==> !(#[trigger] is_parent@[j]))
                && (overflow matches Some((holds, _)) && holds),
            PopupParent::Panel => (forall|j: int| 0 <= j < is_parent@.len() ==> !(#[trigger] is_parent@[j]))
                && !(overflow matches Some((holds, _)) && holds),
        },
        res.1@.len() == grabs@.len(),
        forall|j: int| 0 <= j < grabs@.len() ==> (#[trigger] res.1@[j]) == (res.0 == PopupParent::Popup(j as usize) || !grabs@[j]),
        res.2 == match overflow {
            Some((_, grab)) => Some(res.0 == PopupParent::Overflow || !grab),
            None => None,
        },
{
    let mut i: usize = 0;
    while i < is_parent.len() && !is_parent[i]
        invariant
            i <= is_parent@.len(),
            forall|j: int| 0 <= j < i ==> !(#[trigger] is_parent@[j]),
        decreases is_parent@.len() - i,
    {
        i = i + 1;
    }
    let mut parent = if i < is_parent.len() { PopupParent::Popup(i) } else { PopupParent::Panel };
    if parent == PopupParent::Panel {
        match overflow {
            Some((holds, _)) => {
                if holds {
                    parent = PopupParent::Overflow;
                }
            },
            None => {},
        }
    }
    let mut keep: Vec<bool> = Vec::new();
    let mut j: usize = 0;
    while j < grabs.len()
        invariant
            j <= grabs@.len(),
            keep@.len() == j,
            forall|q: int| 0 <= q < j ==> (#[trigger] keep@[q]) == (parent == PopupParent::Popup(q as usize) || !grabs@[q]),
        decreases grabs@.len() - j,
    {
        let k = match parent {
            PopupParent::Popup(p) => p == j,
            _ => false,
        } || !grabs[j];
        keep.push(k);
        j = j + 1;
    }
    let spared = match overflow {
        Some((_, grab)) => Some(parent == PopupParent::Overflow || !grab),
        None => None,
    };
    (parent, keep, spared)
}

/// Repositioning an applet popup: the first open popup made for that applet
/// surface (`surfaces[i]` for popup `i`), if any, and whether the
/// compositor is asked to move it (its positioner speaks version 3 or
/// later); the popup then waits for its configure.
pub fn reposition_popup(surfaces: &Vec<u64>, popup: u64, positioner_version: u32) -> (res: Option<(usize, bool)>)
    ensures
        match res {
            Some((i, ask)) => i < surfaces@.len() && surfaces@[i as int] == popup
                && (forall|j: int| 0 <= j < i ==> (#[trigger] surfaces@[j]) != popup)
                && ask == (positioner_version >= 3),
            None => forall|j: int| 0 <= j < surfaces@.len() ==> (#[trigger] surfaces@[j]) != popup,
        },
{
    let mut i: usize = 0;
    while i < surfaces.len()
        invariant
            i <= surfaces@.len(),
            forall|j: int| 0 <= j < i ==> (#[trigger] surfaces@[j]) != popup,
        decreases surfaces@.len() - i,
    {
        if surfaces[i] == popup {
            return Some((i, positioner_version >= 3));
        }
        i = i + 1;
    }
    None
}

} // verus!

