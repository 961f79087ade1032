//! Showing and hiding the panel.
//!
//! A panel configured to hide itself slides off its edge once nothing of it
//! has been hovered for a while, and slides back when it is hovered again; a
//! panel without that setting is simply shown while something of it has
//! focus or hover. Each call of [`handle_focus`] takes the state, what the
//! seat reports and the time, and decides the next state and what to set on
//! the layer surface. Times are nanoseconds on one monotonic clock.

use vstd::prelude::*;
use crate::panel_space::{PanelAnchor, margins};

verus! {

/// When a surface last had focus or hover: it has it now, or it lost it at
/// the given time.
#[derive(Clone, Copy, Debug, PartialEq, Eq, Structural)]
pub enum FocusStatus {
    Focused,
    LastFocused(u64),
}

/// A hovered surface: whether it is alive and belongs to the panel or to
/// one of its popups, and its focus status.
#[derive(Clone, Copy, Debug, PartialEq, Eq, Structural)]
pub struct HoverEntry {
    pub ours: bool,
    pub status: FocusStatus,
}

/// Whether the panel is shown, hidden, or sliding; a sliding panel records
/// when it last moved, how far along the slide it is, and the margin it was
/// last given.
#[derive(Clone, Copy, Debug, PartialEq, Eq, Structural)]
pub enum Visibility {
    Hidden,
    Visible,
    TransitionToHidden { last_instant: u64, progress: u64, prev_margin: i32 },
    TransitionToVisible { last_instant: u64, progress: u64, prev_margin: i32 },
}

/// The hiding settings: how long after the last hover the panel hides, how
/// long the slide takes, and how much of the panel stays on the output when
/// hidden.
#[derive(Clone, Copy, Debug, PartialEq, Eq, Structural)]
pub struct AutoHide {
    pub wait: u64,
    pub transition: u64,
    pub handle: u32,
}

/// What the panel knows when it decides on its visibility.
#[derive(Clone, Debug)]
pub struct FocusInputs {
    /// whether the panel has its layer surface yet
    pub has_layer: bool,
    /// the focus status of each focused surface of the seat
    pub focused: Vec<FocusStatus>,
    /// each hovered surface of the seat
    pub hovered: Vec<HoverEntry>,
    /// the hiding settings, when the panel hides itself
    pub autohide: Option<AutoHide>,
    /// whether an animation of the panel is running
    pub animating: bool,
    /// whether a toplevel window is on the panel's output
    pub output_has_toplevel: bool,
    /// when the panel was created
    pub start_instant: u64,
    /// whether the panel hides only when windows overlap it
    pub intellihide: bool,
    /// whether no window overlaps the panel
    pub overlaps_empty: bool,
    pub anchor: PanelAnchor,
    /// the width of the panel's layer surface
    pub width: i32,
    /// the height of the panel's layer surface
    pub height: i32,
    /// whether the panel reserves an exclusive zone
    pub exclusive_zone: bool,
    /// the configured margin
    pub margin: i32,
    /// the gap kept for panels stacked against the same edge
    pub additional_gap: i32,
}

/// What one decision changes: the new visibility, whether the panel must be
/// redrawn, the anchor gap and exclusive zone to set, the layer-surface
/// margins `(top, right, bottom, left)` to set, and whether the panel's
/// popups close.
#[derive(Clone, Copy, Debug, PartialEq, Eq)]
pub struct FocusStep {
    pub visibility: Visibility,
    pub dirty: bool,
    pub anchor_gap: Option<i32>,
    pub exclusive_zone: Option<i32>,
    pub margins: Option<(i32, i32, i32, i32)>,
    pub close_popups: bool,
}

/// Folding one hovered surface into the hover status: a surface that is not
/// the panel's changes nothing; a later loss of hover, or a current hover,
/// replaces an earlier loss of hover; a current hover stays.
pub open spec fn hover_step(acc: FocusStatus, e: HoverEntry) -> FocusStatus {
    if !e.ours {
        acc
    } else {
        match (acc, e.status) {
            (FocusStatus::LastFocused(a), FocusStatus::LastFocused(c)) => if c > a { e.status } else { acc },
            (FocusStatus::LastFocused(_), FocusStatus::Focused) => FocusStatus::Focused,
            _ => acc,
        }
    }
}

/// The hover statuses folded in order.
pub open spec fn fold_hover(acc: FocusStatus, entries: Seq<HoverEntry>) -> FocusStatus
    decreases entries.len(),
{
    if entries.len() == 0 {
        acc
    } else {
        fold_hover(hover_step(acc, entries[0]), entries.drop_first())
    }
}

/// The hover status of the panel: counted as hovered while it animates or
/// while no toplevel is on its output, otherwise as last hovered when it was
/// created; then each hovered surface of the panel folded in.
pub open spec fn panel_hover(hovered: Seq<HoverEntry>, animating: bool, output_has_toplevel: bool, start: u64) -> FocusStatus {
    let init = if animating || !output_has_toplevel { FocusStatus::Focused } else { FocusStatus::LastFocused(start) };
    fold_hover(init, hovered)
}

/// The hover status of the panel, as [`panel_hover`] says.
pub fn current_hover(hovered: &Vec<HoverEntry>, animating: bool, output_has_toplevel: bool, start: u64) -> (res: FocusStatus)
    ensures
        res == panel_hover(hovered@, animating, output_has_toplevel, start),
{
    let mut acc = if animating || !output_has_toplevel { FocusStatus::Focused } else { FocusStatus::LastFocused(start) };
    let ghost total = panel_hover(hovered@, animating, output_has_toplevel, start);
    let mut i: usize = 0;
    assert(hovered@.subrange(0, hovered@.len() as int) =~= hovered@);
    while i < hovered.len()
        invariant
            i <= hovered@.len(),
            fold_hover(acc, hovered@.subrange(i as int, hovered@.len() as int)) == total,
        decreases hovered@.len() - i,
    {
        let e = hovered[i];
        assert(hovered@.subrange(i as int, hovered@.len() as int).drop_first() =~= hovered@.subrange(i + 1, hovered@.len() as int));
        if e.ours {
            acc = match (acc, e.status) {
                (FocusStatus::LastFocused(a), FocusStatus::LastFocused(c)) => if c > a { e.status } else { acc },
                (FocusStatus::LastFocused(_), FocusStatus::Focused) => FocusStatus::Focused,
                _ => acc,
            };
        }
        i = i + 1;
    }
    assert(hovered@.subrange(i as int, hovered@.len() as int) =~= Seq::<HoverEntry>::empty());
    acc
}

/// Whether no surface of the seat has focus or hover now.
pub open spec fn no_hover_focus(focused: Seq<FocusStatus>, hovered: Seq<HoverEntry>) -> bool {
    &&& forall|i: int| 0 <= i < focused.len() ==> #[trigger] focused[i] is LastFocused
    &&& forall|i: int| 0 <= i < hovered.len() ==> #[trigger] hovered[i].status is LastFocused
}

/// The length of the panel across its edge.
pub open spec fn panel_size(anchor: PanelAnchor, width: i32, height: i32) -> int {
    match anchor {
        PanelAnchor::Left | PanelAnchor::Right => width as int,
        PanelAnchor::Top | PanelAnchor::Bottom => height as int,
    }
}

/// The anchor gap of a fully hidden panel: all of it off the output but the
/// handle.
pub open spec fn hidden_gap(anchor: PanelAnchor, width: i32, height: i32, handle: u32) -> int {
    -panel_size(anchor, width, height) + (handle as i32) as int
}

/// Whether the panel should show: it is hovered, or it hides only for
/// overlapping windows and none overlaps it.
pub open spec fn wants_visible(hover: FocusStatus, intellihide: bool, overlaps_empty: bool) -> bool {
    hover is Focused || (intellihide && overlaps_empty)
}

/// Whether the panel should hide: it is not hovered, and it does not hide
/// only for overlapping windows, or some window overlaps it.
pub open spec fn wants_hidden(hover: FocusStatus, intellihide: bool, overlaps_empty: bool) -> bool {
    hover is LastFocused && (!intellihide || !overlaps_empty)
}

/// The step that changes nothing.
pub open spec fn no_step(vis: Visibility) -> FocusStep {
    FocusStep { visibility: vis, dirty: false, anchor_gap: None, exclusive_zone: None, margins: None, close_popups: false }
}

/// The progress of a slide at `now`: what it had plus the time since it last
/// moved; none if the clock went back or the sum does not fit.
pub open spec fn slide_progress(last_instant: u64, progress: u64, now: u64) -> Option<u64> {
    if now < last_instant || progress + (now - last_instant) > u64::MAX {
        None
    } else {
        Some((progress + (now - last_instant)) as u64)
    }
}

/// The next state of a sliding panel that keeps sliding the same way, given
/// the eased margin `eased` for the new progress: once the slide is done the
/// panel takes its end state and gap (`end_gap`); until then a changed margin
/// is applied and the slide goes on.
pub open spec fn slide_on(
    inp: FocusInputs,
    to_hidden: bool,
    now: u64,
    progress: u64,
    prev_margin: i32,
    total: u64,
    eased: i32,
    end_gap: int,
) -> FocusStep {
    let ps = panel_size(inp.anchor, inp.width, inp.height);
    if progress > total {
        FocusStep {
            visibility: if to_hidden { Visibility::Hidden } else { Visibility::Visible },
            dirty: true,
            anchor_gap: Some(end_gap as i32),
            exclusive_zone: if inp.exclusive_zone { Some(ps as i32) } else { None },
            margins: if to_hidden { None } else { Some(margins(inp.anchor, inp.margin, inp.additional_gap)) },
            close_popups: false,
        }
    } else {
        let changed = prev_margin != eased;
        FocusStep {
            visibility: if to_hidden {
                Visibility::TransitionToHidden { last_instant: now, progress, prev_margin: eased }
            } else {
                Visibility::TransitionToVisible { last_instant: now, progress, prev_margin: eased }
            },
            dirty: true,
            anchor_gap: if changed { Some(eased) } else { None },
            exclusive_zone: if changed && inp.exclusive_zone { Some((ps - eased) as i32) } else { None },
            margins: None,
            close_popups: to_hidden,
        }
    }
}

/// The decision of one call, as the panel makes it: see the module's
/// documentation. `eased` is the margin of a sliding panel at its new
/// progress, which the caller computes with the easing curve.
pub open spec fn focus_step(vis: Visibility, inp: FocusInputs, now: u64, eased: i32) -> FocusStep {
    if !inp.has_layer {
        no_step(vis)
    } else {
        match inp.autohide {
            None => {
                let hide = no_hover_focus(inp.focused@, inp.hovered@) && !inp.animating;
                FocusStep { visibility: if hide { Visibility::Hidden } else { Visibility::Visible }, ..no_step(vis) }
            },
            Some(ah) => {
                let hover = panel_hover(inp.hovered@, inp.animating, inp.output_has_toplevel, inp.start_instant);
                match vis {
                    Visibility::Hidden => if wants_visible(hover, inp.intellihide, inp.overlaps_empty) {
                        FocusStep {
                            visibility: Visibility::TransitionToVisible {
                                last_instant: now,
                                progress: 0,
                                prev_margin: hidden_gap(inp.anchor, inp.width, inp.height, ah.handle) as i32,
                            },
                            dirty: true,
                            margins: Some(margins(inp.anchor, inp.margin, inp.additional_gap)),
                            ..no_step(vis)
                        }
                    } else {
                        no_step(vis)
                    },
                    Visibility::Visible => match hover {
                        FocusStatus::LastFocused(t) => if now >= t && now - t > ah.wait
                            && (!inp.intellihide || !inp.overlaps_empty) {
                            FocusStep {
                                visibility: Visibility::TransitionToHidden { last_instant: now, progress: 0, prev_margin: 0 },
                                dirty: true,
                                ..no_step(vis)
                            }
                        } else {
                            no_step(vis)
                        },
                        FocusStatus::Focused => no_step(vis),
                    },
                    Visibility::TransitionToHidden { last_instant, progress, prev_margin } => {
                        match slide_progress(last_instant, progress, now) {
                            None => no_step(vis),
                            Some(p) => if wants_visible(hover, inp.intellihide, inp.overlaps_empty) {
                                FocusStep {
                                    visibility: Visibility::TransitionToVisible {
                                        last_instant: now,
                                        progress: if ah.transition >= p { (ah.transition - p) as u64 } else { 0 },
                                        prev_margin,
                                    },
                                    dirty: true,
                                    ..no_step(vis)
                                }
                            } else {
                                slide_on(inp, true, now, p, prev_margin, ah.transition, eased, hidden_gap(inp.anchor, inp.width, inp.height, ah.handle))
                            },
                        }
                    },
                    Visibility::TransitionToVisible { last_instant, progress, prev_margin } => {
                        match slide_progress(last_instant, progress, now) {
                            None => no_step(vis),
                            Some(p) => if wants_hidden(hover, inp.intellihide, inp.overlaps_empty) {
                                FocusStep {
                                    visibility: Visibility::TransitionToHidden {
                                        last_instant: now,
                                        progress: if ah.transition >= p { (ah.transition - p) as u64 } else { 0 },
                                        prev_margin,
                                    },
                                    dirty: true,
                                    close_popups: true,
                                    ..no_step(vis)
                                }
                            } else {
                                slide_on(inp, false, now, p, prev_margin, ah.transition, eased, 0)
                            },
                        }
                    },
                }
            },
        }
    }
}

/// Whether the decision's arithmetic stays within `i32`: the hidden gap
/// wherever it is computed, and the exclusive zone of a sliding panel whose
/// margin changes.
pub open spec fn focus_fits(vis: Visibility, inp: FocusInputs, now: u64, eased: i32) -> bool {
    match inp.autohide {
        None => true,
        Some(ah) => {
            let ps = panel_size(inp.anchor, inp.width, inp.height);
            let hover = panel_hover(inp.hovered@, inp.animating, inp.output_has_toplevel, inp.start_instant);
            let gap_ok = ps > i32::MIN && i32::MIN <= hidden_gap(inp.anchor, inp.width, inp.height, ah.handle) <= i32::MAX;
            let zone_ok = |p: u64, prev: i32| p <= ah.transition && prev != eased && inp.exclusive_zone
                ==> i32::MIN <= ps - eased <= i32::MAX;
            match vis {
                Visibility::Hidden => wants_visible(hover, inp.intellihide, inp.overlaps_empty) ==> gap_ok,
                Visibility::Visible => true,
                Visibility::TransitionToHidden { last_instant, progress, prev_margin } => match slide_progress(last_instant, progress, now) {
                    Some(p) => !wants_visible(hover, inp.intellihide, inp.overlaps_empty) ==> gap_ok && zone_ok(p, prev_margin),
                    None => true,
                },
                Visibility::TransitionToVisible { last_instant, progress, prev_margin } => match slide_progress(last_instant, progress, now) {
                    Some(p) => !wants_hidden(hover, inp.intellihide, inp.overlaps_empty) ==> zone_ok(p, prev_margin),
                    None => true,
                },
            }
        },
    }
}

/// Whether every focused surface and every hovered surface has lost focus.
fn all_last_focused(focused: &Vec<FocusStatus>, hovered: &Vec<HoverEntry>) -> (res: bool)
    ensures
        res == no_hover_focus(focused@, hovered@),
{
    let mut i: usize = 0;
    while i < focused.len()
        invariant
            i <= focused@.len(),
            forall|k: int| 0 <= k < i ==> #[trigger] focused@[k] is LastFocused,
        decreases focused@.len() - i,
    {
        match focused[i] {
            FocusStatus::Focused => {
                return false;
            },
            FocusStatus::LastFocused(_) => {},
        }
        i = i + 1;
    }
    let mut j: usize = 0;
    while j < hovered.len()
        invariant
            j <= hovered@.len(),
            forall|k: int| 0 <= k < focused@.len() ==> #[trigger] focused@[k] is LastFocused,
            forall|k: int| 0 <= k < j ==> #[trigger] hovered@[k].status is LastFocused,
        decreases hovered@.len() - j,
    {
        match hovered[j].status {
            FocusStatus::Focused => {
                return false;
            },
            FocusStatus::LastFocused(_) => {},
        }
        j = j + 1;
    }
    true
}

/// The progress of a slide at `now`, as [`slide_progress`] says; the caller
/// eases it into the margin it passes to [`handle_focus`].
pub fn transition_progress(vis: Visibility, now: u64) -> (res: Option<u64>)
    ensures
        res == match vis {
            Visibility::TransitionToHidden { last_instant, progress, .. } => slide_progress(last_instant, progress, now),
            Visibility::TransitionToVisible { last_instant, progress, .. } => slide_progress(last_instant, progress, now),
            _ => None,
        },
{
    match vis {
        Visibility::TransitionToHidden { last_instant, progress, .. } |
        Visibility::TransitionToVisible { last_instant, progress, .. } => {
            if now < last_instant {
                None
            } else {
                progress.checked_add(now - last_instant)
            }
        },
        _ => None,
    }
}

fn slide_on_exec(
    inp: &FocusInputs,
    to_hidden: bool,
    now: u64,
    progress: u64,
    prev_margin: i32,
    total: u64,
    eased: i32,
    end_gap: i32,
) -> (res: FocusStep)
    requires
        progress <= total && prev_margin != eased && inp.exclusive_zone
            ==> i32::MIN <= panel_size(inp.anchor, inp.width, inp.height) - eased <= i32::MAX,
    ensures
        res == slide_on(*inp, to_hidden, now, progress, prev_margin, total, eased, end_gap as int),
{
    let ps: i32 = match inp.anchor {
        PanelAnchor::Left | PanelAnchor::Right => inp.width,
        PanelAnchor::Top | PanelAnchor::Bottom => inp.height,
    };
    if progress > total {
        FocusStep {
            visibility: if to_hidden { Visibility::Hidden } else { Visibility::Visible },
            dirty: true,
            anchor_gap: Some(end_gap),
            exclusive_zone: if inp.exclusive_zone { Some(ps) } else { None },
            margins: if to_hidden { None } else { Some(crate::panel_space::set_margin(inp.anchor, inp.margin, inp.additional_gap)) },
            close_popups: false,
        }
    } else {
        let changed = prev_margin != eased;
        FocusStep {
            visibility: if to_hidden {
                Visibility::TransitionToHidden { last_instant: now, progress, prev_margin: eased }
            } else {
                Visibility::TransitionToVisible { last_instant: now, progress, prev_margin: eased }
            },
            dirty: true,
            anchor_gap: if changed { Some(eased) } else { None },
            exclusive_zone: if changed && inp.exclusive_zone { Some(ps - eased) } else { None },
            margins: None,
            close_popups: to_hidden,
        }
    }
}

/// Whether a panel that hides itself may move from one visibility to
/// another in one decision: a hidden panel stays or starts to show; a shown
/// panel stays or starts to hide; a sliding panel keeps sliding, reaches
/// its end, or turns around.
pub open spec fn allowed_transition(from: Visibility, to: Visibility) -> bool {
    match from {
        Visibility::Hidden => to is Hidden || to is TransitionToVisible,
        Visibility::Visible => to is Visible || to is TransitionToHidden,
        Visibility::TransitionToHidden { .. } => to is TransitionToHidden || to is Hidden || to is TransitionToVisible,
        Visibility::TransitionToVisible { .. } => to is TransitionToVisible || to is Visible || to is TransitionToHidden,
    }
}

/// For a panel that hides itself: each decision moves its visibility only
/// as [`allowed_transition`] allows; a panel that becomes shown takes a gap
/// of zero, and one that becomes hidden the gap that leaves only its handle
/// on the output (its handle less its thickness), wherever that gap is an
/// `i32`.
pub proof fn lemma_autohide_transitions(vis: Visibility, inp: FocusInputs, now: u64, eased: i32)
    requires
        inp.has_layer,
        inp.autohide is Some,
    ensures
        allowed_transition(vis, focus_step(vis, inp, now, eased).visibility),
        (focus_step(vis, inp, now, eased).visibility is Visible && !(vis is Visible))
            ==> focus_step(vis, inp, now, eased).anchor_gap == Some(0i32),
        (focus_step(vis, inp, now, eased).visibility is Hidden && !(vis is Hidden)
            && i32::MIN <= hidden_gap(inp.anchor, inp.width, inp.height, inp.autohide->0.handle) <= i32::MAX)
            ==> focus_step(vis, inp, now, eased).anchor_gap is Some
                && focus_step(vis, inp, now, eased).anchor_gap->0
                    == hidden_gap(inp.anchor, inp.width, inp.height, inp.autohide->0.handle),
{
}

/// With intellihide on and no window overlapping it, an auto-hiding panel
/// that is shown stays shown, untouched, whatever the pointer did and
/// however long ago, and one that is hidden starts to show.
pub proof fn lemma_intellihide_without_overlap(vis: Visibility, inp: FocusInputs, now: u64, eased: i32)
    requires
        inp.has_layer,
        inp.autohide is Some,
        inp.intellihide,
        inp.overlaps_empty,
    ensures
        vis is Visible ==> focus_step(vis, inp, now, eased).visibility == Visibility::Visible
            && !focus_step(vis, inp, now, eased).dirty,
        vis is Hidden ==> focus_step(vis, inp, now, eased).visibility is TransitionToVisible,
{
}

/// A shown auto-hiding panel starts to hide, from a gap of zero, exactly
/// when the pointer last left it (or, with windows on its output, it was
/// made) more than the hide wait ago and intellihide does not keep it
/// (intellihide is off, or a window overlaps the panel); otherwise nothing
/// changes. A hidden one starts to show, from the gap that leaves its
/// handle, exactly when it is hovered or intellihide finds no window over
/// it; otherwise nothing changes.
pub proof fn lemma_autohide_starts(vis: Visibility, inp: FocusInputs, now: u64, eased: i32)
    requires
        inp.has_layer,
        inp.autohide is Some,
    ensures
        ({
            let st = focus_step(vis, inp, now, eased);
            let hover = panel_hover(inp.hovered@, inp.animating, inp.output_has_toplevel, inp.start_instant);
            let leave = hover matches FocusStatus::LastFocused(t) && now >= t && now - t > inp.autohide->0.wait
                && (!inp.intellihide || !inp.overlaps_empty);
            let show = hover is Focused || (inp.intellihide && inp.overlaps_empty);
            &&& vis is Visible && leave ==> st.dirty
                && st.visibility == (Visibility::TransitionToHidden { last_instant: now, progress: 0, prev_margin: 0 })
            &&& vis is Visible && !leave ==> st == no_step(vis)
            &&& vis is Hidden && show ==> st.dirty && st.visibility == (Visibility::TransitionToVisible {
                last_instant: now,
                progress: 0,
                prev_margin: hidden_gap(inp.anchor, inp.width, inp.height, inp.autohide->0.handle) as i32,
            })
            &&& vis is Hidden && !show ==> st == no_step(vis)
        }),
{
}

/// Decides the panel's next visibility, as [`focus_step`] says.
pub fn handle_focus(vis: Visibility, inp: &FocusInputs, now: u64, eased: i32) -> (res: FocusStep)
    requires
        focus_fits(vis, *inp, now, eased),
    ensures
        res == focus_step(vis, *inp, now, eased),
{
    let nothing = FocusStep { visibility: vis, dirty: false, anchor_gap: None, exclusive_zone: None, margins: None, close_popups: false };
    if !inp.has_layer {
        return nothing;
    }
    let ah = match inp.autohide {
        None => {
            let hide = all_last_focused(&inp.focused, &inp.hovered) && !inp.animating;
            return FocusStep { visibility: if hide { Visibility::Hidden } else { Visibility::Visible }, ..nothing };
        },
        Some(ah) => ah,
    };
    let hover = current_hover(&inp.hovered, inp.animating, inp.output_has_toplevel, inp.start_instant);
    let ps: i32 = match inp.anchor {
        PanelAnchor::Left | PanelAnchor::Right => inp.width,
        PanelAnchor::Top | PanelAnchor::Bottom => inp.height,
    };
    let show = match hover { FocusStatus::Focused => true, _ => false } || (inp.intellihide && inp.overlaps_empty);
    match vis {
        Visibility::Hidden => {
            if show {
                let gap = -ps + #[verifier::truncate] (ah.handle as i32);
                FocusStep {
                    visibility: Visibility::TransitionToVisible { last_instant: now, progress: 0, prev_margin: gap },
                    dirty: true,
                    margins: Some(crate::panel_space::set_margin(inp.anchor, inp.margin, inp.additional_gap)),
                    ..nothing
                }
            } else {
                nothing
            }
        },
        Visibility::Visible => {
            match hover {
                FocusStatus::LastFocused(t) => {
                    if now >= t && now - t > ah.wait && (!inp.intellihide || !inp.overlaps_empty) {
                        FocusStep {
                            visibility: Visibility::TransitionToHidden { last_instant: now, progress: 0, prev_margin: 0 },
                            dirty: true,
                            ..nothing
                        }
                    } else {
                        nothing
                    }
                },
                FocusStatus::Focused => nothing,
            }
        },
        Visibility::TransitionToHidden { last_instant, progress, prev_margin } => {
            let p = match transition_progress(vis, now) {
                None => {
                    return nothing;
                },
                Some(p) => p,
            };
            if show {
                FocusStep {
                    visibility: Visibility::TransitionToVisible {
                        last_instant: now,
                        progress: if ah.transition >= p { ah.transition - p } else { 0 },
                        prev_margin,
                    },
                    dirty: true,
                    ..nothing
                }
            } else {
                let target = -ps + #[verifier::truncate] (ah.handle as i32);
                slide_on_exec(inp, true, now, p, prev_margin, ah.transition, eased, target)
            }
        },
        Visibility::TransitionToVisible { last_instant, progress, prev_margin } => {
            let p = match transition_progress(vis, now) {
                None => {
                    return nothing;
                },
                Some(p) => p,
            };
            let hide = match hover { FocusStatus::LastFocused(_) => true, _ => false } && (!inp.intellihide || !inp.overlaps_empty);
            if hide {
                FocusStep {
                    visibility: Visibility::TransitionToHidden {
                        last_instant: now,
                        progress: if ah.transition >= p { ah.transition - p } else { 0 },
                        prev_margin,
                    },
                    dirty: true,
                    close_popups: true,
                    ..nothing
                }
            } else {
                slide_on_exec(inp, false, now, p, prev_margin, ah.transition, eased, 0)
            }
        },
    }
}


/// What setting a new stacking gap changes: whether the gap changed (and the
/// panel must be redrawn), the margins to set on the layer surface, and
/// whether the anchor gap goes back to zero.
#[derive(Clone, Copy, Debug, PartialEq, Eq)]
pub struct GapChange {
    pub changed: bool,
    pub margins: Option<(i32, i32, i32, i32)>,
    pub reset_anchor_gap: bool,
}

/// Setting the gap kept for stacked panels to `gap`: nothing happens when it
/// is the current one; otherwise the panel is redrawn, and when it is shown
/// (or no toplevel is on its output) and not waiting for its first
/// configure, a panel with a layer surface gets new margins and its anchor
/// gap goes back to zero.
pub open spec fn gap_change(
    current: i32,
    gap: i32,
    output_has_toplevel: bool,
    vis: Visibility,
    waiting_first_configure: bool,
    has_layer: bool,
    anchor: PanelAnchor,
    margin: i32,
) -> GapChange {
    if current == gap {
        GapChange { changed: false, margins: None, reset_anchor_gap: false }
    } else if (!output_has_toplevel || vis is Visible) && !waiting_first_configure && has_layer {
        GapChange { changed: true, margins: Some(margins(anchor, margin, gap)), reset_anchor_gap: true }
    } else {
        GapChange { changed: true, margins: None, reset_anchor_gap: false }
    }
}

/// Decides what setting the stacking gap to `gap` changes, as
/// [`gap_change`] says.
pub fn set_additional_gap(
    current: i32,
    gap: i32,
    output_has_toplevel: bool,
    vis: Visibility,
    waiting_first_configure: bool,
    has_layer: bool,
    anchor: PanelAnchor,
    margin: i32,
) -> (res: GapChange)
    ensures
        res == gap_change(current, gap, output_has_toplevel, vis, waiting_first_configure, has_layer, anchor, margin),
{
    if current == gap {
        return GapChange { changed: false, margins: None, reset_anchor_gap: false };
    }
    let visible = match vis { Visibility::Visible => true, _ => false };
    if (!output_has_toplevel || visible) && !waiting_first_configure && has_layer {
        GapChange { changed: true, margins: Some(crate::panel_space::set_margin(anchor, margin, gap)), reset_anchor_gap: true }
    } else {
        GapChange { changed: true, margins: None, reset_anchor_gap: false }
    }
}

/// A panel as the visibility of all panels together sees it.
#[derive(Clone, Copy, Debug, PartialEq, Eq, Structural)]
pub struct PanelActivity {
    /// whether it is sliding in or out
    pub transitioning: bool,
    /// whether a configuration change is being animated
    pub animating: bool,
    /// whether it has popups open
    pub has_popups: bool,
}

/// Whether a panel keeps the panels visible: something of the panels is
/// hovered, or it is sliding, animating or showing popups.
pub open spec fn keeps_visible(hovered: bool, p: PanelActivity) -> bool {
    hovered || p.transitioning || p.animating || p.has_popups
}

/// Whether the panels together count as visible: some panel keeps them
/// visible (so never without panels).
pub open spec fn panels_visible(hovered: bool, panels: Seq<PanelActivity>) -> bool {
    exists|i: int| 0 <= i < panels.len() && keeps_visible(hovered, #[trigger] panels[i])
}

/// Whether the panels together count as visible, as [`panels_visible`]
/// says.
pub fn visibility(hovered: bool, panels: &Vec<PanelActivity>) -> (res: Visibility)
    ensures
        res == if panels_visible(hovered, panels@) { Visibility::Visible } else { Visibility::Hidden },
{
    let mut i: usize = 0;
    while i < panels.len()
        invariant
            i <= panels@.len(),
            forall|j: int| 0 <= j < i ==> !keeps_visible(hovered, #[trigger] panels@[j]),
        decreases panels@.len() - i,
    {
        let p = panels[i];
        if hovered || p.transitioning || p.animating || p.has_popups {
            assert(keeps_visible(hovered, panels@[i as int]));
            return Visibility::Visible;
        }
        i = i + 1;
    }
    Visibility::Hidden
}

} // verus!
