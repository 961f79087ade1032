//! Taking a new configuration into a running panel.
//!
//! A new configuration replaces the old one, also while the panel shows a
//! maximized window (then without animation), and the layer surface is told what changed, in order: the exclusive zone
//! when reserving space was switched, the margins, zone and size when
//! hiding was switched off, the margins alone when the gap to the edge
//! changed. The edge itself cannot change on a running panel. Each round
//! of event handling sends pending dimensions to the layer surface, with
//! the zone and margins that the panel's state calls for.

use vstd::prelude::*;
use crate::panel_space::{PanelAnchor, margins};

verus! {

/// What the panel reads of a configuration when it takes a new one.
#[derive(Clone, Copy, Debug, PartialEq, Eq, Structural)]
pub struct PanelSettings {
    pub anchor: PanelAnchor,
    /// whether the panel reserves its thickness on the output
    pub exclusive_zone: bool,
    /// whether the panel hides itself
    pub autohide: bool,
    /// the gap to the edge in effect, as the configuration computes it
    pub effective_anchor_gap: u32,
    /// the configured gap to the edge
    pub anchor_gap: i32,
    /// whether the panel stretches along its whole edge
    pub expand_to_edges: bool,
}

/// A request to the panel's layer surface.
#[derive(Clone, Copy, Debug, PartialEq, Eq, Structural)]
pub enum LayerCall {
    /// reserve this much of the output, or nothing at `-1`
    ExclusiveZone(i32),
    /// the margins `(top, right, bottom, left)`
    Margin(i32, i32, i32, i32),
    /// the requested size; `0` lets the compositor stretch that side
    Size(u32, u32),
    Commit,
}

/// What taking a new configuration does.
#[derive(Debug)]
pub struct ConfigUpdate {
    /// the requests to the layer surface, in order
    pub calls: Vec<LayerCall>,
    /// whether the animated gap goes back to zero
    pub reset_anchor_gap: bool,
    /// the panel's dimensions afterwards
    pub dimensions: (i32, i32),
    /// whether the applets come back from the overflow popups
    pub reset_overflow: bool,
    /// whether the change is animated
    pub animate: bool,
}

/// The thickness of the panel across its edge.
pub open spec fn thickness(anchor: PanelAnchor, dimensions: (i32, i32)) -> i32 {
    match anchor {
        PanelAnchor::Left | PanelAnchor::Right => dimensions.0,
        PanelAnchor::Top | PanelAnchor::Bottom => dimensions.1,
    }
}

/// The panel's thickness across its edge.
pub fn crosswise(anchor: PanelAnchor, dimensions: (i32, i32)) -> (res: i32)
    ensures
        res == thickness(anchor, dimensions),
{
    match anchor {
        PanelAnchor::Left | PanelAnchor::Right => dimensions.0,
        PanelAnchor::Top | PanelAnchor::Bottom => dimensions.1,
    }
}

/// The gap to the edge the panel is drawn with: the animated one while an
/// animation runs, otherwise the gap in effect, cut to 16 bits.
pub fn gap(animated: Option<u16>, effective_anchor_gap: u32) -> (res: u16)
    ensures
        res == match animated {
            Some(g) => g,
            None => effective_anchor_gap as u16,
        },
{
    match animated {
        Some(g) => g,
        None => effective_anchor_gap as u16,
    }
}

/// Whether hiding was switched off.
pub open spec fn autohide_dropped(old: PanelSettings, new: PanelSettings) -> bool {
    !new.autohide && old.autohide
}

/// The margins for the new gap to the edge.
pub open spec fn gap_margins(new: PanelSettings, additional_gap: i32) -> LayerCall {
    let m = margins(new.anchor, new.effective_anchor_gap as i32, additional_gap);
    LayerCall::Margin(m.0, m.1, m.2, m.3)
}

/// The size asked for once hiding is off: the whole edge along, the
/// panel's thickness across.
pub open spec fn unhidden_size(anchor: PanelAnchor, dimensions: (i32, i32)) -> LayerCall {
    if anchor == PanelAnchor::Top || anchor == PanelAnchor::Bottom {
        LayerCall::Size(0, dimensions.1 as u32)
    } else {
        LayerCall::Size(dimensions.0 as u32, 0)
    }
}

/// The zone requests for a switch of `exclusive_zone`.
pub open spec fn zone_calls(old: PanelSettings, new: PanelSettings, dimensions: (i32, i32)) -> Seq<LayerCall> {
    if new.exclusive_zone != old.exclusive_zone {
        seq![LayerCall::ExclusiveZone(if new.exclusive_zone { thickness(old.anchor, dimensions) } else { -1i32 })]
    } else {
        seq![]
    }
}

/// The gap requests: margins, zone and size when hiding was switched off,
/// the margins alone when the gap in effect changed.
pub open spec fn gap_calls(old: PanelSettings, new: PanelSettings, dimensions: (i32, i32), additional_gap: i32) -> Seq<LayerCall> {
    if autohide_dropped(old, new) {
        seq![
            gap_margins(new, additional_gap),
            LayerCall::ExclusiveZone(thickness(old.anchor, dimensions)),
            unhidden_size(old.anchor, dimensions),
        ]
    } else if old.effective_anchor_gap != new.effective_anchor_gap {
        seq![gap_margins(new, additional_gap)]
    } else {
        seq![]
    }
}

/// All requests to a present layer surface, ending with a commit when there
/// was any.
pub open spec fn layer_calls(old: PanelSettings, new: PanelSettings, dimensions: (i32, i32), additional_gap: i32) -> Seq<LayerCall> {
    let body = zone_calls(old, new, dimensions) + gap_calls(old, new, dimensions, additional_gap);
    if body.len() > 0 { body.push(LayerCall::Commit) } else { body }
}

/// The dimensions afterwards: when the configured gap changed, the
/// suggested length, if any, becomes the length along the edge.
pub open spec fn updated_dimensions(old: PanelSettings, new: PanelSettings, dimensions: (i32, i32), suggested_length: Option<u32>) -> (i32, i32) {
    if new.anchor_gap != old.anchor_gap && suggested_length is Some {
        if old.anchor == PanelAnchor::Top || old.anchor == PanelAnchor::Bottom {
            (suggested_length->0 as i32, dimensions.1)
        } else {
            (dimensions.0, suggested_length->0 as i32)
        }
    } else {
        dimensions
    }
}

/// Whether the gap animation is reset: when a layer surface takes new
/// margins.
pub open spec fn resets_gap(old: PanelSettings, new: PanelSettings, has_layer: bool) -> bool {
    has_layer && (autohide_dropped(old, new) || old.effective_anchor_gap != new.effective_anchor_gap)
}

/// Takes a new configuration into the panel; a panel showing a maximized
/// window takes it at once, without animation. The edge must stay the same.
pub fn update_config(
    old: PanelSettings,
    new: PanelSettings,
    maximized: bool,
    has_layer: bool,
    dimensions: (i32, i32),
    suggested_length: Option<u32>,
    additional_gap: i32,
    animate: bool,
) -> (res: ConfigUpdate)
    requires
        new.anchor == old.anchor,
    ensures
        res.calls@ == (if has_layer { layer_calls(old, new, dimensions, additional_gap) } else { seq![] }),
        res.reset_anchor_gap == resets_gap(old, new, has_layer),
        res.dimensions == updated_dimensions(old, new, dimensions, suggested_length),
        res.reset_overflow == (old.expand_to_edges != new.expand_to_edges),
        res.animate == (animate && !maximized),
{
    let horizontal = old.anchor.is_horizontal();
    let thick = crosswise(old.anchor, dimensions);
    let mut calls: Vec<LayerCall> = Vec::new();
    let mut reset_anchor_gap = false;
    if new.exclusive_zone != old.exclusive_zone && has_layer {
        let zone = if new.exclusive_zone { thick } else { -1 };
        calls.push(LayerCall::ExclusiveZone(zone));
    }
    let ghost after_zone = calls@;
    if !new.autohide && old.autohide {
        if has_layer {
            let m = crate::panel_space::set_margin(new.anchor, new.effective_anchor_gap as i32, additional_gap);
            calls.push(LayerCall::Margin(m.0, m.1, m.2, m.3));
            reset_anchor_gap = true;
            calls.push(LayerCall::ExclusiveZone(thick));
            if horizontal {
                calls.push(LayerCall::Size(0, dimensions.1 as u32));
            } else {
                calls.push(LayerCall::Size(dimensions.0 as u32, 0));
            }
        }
    } else if old.effective_anchor_gap != new.effective_anchor_gap {
        if has_layer {
            let m = crate::panel_space::set_margin(new.anchor, new.effective_anchor_gap as i32, additional_gap);
            calls.push(LayerCall::Margin(m.0, m.1, m.2, m.3));
            reset_anchor_gap = true;
        }
    }
    let mut dims = dimensions;
    if new.anchor_gap != old.anchor_gap {
        match suggested_length {
            Some(l) => {
                if horizontal {
                    dims = (l as i32, dims.1);
                } else {
                    dims = (dims.0, l as i32);
                }
            },
            None => {},
        }
    }
    let reset_overflow = old.expand_to_edges != new.expand_to_edges;
    if calls.len() > 0 {
        calls.push(LayerCall::Commit);
    }
    proof {
        if has_layer {
            assert(after_zone == zone_calls(old, new, dimensions));
            assert(calls@ == layer_calls(old, new, dimensions, additional_gap));
        } else {
            assert(calls@ == Seq::<LayerCall>::empty());
        }
    }
    ConfigUpdate { calls, reset_anchor_gap, dimensions: dims, reset_overflow, animate: animate && !maximized }
}

/// Taking the same configuration again asks nothing of the layer surface,
/// keeps the dimensions and the overflow, and resets no gap.
pub proof fn lemma_same_config_is_quiet(
    settings: PanelSettings,
    dimensions: (i32, i32),
    suggested_length: Option<u32>,
    additional_gap: i32,
    has_layer: bool,
)
    ensures
        layer_calls(settings, settings, dimensions, additional_gap) == Seq::<LayerCall>::empty(),
        updated_dimensions(settings, settings, dimensions, suggested_length) == dimensions,
        !resets_gap(settings, settings, has_layer),
{
    assert(layer_calls(settings, settings, dimensions, additional_gap) =~= Seq::<LayerCall>::empty());
}

/// Every batch of requests to the layer surface ends with a commit.
pub proof fn lemma_calls_end_with_commit(old: PanelSettings, new: PanelSettings, dimensions: (i32, i32), additional_gap: i32)
    ensures
        layer_calls(old, new, dimensions, additional_gap).len() > 0 ==> {
            let c = layer_calls(old, new, dimensions, additional_gap);
            &&& c.last() == LayerCall::Commit
            &&& forall|i: int| 0 <= i < c.len() - 1 ==> c[i] != LayerCall::Commit
        },
{
}

/// How a panel is drawn: whether it stretches along its whole edge, its
/// margin, the radius of its corners, and whether it is drawn fully opaque
/// rather than with its configured opacity.
#[derive(Clone, Copy, Debug, PartialEq, Eq, Structural)]
pub struct PanelStyle {
    pub expand_to_edges: bool,
    pub margin: u32,
    pub border_radius: u32,
    pub opaque: bool,
}

/// The style of a panel on an output with a maximized window: with
/// `keep_style_on_maximize` it keeps its configured width, margin, corners
/// and opacity; without, it stretches along its edge, without margin or
/// rounded corners, fully opaque. Elsewhere it keeps its configured style.
pub open spec fn maximized_style_spec(configured: PanelStyle, maximized: bool, keep_style: bool) -> PanelStyle {
    if maximized && !keep_style {
        PanelStyle { expand_to_edges: true, margin: 0, border_radius: 0, opaque: true }
    } else {
        configured
    }
}

/// The style of a panel, as [`maximized_style_spec`] says.
pub fn maximized_style(configured: PanelStyle, maximized: bool, keep_style: bool) -> (res: PanelStyle)
    ensures
        res == maximized_style_spec(configured, maximized, keep_style),
{
    if maximized && !keep_style {
        PanelStyle { expand_to_edges: true, margin: 0, border_radius: 0, opaque: true }
    } else {
        configured
    }
}

/// What switching the maximized style does: nothing when the panel is
/// already in the requested state; otherwise the panel leaves or enters it
/// and takes the given configuration as a panel that is not maximized,
/// animated when it does not hide itself.
pub fn set_maximized(
    current: bool,
    target: bool,
    old: PanelSettings,
    new: PanelSettings,
    has_layer: bool,
    dimensions: (i32, i32),
    suggested_length: Option<u32>,
    additional_gap: i32,
) -> (res: (bool, Option<ConfigUpdate>))
    requires
        current == target || new.anchor == old.anchor,
    ensures
        current == target ==> res.0 == current && res.1 is None,
        current != target ==> res.0 == target,
        current != target ==> (res.1 matches Some(u) && {
            &&& u.calls@ == (if has_layer { layer_calls(old, new, dimensions, additional_gap) } else { seq![] })
            &&& u.reset_anchor_gap == resets_gap(old, new, has_layer)
            &&& u.dimensions == updated_dimensions(old, new, dimensions, suggested_length)
            &&& u.reset_overflow == (old.expand_to_edges != new.expand_to_edges)
            &&& u.animate == !old.autohide
        }),
{
    if current == target {
        return (current, None);
    }
    let u = update_config(old, new, false, has_layer, dimensions, suggested_length, additional_gap, !old.autohide);
    (target, Some(u))
}

/// What the panel's layer surface awaits when a round of event handling
/// starts.
#[derive(Clone, Copy, Debug, PartialEq, Eq, Structural)]
pub enum SpaceEvent {
    /// the layer surface is gone
    Quit,
    /// a configure is awaited; `first` for the very first one
    WaitConfigure { first: bool, width: i32, height: i32 },
    /// anything else: the panel runs
    Running,
}

/// What the panel reads of itself in a round of event handling.
#[derive(Clone, Copy, Debug, PartialEq, Eq, Structural)]
pub struct RoundInputs {
    pub anchor: PanelAnchor,
    pub has_layer: bool,
    pub autohide: bool,
    pub hidden: bool,
    pub exclusive_zone: bool,
    pub effective_anchor_gap: u32,
    pub margin: u32,
    pub hide_handle: Option<u32>,
    pub additional_gap: i32,
    pub dirty: bool,
}

/// What a round of event handling does: whether the awaited event stays,
/// whether the pending dimensions are used up, the requests to the layer
/// surface, the new animated gap if any, and whether the panel is laid out
/// again and drawn.
#[derive(Debug)]
pub struct RoundStep {
    pub keep_event: bool,
    pub pending_taken: bool,
    pub calls: Vec<LayerCall>,
    pub anchor_gap: Option<i32>,
    pub relayout: bool,
    pub render: bool,
}

/// The requests for new dimensions `(w, h)`: the size along the edge is
/// left to the compositor; a shown panel that reserves space reserves its
/// thickness and, with a gap, takes its margins; a hidden panel reserves
/// its thickness when it reserves space and takes its plain margins.
pub open spec fn resize_calls(inp: RoundInputs, w: i32, h: i32) -> Seq<LayerCall> {
    let horizontal = inp.anchor == PanelAnchor::Top || inp.anchor == PanelAnchor::Bottom;
    let size = if horizontal { LayerCall::Size(0, h as u32) } else { LayerCall::Size(w as u32, 0) };
    let thick = thickness(inp.anchor, (w, h));
    let body = if !inp.autohide && inp.exclusive_zone {
        if inp.effective_anchor_gap > 0 {
            let m = margins(inp.anchor, inp.effective_anchor_gap as i32, inp.additional_gap);
            seq![LayerCall::ExclusiveZone(thick), LayerCall::Margin(m.0, m.1, m.2, m.3)]
        } else {
            seq![LayerCall::ExclusiveZone(thick)]
        }
    } else if inp.autohide && inp.hidden {
        let m = margins(inp.anchor, inp.margin as i32, inp.additional_gap);
        if inp.exclusive_zone {
            seq![LayerCall::ExclusiveZone(thick), LayerCall::Margin(m.0, m.1, m.2, m.3)]
        } else {
            seq![LayerCall::Margin(m.0, m.1, m.2, m.3)]
        }
    } else {
        seq![]
    };
    seq![size] + body + seq![LayerCall::Commit]
}

/// The animated gap after a resize: none for a shown panel without a gap
/// or for one that neither reserves space nor hides; zero for a shown one
/// with a gap; for a hidden one, its handle less its thickness.
pub open spec fn resize_gap(inp: RoundInputs, w: i32, h: i32) -> Option<i32> {
    let thick = thickness(inp.anchor, (w, h));
    if !inp.autohide && inp.exclusive_zone {
        if inp.effective_anchor_gap > 0 { Some(0i32) } else { None }
    } else if inp.autohide && inp.hidden {
        let handle = match inp.hide_handle { Some(x) => x as i32, None => 0i32 };
        Some((-thick + handle) as i32)
    } else {
        None
    }
}

/// One round of event handling for the panel's layer surface: a surface
/// that is gone does nothing; the first configure is still awaited;
/// otherwise pending dimensions are used up, and sent to a present layer
/// surface as [`resize_calls`] says, or, without any, a present layer
/// surface is drawn, after a new layout when the panel changed. The pending
/// dimensions must not be negative.
pub fn handle_events(event: Option<SpaceEvent>, pending: Option<(i32, i32)>, inp: RoundInputs) -> (res: RoundStep)
    requires
        pending matches Some((w, h)) ==> w >= 0 && h >= 0,
        pending matches Some((w, h)) ==> inp.autohide && inp.hidden ==> i32::MIN <= -thickness(inp.anchor, (w, h))
            + (match inp.hide_handle { Some(x) => x as i32, None => 0i32 }) <= i32::MAX,
    ensures
        event == Some(SpaceEvent::Quit) ==> res.calls@.len() == 0 && !res.keep_event && !res.pending_taken
            && res.anchor_gap is None && !res.render && !res.relayout,
        (event matches Some(SpaceEvent::WaitConfigure { first, .. }) && first) ==> res.calls@.len() == 0
            && res.keep_event && !res.pending_taken && res.anchor_gap is None && !res.render && !res.relayout,
        !(event == Some(SpaceEvent::Quit) || (event matches Some(SpaceEvent::WaitConfigure { first, .. }) && first)) ==> {
            &&& !res.keep_event
            &&& res.pending_taken == pending is Some
            &&& match pending {
                Some((w, h)) => {
                    &&& res.calls@ == (if inp.has_layer { resize_calls(inp, w, h) } else { seq![] })
                    &&& res.anchor_gap == (if inp.has_layer { resize_gap(inp, w, h) } else { None })
                    &&& !res.render && !res.relayout
                },
                None => {
                    &&& res.calls@.len() == 0
                    &&& res.anchor_gap is None
                    &&& res.render == inp.has_layer
                    &&& res.relayout == (inp.has_layer && inp.dirty)
                },
            }
        },
{
    let nothing = RoundStep { keep_event: false, pending_taken: false, calls: Vec::new(), anchor_gap: None, relayout: false, render: false };
    match event {
        Some(SpaceEvent::Quit) => return nothing,
        Some(SpaceEvent::WaitConfigure { first, .. }) => {
            if first {
                return RoundStep { keep_event: true, ..nothing };
            }
        },
        _ => {},
    }
    match pending {
        Some((w, h)) => {
            if !inp.has_layer {
                return RoundStep { pending_taken: true, ..nothing };
            }
            let mut calls: Vec<LayerCall> = Vec::new();
            let horizontal = inp.anchor.is_horizontal();
            if horizontal {
                calls.push(LayerCall::Size(0, h as u32));
            } else {
                calls.push(LayerCall::Size(w as u32, 0));
            }
            let thick = crosswise(inp.anchor, (w, h));
            let mut gap: Option<i32> = None;
            if !inp.autohide && inp.exclusive_zone {
                calls.push(LayerCall::ExclusiveZone(thick));
                if inp.effective_anchor_gap > 0 {
                    let m = crate::panel_space::set_margin(inp.anchor, inp.effective_anchor_gap as i32, inp.additional_gap);
                    calls.push(LayerCall::Margin(m.0, m.1, m.2, m.3));
                    gap = Some(0);
                }
            } else if inp.autohide && inp.hidden {
                if inp.exclusive_zone {
                    calls.push(LayerCall::ExclusiveZone(thick));
                }
                let m = crate::panel_space::set_margin(inp.anchor, inp.margin as i32, inp.additional_gap);
                calls.push(LayerCall::Margin(m.0, m.1, m.2, m.3));
                let handle: i32 = match inp.hide_handle {
                    Some(x) => x as i32,
                    None => 0,
                };
                gap = Some(-thick + handle);
            }
            calls.push(LayerCall::Commit);
            proof {
                assert(calls@ =~= resize_calls(inp, w, h));
            }
            RoundStep { keep_event: false, pending_taken: true, calls, anchor_gap: gap, relayout: false, render: false }
        },
        None => RoundStep { render: inp.has_layer, relayout: inp.has_layer && inp.dirty, ..nothing },
    }
}

} // verus!

