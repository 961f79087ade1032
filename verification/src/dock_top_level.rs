//! The state of a top-level surface hosted by the dock, and the bookkeeping
//! of its popups.

use vstd::prelude::*;
use std::cmp::Ordering;
use vstd::std_specs::cmp::PartialOrdSpecImpl;

verus! {

/// What a top-level surface awaits or received from the compositor.
#[derive(Clone, Copy, Debug, PartialEq, Eq, Structural)]
pub enum RenderEvent {
    WaitConfigure,
    Configure { width: u32, height: u32 },
    Closed,
}

/// Whether a surface is shown and whether its last frame is on screen.
#[derive(Clone, Copy, Debug, PartialEq, Eq, Structural)]
pub enum ActiveState {
    InactiveCleared(bool),
    ActiveFullyRendered(bool),
}

/// The rank by which active states are ordered: inactive below active,
/// whatever their flags.
pub open spec fn active_rank(s: ActiveState) -> int {
    match s {
        ActiveState::InactiveCleared(_) => 0,
        ActiveState::ActiveFullyRendered(_) => 1,
    }
}

/// The ordering of two active states by rank.
pub open spec fn active_order(a: ActiveState, b: ActiveState) -> Ordering {
    if active_rank(a) < active_rank(b) {
        Ordering::Less
    } else if active_rank(a) > active_rank(b) {
        Ordering::Greater
    } else {
        Ordering::Equal
    }
}

impl ActiveState {
    /// Orders two states: inactive ones before active ones; two inactive or
    /// two active states are equal in this order whatever their flags.
    pub fn cmp(&self, other: &Self) -> (o: Ordering)
        ensures
            o == active_order(*self, *other),
    {
        match (self, other) {
            (ActiveState::InactiveCleared(_), ActiveState::InactiveCleared(_)) => Ordering::Equal,
            (ActiveState::InactiveCleared(_), ActiveState::ActiveFullyRendered(_)) => Ordering::Less,
            (ActiveState::ActiveFullyRendered(_), ActiveState::InactiveCleared(_)) => Ordering::Greater,
            (ActiveState::ActiveFullyRendered(_), ActiveState::ActiveFullyRendered(_)) => Ordering::Equal,
        }
    }
}

impl PartialOrd for ActiveState {
    fn partial_cmp(&self, other: &Self) -> (o: Option<Ordering>) {
        Some(self.cmp(other))
    }
}

impl PartialOrdSpecImpl for ActiveState {
    open spec fn obeys_partial_cmp_spec() -> bool {
        true
    }

    open spec fn partial_cmp_spec(&self, other: &Self) -> Option<Ordering> {
        Some(active_order(*self, *other))
    }
}

/// The order of active states is a total preorder: reflexive, antisymmetric
/// in its outcome and transitive.
pub proof fn lemma_active_order_preorder(a: ActiveState, b: ActiveState, c: ActiveState)
    ensures
        active_order(a, a) == Ordering::Equal,
        active_order(a, b) == Ordering::Less <==> active_order(b, a) == Ordering::Greater,
        active_order(a, b) == Ordering::Equal <==> active_order(b, a) == Ordering::Equal,
        active_order(a, b) == Ordering::Less && active_order(b, c) == Ordering::Less ==> active_order(a, c) == Ordering::Less,
        active_order(a, b) != Ordering::Greater && active_order(b, c) != Ordering::Greater ==> active_order(a, c) != Ordering::Greater,
{
}

/// What a popup awaits or received from the compositor.
#[derive(Clone, Copy, Debug, PartialEq, Eq, Structural)]
pub enum PopupRenderEvent {
    WaitConfigure,
    Configure { x: i32, y: i32, width: i32, height: i32 },
    Closed,
}

/// An event of the compositor for a popup of the dock.
#[derive(Clone, Copy, Debug, PartialEq, Eq, Structural)]
pub enum PopupEvent {
    Configure { x: i32, y: i32, width: i32, height: i32 },
    PopupDone,
    Other,
}

/// What a popup awaits after an event: a closed popup ignores everything;
/// a configure is recorded for the next frame, and the end of the popup
/// closes it.
pub open spec fn popup_next(current: Option<PopupRenderEvent>, event: PopupEvent) -> Option<PopupRenderEvent> {
    if current == Some(PopupRenderEvent::Closed) {
        current
    } else {
        match event {
            PopupEvent::Configure { x, y, width, height } => Some(PopupRenderEvent::Configure { x, y, width, height }),
            PopupEvent::PopupDone => Some(PopupRenderEvent::Closed),
            PopupEvent::Other => current,
        }
    }
}

/// What a popup awaits after a run of events.
pub open spec fn popup_after(current: Option<PopupRenderEvent>, events: Seq<PopupEvent>) -> Option<PopupRenderEvent>
    decreases events.len(),
{
    if events.len() == 0 {
        current
    } else {
        popup_next(popup_after(current, events.drop_last()), events.last())
    }
}

/// What a popup awaits after an event, as [`popup_next`] says.
pub fn popup_event(current: Option<PopupRenderEvent>, event: PopupEvent) -> (res: Option<PopupRenderEvent>)
    ensures
        res == popup_next(current, event),
{
    match current {
        Some(PopupRenderEvent::Closed) => current,
        _ => match event {
            PopupEvent::Configure { x, y, width, height } => Some(PopupRenderEvent::Configure { x, y, width, height }),
            PopupEvent::PopupDone => Some(PopupRenderEvent::Closed),
            PopupEvent::Other => current,
        },
    }
}

/// Once a popup is closed it stays closed, whatever events follow.
pub proof fn lemma_closed_popup_stays_closed(events: Seq<PopupEvent>)
    ensures
        popup_after(Some(PopupRenderEvent::Closed), events) == Some(PopupRenderEvent::Closed),
    decreases events.len(),
{
    if events.len() > 0 {
        lemma_closed_popup_stays_closed(events.drop_last());
    }
}

/// A popup of a top-level surface as its event handling sees it.
#[derive(Clone, Copy, Debug, PartialEq, Eq, Structural)]
pub struct PopupState {
    pub id: u64,
    pub alive: bool,
    pub next_render_event: Option<PopupRenderEvent>,
    pub width: i32,
    pub height: i32,
    pub dirty: bool,
}

/// What becomes of a popup when the events are handled: a dead or closed
/// popup goes; a configured one takes the new size and is to be redrawn; one
/// awaiting its configure keeps waiting; others stay as they are.
pub open spec fn popup_after_events(p: PopupState) -> Option<PopupState> {
    if !p.alive {
        None
    } else {
        match p.next_render_event {
            Some(PopupRenderEvent::Closed) => None,
            Some(PopupRenderEvent::Configure { width, height, .. }) => Some(
                PopupState { next_render_event: None, width, height, dirty: true, ..p },
            ),
            Some(PopupRenderEvent::WaitConfigure) => Some(p),
            None => Some(p),
        }
    }
}

/// Handles the events of the popups of a top-level surface. Returns whether
/// the surface is to be dropped, which it is when its client surface is gone;
/// the popups are then left alone.
pub fn handle_events(has_surface: bool, popups: &mut Vec<PopupState>) -> (drop: bool)
    ensures
        drop == !has_surface,
        !has_surface ==> final(popups)@ == old(popups)@,
        has_surface ==> final(popups)@ == old(popups)@.filter_map(|p: PopupState| popup_after_events(p)),
{
    if !has_surface {
        return true;
    }
    let mut kept: Vec<PopupState> = Vec::new();
    let mut i: usize = 0;
    while i < popups.len()
        invariant
            i <= popups@.len(),
            popups@ == old(popups)@,
            kept@ == popups@.take(i as int).filter_map(|p: PopupState| popup_after_events(p)),
        decreases popups@.len() - i,
    {
        let p = popups[i];
        let after = if !p.alive {
            None
        } else {
            match p.next_render_event {
                Some(PopupRenderEvent::Closed) => None,
                Some(PopupRenderEvent::Configure { width, height, .. }) => Some(
                    PopupState { next_render_event: None, width, height, dirty: true, ..p },
                ),
                Some(PopupRenderEvent::WaitConfigure) => Some(p),
                None => Some(p),
            }
        };
        proof {
            let t = popups@.take(i + 1);
            assert(t.last() == p);
            assert(t.drop_last() =~= popups@.take(i as int));
        }
        match after {
            Some(q) => {
                kept.push(q);
                assert(kept@ =~= popups@.take(i + 1).filter_map(|p: PopupState| popup_after_events(p)));
            },
            None => {},
        }
        i = i + 1;
    }
    assert(popups@.take(i as int) =~= popups@);
    *popups = kept;
    false
}

} // verus!
