//! Resolving overflow in a section of the panel.
//!
//! When the applets of a section need more room than the section has, the
//! panel first shrinks the applets that allow it, highest shrink priority
//! first and never below their minimum size; what is still missing is won by
//! moving applets into the section's overflow popup, eight to a row; if that
//! is not enough either, the shrinkable applets are forced below their
//! minimum. The functions here decide these steps; each decision comes out as
//! an action for the compositor side to carry out.

use vstd::prelude::*;
use crate::panel_space::{ClientShrinkSize, shrink_pixels};
use crate::sorting::{sort_by_key_stable, lemma_sorted_keys, index_present, stable_order, stable_order_of};

verus! {

/// The width of the border of the overflow popup.
pub const BORDER_WIDTH: u32 = 1;

/// A section of the panel with its own overflow popup.
#[derive(Clone, Copy, Debug, PartialEq, Eq, Structural)]
pub enum OverflowSection {
    Left,
    Center,
    Right,
}

/// The sizes of the panel that the overflow decisions use.
#[derive(Clone, Copy, Debug, PartialEq, Eq, Structural)]
pub struct OverflowMetrics {
    /// whether the panel lies along a horizontal edge
    pub horizontal: bool,
    /// the configured applet icon size
    pub icon_size: u32,
    /// the configured applet padding
    pub applet_padding: u32,
    /// the configured applet size, its padding included
    pub unit_size: u32,
    /// the padding of the panel
    pub padding: u32,
    /// the spacing between applets
    pub spacing: u32,
}

/// An applet that may be shrunk: its window, the client it belongs to, its
/// shrink priority, its minimum size, the size of its window, the size it was
/// last configured with and the bounds it was last given.
#[derive(Clone, Copy, Debug)]
pub struct ShrinkableApplet {
    pub window: u64,
    pub client: usize,
    pub priority: i32,
    pub min_size: ClientShrinkSize,
    pub bbox_w: i32,
    pub bbox_h: i32,
    pub size: Option<(i32, i32)>,
    pub bounds: Option<(i32, i32)>,
}

/// An applet that may be moved to the overflow popup: its window, the client
/// it belongs to, its shrink priority, the size of its window and whether its
/// surface is alive.
#[derive(Clone, Copy, Debug, PartialEq, Eq, Structural)]
pub struct MovableApplet {
    pub window: u64,
    pub client: usize,
    pub priority: u32,
    pub bbox_w: i32,
    pub bbox_h: i32,
    pub alive: bool,
}

/// The applets of a section, split into those that shrink and those that
/// move to the overflow popup, each highest priority first.
#[derive(Clone, Debug)]
pub struct OverflowClientPartition {
    /// windows for clients that can be shrunk, but not moved to the overflow
    /// popup
    pub shrinkable: Vec<ShrinkableApplet>,
    /// windows for clients that can be moved to the overflow popup, but not
    /// shrunk
    pub movable: Vec<MovableApplet>,
    pub suggested_size: u32,
}

/// A window in the overflow popup of a section.
#[derive(Clone, Copy, Debug, PartialEq, Eq, Structural)]
pub struct OverflowWindow {
    pub window: u64,
    pub alive: bool,
}

/// What the overflow decisions know of a section's overflow popup and of
/// the panel: the windows in the popup, the number of popup elements, and
/// whether the panel shows an overflow button.
#[derive(Clone, Debug)]
pub struct OverflowSpace {
    pub windows: Vec<OverflowWindow>,
    pub popups: usize,
    pub has_button: bool,
}

/// A step for the compositor side to carry out.
#[derive(Clone, Copy, Debug, PartialEq, Eq, Structural)]
pub enum OverflowAction {
    /// configure the window with no size and this length along the panel
    SetBound { window: u64, length: u32 },
    /// move the window into the overflow popup at `(x, y)`, configured as a
    /// square of `size`
    MoveToOverflow { window: u64, x: i32, y: i32, size: u32 },
    /// create the overflow popup, or replace it when `replace`, for the
    /// given element count, sized for the given number of windows
    UpdatePopup { replace: bool, element_count: usize, alive_windows: usize },
    /// add an overflow button to the panel
    AddOverflowButton,
    /// configure the window with no size and these bounds
    Relax { window: u64, bounds: Option<Extent> },
}

/// A width and a height.
#[derive(Clone, Copy, Debug, PartialEq, Eq, Structural)]
pub struct Extent {
    pub w: i32,
    pub h: i32,
}

/// The part of a decision's state that the spec functions track: the popup's
/// windows, its popup elements and whether the panel has an overflow button.
pub struct OverflowModel {
    pub windows: Seq<OverflowWindow>,
    pub popups: nat,
    pub has_button: bool,
}

/// The view of the popup state.
pub open spec fn model_of(os: OverflowSpace) -> OverflowModel {
    OverflowModel { windows: os.windows@, popups: os.popups as nat, has_button: os.has_button }
}

/// `a - b`, or zero when `b` is larger.
pub open spec fn sat_sub(a: int, b: int) -> int {
    if a >= b { a - b } else { 0 }
}

/// The length of an applet along the panel: its window's length, at least
/// one, and no more than the length it was configured with, if any.
pub open spec fn applet_major(m: OverflowMetrics, a: ShrinkableApplet) -> int {
    let bb = if m.horizontal { a.bbox_w as int } else { a.bbox_h as int };
    let s = if bb < 1 { 1 } else { bb };
    match a.size {
        Some(sz) => {
            let c = if m.horizontal { sz.0 as int } else { sz.1 as int };
            if c >= 1 && c < s { c } else { s }
        },
        None => s,
    }
}

/// The length along the panel of the bounds the applet was last given, zero
/// when none.
pub open spec fn applet_suggested(m: OverflowMetrics, a: ShrinkableApplet) -> i32 {
    match a.bounds {
        Some(b) => if m.horizontal { b.0 } else { b.1 },
        None => 0,
    }
}

/// Shrinking one applet by as much of `overflow` as its minimum allows (or,
/// when `force`, down to one pixel): the action and the overflow left.
/// Applets already below their minimum, or without a shrink priority, are
/// left alone unless forced, and so are applets whose length and bounds
/// would not change.
pub open spec fn shrink_one(m: OverflowMetrics, a: ShrinkableApplet, overflow: int, force: bool) -> (Seq<OverflowAction>, int) {
    let major = applet_major(m, a);
    let min_px = shrink_pixels(a.min_size, m.unit_size);
    if (major < min_px || a.priority < 0) && !force {
        (seq![], overflow)
    } else {
        let nd0 = sat_sub(major, overflow);
        let nd1 = if force || nd0 >= min_px { nd0 } else { min_px };
        let nd = if nd1 < 1 { 1 } else { nd1 };
        let diff = sat_sub(major, nd);
        if diff == 0 && (applet_suggested(m, a) as u32) as int == nd {
            (seq![], overflow)
        } else {
            (seq![OverflowAction::SetBound { window: a.window, length: nd as u32 }], sat_sub(overflow, diff))
        }
    }
}

/// Shrinking the applets in order until no overflow is left.
pub open spec fn shrink_pass(m: OverflowMetrics, apps: Seq<ShrinkableApplet>, overflow: int, force: bool) -> (Seq<OverflowAction>, int)
    decreases apps.len(),
{
    if apps.len() == 0 || overflow == 0 {
        (seq![], overflow)
    } else {
        let (a1, o1) = shrink_one(m, apps[0], overflow, force);
        let (a2, o2) = shrink_pass(m, apps.drop_first(), o1, force);
        (a1 + a2, o2)
    }
}

/// Whether every minimum size is a 32-bit length.
pub open spec fn minimums_fit(m: OverflowMetrics, apps: Seq<ShrinkableApplet>) -> bool {
    forall|i: int| 0 <= i < apps.len() ==> shrink_pixels(#[trigger] apps[i].min_size, m.unit_size) <= u32::MAX
}

/// The location in the overflow popup of the element with index `cnt`:
/// rows of eight, inside the border and, along a row, the padding;
/// transposed on a vertical panel.
pub open spec fn grid_position(m: OverflowMetrics, cnt: int) -> (i32, i32) {
    let unit = m.icon_size + 2 * m.applet_padding;
    let x = (m.padding as i32) as int + ((cnt % 8) as i32) as int * ((unit as u32 as i32) as int + (m.spacing as i32) as int) + 1;
    let y = 1 + ((cnt / 8) as i32) as int * (((unit + m.spacing) as u32) as i32) as int;
    if m.horizontal {
        (x as i32, y as i32)
    } else {
        (y as i32, x as i32)
    }
}

/// Whether `grid_position` stays within its 32-bit arithmetic.
pub open spec fn grid_fits(m: OverflowMetrics, cnt: int) -> bool {
    let unit = m.icon_size + 2 * m.applet_padding;
    let step = (unit as u32 as i32) as int + (m.spacing as i32) as int;
    let x1 = ((cnt % 8) as i32) as int * step;
    let x2 = (m.padding as i32) as int + x1;
    let y1 = ((cnt / 8) as i32) as int * (((unit + m.spacing) as u32) as i32) as int;
    &&& unit <= u32::MAX
    &&& unit + m.spacing <= u32::MAX
    &&& i32::MIN <= step <= i32::MAX
    &&& i32::MIN <= x1 <= i32::MAX
    &&& i32::MIN <= x2 <= i32::MAX
    &&& i32::MIN <= x2 + 1 <= i32::MAX
    &&& i32::MIN <= y1 <= i32::MAX
    &&& i32::MIN <= 1 + y1 <= i32::MAX
}

/// The windows with `window` added, unless it is there already.
pub open spec fn add_window(ws: Seq<OverflowWindow>, window: u64) -> Seq<OverflowWindow> {
    if exists|i: int| 0 <= i < ws.len() && ws[i].window == window {
        ws
    } else {
        ws.push(OverflowWindow { window, alive: true })
    }
}

/// Moving movable applets into the popup, in order, until no overflow is
/// left: applets without size or alive surface are passed over; each moved
/// applet takes the next place of the grid.
pub open spec fn move_pass(
    m: OverflowMetrics,
    movs: Seq<MovableApplet>,
    overflow: int,
    cnt: int,
    ws: Seq<OverflowWindow>,
) -> (Seq<OverflowAction>, int, int, Seq<OverflowWindow>)
    decreases movs.len(),
{
    if movs.len() == 0 || overflow == 0 {
        (seq![], overflow, cnt, ws)
    } else {
        let w = movs[0];
        if w.bbox_w == 0 || w.bbox_h == 0 || !w.alive {
            move_pass(m, movs.drop_first(), overflow, cnt, ws)
        } else {
            let diff = if m.horizontal { (w.bbox_w as u32) as int } else { (w.bbox_h as u32) as int };
            let (x, y) = grid_position(m, cnt);
            let unit = m.icon_size + 2 * m.applet_padding;
            let act = OverflowAction::MoveToOverflow { window: w.window, x, y, size: unit as u32 };
            let (rest, o, c, ws2) = move_pass(m, movs.drop_first(), sat_sub(overflow, diff), cnt + 1, add_window(ws, w.window));
            (seq![act] + rest, o, c, ws2)
        }
    }
}

/// Whether `move_pass` stays within its 32-bit arithmetic.
pub open spec fn move_pass_fits(
    m: OverflowMetrics,
    movs: Seq<MovableApplet>,
    overflow: int,
    cnt: int,
) -> bool
    decreases movs.len(),
{
    if movs.len() == 0 || overflow == 0 {
        true
    } else {
        let w = movs[0];
        if w.bbox_w == 0 || w.bbox_h == 0 || !w.alive {
            move_pass_fits(m, movs.drop_first(), overflow, cnt)
        } else {
            let diff = if m.horizontal { (w.bbox_w as u32) as int } else { (w.bbox_h as u32) as int };
            grid_fits(m, cnt) && move_pass_fits(m, movs.drop_first(), sat_sub(overflow, diff), cnt + 1)
        }
    }
}

/// Moving applets to the overflow popup, when there are at least two that
/// may move: an empty popup first needs room for the overflow button, so the
/// overflow grows by an applet and its spacing; after the moves, the dead
/// windows leave the popup, the popup is created or replaced, and the panel
/// gets an overflow button if it has none.
pub open spec fn move_to_overflow_spec(
    m: OverflowMetrics,
    movs: Seq<MovableApplet>,
    overflow: int,
    os: OverflowModel,
) -> (Seq<OverflowAction>, int, OverflowModel) {
    if movs.len() <= 1 {
        (seq![], overflow, os)
    } else {
        let cnt0: int = (os.windows.len() + os.popups) as int;
        let unit = m.icon_size + 2 * m.applet_padding;
        let ov = if cnt0 == 0 { overflow + unit + m.spacing } else { overflow };
        let (acts, ov2, _cnt, ws2) = move_pass(m, movs, ov, cnt0, os.windows);
        let ws3 = ws2.filter(|w: OverflowWindow| w.alive);
        let count = ws3.len() + os.popups;
        let popup = OverflowAction::UpdatePopup {
            replace: os.popups > 0,
            element_count: count as usize,
            alive_windows: ws3.len() as usize,
        };
        let button: Seq<OverflowAction> = if os.has_button { seq![] } else { seq![OverflowAction::AddOverflowButton] };
        (
            acts + seq![popup] + button,
            ov2,
            OverflowModel { windows: ws3, popups: if os.popups > 0 { os.popups } else { os.popups + 1 }, has_button: true },
        )
    }
}

/// Whether the overflow space holds at most one popup element, as the
/// panel keeps it, and `move_to_overflow_spec` stays within its 32-bit
/// arithmetic.
pub open spec fn move_to_overflow_fits(
    m: OverflowMetrics,
    movs: Seq<MovableApplet>,
    overflow: int,
    os: OverflowModel,
) -> bool {
    os.popups <= 1 && (movs.len() <= 1 || {
        let cnt0: int = (os.windows.len() + os.popups) as int;
        let unit = m.icon_size + 2 * m.applet_padding;
        let ov = if cnt0 == 0 { overflow + unit + m.spacing } else { overflow };
        &&& unit <= u32::MAX
        &&& cnt0 <= usize::MAX
        &&& (cnt0 == 0 ==> overflow + unit + m.spacing <= u32::MAX)
        &&& os.windows.len() + movs.len() + os.popups + 1 <= usize::MAX
        &&& move_pass_fits(m, movs, ov, cnt0)
    })
}

/// Resolving `overflow` in a section: shrink, then move what is left to the
/// overflow popup; if overflow remains and the shrink was not forced, all of
/// it again with the shrink forced.
pub open spec fn shrink_clients_spec(
    m: OverflowMetrics,
    shrinkable: Seq<ShrinkableApplet>,
    movable: Seq<MovableApplet>,
    overflow: int,
    os: OverflowModel,
    force: bool,
) -> (Seq<OverflowAction>, int, OverflowModel)
    decreases if force { 0int } else { 1int },
{
    let (a1, o1) = shrink_pass(m, shrinkable, overflow, force);
    let (a2, o2, os2) = if o1 > 0 { move_to_overflow_spec(m, movable, o1, os) } else { (seq![], o1, os) };
    if o2 > 0 && !force {
        let (a3, o3, os3) = shrink_clients_spec(m, shrinkable, movable, o2, os2, true);
        (a1 + a2 + a3, o3, os3)
    } else {
        (a1 + a2, o2, os2)
    }
}

/// Whether `shrink_clients_spec` stays within its 32-bit arithmetic.
pub open spec fn shrink_clients_fits(
    m: OverflowMetrics,
    shrinkable: Seq<ShrinkableApplet>,
    movable: Seq<MovableApplet>,
    overflow: int,
    os: OverflowModel,
    force: bool,
) -> bool
    decreases if force { 0int } else { 1int },
{
    let (a1, o1) = shrink_pass(m, shrinkable, overflow, force);
    let (a2, o2, os2) = if o1 > 0 { move_to_overflow_spec(m, movable, o1, os) } else { (seq![], o1, os) };
    &&& minimums_fit(m, shrinkable)
    &&& (o1 > 0 ==> move_to_overflow_fits(m, movable, o1, os))
    &&& (o2 > 0 && !force ==> shrink_clients_fits(m, shrinkable, movable, o2, os2, true))
}


/// The length of an applet along the panel.
fn applet_major_exec(m: OverflowMetrics, a: &ShrinkableApplet) -> (r: u32)
    ensures
        r == applet_major(m, *a),
        1 <= r <= i32::MAX,
{
    let bb = if m.horizontal { a.bbox_w } else { a.bbox_h };
    let s = if bb < 1 { 1 } else { bb };
    let r = match a.size {
        Some(sz) => {
            let c = if m.horizontal { sz.0 } else { sz.1 };
            if c >= 1 && c < s { c } else { s }
        },
        None => s,
    };
    r as u32
}

/// Shrinks one applet by as much of `overflow` as it allows; returns the
/// overflow left.
fn shrink_one_exec(
    m: OverflowMetrics,
    a: &ShrinkableApplet,
    overflow: u32,
    force: bool,
    actions: &mut Vec<OverflowAction>,
) -> (left: u32)
    requires
        shrink_pixels(a.min_size, m.unit_size) <= u32::MAX,
    ensures
        final(actions)@ == old(actions)@ + shrink_one(m, *a, overflow as int, force).0,
        left == shrink_one(m, *a, overflow as int, force).1,
{
    let major = applet_major_exec(m, a);
    let min_px = a.min_size.to_pixels(m.unit_size);
    if (major < min_px || a.priority < 0) && !force {
        assert(actions@ =~= old(actions)@ + Seq::<OverflowAction>::empty());
        return overflow;
    }
    let nd0 = major.saturating_sub(overflow);
    let nd1 = if force || nd0 >= min_px { nd0 } else { min_px };
    let nd = if nd1 < 1 { 1 } else { nd1 };
    let diff = major.saturating_sub(nd);
    let suggested: i32 = match a.bounds {
        Some(b) => if m.horizontal { b.0 } else { b.1 },
        None => 0,
    };
    if diff == 0 && suggested as u32 == nd {
        assert(actions@ =~= old(actions)@ + Seq::<OverflowAction>::empty());
        return overflow;
    }
    actions.push(OverflowAction::SetBound { window: a.window, length: nd });
    assert(actions@ =~= old(actions)@ + seq![OverflowAction::SetBound { window: a.window, length: nd }]);
    overflow.saturating_sub(diff)
}

/// Shrinks the applets in order until no overflow is left; returns the
/// overflow left.
fn shrink_pass_exec(
    m: OverflowMetrics,
    apps: &Vec<ShrinkableApplet>,
    overflow: u32,
    force: bool,
    actions: &mut Vec<OverflowAction>,
) -> (left: u32)
    requires
        minimums_fit(m, apps@),
    ensures
        final(actions)@ == old(actions)@ + shrink_pass(m, apps@, overflow as int, force).0,
        left == shrink_pass(m, apps@, overflow as int, force).1,
{
    let mut overflow = overflow;
    let mut i: usize = 0;
    let ghost total = shrink_pass(m, apps@, overflow as int, force);
    assert(apps@.skip(0) =~= apps@);
    assert(actions@ =~= old(actions)@ + Seq::<OverflowAction>::empty());
    while i < apps.len()
        invariant
            i <= apps@.len(),
            minimums_fit(m, apps@),
            old(actions)@ + total.0 == actions@ + shrink_pass(m, apps@.skip(i as int), overflow as int, force).0,
            total.1 == shrink_pass(m, apps@.skip(i as int), overflow as int, force).1,
        ensures
            old(actions)@ + total.0 == actions@ + shrink_pass(m, apps@.skip(i as int), overflow as int, force).0,
            total.1 == shrink_pass(m, apps@.skip(i as int), overflow as int, force).1,
            i == apps@.len() || overflow == 0,
        decreases apps@.len() - i,
    {
        if overflow == 0 {
            break;
        }
        let ghost rest = apps@.skip(i as int);
        assert(rest[0] == apps@[i as int]);
        assert(rest.drop_first() =~= apps@.skip(i + 1));
        let ghost before = actions@;
        let ghost r1 = shrink_one(m, apps@[i as int], overflow as int, force);
        overflow = shrink_one_exec(m, &apps[i], overflow, force, actions);
        proof {
            let r2 = shrink_pass(m, apps@.skip(i + 1), overflow as int, force);
            assert(before + (r1.0 + r2.0) =~= (before + r1.0) + r2.0);
        }
        i = i + 1;
    }
    proof {
        if i == apps.len() {
            assert(apps@.skip(i as int).len() == 0);
        }
        assert(actions@ + Seq::<OverflowAction>::empty() =~= actions@);
    }
    overflow
}


/// The location in the overflow popup of the element with index `cnt`.
pub fn overflow_grid_position(m: OverflowMetrics, cnt: usize) -> (pos: (i32, i32))
    requires
        grid_fits(m, cnt as int),
    ensures
        pos == grid_position(m, cnt as int),
{
    let applet_size_unit = m.icon_size + 2 * m.applet_padding;
    let x_i = cnt % 8;
    let x = m.padding as i32 + x_i as i32 * (applet_size_unit as i32 + m.spacing as i32) + BORDER_WIDTH as i32;
    let y = BORDER_WIDTH as i32 + (cnt / 8) as i32 * (applet_size_unit + m.spacing) as i32;
    if m.horizontal {
        (x, y)
    } else {
        (y, x)
    }
}

/// Adds a window to the popup's windows, unless it is there already.
fn add_overflow_window(ws: &mut Vec<OverflowWindow>, window: u64)
    ensures
        final(ws)@ == add_window(old(ws)@, window),
{
    let mut i: usize = 0;
    while i < ws.len()
        invariant
            i <= ws@.len(),
            ws@ == old(ws)@,
            forall|j: int| 0 <= j < i ==> ws@[j].window != window,
        decreases ws@.len() - i,
    {
        if ws[i].window == window {
            assert(exists|j: int| 0 <= j < ws@.len() && ws@[j].window == window) by {
                assert(ws@[i as int].window == window);
            }
            return;
        }
        i = i + 1;
    }
    ws.push(OverflowWindow { window, alive: true });
}

/// Keeps the alive windows.
fn retain_alive(ws: &mut Vec<OverflowWindow>)
    ensures
        final(ws)@ == old(ws)@.filter(|w: OverflowWindow| w.alive),
{
    let ghost pred = |w: OverflowWindow| w.alive;
    let mut kept: Vec<OverflowWindow> = Vec::new();
    let mut i: usize = 0;
    while i < ws.len()
        invariant
            i <= ws@.len(),
            ws@ == old(ws)@,
            pred == (|w: OverflowWindow| w.alive),
            kept@ == ws@.take(i as int).filter(pred),
        decreases ws@.len() - i,
    {
        let w = ws[i];
        if w.alive {
            kept.push(w);
        }
        proof {
            reveal_with_fuel(Seq::filter, 1);
            assert(pred(w) == w.alive);
            let t = ws@.take(i + 1);
            assert(t.last() == w);
            assert(t.drop_last() =~= ws@.take(i as int));
            assert(t.filter(pred) == if w.alive { ws@.take(i as int).filter(pred).push(w) } else { ws@.take(i as int).filter(pred) });
        }
        i = i + 1;
    }
    assert(ws@.take(i as int) =~= ws@);
    *ws = kept;
}

proof fn lemma_move_pass_windows(
    m: OverflowMetrics,
    movs: Seq<MovableApplet>,
    overflow: int,
    cnt: int,
    ws: Seq<OverflowWindow>,
)
    ensures
        move_pass(m, movs, overflow, cnt, ws).3.len() <= ws.len() + movs.len(),
    decreases movs.len(),
{
    if movs.len() == 0 || overflow == 0 {
    } else {
        let w = movs[0];
        if w.bbox_w == 0 || w.bbox_h == 0 || !w.alive {
            lemma_move_pass_windows(m, movs.drop_first(), overflow, cnt, ws);
        } else {
            let diff = if m.horizontal { (w.bbox_w as u32) as int } else { (w.bbox_h as u32) as int };
            lemma_move_pass_windows(m, movs.drop_first(), sat_sub(overflow, diff), cnt + 1, add_window(ws, w.window));
        }
    }
}

/// Moves applets to the overflow popup until no overflow is left.
fn move_pass_exec(
    m: OverflowMetrics,
    movs: &Vec<MovableApplet>,
    overflow: u32,
    cnt: usize,
    ws: &mut Vec<OverflowWindow>,
    actions: &mut Vec<OverflowAction>,
) -> (res: (u32, usize))
    requires
        move_pass_fits(m, movs@, overflow as int, cnt as int),
        cnt + movs@.len() <= usize::MAX,
        m.icon_size + 2 * m.applet_padding <= u32::MAX,
    ensures
        ({
            let (acts, o, c, ws2) = move_pass(m, movs@, overflow as int, cnt as int, old(ws)@);
            &&& final(actions)@ == old(actions)@ + acts
            &&& res.0 == o
            &&& res.1 == c
            &&& final(ws)@ == ws2
        }),
{
    let mut overflow = overflow;
    let mut cnt = cnt;
    let mut i: usize = 0;
    let ghost total = move_pass(m, movs@, overflow as int, cnt as int, ws@);
    let ghost cnt0 = cnt;
    assert(movs@.skip(0) =~= movs@);
    assert(actions@ =~= old(actions)@ + Seq::<OverflowAction>::empty());
    while i < movs.len()
        invariant
            i <= movs@.len(),
            cnt <= cnt0 + i,
            cnt0 + movs@.len() <= usize::MAX,
            m.icon_size + 2 * m.applet_padding <= u32::MAX,
            move_pass_fits(m, movs@.skip(i as int), overflow as int, cnt as int),
            ({
                let (acts, o, c, ws2) = move_pass(m, movs@.skip(i as int), overflow as int, cnt as int, ws@);
                &&& old(actions)@ + total.0 == actions@ + acts
                &&& total.1 == o
                &&& total.2 == c
                &&& total.3 == ws2
            }),
        ensures
            ({
                let (acts, o, c, ws2) = move_pass(m, movs@.skip(i as int), overflow as int, cnt as int, ws@);
                &&& old(actions)@ + total.0 == actions@ + acts
                &&& total.1 == o
                &&& total.2 == c
                &&& total.3 == ws2
            }),
            i == movs@.len() || overflow == 0,
        decreases movs@.len() - i,
    {
        if overflow == 0 {
            break;
        }
        let ghost rest = movs@.skip(i as int);
        assert(rest[0] == movs@[i as int]);
        assert(rest.drop_first() =~= movs@.skip(i + 1));
        let w = movs[i];
        if w.bbox_w == 0 || w.bbox_h == 0 || !w.alive {
            i = i + 1;
            continue;
        }
        let diff = if m.horizontal { w.bbox_w as u32 } else { w.bbox_h as u32 };
        overflow = overflow.saturating_sub(diff);
        let (x, y) = overflow_grid_position(m, cnt);
        let unit = m.icon_size + 2 * m.applet_padding;
        let act = OverflowAction::MoveToOverflow { window: w.window, x, y, size: unit };
        let ghost before = actions@;
        actions.push(act);
        add_overflow_window(ws, w.window);
        cnt = cnt + 1;
        i = i + 1;
        proof {
            let r2 = move_pass(m, movs@.skip(i as int), overflow as int, cnt as int, ws@);
            assert(before + (seq![act] + r2.0) =~= (before.push(act)) + r2.0);
        }
    }
    proof {
        if i == movs.len() {
            assert(movs@.skip(i as int).len() == 0);
        }
        assert(actions@ + Seq::<OverflowAction>::empty() =~= actions@);
    }
    (overflow, cnt)
}

/// Moves applets to the overflow popup of the section, when at least two may
/// move; returns the overflow left.
pub fn move_to_overflow(
    overflow: u32,
    m: OverflowMetrics,
    movable: &Vec<MovableApplet>,
    space: &mut OverflowSpace,
    actions: &mut Vec<OverflowAction>,
) -> (left: u32)
    requires
        move_to_overflow_fits(m, movable@, overflow as int, model_of(*old(space))),
    ensures
        ({
            let (acts, o, os) = move_to_overflow_spec(m, movable@, overflow as int, model_of(*old(space)));
            &&& final(actions)@ == old(actions)@ + acts
            &&& left == o
            &&& final(space).windows@ == os.windows
            &&& final(space).popups == os.popups
            &&& final(space).has_button == os.has_button
        }),
        final(space).popups <= 1,
{
    if movable.len() <= 1 {
        assert(actions@ =~= old(actions)@ + Seq::<OverflowAction>::empty());
        return overflow;
    }
    let mut overflow = overflow;
    let overflow_cnt = space.windows.len() + space.popups;
    let applet_size_unit = m.icon_size + 2 * m.applet_padding;
    if overflow_cnt == 0 {
        overflow = overflow + applet_size_unit + m.spacing;
    }
    let ghost ws0 = space.windows@;
    let (left, _cnt) = move_pass_exec(m, movable, overflow, overflow_cnt, &mut space.windows, actions);
    proof {
        lemma_move_pass_windows(m, movable@, overflow as int, overflow_cnt as int, ws0);
    }
    let ghost ws2 = space.windows@;
    retain_alive(&mut space.windows);
    proof {
        ws2.lemma_filter_len(|w: OverflowWindow| w.alive);
    }
    let count = space.windows.len() + space.popups;
    let popup = OverflowAction::UpdatePopup {
        replace: space.popups > 0,
        element_count: count,
        alive_windows: space.windows.len(),
    };
    let ghost mid = actions@;
    actions.push(popup);
    if space.popups == 0 {
        space.popups = space.popups + 1;
    }
    if !space.has_button {
        actions.push(OverflowAction::AddOverflowButton);
        space.has_button = true;
        assert(actions@ =~= mid + seq![popup] + seq![OverflowAction::AddOverflowButton]);
    } else {
        assert(actions@ =~= mid + seq![popup] + Seq::<OverflowAction>::empty());
    }
    left
}


/// Resolves `overflow` in a section: shrinks its applets, moves what is left
/// to the overflow popup, and when overflow remains without `force`, does it
/// all again with the shrink forced. Returns the overflow that remains.
pub fn shrink_clients(
    overflow: u32,
    clients: &OverflowClientPartition,
    m: OverflowMetrics,
    space: &mut OverflowSpace,
    force: bool,
    actions: &mut Vec<OverflowAction>,
) -> (left: u32)
    requires
        shrink_clients_fits(m, clients.shrinkable@, clients.movable@, overflow as int, model_of(*old(space)), force),
    ensures
        ({
            let (acts, o, os) = shrink_clients_spec(m, clients.shrinkable@, clients.movable@, overflow as int, model_of(*old(space)), force);
            &&& final(actions)@ == old(actions)@ + acts
            &&& left == o
            &&& final(space).windows@ == os.windows
            &&& final(space).popups == os.popups
            &&& final(space).has_button == os.has_button
        }),
    decreases if force { 0int } else { 1int },
{
    let ghost os0 = model_of(*space);
    let ghost (p1, o1) = shrink_pass(m, clients.shrinkable@, overflow as int, force);
    let ghost a0 = actions@;
    let mut overflow = shrink_pass_exec(m, &clients.shrinkable, overflow, force, actions);
    let ghost a1 = actions@;
    let ghost (p2, o2, os2) = if o1 > 0 { move_to_overflow_spec(m, clients.movable@, o1, os0) } else { (seq![], o1, os0) };
    if overflow > 0 {
        overflow = move_to_overflow(overflow, m, &clients.movable, space, actions);
    } else {
        assert(actions@ =~= a1 + Seq::<OverflowAction>::empty());
    }
    assert(actions@ == a1 + p2);
    assert(model_of(*space).windows =~= os2.windows);
    if overflow > 0 && !force {
        let ghost a2 = actions@;
        let ghost (p3, o3, os3) = shrink_clients_spec(m, clients.shrinkable@, clients.movable@, o2, os2, true);
        assert(model_of(*space) == os2);
        let left = shrink_clients(overflow, clients, m, space, true, actions);
        assert(actions@ =~= a0 + (p1 + p2 + p3));
        return left;
    }
    assert(actions@ =~= a0 + (p1 + p2));
    overflow
}


/// Whether `act` sets the bounds of the applet `a` to a length between one
/// and the applet's length along the panel, and, unless forced, no less than
/// its minimum.
pub open spec fn bound_within(m: OverflowMetrics, a: ShrinkableApplet, act: OverflowAction, force: bool) -> bool {
    match act {
        OverflowAction::SetBound { window, length } => {
            &&& window == a.window
            &&& 1 <= length <= applet_major(m, a)
            &&& (!force ==> a.priority >= 0 && length >= shrink_pixels(a.min_size, m.unit_size))
        },
        _ => false,
    }
}

/// Shrinking never lets the overflow grow; it only sets bounds, each on one
/// of the applets, never longer than the applet is, never below one pixel
/// and, unless forced, never below the applet's minimum nor on an applet
/// without a shrink priority; once no overflow is left, nothing more is done.
pub proof fn lemma_shrink_pass_bounds(m: OverflowMetrics, apps: Seq<ShrinkableApplet>, overflow: int, force: bool)
    requires
        overflow >= 0,
    ensures
        0 <= shrink_pass(m, apps, overflow, force).1 <= overflow,
        forall|k: int| 0 <= k < shrink_pass(m, apps, overflow, force).0.len() ==> exists|i: int|
            0 <= i < apps.len() && bound_within(m, apps[i], #[trigger] shrink_pass(m, apps, overflow, force).0[k], force),
        overflow == 0 ==> shrink_pass(m, apps, overflow, force).0.len() == 0,
    decreases apps.len(),
{
    if apps.len() == 0 || overflow == 0 {
    } else {
        let a = apps[0];
        let (a1, o1) = shrink_one(m, a, overflow, force);
        let rest = apps.drop_first();
        lemma_shrink_pass_bounds(m, rest, o1, force);
        let (a2, o2) = shrink_pass(m, rest, o1, force);
        let all = a1 + a2;
        assert forall|k: int| 0 <= k < all.len() implies exists|i: int|
            0 <= i < apps.len() && bound_within(m, apps[i], #[trigger] all[k], force) by {
            if k < a1.len() {
                assert(bound_within(m, apps[0], all[k], force));
            } else {
                assert(all[k] == a2[k - a1.len()]);
                let i = choose|i: int| 0 <= i < rest.len() && bound_within(m, rest[i], a2[k - a1.len()], force);
                assert(rest[i] == apps[i + 1]);
            }
        }
    }
}

/// Moving to the overflow popup needs at least two movable applets; it only
/// moves applets whose surface is alive and whose window has a size, each
/// into the popup as a square of one applet unit.
pub proof fn lemma_move_pass_moves(
    m: OverflowMetrics,
    movs: Seq<MovableApplet>,
    overflow: int,
    cnt: int,
    ws: Seq<OverflowWindow>,
)
    ensures
        forall|k: int| 0 <= k < move_pass(m, movs, overflow, cnt, ws).0.len() ==> exists|i: int| {
            &&& 0 <= i < movs.len()
            &&& movs[i].alive && movs[i].bbox_w != 0 && movs[i].bbox_h != 0
            &&& (#[trigger] move_pass(m, movs, overflow, cnt, ws).0[k]) matches OverflowAction::MoveToOverflow { window, size, .. }
            &&& window == movs[i].window
            &&& size == (m.icon_size + 2 * m.applet_padding) as u32
        },
        overflow >= 0 ==> 0 <= move_pass(m, movs, overflow, cnt, ws).1 <= overflow,
    decreases movs.len(),
{
    if movs.len() == 0 || overflow == 0 {
    } else {
        let w = movs[0];
        let rest = movs.drop_first();
        if w.bbox_w == 0 || w.bbox_h == 0 || !w.alive {
            lemma_move_pass_moves(m, rest, overflow, cnt, ws);
            let acts = move_pass(m, movs, overflow, cnt, ws).0;
            assert forall|k: int| 0 <= k < acts.len() implies exists|i: int| {
                &&& 0 <= i < movs.len()
                &&& movs[i].alive && movs[i].bbox_w != 0 && movs[i].bbox_h != 0
                &&& (#[trigger] acts[k]) matches OverflowAction::MoveToOverflow { window, size, .. }
                &&& window == movs[i].window
                &&& size == (m.icon_size + 2 * m.applet_padding) as u32
            } by {
                let i = choose|i: int| {
                    &&& 0 <= i < rest.len()
                    &&& rest[i].alive && rest[i].bbox_w != 0 && rest[i].bbox_h != 0
                    &&& (#[trigger] move_pass(m, rest, overflow, cnt, ws).0[k]) matches OverflowAction::MoveToOverflow { window, size, .. }
                    &&& window == rest[i].window
                    &&& size == (m.icon_size + 2 * m.applet_padding) as u32
                };
                assert(rest[i] == movs[i + 1]);
            }
        } else {
            let diff = if m.horizontal { (w.bbox_w as u32) as int } else { (w.bbox_h as u32) as int };
            let o1 = sat_sub(overflow, diff);
            let ws1 = add_window(ws, w.window);
            lemma_move_pass_moves(m, rest, o1, cnt + 1, ws1);
            let acts = move_pass(m, movs, overflow, cnt, ws).0;
            let r = move_pass(m, rest, o1, cnt + 1, ws1).0;
            assert forall|k: int| 0 <= k < acts.len() implies exists|i: int| {
                &&& 0 <= i < movs.len()
                &&& movs[i].alive && movs[i].bbox_w != 0 && movs[i].bbox_h != 0
                &&& (#[trigger] acts[k]) matches OverflowAction::MoveToOverflow { window, size, .. }
                &&& window == movs[i].window
                &&& size == (m.icon_size + 2 * m.applet_padding) as u32
            } by {
                if k == 0 {
                    assert(acts[0] matches OverflowAction::MoveToOverflow { window, size, .. } && window == movs[0].window);
                } else {
                    assert(acts[k] == r[k - 1]);
                    let i = choose|i: int| {
                        &&& 0 <= i < rest.len()
                        &&& rest[i].alive && rest[i].bbox_w != 0 && rest[i].bbox_h != 0
                        &&& (#[trigger] r[k - 1]) matches OverflowAction::MoveToOverflow { window, size, .. }
                        &&& window == rest[i].window
                        &&& size == (m.icon_size + 2 * m.applet_padding) as u32
                    };
                    assert(rest[i] == movs[i + 1]);
                }
            }
        }
    }
}


/// A client of a section: the window it shows on the panel, if any, and how
/// it asked to be shrunk.
#[derive(Clone, Copy, Debug)]
pub struct PanelClientInfo {
    pub window: Option<AppletWindow>,
    pub shrink_priority: Option<u32>,
    pub shrink_min_size: Option<ClientShrinkSize>,
}

/// A window on the panel: its identity, the size of its box, the size it was
/// last configured with, the bounds it was last given, and whether its
/// surface is alive.
#[derive(Clone, Copy, Debug)]
pub struct AppletWindow {
    pub window: u64,
    pub bbox_w: i32,
    pub bbox_h: i32,
    pub size: Option<(i32, i32)>,
    pub bounds: Option<(i32, i32)>,
    pub alive: bool,
}

/// The applets of the clients in client order, before sorting: a client with
/// a minimum size shrinks; one with only a priority moves; one with neither
/// shrinks last, with priority -1 and a minimum of one applet unit.
pub open spec fn unsorted_partition(clients: Seq<PanelClientInfo>) -> (Seq<ShrinkableApplet>, Seq<MovableApplet>)
    decreases clients.len(),
{
    if clients.len() == 0 {
        (seq![], seq![])
    } else {
        let (s, mv) = unsorted_partition(clients.drop_last());
        let idx = (clients.len() - 1) as usize;
        let c = clients.last();
        match c.window {
            None => (s, mv),
            Some(w) => {
                let prio: u32 = match c.shrink_priority { Some(p) => p, None => 0 };
                match c.shrink_min_size {
                    Some(min) => (s.push(ShrinkableApplet {
                        window: w.window, client: idx, priority: prio as i32, min_size: min,
                        bbox_w: w.bbox_w, bbox_h: w.bbox_h, size: w.size, bounds: w.bounds,
                    }), mv),
                    None => if c.shrink_priority is Some {
                        (s, mv.push(MovableApplet {
                            window: w.window, client: idx, priority: prio,
                            bbox_w: w.bbox_w, bbox_h: w.bbox_h, alive: w.alive,
                        }))
                    } else {
                        (s.push(ShrinkableApplet {
                            window: w.window, client: idx, priority: -1i32, min_size: ClientShrinkSize::AppletUnit(1),
                            bbox_w: w.bbox_w, bbox_h: w.bbox_h, size: w.size, bounds: w.bounds,
                        }), mv)
                    },
                }
            },
        }
    }
}

/// Whether `r` holds the shrinkable applets of `u`, each once, ordered by
/// descending priority and, at equal priority, by client.
pub open spec fn shrinkables_sorted(r: Seq<ShrinkableApplet>, u: Seq<ShrinkableApplet>) -> bool {
    sorted_desc(r, u, |a: ShrinkableApplet| a.priority as int, |a: ShrinkableApplet| a.client as int)
}

/// Whether `r` holds the movable applets of `u`, each once, ordered by
/// descending priority and, at equal priority, by client.
pub open spec fn movables_sorted(r: Seq<MovableApplet>, u: Seq<MovableApplet>) -> bool {
    sorted_desc(r, u, |a: MovableApplet| a.priority as int, |a: MovableApplet| a.client as int)
}

proof fn lemma_unsorted_clients(clients: Seq<PanelClientInfo>)
    requires
        clients.len() <= usize::MAX,
    ensures
        forall|i: int, j: int| 0 <= i < j < unsorted_partition(clients).0.len() ==> (#[trigger] unsorted_partition(clients).0[i]).client < (#[trigger] unsorted_partition(clients).0[j]).client,
        forall|i: int, j: int| 0 <= i < j < unsorted_partition(clients).1.len() ==> (#[trigger] unsorted_partition(clients).1[i]).client < (#[trigger] unsorted_partition(clients).1[j]).client,
        forall|i: int| 0 <= i < unsorted_partition(clients).0.len() ==> (#[trigger] unsorted_partition(clients).0[i]).client < clients.len(),
        forall|i: int| 0 <= i < unsorted_partition(clients).1.len() ==> (#[trigger] unsorted_partition(clients).1[i]).client < clients.len(),
    decreases clients.len(),
{
    if clients.len() > 0 {
        let prev = clients.drop_last();
        lemma_unsorted_clients(prev);
        let (s0, m0) = unsorted_partition(prev);
        let (s1, m1) = unsorted_partition(clients);
        let c = clients.last();
        let s_pushed = s1.len() == s0.len() + 1 && s1.drop_last() =~= s0 && s1.last().client as int == clients.len() - 1;
        let m_pushed = m1.len() == m0.len() + 1 && m1.drop_last() =~= m0 && m1.last().client as int == clients.len() - 1;
        let idx = (clients.len() - 1) as usize;
        assert((s1 == s0 || s_pushed) && (m1 == m0 || m_pushed)) by {
            match c.window {
                None => {
                    assert(s1 == s0 && m1 == m0);
                },
                Some(w) => {
                    let prio: u32 = match c.shrink_priority { Some(p) => p, None => 0 };
                    match c.shrink_min_size {
                        Some(min) => {
                            let x = ShrinkableApplet {
                                window: w.window, client: idx, priority: prio as i32, min_size: min,
                                bbox_w: w.bbox_w, bbox_h: w.bbox_h, size: w.size, bounds: w.bounds,
                            };
                            assert(s1 == s0.push(x) && m1 == m0);
                            assert(s1.drop_last() =~= s0);
                        },
                        None => {
                            if c.shrink_priority is Some {
                                let x = MovableApplet {
                                    window: w.window, client: idx, priority: prio,
                                    bbox_w: w.bbox_w, bbox_h: w.bbox_h, alive: w.alive,
                                };
                                assert(m1 == m0.push(x) && s1 == s0);
                                assert(m1.drop_last() =~= m0);
                            } else {
                                let x = ShrinkableApplet {
                                    window: w.window, client: idx, priority: -1i32, min_size: ClientShrinkSize::AppletUnit(1),
                                    bbox_w: w.bbox_w, bbox_h: w.bbox_h, size: w.size, bounds: w.bounds,
                                };
                                assert(s1 == s0.push(x) && m1 == m0);
                                assert(s1.drop_last() =~= s0);
                            }
                        },
                    }
                },
            }
        }
        assert forall|i: int, j: int| 0 <= i < j < s1.len() implies (#[trigger] s1[i]).client < (#[trigger] s1[j]).client by {
            if s1 != s0 {
                assert(s1[i] == s0[i]);
                if j < s0.len() {
                    assert(s1[j] == s0[j]);
                } else {
                    assert(s1[j] == s1.last());
                }
            }
        }
        assert forall|i: int, j: int| 0 <= i < j < m1.len() implies (#[trigger] m1[i]).client < (#[trigger] m1[j]).client by {
            if m1 != m0 {
                assert(m1[i] == m0[i]);
                if j < m0.len() {
                    assert(m1[j] == m0[j]);
                } else {
                    assert(m1[j] == m1.last());
                }
            }
        }
        assert forall|i: int| 0 <= i < s1.len() implies (#[trigger] s1[i]).client < clients.len() by {
            if s1 != s0 {
                if i < s0.len() {
                    assert(s1[i] == s0[i]);
                } else {
                    assert(s1[i] == s1.last());
                }
            }
        }
        assert forall|i: int| 0 <= i < m1.len() implies (#[trigger] m1[i]).client < clients.len() by {
            if m1 != m0 {
                if i < m0.len() {
                    assert(m1[i] == m0[i]);
                } else {
                    assert(m1[i] == m1.last());
                }
            }
        }
    }
}

/// Whether `r` holds the entries of `u`, each once, ordered by descending
/// priority and, at equal priority, by client.
pub open spec fn sorted_desc<T>(r: Seq<T>, u: Seq<T>, prio: spec_fn(T) -> int, client: spec_fn(T) -> int) -> bool {
    &&& r.len() == u.len()
    &&& forall|i: int| 0 <= i < r.len() ==> u.contains(#[trigger] r[i])
    &&& forall|j: int| 0 <= j < u.len() ==> r.contains(#[trigger] u[j])
    &&& forall|i: int, j: int| 0 <= i < j < r.len() ==> prio(#[trigger] r[i]) > prio(#[trigger] r[j])
        || (prio(r[i]) == prio(r[j]) && client(r[i]) < client(r[j]))
}

proof fn lemma_rebuilt_sorted<T>(
    u: Seq<T>,
    v: Seq<(i64, usize)>,
    keys: Seq<(i64, usize)>,
    r: Seq<T>,
    prio: spec_fn(T) -> int,
    client: spec_fn(T) -> int,
)
    requires
        v.len() == u.len(),
        forall|p: int| 0 <= p < v.len() ==> (#[trigger] v[p]).1 == p && v[p].0 as int == prio(u[p]),
        keys.len() == v.len(),
        r.len() == keys.len(),
        forall|k: int| 0 <= k < keys.len() ==> (#[trigger] keys[k]).1 < v.len() && keys[k] == v[keys[k].1 as int],
        forall|p: int| 0 <= p < v.len() ==> #[trigger] index_present(keys, p),
        forall|i: int, j: int| 0 <= i < j < keys.len() ==> (#[trigger] keys[i]).0 > (#[trigger] keys[j]).0 || (keys[i].0 == keys[j].0 && keys[i].1 < keys[j].1),
        forall|q: int| 0 <= q < r.len() ==> #[trigger] r[q] == u[keys[q].1 as int],
        forall|i: int, j: int| 0 <= i < j < u.len() ==> client(#[trigger] u[i]) < client(#[trigger] u[j]),
    ensures
        sorted_desc(r, u, prio, client),
{
    lemma_rebuilt_members(u, v, keys, r);
    lemma_rebuilt_order(u, v, keys, r, prio, client);
}

proof fn lemma_rebuilt_members<T>(
    u: Seq<T>,
    v: Seq<(i64, usize)>,
    keys: Seq<(i64, usize)>,
    r: Seq<T>,
)
    requires
        v.len() == u.len(),
        keys.len() == v.len(),
        r.len() == keys.len(),
        forall|k: int| 0 <= k < keys.len() ==> (#[trigger] keys[k]).1 < v.len(),
        forall|p: int| 0 <= p < v.len() ==> #[trigger] index_present(keys, p),
        forall|q: int| 0 <= q < r.len() ==> #[trigger] r[q] == u[keys[q].1 as int],
    ensures
        forall|i: int| 0 <= i < r.len() ==> u.contains(#[trigger] r[i]),
        forall|j: int| 0 <= j < u.len() ==> r.contains(#[trigger] u[j]),
{
    assert forall|i: int| 0 <= i < r.len() implies u.contains(#[trigger] r[i]) by {
        let j = keys[i].1 as int;
        assert(r[i] == u[j]);
    }
    assert forall|j: int| 0 <= j < u.len() implies r.contains(#[trigger] u[j]) by {
        assert(index_present(keys, j));
        let kk = choose|kk: int| 0 <= kk < keys.len() && keys[kk].1 == j;
        assert(r[kk] == u[j]);
    }
}

proof fn lemma_rebuilt_order<T>(
    u: Seq<T>,
    v: Seq<(i64, usize)>,
    keys: Seq<(i64, usize)>,
    r: Seq<T>,
    prio: spec_fn(T) -> int,
    client: spec_fn(T) -> int,
)
    requires
        v.len() == u.len(),
        forall|p: int| 0 <= p < v.len() ==> (#[trigger] v[p]).1 == p && v[p].0 as int == prio(u[p]),
        keys.len() == v.len(),
        r.len() == keys.len(),
        forall|k: int| 0 <= k < keys.len() ==> (#[trigger] keys[k]).1 < v.len() && keys[k] == v[keys[k].1 as int],
        forall|i: int, j: int| 0 <= i < j < keys.len() ==> (#[trigger] keys[i]).0 > (#[trigger] keys[j]).0 || (keys[i].0 == keys[j].0 && keys[i].1 < keys[j].1),
        forall|q: int| 0 <= q < r.len() ==> #[trigger] r[q] == u[keys[q].1 as int],
        forall|i: int, j: int| 0 <= i < j < u.len() ==> client(#[trigger] u[i]) < client(#[trigger] u[j]),
    ensures
        forall|i: int, j: int| 0 <= i < j < r.len() ==> prio(#[trigger] r[i]) > prio(#[trigger] r[j])
            || (prio(r[i]) == prio(r[j]) && client(r[i]) < client(r[j])),
{
    assert forall|i: int, j: int| 0 <= i < j < r.len() implies prio(#[trigger] r[i]) > prio(#[trigger] r[j])
        || (prio(r[i]) == prio(r[j]) && client(r[i]) < client(r[j])) by {
        let ki = keys[i];
        let kj = keys[j];
        let pi = ki.1 as int;
        let pj = kj.1 as int;
        assert(ki == v[pi]);
        assert(kj == v[pj]);
        assert(v[pi].0 as int == prio(u[pi]));
        assert(v[pj].0 as int == prio(u[pj]));
        assert(r[i] == u[pi]);
        assert(r[j] == u[pj]);
        if ki.0 == kj.0 {
            assert(pi < pj);
            assert(client(u[pi]) < client(u[pj]));
        }
    }
}

/// Orders the shrinkable applets by descending priority, keeping client
/// order among equal priorities.
fn sort_shrinkables(u: Vec<ShrinkableApplet>) -> (r: Vec<ShrinkableApplet>)
    requires
        forall|i: int, j: int| 0 <= i < j < u@.len() ==> (#[trigger] u@[i]).client < (#[trigger] u@[j]).client,
    ensures
        shrinkables_sorted(r@, u@),
{
    let mut keys: Vec<(i64, usize)> = Vec::new();
    let mut i: usize = 0;
    while i < u.len()
        invariant
            i <= u@.len(),
            keys@.len() == i,
            forall|p: int| 0 <= p < i ==> (#[trigger] keys@[p]) == (u@[p].priority as i64, p as usize),
        decreases u@.len() - i,
    {
        keys.push((u[i].priority as i64, i));
        i = i + 1;
    }
    let ghost v = keys@;
    sort_by_key_stable(&mut keys, true);
    proof {
        lemma_sorted_keys(v, keys@, true);
    }
    let mut r: Vec<ShrinkableApplet> = Vec::new();
    let mut k: usize = 0;
    while k < keys.len()
        invariant
            k <= keys@.len(),
            keys@.len() == u@.len(),
            r@.len() == k,
            v.len() == u@.len(),
            forall|q: int| 0 <= q < keys@.len() ==> (#[trigger] keys@[q]).1 < v.len() && keys@[q] == v[keys@[q].1 as int],
            forall|q: int| 0 <= q < k ==> #[trigger] r@[q] == u@[keys@[q].1 as int],
        decreases keys@.len() - k,
    {
        r.push(u[keys[k].1]);
        k = k + 1;
    }
    proof {
        lemma_rebuilt_sorted(u@, v, keys@, r@, |a: ShrinkableApplet| a.priority as int, |a: ShrinkableApplet| a.client as int);
    }
    r
}

/// Orders the movable applets by descending priority, keeping client order
/// among equal priorities.
fn sort_movables(u: Vec<MovableApplet>) -> (r: Vec<MovableApplet>)
    requires
        forall|i: int, j: int| 0 <= i < j < u@.len() ==> (#[trigger] u@[i]).client < (#[trigger] u@[j]).client,
    ensures
        movables_sorted(r@, u@),
{
    let mut keys: Vec<(i64, usize)> = Vec::new();
    let mut i: usize = 0;
    while i < u.len()
        invariant
            i <= u@.len(),
            keys@.len() == i,
            forall|p: int| 0 <= p < i ==> (#[trigger] keys@[p]) == (u@[p].priority as i64, p as usize),
        decreases u@.len() - i,
    {
        keys.push((u[i].priority as i64, i));
        i = i + 1;
    }
    let ghost v = keys@;
    sort_by_key_stable(&mut keys, true);
    proof {
        lemma_sorted_keys(v, keys@, true);
    }
    let mut r: Vec<MovableApplet> = Vec::new();
    let mut k: usize = 0;
    while k < keys.len()
        invariant
            k <= keys@.len(),
            keys@.len() == u@.len(),
            r@.len() == k,
            v.len() == u@.len(),
            forall|q: int| 0 <= q < keys@.len() ==> (#[trigger] keys@[q]).1 < v.len() && keys@[q] == v[keys@[q].1 as int],
            forall|q: int| 0 <= q < k ==> #[trigger] r@[q] == u@[keys@[q].1 as int],
        decreases keys@.len() - k,
    {
        r.push(u[keys[k].1]);
        k = k + 1;
    }
    proof {
        lemma_rebuilt_sorted(u@, v, keys@, r@, |a: MovableApplet| a.priority as int, |a: MovableApplet| a.client as int);
    }
    r
}

/// The suggested applet length of a section: the applet size with its
/// padding, plus the padding again on both sides, as a 32-bit length.
pub open spec fn suggested_applet_size(m: OverflowMetrics) -> u32 {
    let s = m.unit_size + 2 * m.applet_padding;
    if s > u32::MAX { u32::MAX } else { s as u32 }
}

impl OverflowClientPartition {
    /// Splits the clients of a section into the applets that shrink and
    /// those that move to the overflow popup, each highest priority first;
    /// clients without a window on the panel are left out.
    pub fn shrinkable_clients(clients: &Vec<PanelClientInfo>, m: OverflowMetrics) -> (res: Self)
        ensures
            res.suggested_size == suggested_applet_size(m),
            shrinkables_sorted(res.shrinkable@, unsorted_partition(clients@).0),
            movables_sorted(res.movable@, unsorted_partition(clients@).1),
    {
        let sum: u64 = m.unit_size as u64 + 2 * (m.applet_padding as u64);
        let suggested_size: u32 = if sum > u32::MAX as u64 { u32::MAX } else { sum as u32 };
        let mut shrinkable: Vec<ShrinkableApplet> = Vec::new();
        let mut movable: Vec<MovableApplet> = Vec::new();
        let mut i: usize = 0;
        while i < clients.len()
            invariant
                i <= clients@.len(),
                (shrinkable@, movable@) == unsorted_partition(clients@.take(i as int)),
            decreases clients@.len() - i,
        {
            let c = clients[i];
            proof {
                let t = clients@.take(i + 1);
                assert(t.drop_last() =~= clients@.take(i as int));
                assert(t.last() == c);
            }
            match c.window {
                None => {},
                Some(w) => {
                    let prio: u32 = match c.shrink_priority {
                        Some(p) => p,
                        None => 0,
                    };
                    match c.shrink_min_size {
                        Some(min) => {
                            shrinkable.push(ShrinkableApplet {
                                window: w.window, client: i, priority: prio as i32, min_size: min,
                                bbox_w: w.bbox_w, bbox_h: w.bbox_h, size: w.size, bounds: w.bounds,
                            });
                        },
                        None => {
                            if c.shrink_priority.is_some() {
                                movable.push(MovableApplet {
                                    window: w.window, client: i, priority: prio,
                                    bbox_w: w.bbox_w, bbox_h: w.bbox_h, alive: w.alive,
                                });
                            } else {
                                shrinkable.push(ShrinkableApplet {
                                    window: w.window, client: i, priority: -1, min_size: ClientShrinkSize::AppletUnit(1),
                                    bbox_w: w.bbox_w, bbox_h: w.bbox_h, size: w.size, bounds: w.bounds,
                                });
                            }
                        },
                    }
                },
            }
            i = i + 1;
        }
        assert(clients@.take(i as int) =~= clients@);
        proof {
            lemma_unsorted_clients(clients@);
            assert(shrinkable@ == unsorted_partition(clients@).0);
            assert(movable@ == unsorted_partition(clients@).1);
        }
        let shrinkable = sort_shrinkables(shrinkable);
        let movable = sort_movables(movable);
        OverflowClientPartition { shrinkable, movable, suggested_size }
    }
}


/// An element of a section's overflow popup, in the popup's order: a
/// window, with whether it is alive, the position of its client in the
/// section's client list and the size of its box; or the popup itself, with
/// the element count it was made for and the size of its box.
#[derive(Clone, Copy, Debug, PartialEq, Eq, Structural)]
pub enum PopupElement {
    Window { window: u64, alive: bool, client_pos: Option<usize>, bbox_w: i32, bbox_h: i32 },
    Popup { count: usize, bbox_w: i32, bbox_h: i32 },
}

/// The length of a popup element along the panel, its box's length taken as
/// an unsigned 32-bit number.
pub open spec fn element_major(horizontal: bool, e: PopupElement) -> int {
    let (w, h) = match e {
        PopupElement::Window { bbox_w, bbox_h, .. } => (bbox_w, bbox_h),
        PopupElement::Popup { bbox_w, bbox_h, .. } => (bbox_w, bbox_h),
    };
    if horizontal { (w as u32) as int } else { (h as u32) as int }
}

/// Moving windows back from the overflow popup to the panel, in the popup's
/// order, while `extra` is at least `suggested`: each window that fits in
/// what is left moves and takes its length from it; other elements stay.
/// The windows that move, the extra length left, and the elements that stay.
pub open spec fn move_from_pass(horizontal: bool, elems: Seq<PopupElement>, extra: int, suggested: int)
    -> (Seq<u64>, int, Seq<PopupElement>)
    decreases elems.len(),
{
    if elems.len() == 0 || extra < suggested {
        (seq![], extra, elems)
    } else {
        let e = elems[0];
        let len = element_major(horizontal, e);
        let (moved, left, stay) = if extra >= len && e is Window {
            move_from_pass(horizontal, elems.drop_first(), extra - len, suggested)
        } else {
            move_from_pass(horizontal, elems.drop_first(), extra, suggested)
        };
        if extra >= len && e is Window {
            (seq![e->window] + moved, left, stay)
        } else {
            (moved, left, seq![e] + stay)
        }
    }
}

/// Moves windows from a section's overflow popup back to the panel while
/// `extra_space` is at least `suggested_size`, as [`move_from_pass`] says;
/// returns the extra space left, the windows that move, each to be
/// configured with neither size nor bounds, and the elements that stay.
pub fn move_from_overflow(
    extra_space: u32,
    horizontal: bool,
    elements: &Vec<PopupElement>,
    suggested_size: u32,
) -> (res: (u32, Vec<u64>, Vec<PopupElement>))
    ensures
        res.0 as int == move_from_pass(horizontal, elements@, extra_space as int, suggested_size as int).1,
        res.1@ == move_from_pass(horizontal, elements@, extra_space as int, suggested_size as int).0,
        res.2@ == move_from_pass(horizontal, elements@, extra_space as int, suggested_size as int).2,
{
    let ghost total = move_from_pass(horizontal, elements@, extra_space as int, suggested_size as int);
    let mut extra = extra_space;
    let mut moved: Vec<u64> = Vec::new();
    let mut stay: Vec<PopupElement> = Vec::new();
    let mut i: usize = 0;
    assert(elements@.subrange(0, elements@.len() as int) =~= elements@);
    assert(moved@ + total.0 =~= total.0);
    assert(stay@ + total.2 =~= total.2);
    while i < elements.len()
        invariant
            i <= elements@.len(),
            ({
                let (r, x, st) = move_from_pass(horizontal, elements@.subrange(i as int, elements@.len() as int), extra as int, suggested_size as int);
                moved@ + r == total.0 && x == total.1 && stay@ + st == total.2
            }),
        decreases elements@.len() - i,
    {
        let ghost rest = elements@.subrange(i as int, elements@.len() as int);
        assert(rest.drop_first() =~= elements@.subrange(i + 1, elements@.len() as int));
        let e = elements[i];
        assert(rest[0] == e);
        let ghost before_m = moved@;
        let ghost before_s = stay@;
        if extra < suggested_size {
            stay.push(e);
            proof {
                let r2 = elements@.subrange(i + 1, elements@.len() as int);
                assert(move_from_pass(horizontal, r2, extra as int, suggested_size as int) == (Seq::<u64>::empty(), extra as int, r2));
                assert(rest =~= seq![e] + r2);
                assert(stay@ + r2 =~= before_s + rest);
                assert(moved@ =~= moved@ + Seq::<u64>::empty());
            }
        } else {
            let (bw, bh) = match e {
                PopupElement::Window { bbox_w, bbox_h, .. } => (bbox_w, bbox_h),
                PopupElement::Popup { bbox_w, bbox_h, .. } => (bbox_w, bbox_h),
            };
            let applet_len: u32 = if horizontal { #[verifier::truncate] (bw as u32) } else { #[verifier::truncate] (bh as u32) };
            let mut took = false;
            if extra >= applet_len {
                match e {
                    PopupElement::Window { window, .. } => {
                        extra = extra - applet_len;
                        moved.push(window);
                        took = true;
                    },
                    PopupElement::Popup { .. } => {},
                }
            }
            if !took {
                stay.push(e);
            }
            proof {
                let sub = move_from_pass(horizontal, rest.drop_first(), extra as int, suggested_size as int);
                if took {
                    assert(moved@ + sub.0 =~= before_m + (seq![e->window] + sub.0));
                } else {
                    assert(stay@ + sub.2 =~= before_s + (seq![e] + sub.2));
                }
            }
        }
        i = i + 1;
    }
    proof {
        assert(elements@.subrange(i as int, elements@.len() as int) =~= Seq::<PopupElement>::empty());
        assert(moved@ =~= moved@ + Seq::<u64>::empty());
        assert(stay@ =~= stay@ + Seq::<PopupElement>::empty());
    }
    (extra, moved, stay)
}

/// `a + b` held to the range of `i32`, as `i32::saturating_add` gives it.
pub open spec fn sat_i32(v: int) -> i32 {
    if v > i32::MAX { i32::MAX } else if v < i32::MIN { i32::MIN } else { v as i32 }
}

pub(crate) fn saturating_add_i32(a: i32, b: i32) -> (r: i32)
    ensures
        r == sat_i32(a + b),
{
    let s: i64 = a as i64 + b as i64;
    if s > i32::MAX as i64 {
        i32::MAX
    } else if s < i32::MIN as i64 {
        i32::MIN
    } else {
        s as i32
    }
}

fn saturating_sub_i32(a: i32, b: i32) -> (r: i32)
    ensures
        r == sat_i32(a - b),
{
    let s: i64 = a as i64 - b as i64;
    if s > i32::MAX as i64 {
        i32::MAX
    } else if s < i32::MIN as i64 {
        i32::MIN
    } else {
        s as i32
    }
}

/// The bounds an applet is given when it is let grow by `expand` along the
/// panel: the cross length is cleared, and a length along the panel other
/// than zero grows by `expand`, held to `i32`. Whether the applet was passed
/// over, because it had no bounds or no length along the panel.
pub open spec fn relaxed_bounds(horizontal: bool, bounds: Option<(i32, i32)>, expand: i32) -> (Option<Extent>, bool) {
    match bounds {
        None => (None, true),
        Some((w, h)) => if horizontal {
            if w != 0 { (Some(Extent { w: sat_i32(w + expand), h: 0 }), false) } else { (Some(Extent { w, h: 0 }), true) }
        } else {
            if h != 0 { (Some(Extent { w: 0, h: sat_i32(h + expand) }), false) } else { (Some(Extent { w: 0, h }), true) }
        },
    }
}

/// Letting the constrained applets grow, the last one first, while extra
/// space is left: each is configured anew; the first one with bounds along
/// the panel takes all of the extra space.
pub open spec fn relax_pass(horizontal: bool, apps: Seq<ShrinkableApplet>, extra: u32) -> Seq<OverflowAction>
    decreases apps.len(),
{
    if apps.len() == 0 || extra == 0 {
        seq![]
    } else {
        let a = apps.last();
        let expand = extra as i32;
        let (nb, skip) = relaxed_bounds(horizontal, a.bounds, expand);
        let left: u32 = if skip { extra } else { sat_sub(extra as int, (expand as u32) as int) as u32 };
        seq![OverflowAction::Relax { window: a.window, bounds: nb }] + relax_pass(horizontal, apps.drop_last(), left)
    }
}

/// Lets the constrained applets of a section grow into `extra_space`, unless
/// the layout is still being retried; returns the configurations to send.
pub fn relax_overflow_clients(
    remap_attempts: u32,
    horizontal: bool,
    constrained: &Vec<ShrinkableApplet>,
    extra_space: u32,
) -> (acts: Vec<OverflowAction>)
    ensures
        acts@ == if remap_attempts > 0 { Seq::<OverflowAction>::empty() } else { relax_pass(horizontal, constrained@, extra_space) },
{
    let mut acts: Vec<OverflowAction> = Vec::new();
    if remap_attempts > 0 {
        return acts;
    }
    let mut extra = extra_space;
    let mut n: usize = constrained.len();
    assert(constrained@.take(n as int) =~= constrained@);
    assert(acts@ + relax_pass(horizontal, constrained@, extra_space) =~= relax_pass(horizontal, constrained@, extra_space));
    while n > 0
        invariant_except_break
            n <= constrained@.len(),
            acts@ + relax_pass(horizontal, constrained@.take(n as int), extra) == relax_pass(horizontal, constrained@, extra_space),
        ensures
            acts@ == relax_pass(horizontal, constrained@, extra_space),
        decreases n,
    {
        let ghost pre = constrained@.take(n as int);
        if extra == 0 {
            assert(acts@ =~= acts@ + Seq::<OverflowAction>::empty());
            break;
        }
        let a = constrained[n - 1];
        assert(pre.last() == a);
        assert(pre.drop_last() =~= constrained@.take(n - 1));
        let expand = #[verifier::truncate] (extra as i32);
        let (nb, skip) = match a.bounds {
            None => (None, true),
            Some((w, h)) => if horizontal {
                if w != 0 { (Some(Extent { w: saturating_add_i32(w, expand), h: 0 }), false) } else { (Some(Extent { w, h: 0 }), true) }
            } else {
                if h != 0 { (Some(Extent { w: 0, h: saturating_add_i32(h, expand) }), false) } else { (Some(Extent { w: 0, h }), true) }
            },
        };
        let act = OverflowAction::Relax { window: a.window, bounds: nb };
        let ghost before = acts@;
        acts.push(act);
        if !skip {
            extra = extra.saturating_sub(#[verifier::truncate] (expand as u32));
        }
        n = n - 1;
        assert(acts@ + relax_pass(horizontal, constrained@.take(n as int), extra)
            =~= before + (seq![act] + relax_pass(horizontal, constrained@.take(n as int), extra)));
    }
    proof {
        if n == 0 {
            assert(acts@ =~= acts@ + relax_pass(horizontal, constrained@.take(0), extra));
        }
    }
    acts
}


/// Whether a shrinkable applet counts as constrained: it has no bounds, or
/// bounds along the panel, or its box is longer than its bounds at the
/// output's scale (`scaled_bound`) by more than the suggested size.
pub open spec fn is_constrained(horizontal: bool, a: ShrinkableApplet, scaled_bound: i32, suggested: u32) -> bool {
    match a.bounds {
        None => true,
        Some((bw, bh)) => {
            let (b, cur) = if horizontal { (bw, a.bbox_w) } else { (bh, a.bbox_h) };
            b != 0 || sat_i32(cur - scaled_bound) > (suggested as i32)
        },
    }
}

/// Whether a shrinkable applet counts as relaxed: it has no bounds, or no
/// bounds along the panel, or its box is longer than its bounds at the
/// output's scale, rounded (`rounded_bound`), by more than the suggested
/// size.
pub open spec fn is_relaxed(horizontal: bool, a: ShrinkableApplet, rounded_bound: i32, suggested: u32) -> bool {
    match a.bounds {
        None => true,
        Some((bw, bh)) => {
            let (b, cur) = if horizontal { (bw, a.bbox_w) } else { (bh, a.bbox_h) };
            b == 0 || sat_i32(cur - rounded_bound) > (suggested as i32)
        },
    }
}

/// The constrained applets of `apps`, in order; `scaled[i]` is the bound
/// along the panel of `apps[i]` at the output's scale.
pub open spec fn constrained_spec(horizontal: bool, apps: Seq<ShrinkableApplet>, scaled: Seq<i32>, suggested: u32) -> Seq<ShrinkableApplet>
    decreases apps.len(),
{
    if apps.len() == 0 {
        seq![]
    } else {
        let rest = constrained_spec(horizontal, apps.drop_last(), scaled, suggested);
        if is_constrained(horizontal, apps.last(), scaled[apps.len() - 1], suggested) {
            rest.push(apps.last())
        } else {
            rest
        }
    }
}

/// Whether every shrinkable applet is relaxed; `rounded[i]` is the bound
/// along the panel of `apps[i]` at the output's scale, rounded.
pub open spec fn all_relaxed(horizontal: bool, apps: Seq<ShrinkableApplet>, rounded: Seq<i32>, suggested: u32) -> bool {
    forall|i: int| 0 <= i < apps.len() ==> is_relaxed(horizontal, #[trigger] apps[i], rounded[i], suggested)
}

impl OverflowClientPartition {
    /// The shrinkable applets that are constrained, in order; `scaled[i]` is
    /// the bound along the panel of the `i`-th shrinkable applet at the
    /// output's scale, truncated to an integer.
    pub fn constrained_shrinkables(&self, horizontal: bool, scaled: &Vec<i32>) -> (res: Vec<ShrinkableApplet>)
        requires
            scaled@.len() == self.shrinkable@.len(),
        ensures
            res@ == constrained_spec(horizontal, self.shrinkable@, scaled@, self.suggested_size),
    {
        let mut res: Vec<ShrinkableApplet> = Vec::new();
        let mut i: usize = 0;
        while i < self.shrinkable.len()
            invariant
                i <= self.shrinkable@.len(),
                scaled@.len() == self.shrinkable@.len(),
                res@ == constrained_spec(horizontal, self.shrinkable@.take(i as int), scaled@, self.suggested_size),
            decreases self.shrinkable@.len() - i,
        {
            let a = self.shrinkable[i];
            let ghost pre = self.shrinkable@.take(i + 1);
            assert(pre.drop_last() =~= self.shrinkable@.take(i as int));
            assert(pre.last() == a);
            let keep = match a.bounds {
                None => true,
                Some((bw, bh)) => {
                    let (b, cur) = if horizontal { (bw, a.bbox_w) } else { (bh, a.bbox_h) };
                    b != 0 || saturating_sub_i32(cur, scaled[i]) > #[verifier::truncate] (self.suggested_size as i32)
                },
            };
            if keep {
                res.push(a);
            }
            i = i + 1;
        }
        assert(self.shrinkable@.take(i as int) =~= self.shrinkable@);
        res
    }

    /// Whether there are no shrinkable applets or all of them are relaxed;
    /// `rounded[i]` is the bound along the panel of the `i`-th shrinkable
    /// applet at the output's scale, rounded to an integer.
    pub fn shrinkable_is_relaxed(&self, horizontal: bool, rounded: &Vec<i32>) -> (res: bool)
        requires
            rounded@.len() == self.shrinkable@.len(),
        ensures
            res == all_relaxed(horizontal, self.shrinkable@, rounded@, self.suggested_size),
    {
        let mut i: usize = 0;
        while i < self.shrinkable.len()
            invariant
                i <= self.shrinkable@.len(),
                rounded@.len() == self.shrinkable@.len(),
                forall|k: int| 0 <= k < i ==> is_relaxed(horizontal, #[trigger] self.shrinkable@[k], rounded@[k], self.suggested_size),
            decreases self.shrinkable@.len() - i,
        {
            let a = self.shrinkable[i];
            let relaxed = match a.bounds {
                None => true,
                Some((bw, bh)) => {
                    let (b, cur) = if horizontal { (bw, a.bbox_w) } else { (bh, a.bbox_h) };
                    b == 0 || saturating_sub_i32(cur, rounded[i]) > #[verifier::truncate] (self.suggested_size as i32)
                },
            };
            if !relaxed {
                assert(!is_relaxed(horizontal, self.shrinkable@[i as int], rounded@[i as int], self.suggested_size));
                return false;
            }
            i = i + 1;
        }
        true
    }
}

/// What relaxing a section decides: the windows that move from the overflow
/// popup back to the panel, whether the section's overflow button leaves the
/// panel, and the configurations of applets that may grow.
pub struct RelaxOutcome {
    pub moved: Vec<u64>,
    pub remove_button: bool,
    pub relaxed: Vec<OverflowAction>,
}

/// The suggested length of a window coming back from the overflow popup:
/// the applet icon with its padding on both sides.
pub open spec fn back_suggested(m: OverflowMetrics) -> int {
    m.icon_size + 2 * m.applet_padding
}

/// Relaxing a section that has `extra` length to spare: when all its
/// shrinkable applets are relaxed, windows move back from the overflow
/// popup, and the overflow button goes once only the popup is left there;
/// otherwise the constrained applets may grow, for the left section only
/// when the extra length is more than the suggested length.
pub open spec fn relax_section_spec(
    section: OverflowSection,
    m: OverflowMetrics,
    shrinkable: Seq<ShrinkableApplet>,
    suggested_size: u32,
    scaled: Seq<i32>,
    rounded: Seq<i32>,
    remap_attempts: u32,
    extra: u32,
    elements: Seq<PopupElement>,
    has_button: bool,
) -> (Seq<u64>, bool, Seq<OverflowAction>) {
    if all_relaxed(m.horizontal, shrinkable, rounded, suggested_size) {
        let (moved, _, stay) = move_from_pass(m.horizontal, elements, extra as int, back_suggested(m));
        (moved, has_button && forall|k: int| 0 <= k < stay.len() ==> #[trigger] stay[k] is Popup, seq![])
    } else if section != OverflowSection::Left || extra > back_suggested(m) {
        let constrained = constrained_spec(m.horizontal, shrinkable, scaled, suggested_size);
        (seq![], false, if remap_attempts > 0 { seq![] } else { relax_pass(m.horizontal, constrained, extra) })
    } else {
        (seq![], false, seq![])
    }
}

/// Whether all the given popup elements are popups.
fn all_popups(elements: &Vec<PopupElement>) -> (res: bool)
    ensures
        res == forall|k: int| 0 <= k < elements@.len() ==> #[trigger] elements@[k] is Popup,
{
    let mut i: usize = 0;
    while i < elements.len()
        invariant
            i <= elements@.len(),
            forall|k: int| 0 <= k < i ==> #[trigger] elements@[k] is Popup,
        decreases elements@.len() - i,
    {
        match elements[i] {
            PopupElement::Window { .. } => {
                return false;
            },
            PopupElement::Popup { .. } => {},
        }
        i = i + 1;
    }
    true
}

/// Relaxes a section with `extra_space` to spare, as [`relax_section_spec`]
/// says; `scaled` and `rounded` hold, for each shrinkable applet, its bound
/// along the panel at the output's scale, truncated and rounded.
pub fn relax_section(
    section: OverflowSection,
    m: OverflowMetrics,
    clients: &OverflowClientPartition,
    scaled: &Vec<i32>,
    rounded: &Vec<i32>,
    remap_attempts: u32,
    extra_space: u32,
    elements: &Vec<PopupElement>,
    has_button: bool,
) -> (res: RelaxOutcome)
    requires
        scaled@.len() == clients.shrinkable@.len(),
        rounded@.len() == clients.shrinkable@.len(),
        (section == OverflowSection::Left || all_relaxed(m.horizontal, clients.shrinkable@, rounded@, clients.suggested_size))
            ==> back_suggested(m) <= u32::MAX,
    ensures
        ({
            let (moved, remove, relaxed) = relax_section_spec(section, m, clients.shrinkable@, clients.suggested_size,
                scaled@, rounded@, remap_attempts, extra_space, elements@, has_button);
            res.moved@ == moved && res.remove_button == remove && res.relaxed@ == relaxed
        }),
{
    let relaxed = clients.shrinkable_is_relaxed(m.horizontal, rounded);
    if relaxed {
        let suggested = m.icon_size + m.applet_padding * 2;
        let (_, moved, stay) = move_from_overflow(extra_space, m.horizontal, elements, suggested);
        let remove_button = if has_button { all_popups(&stay) } else { false };
        RelaxOutcome { moved, remove_button, relaxed: Vec::new() }
    } else {
        let go = match section {
            OverflowSection::Left => extra_space > m.icon_size + m.applet_padding * 2,
            _ => true,
        };
        if go {
            let constrained = clients.constrained_shrinkables(m.horizontal, scaled);
            let acts = relax_overflow_clients(remap_attempts, m.horizontal, &constrained, extra_space);
            RelaxOutcome { moved: Vec::new(), remove_button: false, relaxed: acts }
        } else {
            RelaxOutcome { moved: Vec::new(), remove_button: false, relaxed: Vec::new() }
        }
    }
}


/// What relaxing one section needs: its applets, for each shrinkable applet
/// its bound along the panel at the output's scale, truncated and rounded,
/// the elements of its overflow popup, and whether the panel shows its
/// overflow button.
pub struct SectionRelaxInput {
    pub clients: OverflowClientPartition,
    pub scaled: Vec<i32>,
    pub rounded: Vec<i32>,
    pub elements: Vec<PopupElement>,
    pub has_button: bool,
}

/// Whether the per-applet bounds of a section input match its applets.
pub open spec fn section_input_ok(inp: SectionRelaxInput) -> bool {
    &&& inp.scaled@.len() == inp.clients.shrinkable@.len()
    &&& inp.rounded@.len() == inp.clients.shrinkable@.len()
}

/// Relaxing one section with all the room there is: the section relaxes
/// with unbounded extra space, then whatever is still in its overflow popup
/// moves back as far as it can.
pub open spec fn relax_fully_spec(section: OverflowSection, m: OverflowMetrics, remap_attempts: u32, inp: SectionRelaxInput)
    -> (Seq<u64>, bool, Seq<OverflowAction>)
{
    let (moved1, remove, relaxed) = relax_section_spec(section, m, inp.clients.shrinkable@, inp.clients.suggested_size,
        inp.scaled@, inp.rounded@, remap_attempts, u32::MAX, inp.elements@, inp.has_button);
    let remaining = if all_relaxed(m.horizontal, inp.clients.shrinkable@, inp.rounded@, inp.clients.suggested_size) {
        move_from_pass(m.horizontal, inp.elements@, u32::MAX as int, back_suggested(m)).2
    } else {
        inp.elements@
    };
    let moved2 = move_from_pass(m.horizontal, remaining, u32::MAX as int, back_suggested(m)).0;
    (moved1 + moved2, remove, relaxed)
}

fn relax_fully(section: OverflowSection, m: OverflowMetrics, remap_attempts: u32, inp: &SectionRelaxInput) -> (res: RelaxOutcome)
    requires
        section_input_ok(*inp),
        back_suggested(m) <= u32::MAX,
    ensures
        ({
            let (moved, remove, relaxed) = relax_fully_spec(section, m, remap_attempts, *inp);
            res.moved@ == moved && res.remove_button == remove && res.relaxed@ == relaxed
        }),
{
    let suggested = m.icon_size + m.applet_padding * 2;
    let first = relax_section(section, m, &inp.clients, &inp.scaled, &inp.rounded, remap_attempts, u32::MAX,
        &inp.elements, inp.has_button);
    let relaxed = inp.clients.shrinkable_is_relaxed(m.horizontal, &inp.rounded);
    let mut moved = first.moved;
    let (_, more) = if relaxed {
        let (_, _, stay) = move_from_overflow(u32::MAX, m.horizontal, &inp.elements, suggested);
        let (x, more, _) = move_from_overflow(u32::MAX, m.horizontal, &stay, suggested);
        (x, more)
    } else {
        let (x, more, _) = move_from_overflow(u32::MAX, m.horizontal, &inp.elements, suggested);
        (x, more)
    };
    let ghost m1 = moved@;
    let mut j: usize = 0;
    while j < more.len()
        invariant
            j <= more@.len(),
            moved@ == m1 + more@.take(j as int),
        decreases more@.len() - j,
    {
        moved.push(more[j]);
        j = j + 1;
        assert(moved@ =~= m1 + more@.take(j as int));
    }
    assert(more@.take(j as int) =~= more@);
    RelaxOutcome { moved, remove_button: first.remove_button, relaxed: first.relaxed }
}

/// Relaxes all three sections of the panel with all the room there is, left,
/// center, then right; each outcome as [`relax_fully_spec`] says.
pub fn relax_all(
    m: OverflowMetrics,
    remap_attempts: u32,
    left: &SectionRelaxInput,
    center: &SectionRelaxInput,
    right: &SectionRelaxInput,
) -> (res: (RelaxOutcome, RelaxOutcome, RelaxOutcome))
    requires
        section_input_ok(*left),
        section_input_ok(*center),
        section_input_ok(*right),
        back_suggested(m) <= u32::MAX,
    ensures
        ({
            let (lm, lr, la) = relax_fully_spec(OverflowSection::Left, m, remap_attempts, *left);
            res.0.moved@ == lm && res.0.remove_button == lr && res.0.relaxed@ == la
        }),
        ({
            let (cm, cr, ca) = relax_fully_spec(OverflowSection::Center, m, remap_attempts, *center);
            res.1.moved@ == cm && res.1.remove_button == cr && res.1.relaxed@ == ca
        }),
        ({
            let (rm, rr, ra) = relax_fully_spec(OverflowSection::Right, m, remap_attempts, *right);
            res.2.moved@ == rm && res.2.remove_button == rr && res.2.relaxed@ == ra
        }),
{
    let l = relax_fully(OverflowSection::Left, m, remap_attempts, left);
    let c = relax_fully(OverflowSection::Center, m, remap_attempts, center);
    let r = relax_fully(OverflowSection::Right, m, remap_attempts, right);
    (l, c, r)
}


/// The sizes the reordering of an overflow popup uses: the orientation, the
/// applet size with its padding, and the panel's padding and spacing.
#[derive(Clone, Copy, Debug, PartialEq, Eq, Structural)]
pub struct ReorderMetrics {
    pub horizontal: bool,
    pub unit: u32,
    pub padding: u32,
    pub spacing: u32,
}

/// A step of reordering an overflow popup: a dead window leaves it; a window
/// goes to `(x, y)`; the popup is made anew for the given count.
#[derive(Clone, Copy, Debug, PartialEq, Eq, Structural)]
pub enum ReorderAction {
    Unmap { window: u64 },
    Place { window: u64, x: i32, y: i32 },
    ReplacePopup { count: usize },
}

/// The place of the `cnt`-th window in the reordered popup: rows of eight,
/// inside the border and the padding; transposed on a vertical panel.
pub open spec fn reorder_grid(m: ReorderMetrics, cnt: int) -> (i32, i32) {
    let step = (m.unit as i32) as int + (m.spacing as i32) as int;
    let x = 1 + (m.padding as i32) as int + ((cnt % 8) as i32) as int * step;
    let y = 1 + (m.padding as i32) as int + ((cnt / 8) as i32) as int * step;
    if m.horizontal { (x as i32, y as i32) } else { (y as i32, x as i32) }
}

/// Whether `reorder_grid` stays within its 32-bit arithmetic.
pub open spec fn reorder_grid_fits(m: ReorderMetrics, cnt: int) -> bool {
    let in_i32 = |v: int| i32::MIN <= v <= i32::MAX;
    let step = (m.unit as i32) as int + (m.spacing as i32) as int;
    let xs = ((cnt % 8) as i32) as int * step;
    let ys = ((cnt / 8) as i32) as int * step;
    &&& in_i32(step)
    &&& in_i32(1 + (m.padding as i32) as int)
    &&& in_i32(xs)
    &&& in_i32(ys)
    &&& in_i32(1 + (m.padding as i32) as int + xs)
    &&& in_i32(1 + (m.padding as i32) as int + ys)
}

/// The key by which popup elements are ordered: the position of a window's
/// client, and before all of them windows without a client and the popup.
pub open spec fn element_key(e: PopupElement) -> i64 {
    match e {
        PopupElement::Window { client_pos: Some(p), .. } => p as i64,
        _ => -1i64,
    }
}

/// The elements that stay in the popup, and the dead windows that leave it,
/// each in order.
pub open spec fn split_alive(u: Seq<PopupElement>) -> (Seq<PopupElement>, Seq<u64>)
    decreases u.len(),
{
    if u.len() == 0 {
        (seq![], seq![])
    } else {
        let (a, d) = split_alive(u.drop_last());
        match u.last() {
            PopupElement::Window { window, alive, .. } => if alive { (a.push(u.last()), d) } else { (a, d.push(window)) },
            PopupElement::Popup { .. } => (a.push(u.last()), d),
        }
    }
}

/// Placing the ordered elements: each window takes the next place of the
/// grid; a popup made for another count than `cur` is made anew for one
/// fewer than `cur`.
pub open spec fn place_actions(m: ReorderMetrics, t: Seq<PopupElement>, cnt: int, cur: int) -> Seq<ReorderAction>
    decreases t.len(),
{
    if t.len() == 0 {
        seq![]
    } else {
        match t[0] {
            PopupElement::Window { window, .. } => {
                let (x, y) = reorder_grid(m, cnt);
                seq![ReorderAction::Place { window, x, y }] + place_actions(m, t.drop_first(), cnt + 1, cur)
            },
            PopupElement::Popup { count, .. } => {
                let now: Seq<ReorderAction> = if count as int != cur {
                    seq![ReorderAction::ReplacePopup { count: sat_sub(cur, 1) as usize }]
                } else {
                    seq![]
                };
                now + place_actions(m, t.drop_first(), cnt, cur)
            },
        }
    }
}

/// Reordering an overflow popup: nothing when it is empty; otherwise dead
/// windows leave, and, when the panel has an output, the rest is ordered by
/// the position of each window's client, ties in the popup's order, and
/// placed.
pub open spec fn reorder_spec(m: ReorderMetrics, u: Seq<PopupElement>, has_output: bool) -> Seq<ReorderAction> {
    if u.len() == 0 {
        seq![]
    } else {
        let (a, d) = split_alive(u);
        let unmaps = d.map_values(|w: u64| ReorderAction::Unmap { window: w });
        if !has_output {
            unmaps
        } else {
            let order = stable_order_of(a.map_values(|e: PopupElement| element_key(e)));
            let t = Seq::new(order.len(), |k: int| a[order[k] as int]);
            unmaps + place_actions(m, t, 0, a.len() as int)
        }
    }
}

/// Whether the elements' client positions fit the ordering key.
pub open spec fn client_positions_fit(u: Seq<PopupElement>) -> bool {
    forall|i: int| 0 <= i < u.len() ==> match #[trigger] u[i] {
        PopupElement::Window { client_pos: Some(p), .. } => p <= i64::MAX,
        _ => true,
    }
}

proof fn lemma_split_alive(u: Seq<PopupElement>)
    ensures
        split_alive(u).0.len() <= u.len(),
        forall|i: int| 0 <= i < split_alive(u).0.len() ==> exists|j: int| 0 <= j < u.len() && #[trigger] split_alive(u).0[i] == u[j],
    decreases u.len(),
{
    if u.len() > 0 {
        lemma_split_alive(u.drop_last());
        let (a0, _) = split_alive(u.drop_last());
        let a = split_alive(u).0;
        assert forall|i: int| 0 <= i < a.len() implies exists|j: int| 0 <= j < u.len() && #[trigger] a[i] == u[j] by {
            if i < a0.len() {
                assert(a[i] == a0[i]);
                let j = choose|j: int| 0 <= j < u.drop_last().len() && a0[i] == u.drop_last()[j];
                assert(u.drop_last()[j] == u[j]);
            } else {
                assert(a[i] == u[u.len() - 1]);
            }
        }
    }
}

/// Reorders a section's overflow popup, as [`reorder_spec`] says; the steps
/// come out in the order to carry them out.
pub fn reorder_overflow_space(m: ReorderMetrics, elements: &Vec<PopupElement>, has_output: bool) -> (acts: Vec<ReorderAction>)
    requires
        client_positions_fit(elements@),
        forall|c: int| 0 <= c < elements@.len() ==> #[trigger] reorder_grid_fits(m, c),
    ensures
        acts@ == reorder_spec(m, elements@, has_output),
{
    let mut acts: Vec<ReorderAction> = Vec::new();
    if elements.len() == 0 {
        return acts;
    }
    let mut alive: Vec<PopupElement> = Vec::new();
    let mut i: usize = 0;
    while i < elements.len()
        invariant
            i <= elements@.len(),
            alive@ == split_alive(elements@.take(i as int)).0,
            acts@ == split_alive(elements@.take(i as int)).1.map_values(|w: u64| ReorderAction::Unmap { window: w }),
        decreases elements@.len() - i,
    {
        let ghost t = elements@.take(i + 1);
        assert(t.drop_last() =~= elements@.take(i as int));
        let e = elements[i];
        assert(t.last() == e);
        let ghost d0 = split_alive(elements@.take(i as int)).1;
        match e {
            PopupElement::Window { window, alive: is_alive, .. } => {
                if is_alive {
                    alive.push(e);
                } else {
                    acts.push(ReorderAction::Unmap { window });
                    assert(d0.push(window).map_values(|w: u64| ReorderAction::Unmap { window: w })
                        =~= d0.map_values(|w: u64| ReorderAction::Unmap { window: w }).push(ReorderAction::Unmap { window }));
                }
            },
            PopupElement::Popup { .. } => {
                alive.push(e);
            },
        }
        i = i + 1;
    }
    assert(elements@.take(i as int) =~= elements@);
    if !has_output {
        return acts;
    }
    proof { lemma_split_alive(elements@); }
    let ghost a = alive@;
    let mut keys: Vec<i64> = Vec::new();
    let mut k: usize = 0;
    while k < alive.len()
        invariant
            k <= alive@.len(),
            alive@ == a,
            a.len() <= elements@.len(),
            forall|x: int| 0 <= x < a.len() ==> exists|j: int| 0 <= j < elements@.len() && #[trigger] a[x] == elements@[j],
            client_positions_fit(elements@),
            keys@.len() == k,
            forall|q: int| 0 <= q < k ==> (#[trigger] keys@[q]) == element_key(a[q]),
        decreases alive@.len() - k,
    {
        let e = alive[k];
        let key: i64 = match e {
            PopupElement::Window { client_pos: Some(p), .. } => {
                proof {
                    let j = choose|j: int| 0 <= j < elements@.len() && a[k as int] == elements@[j];
                    assert(match elements@[j] {
                        PopupElement::Window { client_pos: Some(p), .. } => p <= i64::MAX,
                        _ => true,
                    });
                }
                p as i64
            },
            _ => -1,
        };
        keys.push(key);
        k = k + 1;
    }
    assert(keys@ =~= a.map_values(|e: PopupElement| element_key(e)));
    let order = stable_order(&keys);
    let ghost t = Seq::new(order@.len(), |q: int| a[order@[q] as int]);
    let cur = alive.len();
    let mut cnt: usize = 0;
    let ghost head = acts@;
    let ghost total = place_actions(m, t, 0, cur as int);
    let mut q: usize = 0;
    assert(t.subrange(0, t.len() as int) =~= t);
    assert(acts@ + total =~= head + total);
    while q < order.len()
        invariant
            q <= order@.len(),
            order@.len() == a.len(),
            alive@ == a,
            cur == a.len(),
            a.len() <= elements@.len(),
            t.len() == order@.len(),
            forall|x: int| 0 <= x < order@.len() ==> (#[trigger] order@[x]) < a.len(),
            forall|x: int| 0 <= x < t.len() ==> #[trigger] t[x] == a[order@[x] as int],
            forall|c: int| 0 <= c < elements@.len() ==> #[trigger] reorder_grid_fits(m, c),
            cnt <= q,
            acts@ + place_actions(m, t.subrange(q as int, t.len() as int), cnt as int, cur as int) == head + total,
        decreases order@.len() - q,
    {
        let ghost rest = t.subrange(q as int, t.len() as int);
        assert(rest.drop_first() =~= t.subrange(q + 1, t.len() as int));
        let e = alive[order[q]];
        assert(rest[0] == e);
        let ghost before = acts@;
        match e {
            PopupElement::Window { window, .. } => {
                assert(reorder_grid_fits(m, cnt as int));
                let step: i32 = #[verifier::truncate] (m.unit as i32) + #[verifier::truncate] (m.spacing as i32);
                let pad: i32 = #[verifier::truncate] (m.padding as i32);
                let xi: i32 = (cnt % 8) as i32;
                let yi: i32 = #[verifier::truncate] ((cnt / 8) as i32);
                let x0: i32 = 1 + pad + xi * step;
                let y0: i32 = 1 + pad + yi * step;
                let (x, y) = if m.horizontal { (x0, y0) } else { (y0, x0) };
                let act = ReorderAction::Place { window, x, y };
                assert((x, y) == reorder_grid(m, cnt as int));
                acts.push(act);
                cnt = cnt + 1;
                assert(acts@ + place_actions(m, t.subrange(q + 1, t.len() as int), cnt as int, cur as int)
                    =~= before + (seq![act] + place_actions(m, rest.drop_first(), cnt as int, cur as int)));
            },
            PopupElement::Popup { count, .. } => {
                let ghost now_acts: Seq<ReorderAction> = if count as int != cur as int {
                    seq![ReorderAction::ReplacePopup { count: sat_sub(cur as int, 1) as usize }]
                } else {
                    seq![]
                };
                if count != cur {
                    acts.push(ReorderAction::ReplacePopup { count: cur.saturating_sub(1) });
                }
                assert(acts@ + place_actions(m, t.subrange(q + 1, t.len() as int), cnt as int, cur as int)
                    =~= before + (now_acts + place_actions(m, rest.drop_first(), cnt as int, cur as int)));
            },
        }
        q = q + 1;
    }
    assert(t.subrange(q as int, t.len() as int) =~= Seq::<PopupElement>::empty());
    assert(acts@ =~= acts@ + Seq::<ReorderAction>::empty());
    acts
}


/// Moving windows back from the overflow popup never uses more room than
/// there is: the extra length left is between zero and what there was, and
/// every element either moves back (a window) or stays.
pub proof fn lemma_move_from_accounts(horizontal: bool, elems: Seq<PopupElement>, extra: int, suggested: int)
    requires
        extra >= 0,
    ensures
        0 <= move_from_pass(horizontal, elems, extra, suggested).1 <= extra,
        move_from_pass(horizontal, elems, extra, suggested).0.len() + move_from_pass(horizontal, elems, extra, suggested).2.len()
            == elems.len(),
    decreases elems.len(),
{
    if elems.len() > 0 && extra >= suggested {
        let e = elems[0];
        let len = element_major(horizontal, e);
        if extra >= len && e is Window {
            lemma_move_from_accounts(horizontal, elems.drop_first(), extra - len, suggested);
        } else {
            lemma_move_from_accounts(horizontal, elems.drop_first(), extra, suggested);
        }
    }
}

/// A section needs at least two applets that may move before any moves to
/// its overflow popup: with fewer, nothing is done and nothing changes.
pub proof fn lemma_single_movable_stays(m: OverflowMetrics, movs: Seq<MovableApplet>, overflow: int, os: OverflowModel)
    requires
        movs.len() <= 1,
    ensures
        move_to_overflow_spec(m, movs, overflow, os) == (Seq::<OverflowAction>::empty(), overflow, os),
{
}

/// Letting constrained applets grow gives all of the extra space to one
/// applet: every applet configured before the last one was passed over,
/// because it had no bounds along the panel.
pub proof fn lemma_relax_grows_one(horizontal: bool, apps: Seq<ShrinkableApplet>, extra: u32)
    ensures
        relax_pass(horizontal, apps, extra).len() <= apps.len(),
        forall|k: int| 0 <= k < relax_pass(horizontal, apps, extra).len() - 1 ==>
            relaxed_bounds(horizontal, (#[trigger] apps[apps.len() - 1 - k]).bounds, extra as i32).1,
    decreases apps.len(),
{
    if apps.len() > 0 && extra != 0 {
        let a = apps.last();
        let expand = extra as i32;
        let (nb, skip) = relaxed_bounds(horizontal, a.bounds, expand);
        let left: u32 = if skip { extra } else { sat_sub(extra as int, (expand as u32) as int) as u32 };
        assert(((extra as i32) as u32) == extra) by (bit_vector);
        lemma_relax_grows_one(horizontal, apps.drop_last(), left);
        let r = relax_pass(horizontal, apps, extra);
        let rest = relax_pass(horizontal, apps.drop_last(), left);
        if !skip {
            assert(left == 0);
            assert(rest.len() == 0);
        } else {
            assert forall|k: int| 0 <= k < r.len() - 1 implies
                relaxed_bounds(horizontal, (#[trigger] apps[apps.len() - 1 - k]).bounds, extra as i32).1 by {
                if k > 0 {
                    assert(apps.drop_last()[apps.drop_last().len() - 1 - (k - 1)] == apps[apps.len() - 1 - k]);
                }
            }
        }
    }
}

/// What a section does with the length it lacks (positive) or has to
/// spare (negative): relax its overflow by the amount when the amount is
/// below the suggested size (which is negative: some room to spare is
/// tolerated), shrink by it when it lacks room, nothing otherwise.
#[derive(Clone, Copy, Debug, PartialEq, Eq, Structural)]
pub enum SectionFit {
    Relax(u32),
    Shrink(u32),
    Fits,
}

/// The absolute value of an `i32`, as a `u32`.
pub open spec fn unsigned_abs(v: i32) -> u32 {
    if v < 0 { (-(v as int)) as u32 } else { v as u32 }
}

/// What a section does with its overflow, as [`SectionFit`] says.
pub fn section_overflow(overflow: i32, suggested_size: i32) -> (res: SectionFit)
    ensures
        res == if overflow < suggested_size {
            SectionFit::Relax(unsigned_abs(overflow))
        } else if overflow > 0 {
            SectionFit::Shrink(overflow as u32)
        } else {
            SectionFit::Fits
        },
{
    if overflow < suggested_size {
        let a: u32 = if overflow < 0 { (-(overflow as i64)) as u32 } else { overflow as u32 };
        SectionFit::Relax(a)
    } else if overflow > 0 {
        SectionFit::Shrink(overflow as u32)
    } else {
        SectionFit::Fits
    }
}

} // verus!

