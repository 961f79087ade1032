//! Where the applets of the panel go.
//!
//! The panel's windows are assigned to its three sections by the client that
//! made them and ordered as their clients are listed; a dock keeps them all
//! in the center. Each window is measured along and across the panel, the
//! sections are counted, windows are centered across the bar, and the input
//! region covers the drawn panel with one extra pixel toward the edge. A
//! layout that changes the panel's thickness asks for a resize first; the
//! background rounds the corners facing the output.

use vstd::prelude::*;
use crate::panel_space::PanelAnchor;
use crate::sorting::{stable_order, stable_order_of};
use crate::dock_space::{center_in_bar, center_in_bar_spec, center_in_bar_fits};

verus! {

/// A live window on the panel, in the panel's order: its identity, whether
/// it has a toplevel surface, the client that made it, and the size of its
/// box.
#[derive(Clone, Copy, Debug, PartialEq, Eq, Structural)]
pub struct PanelWindow {
    pub window: u64,
    pub has_toplevel: bool,
    pub client: u64,
    pub bbox_w: i32,
    pub bbox_h: i32,
}

/// A client of a section: its identity and, when it is the minimize applet,
/// its priority.
#[derive(Clone, Copy, Debug, PartialEq, Eq)]
pub struct SectionClient {
    pub client: u64,
    pub minimize_priority: Option<u32>,
}

/// A window placed in a section: its position in the section, its identity,
/// and the minimize priority of its client.
#[derive(Clone, Copy, Debug, PartialEq, Eq)]
pub struct LaidWindow {
    pub index: usize,
    pub window: u64,
    pub minimize_priority: Option<u32>,
}

/// The position of the first client of `clients` with identity `c`, if any.
pub open spec fn first_client(clients: Seq<SectionClient>, c: u64) -> Option<int>
    decreases clients.len(),
{
    if clients.len() == 0 {
        None
    } else {
        match first_client(clients.drop_last(), c) {
            Some(i) => Some(i),
            None => if clients.last().client == c { Some(clients.len() - 1) } else { None },
        }
    }
}

proof fn lemma_first_client_bounds(clients: Seq<SectionClient>, c: u64)
    ensures
        match first_client(clients, c) {
            Some(i) => 0 <= i < clients.len() && clients[i].client == c,
            None => forall|j: int| 0 <= j < clients.len() ==> (#[trigger] clients[j]).client != c,
        },
    decreases clients.len(),
{
    if clients.len() > 0 {
        lemma_first_client_bounds(clients.drop_last(), c);
        if first_client(clients.drop_last(), c) is None {
            assert forall|j: int| 0 <= j < clients.len() - 1 implies (#[trigger] clients[j]).client != c by {
                assert(clients.drop_last()[j] == clients[j]);
            }
        } else {
            let i = first_client(clients.drop_last(), c)->0;
            assert(clients.drop_last()[i] == clients[i]);
        }
    }
}

proof fn lemma_first_client_prefix(clients: Seq<SectionClient>, c: u64, k: int)
    requires
        0 <= k <= clients.len(),
        first_client(clients.take(k), c) is Some,
    ensures
        first_client(clients, c) == first_client(clients.take(k), c),
    decreases clients.len() - k,
{
    if k == clients.len() {
        assert(clients.take(k) =~= clients);
    } else {
        assert(clients.drop_last().take(k) =~= clients.take(k));
        lemma_first_client_prefix(clients.drop_last(), c, k);
    }
}

/// The windows of the section, in the panel's order, each with the position
/// of its client: a window without a toplevel, or whose client is not in the
/// section, is left out.
pub open spec fn matched_windows(windows: Seq<PanelWindow>, clients: Seq<SectionClient>) -> Seq<(usize, PanelWindow)>
    decreases windows.len(),
{
    if windows.len() == 0 {
        seq![]
    } else {
        let rest = matched_windows(windows.drop_last(), clients);
        let w = windows.last();
        match first_client(clients, w.client) {
            Some(i) => if w.has_toplevel { rest.push((i as usize, w)) } else { rest },
            None => rest,
        }
    }
}

/// The windows of a section with the positions of their clients, ordered by
/// those positions, windows of the same client in the panel's order.
pub open spec fn sorted_matches(windows: Seq<PanelWindow>, clients: Seq<SectionClient>) -> Seq<(usize, PanelWindow)> {
    let m = matched_windows(windows, clients);
    let order = stable_order_of(m.map_values(|x: (usize, PanelWindow)| x.0 as i64));
    Seq::new(order.len(), |k: int| m[order[k] as int])
}

/// The windows of a section ordered by the position of their clients,
/// windows of the same client in the panel's order, and numbered from zero.
pub open spec fn section_layout(windows: Seq<PanelWindow>, clients: Seq<SectionClient>) -> Seq<LaidWindow> {
    let s = sorted_matches(windows, clients);
    Seq::new(s.len(), |k: int| LaidWindow {
        index: k as usize,
        window: s[k].1.window,
        minimize_priority: clients[s[k].0 as int].minimize_priority,
    })
}

/// The position of the first client with identity `c`, as [`first_client`]
/// says.
fn find_client(clients: &Vec<SectionClient>, c: u64) -> (res: Option<usize>)
    ensures
        match first_client(clients@, c) {
            Some(i) => res == Some(i as usize) && 0 <= i < clients@.len(),
            None => res is None,
        },
{
    let mut i: usize = 0;
    while i < clients.len()
        invariant
            i <= clients@.len(),
            first_client(clients@.take(i as int), c) is None,
        decreases clients@.len() - i,
    {
        let ghost t = clients@.take(i + 1);
        assert(t.drop_last() =~= clients@.take(i as int));
        if clients[i].client == c {
            proof {
                assert(first_client(t, c) == Some(i as int));
                lemma_first_client_prefix(clients@, c, i + 1);
            }
            return Some(i);
        }
        i = i + 1;
    }
    assert(clients@.take(i as int) =~= clients@);
    None
}

proof fn lemma_matched_bounds(windows: Seq<PanelWindow>, clients: Seq<SectionClient>)
    ensures
        forall|k: int| 0 <= k < matched_windows(windows, clients).len() ==>
            (#[trigger] matched_windows(windows, clients)[k]).0 < clients.len(),
    decreases windows.len(),
{
    if windows.len() > 0 {
        lemma_matched_bounds(windows.drop_last(), clients);
        lemma_first_client_bounds(clients, windows.last().client);
        let rest = matched_windows(windows.drop_last(), clients);
        let m = matched_windows(windows, clients);
        assert forall|k: int| 0 <= k < m.len() implies (#[trigger] m[k]).0 < clients.len() by {
            if k < rest.len() {
                assert(m[k] == rest[k]);
            }
        }
    }
}

/// The windows of one section with the positions of their clients, as
/// [`sorted_matches`] says.
pub fn section_matches(windows: &Vec<PanelWindow>, clients: &Vec<SectionClient>) -> (res: Vec<(usize, PanelWindow)>)
    requires
        clients@.len() <= i64::MAX,
    ensures
        res@ == sorted_matches(windows@, clients@),
        forall|k: int| 0 <= k < res@.len() ==> (#[trigger] res@[k]).0 < clients@.len(),
{
    let mut matched: Vec<(usize, PanelWindow)> = Vec::new();
    let mut i: usize = 0;
    while i < windows.len()
        invariant
            i <= windows@.len(),
            matched@ == matched_windows(windows@.take(i as int), clients@),
        decreases windows@.len() - i,
    {
        let w = windows[i];
        let ghost t = windows@.take(i + 1);
        assert(t.drop_last() =~= windows@.take(i as int));
        assert(t.last() == w);
        if w.has_toplevel {
            if let Some(p) = find_client(clients, w.client) {
                matched.push((p, w));
            }
        } else {
            let _ = find_client(clients, w.client);
        }
        i = i + 1;
    }
    assert(windows@.take(i as int) =~= windows@);
    proof { lemma_matched_bounds(windows@, clients@); }
    let ghost m = matched@;
    let mut keys: Vec<i64> = Vec::new();
    let mut k: usize = 0;
    while k < matched.len()
        invariant
            k <= matched@.len(),
            matched@ == m,
            forall|q: int| 0 <= q < m.len() ==> (#[trigger] m[q]).0 < clients@.len(),
            clients@.len() <= i64::MAX,
            keys@.len() == k,
            forall|q: int| 0 <= q < k ==> (#[trigger] keys@[q]) == m[q].0 as i64,
        decreases matched@.len() - k,
    {
        keys.push(matched[k].0 as i64);
        k = k + 1;
    }
    assert(keys@ =~= m.map_values(|x: (usize, PanelWindow)| x.0 as i64));
    let order = stable_order(&keys);
    let mut res: Vec<(usize, PanelWindow)> = Vec::new();
    let mut q: usize = 0;
    while q < order.len()
        invariant
            q <= order@.len(),
            matched@ == m,
            order@.len() == m.len(),
            forall|x: int| 0 <= x < order@.len() ==> (#[trigger] order@[x]) < m.len(),
            forall|x: int| 0 <= x < m.len() ==> (#[trigger] m[x]).0 < clients@.len(),
            res@.len() == q,
            forall|x: int| 0 <= x < q ==> #[trigger] res@[x] == m[order@[x] as int],
        decreases order@.len() - q,
    {
        res.push(matched[order[q]]);
        q = q + 1;
    }
    assert(res@ =~= sorted_matches(windows@, clients@));
    res
}

/// The windows of one section, as [`section_layout`] says.
pub fn section_windows(windows: &Vec<PanelWindow>, clients: &Vec<SectionClient>) -> (res: Vec<LaidWindow>)
    requires
        clients@.len() <= i64::MAX,
    ensures
        res@ == section_layout(windows@, clients@),
{
    let s = section_matches(windows, clients);
    let mut res: Vec<LaidWindow> = Vec::new();
    let mut q: usize = 0;
    while q < s.len()
        invariant
            q <= s@.len(),
            s@ == sorted_matches(windows@, clients@),
            forall|k: int| 0 <= k < s@.len() ==> (#[trigger] s@[k]).0 < clients@.len(),
            res@.len() == q,
            forall|x: int| 0 <= x < q ==> #[trigger] res@[x] == (LaidWindow {
                index: x as usize,
                window: s@[x].1.window,
                minimize_priority: clients@[s@[x].0 as int].minimize_priority,
            }),
        decreases s@.len() - q,
    {
        let (p, w) = s[q];
        res.push(LaidWindow { index: q, window: w.window, minimize_priority: clients[p].minimize_priority });
        q = q + 1;
    }
    assert(res@ =~= section_layout(windows@, clients@));
    res
}

/// The windows of the three sections; a dock keeps them all in the center,
/// left ones first, then center ones, then right ones.
pub open spec fn panel_layout_windows(
    windows: Seq<PanelWindow>,
    left: Seq<SectionClient>,
    center: Seq<SectionClient>,
    right: Seq<SectionClient>,
    is_dock: bool,
) -> (Seq<LaidWindow>, Seq<LaidWindow>, Seq<LaidWindow>) {
    let l = section_layout(windows, left);
    let c = section_layout(windows, center);
    let r = section_layout(windows, right);
    if is_dock { (seq![], l + c + r, seq![]) } else { (l, c, r) }
}

fn append_windows(dst: &mut Vec<LaidWindow>, src: &Vec<LaidWindow>)
    ensures
        final(dst)@ == old(dst)@ + src@,
{
    let ghost d0 = dst@;
    let mut i: usize = 0;
    while i < src.len()
        invariant
            i <= src@.len(),
            dst@ == d0 + src@.take(i as int),
        decreases src@.len() - i,
    {
        dst.push(src[i]);
        i = i + 1;
        assert(dst@ =~= d0 + src@.take(i as int));
    }
    assert(src@.take(i as int) =~= src@);
}

/// The windows of the three sections, as [`panel_layout_windows`] says.
pub fn layout_windows(
    windows: &Vec<PanelWindow>,
    left: &Vec<SectionClient>,
    center: &Vec<SectionClient>,
    right: &Vec<SectionClient>,
    is_dock: bool,
) -> (res: (Vec<LaidWindow>, Vec<LaidWindow>, Vec<LaidWindow>))
    requires
        left@.len() <= i64::MAX,
        center@.len() <= i64::MAX,
        right@.len() <= i64::MAX,
    ensures
        ({
            let (l, c, r) = panel_layout_windows(windows@, left@, center@, right@, is_dock);
            res.0@ == l && res.1@ == c && res.2@ == r
        }),
{
    let l = section_windows(windows, left);
    let c = section_windows(windows, center);
    let r = section_windows(windows, right);
    if is_dock {
        let mut all: Vec<LaidWindow> = Vec::new();
        append_windows(&mut all, &l);
        append_windows(&mut all, &c);
        append_windows(&mut all, &r);
        assert(all@ =~= l@ + c@ + r@);
        (Vec::new(), all, Vec::new())
    } else {
        (l, c, r)
    }
}

/// What the layout reads of a window: the size of its box, and the size and
/// bounds it was last configured with.
#[derive(Clone, Copy, Debug)]
pub struct WindowGeometry {
    pub bbox_w: i32,
    pub bbox_h: i32,
    pub size: Option<(i32, i32)>,
    pub bounds: Option<(i32, i32)>,
}

/// The smaller of two integers.
pub open spec fn min_i32(a: i32, b: i32) -> i32 {
    if a <= b { a } else { b }
}

/// A window's length along the panel, its thickness across it, and the
/// length it is suggested: the configured size, or the box where none is
/// configured, never more than the box; the bounds, or that size where none
/// are configured. Along a vertical panel the suggested length is no more
/// than the length; along a horizontal one it is the width of the bounds.
pub open spec fn window_extent_spec(anchor: PanelAnchor, g: WindowGeometry) -> (i32, i32, i32) {
    let (sw0, sh0) = match g.size { Some(s) => s, None => (0i32, 0i32) };
    let (bw0, bh0) = match g.bounds { Some(b) => b, None => (0i32, 0i32) };
    let sw = min_i32(if sw0 == 0 { g.bbox_w } else { sw0 }, g.bbox_w);
    let sh = min_i32(if sh0 == 0 { g.bbox_h } else { sh0 }, g.bbox_h);
    let bw = if bw0 == 0 { sw } else { bw0 };
    let bh = if bh0 == 0 { sh } else { bh0 };
    match anchor {
        PanelAnchor::Left | PanelAnchor::Right => (sh, sw, min_i32(bh, sh)),
        PanelAnchor::Top | PanelAnchor::Bottom => (sw, sh, bw),
    }
}

/// A window's length, thickness and suggested length, as
/// [`window_extent_spec`] says.
pub fn window_extent(anchor: PanelAnchor, g: &WindowGeometry) -> (res: (i32, i32, i32))
    ensures
        res == window_extent_spec(anchor, *g),
{
    let (sw0, sh0) = match g.size { Some(s) => s, None => (0i32, 0i32) };
    let (bw0, bh0) = match g.bounds { Some(b) => b, None => (0i32, 0i32) };
    let sw1 = if sw0 == 0 { g.bbox_w } else { sw0 };
    let sw = if sw1 <= g.bbox_w { sw1 } else { g.bbox_w };
    let sh1 = if sh0 == 0 { g.bbox_h } else { sh0 };
    let sh = if sh1 <= g.bbox_h { sh1 } else { g.bbox_h };
    let bw = if bw0 == 0 { sw } else { bw0 };
    let bh = if bh0 == 0 { sh } else { bh0 };
    match anchor {
        PanelAnchor::Left | PanelAnchor::Right => (sh, sw, if bh <= sh { bh } else { sh }),
        PanelAnchor::Top | PanelAnchor::Bottom => (sw, sh, bw),
    }
}

/// The section of the panel a window is laid out in.
#[derive(Clone, Copy, Debug, PartialEq, Eq, Structural)]
pub enum Alignment {
    Left,
    Center,
    Right,
}

/// A window of a section as the layout measures it: its section, its
/// position in the section, and its length, thickness and suggested length
/// as [`window_extent_spec`] says.
pub fn map_window(index: usize, g: &WindowGeometry, anchor: PanelAnchor, alignment: Alignment) -> (res: (Alignment, usize, i32, i32, i32))
    ensures
        res == (alignment, index, window_extent_spec(anchor, *g).0, window_extent_spec(anchor, *g).1, window_extent_spec(anchor, *g).2),
{
    let (l, t, s) = window_extent(anchor, g);
    (alignment, index, l, t, s)
}

/// The sum of the suggested lengths of the first `n` windows.
pub open spec fn suggested_total(anchor: PanelAnchor, gs: Seq<WindowGeometry>, n: int) -> int
    decreases n,
{
    if n <= 0 { 0 } else { suggested_total(anchor, gs, n - 1) + window_extent_spec(anchor, gs[n - 1]).2 as int }
}

/// The sum of the suggested lengths of a section's windows.
pub fn suggested_sum(anchor: PanelAnchor, gs: &Vec<WindowGeometry>) -> (sum: i32)
    requires
        forall|n: int| 0 <= n <= gs@.len() ==> i32::MIN <= #[trigger] suggested_total(anchor, gs@, n) <= i32::MAX,
    ensures
        sum == suggested_total(anchor, gs@, gs@.len() as int),
{
    let mut sum: i32 = 0;
    let mut i: usize = 0;
    while i < gs.len()
        invariant
            i <= gs@.len(),
            forall|n: int| 0 <= n <= gs@.len() ==> i32::MIN <= #[trigger] suggested_total(anchor, gs@, n) <= i32::MAX,
            sum == suggested_total(anchor, gs@, i as int),
        decreases gs@.len() - i,
    {
        let (_, _, s) = window_extent(anchor, &gs[i]);
        assert(suggested_total(anchor, gs@, i + 1) == sum + s);
        sum = sum + s;
        i = i + 1;
    }
    sum
}

/// The largest thickness among the windows, zero when there are none.
pub open spec fn max_thickness_spec(anchor: PanelAnchor, gs: Seq<WindowGeometry>) -> i32
    decreases gs.len(),
{
    if gs.len() == 0 {
        0
    } else {
        let rest = max_thickness_spec(anchor, gs.drop_last());
        let t = window_extent_spec(anchor, gs.last()).1;
        if gs.len() == 1 || t > rest { t } else { rest }
    }
}

/// The largest thickness among the windows, as [`max_thickness_spec`] says.
pub fn max_thickness(anchor: PanelAnchor, gs: &Vec<WindowGeometry>) -> (res: i32)
    ensures
        res == max_thickness_spec(anchor, gs@),
{
    let mut best: i32 = 0;
    let mut i: usize = 0;
    while i < gs.len()
        invariant
            i <= gs@.len(),
            best == max_thickness_spec(anchor, gs@.take(i as int)),
        decreases gs@.len() - i,
    {
        let ghost t = gs@.take(i + 1);
        assert(t.drop_last() =~= gs@.take(i as int));
        let (_, th, _) = window_extent(anchor, &gs[i]);
        if i == 0 || th > best {
            best = th;
        }
        i = i + 1;
    }
    assert(gs@.take(i as int) =~= gs@);
    best
}

/// How many lists the panel lays out: two for the sides when either side
/// has windows or an overflow button, one for the center when it has windows
/// or an overflow button; and whether the center is one of them.
pub open spec fn list_count_spec(
    left_windows: usize,
    center_windows: usize,
    right_windows: usize,
    left_button: bool,
    center_button: bool,
    right_button: bool,
) -> (u32, bool) {
    let has_sides = left_windows > 0 || right_windows > 0 || left_button || right_button;
    let has_center = center_windows > 0 || center_button;
    (((if has_sides { 2int } else { 0int }) + (if has_center { 1int } else { 0int })) as u32, has_center)
}

/// The number of lists and whether the center is one, as
/// [`list_count_spec`] says.
pub fn list_count(
    left_windows: usize,
    center_windows: usize,
    right_windows: usize,
    left_button: bool,
    center_button: bool,
    right_button: bool,
) -> (res: (u32, bool))
    ensures
        res == list_count_spec(left_windows, center_windows, right_windows, left_button, center_button, right_button),
{
    let has_sides = left_windows > 0 || right_windows > 0 || left_button || right_button;
    let has_center = center_windows > 0 || center_button;
    let mut n: u32 = 0;
    if has_sides {
        n = n + 2;
    }
    if has_center {
        n = n + 1;
    }
    (n, has_center)
}

/// The offset that the gap adds across the panel: the gap on the top and
/// left edges, where the panel is drawn after it, none otherwise.
pub open spec fn margin_offset(anchor: PanelAnchor, gap: u16) -> int {
    match anchor {
        PanelAnchor::Top | PanelAnchor::Left => gap as int,
        PanelAnchor::Bottom | PanelAnchor::Right => 0,
    }
}

/// Where across the panel an item of extent `size` goes: past the gap,
/// centered in the bar's thickness.
pub fn crosswise_position(anchor: PanelAnchor, gap: u16, crosswise_dim: i32, size: u32) -> (pos: i32)
    requires
        crosswise_dim >= 0,
        center_in_bar_fits(crosswise_dim as u32, size),
        i32::MIN <= margin_offset(anchor, gap) + center_in_bar_spec(crosswise_dim as u32, size) <= i32::MAX,
    ensures
        pos == margin_offset(anchor, gap) + center_in_bar_spec(crosswise_dim as u32, size),
{
    let offset: i32 = match anchor {
        PanelAnchor::Top | PanelAnchor::Left => gap as i32,
        PanelAnchor::Bottom | PanelAnchor::Right => 0,
    };
    offset + center_in_bar(crosswise_dim as u32, size)
}

/// A rectangle: its corner and its size.
#[derive(Clone, Copy, Debug, PartialEq, Eq, Structural)]
pub struct Rect {
    pub x: i32,
    pub y: i32,
    pub w: i32,
    pub h: i32,
}

/// What the input region is made of: the layer surface's size, the panel's
/// drawn size, its thickness, the gap, the drawn length of the container
/// and the gap of the hiding animation.
#[derive(Clone, Copy, Debug, PartialEq, Eq, Structural)]
pub struct RegionInputs {
    pub anchor: PanelAnchor,
    pub is_dock: bool,
    pub dim_w: i32,
    pub dim_h: i32,
    pub actual_w: i32,
    pub actual_h: i32,
    pub crosswise: i32,
    pub gap: u16,
    pub container_length: i32,
    pub anim_gap: i32,
}

/// The half of what the layer surface is longer than the drawn dock.
pub open spec fn dock_side(r: RegionInputs) -> int {
    let horizontal = r.anchor == PanelAnchor::Top || r.anchor == PanelAnchor::Bottom;
    let (layer_length, actual_length) = if horizontal { (r.dim_w, r.actual_w) } else { (r.dim_h, r.actual_h) };
    ((layer_length as u32) as int - (actual_length as u32) as int) / 2
}

/// The input region of the panel: a dock covers its drawn length, centered;
/// a panel covers its layer surface; either reaches one pixel past the
/// panel toward its edge and follows the hiding animation's gap.
pub open spec fn input_region_spec(r: RegionInputs) -> (int, int, int, int) {
    let thick = r.crosswise + r.gap + 1;
    if r.is_dock {
        let side = dock_side(r);
        match r.anchor {
            PanelAnchor::Left => (-1, side, thick + r.anim_gap, r.container_length as int),
            PanelAnchor::Right => (0, side - r.anim_gap, thick, r.container_length as int),
            PanelAnchor::Top => (side, -1, r.container_length as int, thick + r.anim_gap),
            PanelAnchor::Bottom => (side, 0 - r.anim_gap, r.container_length as int, thick),
        }
    } else {
        match r.anchor {
            PanelAnchor::Left => (-1, 0, r.dim_w + 1 + r.anim_gap, r.dim_h as int),
            PanelAnchor::Right => (-r.anim_gap, 0, r.dim_w + 1 + r.anim_gap, r.dim_h as int),
            PanelAnchor::Top => (0, -1, r.dim_w as int, r.dim_h + 1 + r.anim_gap),
            PanelAnchor::Bottom => (0, -r.anim_gap, r.dim_w as int, r.dim_h + 1 + r.anim_gap),
        }
    }
}

/// Whether the input region's 32-bit arithmetic stays in range, including
/// the steps of its sums and, for a dock, that the layer surface is no
/// shorter than the drawn dock.
pub open spec fn input_region_fits(r: RegionInputs) -> bool {
    let in_i32 = |v: int| i32::MIN <= v <= i32::MAX;
    let horizontal = r.anchor == PanelAnchor::Top || r.anchor == PanelAnchor::Bottom;
    let (layer_length, actual_length) = if horizontal { (r.dim_w, r.actual_w) } else { (r.dim_h, r.actual_h) };
    if r.is_dock {
        &&& (layer_length as u32) >= (actual_length as u32)
        &&& in_i32(r.crosswise + r.gap)
        &&& in_i32(r.crosswise + r.gap + 1)
        &&& (r.anchor == PanelAnchor::Left || r.anchor == PanelAnchor::Top ==> in_i32(r.crosswise + r.gap + 1 + r.anim_gap))
        &&& (r.anchor == PanelAnchor::Right ==> in_i32(dock_side(r) - r.anim_gap))
        &&& (r.anchor == PanelAnchor::Bottom ==> in_i32(0 - r.anim_gap))
    } else {
        match r.anchor {
            PanelAnchor::Left | PanelAnchor::Right => {
                &&& in_i32(r.dim_w + 1)
                &&& in_i32(r.dim_w + 1 + r.anim_gap)
                &&& (r.anchor == PanelAnchor::Right ==> in_i32(-r.anim_gap))
            },
            PanelAnchor::Top | PanelAnchor::Bottom => {
                &&& in_i32(r.dim_h + 1)
                &&& in_i32(r.dim_h + 1 + r.anim_gap)
                &&& (r.anchor == PanelAnchor::Bottom ==> in_i32(-r.anim_gap))
            },
        }
    }
}

/// The input region of the panel, as [`input_region_spec`] says.
pub fn input_region(r: &RegionInputs) -> (res: Rect)
    requires
        input_region_fits(*r),
    ensures
        ({
            let (x, y, w, h) = input_region_spec(*r);
            res.x == x && res.y == y && res.w == w && res.h == h
        }),
{
    if r.is_dock {
        let horizontal = match r.anchor { PanelAnchor::Top | PanelAnchor::Bottom => true, _ => false };
        let (layer_length, actual_length) = if horizontal { (r.dim_w, r.actual_w) } else { (r.dim_h, r.actual_h) };
        let side: u32 = (#[verifier::truncate] (layer_length as u32) - #[verifier::truncate] (actual_length as u32)) / 2;
        let side_i: i32 = side as i32;
        let thick = r.crosswise + r.gap as i32 + 1;
        match r.anchor {
            PanelAnchor::Left => Rect { x: -1, y: side_i, w: thick + r.anim_gap, h: r.container_length },
            PanelAnchor::Right => Rect { x: 0, y: side_i - r.anim_gap, w: thick, h: r.container_length },
            PanelAnchor::Top => Rect { x: side_i, y: -1, w: r.container_length, h: thick + r.anim_gap },
            PanelAnchor::Bottom => Rect { x: side_i, y: 0 - r.anim_gap, w: r.container_length, h: thick },
        }
    } else {
        match r.anchor {
            PanelAnchor::Left => Rect { x: -1, y: 0, w: r.dim_w + 1 + r.anim_gap, h: r.dim_h },
            PanelAnchor::Right => Rect { x: -r.anim_gap, y: 0, w: r.dim_w + 1 + r.anim_gap, h: r.dim_h },
            PanelAnchor::Top => Rect { x: 0, y: -1, w: r.dim_w, h: r.dim_h + 1 + r.anim_gap },
            PanelAnchor::Bottom => Rect { x: 0, y: -r.anim_gap, w: r.dim_w, h: r.dim_h + 1 + r.anim_gap },
        }
    }
}

/// `value` held between `start` and `end - 1`, both taken as 32-bit signed
/// numbers.
pub open spec fn clamp_range(value: i32, range: (u32, u32)) -> i32 {
    let lo = (range.0 as i32) as int;
    let hi = (range.1 as i32) as int - 1;
    if value < lo { lo as i32 } else if value > hi { hi as i32 } else { value }
}

/// Whether a range can clamp: its end, less one, is a 32-bit number no less
/// than its start.
pub open spec fn range_ok(range: Option<(u32, u32)>) -> bool {
    match range {
        Some((s, e)) => (e as i32) > i32::MIN && (s as i32) <= (e as i32) - 1,
        None => true,
    }
}

/// The panel's size held to the ranges its configuration allows for the
/// output, in each direction where there is one.
pub fn constrain_panel_dim(w: i32, h: i32, w_range: Option<(u32, u32)>, h_range: Option<(u32, u32)>) -> (res: (i32, i32))
    requires
        range_ok(w_range),
        range_ok(h_range),
    ensures
        res.0 == match w_range { Some(r) => clamp_range(w, r), None => w },
        res.1 == match h_range { Some(r) => clamp_range(h, r), None => h },
{
    let w2 = match w_range {
        Some((s, e)) => {
            let lo = #[verifier::truncate] (s as i32);
            let hi = #[verifier::truncate] (e as i32) - 1;
            if w < lo { lo } else if w > hi { hi } else { w }
        },
        None => w,
    };
    let h2 = match h_range {
        Some((s, e)) => {
            let lo = #[verifier::truncate] (s as i32);
            let hi = #[verifier::truncate] (e as i32) - 1;
            if h < lo { lo } else if h > hi { hi } else { h }
        },
        None => h,
    };
    (w2, h2)
}


/// What the panel's layer surface is doing when a configure arrives: waiting
/// for one with the size it asked for, shutting down, or neither.
#[derive(Clone, Copy, Debug, PartialEq, Eq, Structural)]
pub enum ConfigureState {
    Waiting { width: i32, height: i32 },
    Quit,
    Idle,
}

/// What a configure of the layer surface decides: the size to constrain
/// and apply, if any, and the length the compositor suggests along the
/// panel, if it gives one.
#[derive(Clone, Copy, Debug, PartialEq, Eq)]
pub struct ConfigureDecision {
    pub size: Option<(i32, i32)>,
    pub suggested_length: Option<u32>,
}

/// A configure's decision: a size the compositor gives replaces the one
/// asked for (or, when not waiting, the current one); the suggested length
/// is the size along the panel when given; a waiting panel makes sizes
/// below one into one, an idle one makes zero sizes into one; a panel that
/// shuts down changes nothing.
pub open spec fn configure_spec(state: ConfigureState, dims: (i32, i32), new_w: u32, new_h: u32, horizontal: bool) -> ConfigureDecision {
    let suggested = if horizontal {
        if new_w != 0 { Some(new_w) } else { None }
    } else {
        if new_h != 0 { Some(new_h) } else { None }
    };
    match state {
        ConfigureState::Quit => ConfigureDecision { size: None, suggested_length: None },
        ConfigureState::Waiting { width, height } => {
            let w = if new_w != 0 { new_w as i32 } else { width };
            let h = if new_h != 0 { new_h as i32 } else { height };
            ConfigureDecision {
                size: Some((if w <= 0 { 1i32 } else { w }, if h <= 0 { 1i32 } else { h })),
                suggested_length: suggested,
            }
        },
        ConfigureState::Idle => {
            let w = if new_w != 0 { new_w as i32 } else { dims.0 };
            let h = if new_h != 0 { new_h as i32 } else { dims.1 };
            ConfigureDecision {
                size: Some((if w == 0 { 1i32 } else { w }, if h == 0 { 1i32 } else { h })),
                suggested_length: suggested,
            }
        },
    }
}

/// A configure's decision, as [`configure_spec`] says.
pub fn configure_size(state: ConfigureState, dims: (i32, i32), new_w: u32, new_h: u32, horizontal: bool) -> (res: ConfigureDecision)
    ensures
        res == configure_spec(state, dims, new_w, new_h, horizontal),
{
    let suggested = if horizontal {
        if new_w != 0 { Some(new_w) } else { None }
    } else {
        if new_h != 0 { Some(new_h) } else { None }
    };
    match state {
        ConfigureState::Quit => ConfigureDecision { size: None, suggested_length: None },
        ConfigureState::Waiting { width, height } => {
            let w = if new_w != 0 { #[verifier::truncate] (new_w as i32) } else { width };
            let h = if new_h != 0 { #[verifier::truncate] (new_h as i32) } else { height };
            ConfigureDecision {
                size: Some((if w <= 0 { 1i32 } else { w }, if h <= 0 { 1i32 } else { h })),
                suggested_length: suggested,
            }
        },
        ConfigureState::Idle => {
            let w = if new_w != 0 { #[verifier::truncate] (new_w as i32) } else { dims.0 };
            let h = if new_h != 0 { #[verifier::truncate] (new_h as i32) } else { dims.1 };
            ConfigureDecision {
                size: Some((if w == 0 { 1i32 } else { w }, if h == 0 { 1i32 } else { h })),
                suggested_length: suggested,
            }
        },
    }
}

/// The length a configure suggests is the panel's length along its edge:
/// the configured width for a horizontal panel and the configured height
/// for a vertical one, none where the compositor leaves that length to the
/// panel; and it is the length the panel then takes along its edge. Each
/// length the compositor gives is taken; one it leaves is kept from the
/// size asked for (while waiting) or the current size, and a length of
/// zero (or, while waiting, below one) becomes one. A panel that shuts down
/// takes and suggests nothing.
pub proof fn lemma_suggested_length_along_panel(state: ConfigureState, dims: (i32, i32), new_w: u32, new_h: u32, horizontal: bool)
    ensures
        ({
            let d = configure_spec(state, dims, new_w, new_h, horizontal);
            let along = if horizontal { new_w } else { new_h };
            let (w, h) = d.size->0;
            &&& state is Quit ==> d.size is None && d.suggested_length is None
            &&& !(state is Quit) && along != 0 ==> d.suggested_length == Some(along)
            &&& !(state is Quit) && along == 0 ==> d.suggested_length is None
            &&& !(state is Quit) && 0 < along <= i32::MAX ==> d.size is Some
                && (if horizontal { w } else { h }) == along
        }),
        ({
            let d = configure_spec(state, dims, new_w, new_h, horizontal);
            let (w, h) = d.size->0;
            &&& state is Idle ==> d.size is Some
                && (0 < new_w <= i32::MAX ==> w == new_w)
                && (0 < new_h <= i32::MAX ==> h == new_h)
                && (new_w == 0 ==> w == if dims.0 == 0 { 1 } else { dims.0 })
                && (new_h == 0 ==> h == if dims.1 == 0 { 1 } else { dims.1 })
            &&& state matches ConfigureState::Waiting { width, height } ==> d.size is Some
                && (0 < new_w <= i32::MAX ==> w == new_w)
                && (0 < new_h <= i32::MAX ==> h == new_h)
                && (new_w == 0 ==> w == if width <= 0 { 1 } else { width })
                && (new_h == 0 ==> h == if height <= 0 { 1 } else { height })
        }),
{
}

/// The radii of the panel's background corners `(top left, top right,
/// bottom left, bottom right)` for a corner radius `r`: a panel flush with
/// its edge (no gap) rounds only the corners facing the output; a floating
/// one rounds all four.
pub open spec fn corner_radii_spec(anchor: PanelAnchor, gap: u16, r: u32) -> (u32, u32, u32, u32) {
    if gap == 0 {
        match anchor {
            PanelAnchor::Right => (r, 0, r, 0),
            PanelAnchor::Left => (0, r, 0, r),
            PanelAnchor::Bottom => (r, r, 0, 0),
            PanelAnchor::Top => (0, 0, r, r),
        }
    } else {
        (r, r, r, r)
    }
}

/// The radii of the background corners, as [`corner_radii_spec`] says.
pub fn corner_radii(anchor: PanelAnchor, gap: u16, r: u32) -> (res: (u32, u32, u32, u32))
    ensures
        res == corner_radii_spec(anchor, gap, r),
{
    if gap == 0 {
        match anchor {
            PanelAnchor::Right => (r, 0, r, 0),
            PanelAnchor::Left => (0, r, 0, r),
            PanelAnchor::Bottom => (r, r, 0, 0),
            PanelAnchor::Top => (0, 0, r, r),
        }
    } else {
        (r, r, r, r)
    }
}

/// The corner radius of the background: the configured one, at most the
/// smaller side of the panel, halved.
pub fn background_radius(border_radius: u32, w: u32, h: u32) -> (res: u32)
    ensures
        res == (if border_radius <= w && border_radius <= h { border_radius } else if w <= h { w } else { h }) / 2,
{
    let m = if border_radius <= w && border_radius <= h { border_radius } else if w <= h { w } else { h };
    m / 2
}

/// Whether drawing is skipped: while the layer surface awaits an event, or
/// while the panel or its drawn part is 20 pixels or less in either
/// direction.
pub fn render_skipped(awaiting_event: bool, actual: (i32, i32), dims: (i32, i32)) -> (res: bool)
    ensures
        res == (awaiting_event || actual.0 <= 20 || actual.1 <= 20 || dims.0 <= 20 || dims.1 <= 20),
{
    awaiting_event || actual.0 <= 20 || actual.1 <= 20 || dims.0 <= 20 || dims.1 <= 20
}

/// The panel's new dimensions after a layout: the constrained size with the
/// gap added across the panel.
pub open spec fn grown_dims(horizontal: bool, constrained: (i32, i32), gap: u16) -> (int, int) {
    if horizontal {
        (constrained.0 as int, constrained.1 + gap)
    } else {
        (constrained.0 + gap, constrained.1 as int)
    }
}

/// The resize a layout asks for: the new dimensions (the constrained size
/// with the gap added across the panel) when their thickness differs from
/// the panel's current one, after which the layout stops and runs again;
/// none when the thickness is unchanged.
pub fn resize_step(horizontal: bool, constrained: (i32, i32), gap: u16, current_thickness: i32) -> (res: Option<(i32, i32)>)
    requires
        horizontal ==> constrained.1 + gap <= i32::MAX,
        !horizontal ==> constrained.0 + gap <= i32::MAX,
    ensures
        ({
            let d = grown_dims(horizontal, constrained, gap);
            let thick = if horizontal { d.1 } else { d.0 };
            &&& thick != current_thickness ==> res == Some((d.0 as i32, d.1 as i32))
            &&& thick == current_thickness ==> res is None
        }),
{
    let d = if horizontal {
        (constrained.0, constrained.1 + gap as i32)
    } else {
        (constrained.0 + gap as i32, constrained.1)
    };
    let thick = if horizontal { d.1 } else { d.0 };
    if thick != current_thickness {
        Some(d)
    } else {
        None
    }
}

/// Whether the minimize applet's rectangle is sent again after a layout:
/// when it changed and more than a second (in nanoseconds) has passed since
/// it was last sent; it is then announced with priority one for a dock and
/// zero for a panel.
pub fn minimize_rect_update(changed: bool, since_last_ns: u64, is_dock: bool) -> (res: Option<i32>)
    ensures
        res == if changed && since_last_ns > 1_000_000_000 { Some(if is_dock { 1i32 } else { 0i32 }) } else { None::<i32> },
{
    if changed && since_last_ns > 1_000_000_000 {
        Some(if is_dock { 1 } else { 0 })
    } else {
        None
    }
}

} // verus!

