//! Placement of the dock's top-level surfaces along its bar.
//!
//! The dock holds three lists of top-level surfaces (left, center, right).
//! When they do not fit on the bar, the surfaces of lowest priority are
//! hidden, one at a time, until the rest fits; the visible surfaces are then
//! laid out along the bar and centred across it. The dock's size is kept
//! within what its configuration allows, its layer surface follows the
//! compositor's configure and close events, its seats keep the devices
//! their capabilities call for, and the space manager tracks which dock is
//! active.

use vstd::prelude::*;
use crate::dock_config::{Anchor, CosmicDockConfig};
use crate::sorting::sorted_by_priority_desc;

verus! {

broadcast use vstd::seq_lib::group_to_multiset_ensures;

/// A top-level surface of the dock: its priority, its location on the bar,
/// its size and whether it is hidden.
#[derive(Clone, Copy, Debug, PartialEq, Eq, Structural)]
pub struct TopLevelSlot {
    pub priority: u32,
    pub x: i32,
    pub y: i32,
    pub width: i32,
    pub height: i32,
    pub hidden: bool,
}

/// The extent of a surface along the bar.
pub open spec fn major(anchor: Anchor, s: TopLevelSlot) -> int {
    match anchor {
        Anchor::Left | Anchor::Right => s.height as int,
        Anchor::Top | Anchor::Bottom => s.width as int,
    }
}

/// The extent of a surface across the bar.
pub open spec fn cross(anchor: Anchor, s: TopLevelSlot) -> int {
    match anchor {
        Anchor::Left | Anchor::Right => s.width as int,
        Anchor::Top | Anchor::Bottom => s.height as int,
    }
}

/// Whether the sizes of all surfaces are non-negative.
pub open spec fn sizes_nonneg(slots: Seq<TopLevelSlot>) -> bool {
    forall|i: int| 0 <= i < slots.len() ==> slots[i].width >= 0 && slots[i].height >= 0
}

/// The summed extent along the bar of the visible surfaces.
pub open spec fn visible_len(anchor: Anchor, slots: Seq<TopLevelSlot>) -> int
    decreases slots.len(),
{
    if slots.len() == 0 {
        0
    } else {
        visible_len(anchor, slots.drop_last()) + if slots.last().hidden {
            0
        } else {
            major(anchor, slots.last())
        }
    }
}

/// The summed extent along the bar of all surfaces.
pub open spec fn total_len(anchor: Anchor, slots: Seq<TopLevelSlot>) -> int
    decreases slots.len(),
{
    if slots.len() == 0 {
        0
    } else {
        total_len(anchor, slots.drop_last()) + major(anchor, slots.last())
    }
}

/// Whether two lists hold the same surfaces, up to their locations and the
/// hidden flags.
pub open spec fn same_surfaces(a: Seq<TopLevelSlot>, b: Seq<TopLevelSlot>) -> bool {
    &&& a.len() == b.len()
    &&& forall|i: int|
        #![trigger a[i]]
        0 <= i < a.len() ==> a[i].priority == b[i].priority && a[i].width == b[i].width
            && a[i].height == b[i].height
}

/// The number of non-empty lists.
pub open spec fn num_lists(left: Seq<TopLevelSlot>, center: Seq<TopLevelSlot>, right: Seq<TopLevelSlot>) -> int {
    (if left.len() > 0 { 1int } else { 0int }) + (if center.len() > 0 { 1int } else { 0int }) + (
    if right.len() > 0 { 1int } else { 0int })
}

/// The length along the bar taken by the padding at both ends and the
/// spacing between the lists.
pub open spec fn overhead(padding: u32, spacing: u32, lists: int) -> int {
    padding * 2 + spacing * (lists - 1)
}

/// Whether the surface at position `a` of the concatenated lists comes before
/// the one at position `b` in priority order: higher priority first, and of
/// equal priorities the earlier position first.
pub open spec fn comes_before(all: Seq<TopLevelSlot>, a: int, b: int) -> bool {
    all[a].priority > all[b].priority || (all[a].priority == all[b].priority && a < b)
}

/// The outcome that hiding by priority must reach, on the concatenation of
/// the three lists: the visible surfaces fit on the bar; every visible
/// surface comes before every hidden one in priority order; and the first
/// hidden surface in priority order would not have fit beside the visible
/// ones, so no fewer surfaces could have been hidden.
pub open spec fn hidden_by_priority(
    anchor: Anchor,
    all: Seq<TopLevelSlot>,
    list_length: int,
    overhead: int,
) -> bool {
    &&& visible_len(anchor, all) + overhead <= list_length
    &&& forall|v: int, h: int|
        0 <= v < all.len() && 0 <= h < all.len() && !all[v].hidden && all[h].hidden
            ==> comes_before(all, v, h)
    &&& (exists|h: int| 0 <= h < all.len() && all[h].hidden) ==> exists|h: int|
        {
            &&& 0 <= h < all.len()
            &&& all[h].hidden
            &&& forall|g: int| 0 <= g < all.len() && all[g].hidden && g != h ==> comes_before(all, h, g)
            &&& visible_len(anchor, all) + major(anchor, all[h]) + overhead > list_length
        }
}

/// `(thickness - dim) / 2` with the truncating division and the wrapping
/// casts of 32-bit integers: the offset that centres a surface across a bar.
pub open spec fn center_in_bar_spec(thickness: u32, dim: u32) -> int {
    let d = (thickness as i32) as int - (dim as i32) as int;
    if d >= 0 { d / 2 } else { -((-d) / 2) }
}

/// Whether `center_in_bar_spec` stays within 32-bit integers.
pub open spec fn center_in_bar_fits(thickness: u32, dim: u32) -> bool {
    i32::MIN <= (thickness as i32) as int - (dim as i32) as int <= i32::MAX
}

/// Centres a surface of extent `dim` across a bar of thickness `thickness`.
pub fn center_in_bar(thickness: u32, dim: u32) -> (r: i32)
    requires
        center_in_bar_fits(thickness, dim),
    ensures
        r == center_in_bar_spec(thickness, dim),
{
    (thickness as i32 - dim as i32) / 2
}

/// The list with its surfaces placed one after another from `prev`, with
/// `spacing` between them, skipping hidden ones when `skip_hidden`.
pub open spec fn place(
    anchor: Anchor,
    thickness: u32,
    spacing: u32,
    slots: Seq<TopLevelSlot>,
    prev: int,
    count: int,
    skip_hidden: bool,
) -> Seq<TopLevelSlot>
    decreases slots.len(),
{
    if slots.len() == 0 {
        seq![]
    } else {
        let s = slots[0];
        if skip_hidden && s.hidden {
            seq![s] + place(anchor, thickness, spacing, slots.drop_first(), prev, count, skip_hidden)
        } else {
            let cur = prev + spacing * (count as u32);
            let placed = match anchor {
                Anchor::Left | Anchor::Right => TopLevelSlot {
                    x: center_in_bar_spec(thickness, s.width as u32) as i32,
                    y: cur as i32,
                    ..s
                },
                Anchor::Top | Anchor::Bottom => TopLevelSlot {
                    x: cur as i32,
                    y: center_in_bar_spec(thickness, s.height as u32) as i32,
                    ..s
                },
            };
            seq![placed] + place(
                anchor,
                thickness,
                spacing,
                slots.drop_first(),
                prev + major(anchor, s),
                count + 1,
                skip_hidden,
            )
        }
    }
}

/// Whether a surface takes a place in its list: not when it is hidden and
/// hidden surfaces are passed over.
pub open spec fn takes_place(s: TopLevelSlot, skip_hidden: bool) -> bool {
    !(skip_hidden && s.hidden)
}

/// The summed extent along the bar of the surfaces that take a place.
pub open spec fn placed_len(anchor: Anchor, slots: Seq<TopLevelSlot>, skip_hidden: bool) -> int
    decreases slots.len(),
{
    if slots.len() == 0 {
        0
    } else {
        (if takes_place(slots[0], skip_hidden) { major(anchor, slots[0]) } else { 0 })
            + placed_len(anchor, slots.drop_first(), skip_hidden)
    }
}

/// The number of surfaces that take a place.
pub open spec fn placed_count(slots: Seq<TopLevelSlot>, skip_hidden: bool) -> int
    decreases slots.len(),
{
    if slots.len() == 0 {
        0
    } else {
        (if takes_place(slots[0], skip_hidden) { 1int } else { 0int }) + placed_count(slots.drop_first(), skip_hidden)
    }
}

/// The position of a surface along the bar.
pub open spec fn along(anchor: Anchor, s: TopLevelSlot) -> i32 {
    match anchor {
        Anchor::Left | Anchor::Right => s.y,
        Anchor::Top | Anchor::Bottom => s.x,
    }
}

/// The position of a surface across the bar.
pub open spec fn across(anchor: Anchor, s: TopLevelSlot) -> i32 {
    match anchor {
        Anchor::Left | Anchor::Right => s.x,
        Anchor::Top | Anchor::Bottom => s.y,
    }
}

/// Placing a list keeps its surfaces, their sizes, priorities and hidden
/// flags. A surface passed over keeps its place; every other one starts
/// where the list starts, plus the extents of the surfaces placed before
/// it and one spacing for each surface placed before it in the whole
/// stretch (`count` of them before the list), and is centred across the
/// bar.
pub proof fn lemma_place_positions(
    anchor: Anchor,
    thickness: u32,
    spacing: u32,
    slots: Seq<TopLevelSlot>,
    prev: int,
    count: int,
    skip_hidden: bool,
    i: int,
)
    requires
        0 <= i < slots.len(),
    ensures
        place(anchor, thickness, spacing, slots, prev, count, skip_hidden).len() == slots.len(),
        ({
            let p = place(anchor, thickness, spacing, slots, prev, count, skip_hidden)[i];
            let s = slots[i];
            &&& p.priority == s.priority && p.width == s.width && p.height == s.height && p.hidden == s.hidden
            &&& !takes_place(s, skip_hidden) ==> p == s
            &&& takes_place(s, skip_hidden) ==> {
                &&& along(anchor, p) == (prev + placed_len(anchor, slots.take(i), skip_hidden)
                    + spacing * ((count + placed_count(slots.take(i), skip_hidden)) as u32)) as i32
                &&& across(anchor, p) == center_in_bar_spec(thickness, cross(anchor, s) as u32) as i32
            }
        }),
    decreases slots.len(),
{
    let s0 = slots[0];
    let rest = slots.drop_first();
    let (nprev, ncount) = if takes_place(s0, skip_hidden) { (prev + major(anchor, s0), count + 1) } else { (prev, count) };
    if rest.len() > 0 {
        lemma_place_positions(anchor, thickness, spacing, rest, nprev, ncount, skip_hidden, 0);
    } else {
        assert(place(anchor, thickness, spacing, rest, nprev, ncount, skip_hidden).len() == 0);
    }
    if i == 0 {
        assert(slots.take(0) =~= Seq::<TopLevelSlot>::empty());
    } else {
        lemma_place_positions(anchor, thickness, spacing, rest, nprev, ncount, skip_hidden, i - 1);
        assert(slots.take(i).drop_first() =~= rest.take(i - 1));
        assert(slots.take(i)[0] == s0);
        assert(rest[i - 1] == slots[i]);
    }
}

/// Where the dock puts its lists: the left list from the padding, the
/// center list from the center offset, and the right list from the bar's
/// length less the padding and the right list's visible length; hidden
/// surfaces of the left and center lists keep their place.
pub proof fn lemma_lists_start(
    anchor: Anchor,
    padding: u32,
    spacing: u32,
    dimensions: (u32, u32),
    left: Seq<TopLevelSlot>,
    center: Seq<TopLevelSlot>,
    right: Seq<TopLevelSlot>,
)
    ensures
        ({
            let (list_length, thickness) = bar_extent(anchor, dimensions);
            let (pl, pc, pr) = placed(anchor, padding, spacing, dimensions, left, center, right);
            let offset = center_offset_spec(padding, spacing, list_length, num_lists(left, center, right),
                visible_len(anchor, left), visible_len(anchor, center), visible_len(anchor, right));
            &&& pl == place(anchor, thickness, spacing, left, padding as int, 0, true)
            &&& pc == place(anchor, thickness, spacing, center, (offset as u32) as int, 0, true)
            &&& pr == place(anchor, thickness, spacing, right, list_length - padding - visible_len(anchor, right), 0, false)
        }),
{
}

/// Whether placing the list stays within the 32-bit arithmetic it is done in.
pub open spec fn place_fits(
    anchor: Anchor,
    thickness: u32,
    spacing: u32,
    slots: Seq<TopLevelSlot>,
    prev: int,
    count: int,
    skip_hidden: bool,
) -> bool
    decreases slots.len(),
{
    if slots.len() == 0 {
        true
    } else {
        let s = slots[0];
        if skip_hidden && s.hidden {
            place_fits(anchor, thickness, spacing, slots.drop_first(), prev, count, skip_hidden)
        } else {
            &&& spacing * (count as u32) <= u32::MAX
            &&& prev + spacing * (count as u32) <= u32::MAX
            &&& prev + major(anchor, s) <= u32::MAX
            &&& center_in_bar_fits(thickness, cross(anchor, s) as u32)
            &&& place_fits(
                anchor,
                thickness,
                spacing,
                slots.drop_first(),
                prev + major(anchor, s),
                count + 1,
                skip_hidden,
            )
        }
    }
}

/// The length along the bar and the thickness across it.
pub open spec fn bar_extent(anchor: Anchor, dimensions: (u32, u32)) -> (u32, u32) {
    match anchor {
        Anchor::Left | Anchor::Right => (dimensions.1, dimensions.0),
        Anchor::Top | Anchor::Bottom => (dimensions.0, dimensions.1),
    }
}

/// The position along the bar where the center list starts, given the
/// visible lengths of the three lists; computed in 32-bit arithmetic with
/// wrapping casts, as `center_fits` checks.
pub open spec fn center_offset_spec(
    padding: u32,
    spacing: u32,
    list_length: u32,
    lists: int,
    left_sum: int,
    center_sum: int,
    right_sum: int,
) -> int {
    let eq = (list_length / (lists as u32)) as int;
    let total = left_sum + center_sum + right_sum;
    if left_sum < eq && center_sum < eq && right_sum < eq {
        eq + (padding as i32) as int + (spacing as i32) as int + (eq - center_sum) / 2
    } else {
        let d = (list_length as i32) as int - total;
        left_sum + (padding as i32) as int + (spacing as i32) as int + if d >= 0 {
            d / 2
        } else {
            -((-d) / 2)
        }
    }
}

/// Where the center list starts along the bar. When every list is shorter
/// than an equal share of the bar (its length over the number of lists),
/// the center list is centred in the middle share: it starts after one
/// share, the padding and the spacing, and the share's room beside it is
/// split evenly, before and after it. Otherwise the bar's free room (its
/// length less the three lists) is split evenly before and after the
/// center list: it starts after the left list, the padding, the spacing and
/// half the free room (a negative room halved toward zero).
pub proof fn lemma_center_list_centred(
    padding: u32,
    spacing: u32,
    list_length: u32,
    lists: int,
    left_sum: int,
    center_sum: int,
    right_sum: int,
)
    requires
        1 <= lists <= 3,
        0 <= left_sum,
        0 <= center_sum,
        0 <= right_sum,
        padding <= i32::MAX,
        spacing <= i32::MAX,
        list_length <= i32::MAX,
    ensures
        ({
            let start = center_offset_spec(padding, spacing, list_length, lists, left_sum, center_sum, right_sum);
            let share = list_length as int / lists;
            let free = list_length - left_sum - center_sum - right_sum;
            &&& (left_sum < share && center_sum < share && right_sum < share) ==> {
                let before = start - share - padding - spacing;
                let after = share - center_sum - before;
                0 <= after - before <= 1
            }
            &&& !(left_sum < share && center_sum < share && right_sum < share) ==> {
                let before = start - left_sum - padding - spacing;
                let after = free - before;
                &&& free >= 0 ==> 0 <= after - before <= 1
                &&& free < 0 ==> 0 <= before - after <= 1
            }
        }),
{
    assert((list_length / (lists as u32)) as int == list_length as int / lists);
}

/// Whether the computation of the center offset stays within 32-bit integers.
pub open spec fn center_fits(
    padding: u32,
    spacing: u32,
    list_length: u32,
    lists: int,
    left_sum: int,
    center_sum: int,
    right_sum: int,
) -> bool {
    let eq = (list_length / (lists as u32)) as int;
    let total = left_sum + center_sum + right_sum;
    &&& eq <= i32::MAX
    &&& if left_sum < eq && center_sum < eq && right_sum < eq {
        &&& i32::MIN <= eq + (padding as i32) as int <= i32::MAX
        &&& i32::MIN <= eq + (padding as i32) as int + (spacing as i32) as int <= i32::MAX
        &&& i32::MIN <= eq + (padding as i32) as int + (spacing as i32) as int + (eq - center_sum)
            / 2 <= i32::MAX
    } else {
        let d = (list_length as i32) as int - total;
        &&& i32::MIN <= d <= i32::MAX
        &&& i32::MIN <= left_sum + (padding as i32) as int <= i32::MAX
        &&& i32::MIN <= left_sum + (padding as i32) as int + (spacing as i32) as int <= i32::MAX
        &&& i32::MIN <= center_offset_spec(
            padding,
            spacing,
            list_length,
            lists,
            left_sum,
            center_sum,
            right_sum,
        ) <= i32::MAX
    }
}

/// Whether the whole placement, once the given surfaces are hidden, stays
/// within the 32-bit arithmetic it is done in.
pub open spec fn placement_fits(
    anchor: Anchor,
    padding: u32,
    spacing: u32,
    dimensions: (u32, u32),
    left: Seq<TopLevelSlot>,
    center: Seq<TopLevelSlot>,
    right: Seq<TopLevelSlot>,
) -> bool {
    let (list_length, thickness) = bar_extent(anchor, dimensions);
    let lists = num_lists(left, center, right);
    let l = visible_len(anchor, left);
    let c = visible_len(anchor, center);
    let r = visible_len(anchor, right);
    let offset = center_offset_spec(padding, spacing, list_length, lists, l, c, r);
    &&& center_fits(padding, spacing, list_length, lists, l, c, r)
    &&& place_fits(anchor, thickness, spacing, left, padding as int, 0, true)
    &&& place_fits(anchor, thickness, spacing, center, (offset as u32) as int, 0, true)
    &&& place_fits(anchor, thickness, spacing, right, list_length - padding - r, 0, false)
}

/// The lists with their surfaces placed: the left list from the padding, the
/// center list from the center offset, the right list so that it ends at the
/// padding; hidden surfaces of the left and center lists keep their place.
pub open spec fn placed(
    anchor: Anchor,
    padding: u32,
    spacing: u32,
    dimensions: (u32, u32),
    left: Seq<TopLevelSlot>,
    center: Seq<TopLevelSlot>,
    right: Seq<TopLevelSlot>,
) -> (Seq<TopLevelSlot>, Seq<TopLevelSlot>, Seq<TopLevelSlot>) {
    let (list_length, thickness) = bar_extent(anchor, dimensions);
    let lists = num_lists(left, center, right);
    let l = visible_len(anchor, left);
    let c = visible_len(anchor, center);
    let r = visible_len(anchor, right);
    let offset = center_offset_spec(padding, spacing, list_length, lists, l, c, r);
    (
        place(anchor, thickness, spacing, left, padding as int, 0, true),
        place(anchor, thickness, spacing, center, (offset as u32) as int, 0, true),
        place(anchor, thickness, spacing, right, list_length - padding - r, 0, false),
    )
}

/// What `update_offsets` needs of its inputs, beyond which it would overflow
/// its 32-bit arithmetic or find nothing left to hide: at least one surface,
/// non-negative sizes whose sum is a 32-bit integer, room for the padding and
/// spacing on the bar, and a placement within 32-bit integers for the
/// surfaces that hiding by priority leaves visible.
pub open spec fn offsets_precondition(
    anchor: Anchor,
    padding: u32,
    spacing: u32,
    dimensions: (u32, u32),
    left: Seq<TopLevelSlot>,
    center: Seq<TopLevelSlot>,
    right: Seq<TopLevelSlot>,
) -> bool {
    let (list_length, thickness) = bar_extent(anchor, dimensions);
    let lists = num_lists(left, center, right);
    let all = left + center + right;
    &&& lists >= 1
    &&& sizes_nonneg(all)
    &&& total_len(anchor, all) <= i32::MAX
    &&& total_len(anchor, all) + overhead(padding, spacing, lists) <= u32::MAX
    &&& overhead(padding, spacing, lists) <= list_length
    &&& forall|l: Seq<TopLevelSlot>, c: Seq<TopLevelSlot>, r: Seq<TopLevelSlot>|
        same_surfaces(l, left) && same_surfaces(c, center) && same_surfaces(r, right)
            && hidden_by_priority(anchor, l + c + r, list_length as int, overhead(padding, spacing, lists))
            ==> #[trigger] placement_fits(anchor, padding, spacing, dimensions, l, c, r)
}


proof fn lemma_len_concat(anchor: Anchor, s: Seq<TopLevelSlot>, t: Seq<TopLevelSlot>)
    ensures
        visible_len(anchor, s + t) == visible_len(anchor, s) + visible_len(anchor, t),
        total_len(anchor, s + t) == total_len(anchor, s) + total_len(anchor, t),
    decreases t.len(),
{
    if t.len() == 0 {
        assert(s + t =~= s);
    } else {
        lemma_len_concat(anchor, s, t.drop_last());
        assert((s + t).drop_last() =~= s + t.drop_last());
    }
}

proof fn lemma_len_bounds(anchor: Anchor, s: Seq<TopLevelSlot>)
    requires
        sizes_nonneg(s),
    ensures
        0 <= visible_len(anchor, s) <= total_len(anchor, s),
    decreases s.len(),
{
    if s.len() > 0 {
        lemma_len_bounds(anchor, s.drop_last());
    }
}

proof fn lemma_len_prefix(anchor: Anchor, s: Seq<TopLevelSlot>, i: int)
    requires
        sizes_nonneg(s),
        0 <= i <= s.len(),
    ensures
        total_len(anchor, s.take(i)) <= total_len(anchor, s),
        0 <= total_len(anchor, s.take(i)),
    decreases s.len() - i,
{
    if i < s.len() {
        lemma_len_prefix(anchor, s, i + 1);
        assert(s.take(i + 1).drop_last() =~= s.take(i));
        lemma_len_bounds(anchor, s.take(i));
    } else {
        assert(s.take(i) =~= s);
        lemma_len_bounds(anchor, s);
    }
}

proof fn lemma_visible_hide(anchor: Anchor, s: Seq<TopLevelSlot>, i: int, h: TopLevelSlot)
    requires
        0 <= i < s.len(),
        !s[i].hidden,
        h == (TopLevelSlot { hidden: true, ..s[i] }),
    ensures
        visible_len(anchor, s.update(i, h)) == visible_len(anchor, s) - major(anchor, s[i]),
        total_len(anchor, s.update(i, h)) == total_len(anchor, s),
    decreases s.len(),
{
    if i < s.len() - 1 {
        lemma_visible_hide(anchor, s.drop_last(), i, h);
        assert(s.update(i, h).drop_last() =~= s.drop_last().update(i, h));
    } else {
        assert(s.update(i, h).drop_last() =~= s.drop_last());
    }
}

proof fn lemma_visible_all_shown(anchor: Anchor, s: Seq<TopLevelSlot>)
    requires
        forall|i: int| 0 <= i < s.len() ==> !s[i].hidden,
    ensures
        visible_len(anchor, s) == total_len(anchor, s),
    decreases s.len(),
{
    if s.len() > 0 {
        lemma_visible_all_shown(anchor, s.drop_last());
    }
}

proof fn lemma_same_total(anchor: Anchor, a: Seq<TopLevelSlot>, b: Seq<TopLevelSlot>)
    requires
        same_surfaces(a, b),
    ensures
        total_len(anchor, a) == total_len(anchor, b),
    decreases a.len(),
{
    if a.len() > 0 {
        let k = a.len() - 1;
        assert(a[k].priority == b[k].priority && a[k].width == b[k].width && a[k].height == b[k].height);
        assert(same_surfaces(a.drop_last(), b.drop_last())) by {
            assert forall|i: int| 0 <= i < a.len() - 1 implies #[trigger] a.drop_last()[i].priority == b.drop_last()[i].priority
                && a.drop_last()[i].width == b.drop_last()[i].width && a.drop_last()[i].height == b.drop_last()[i].height by {
                assert(a.drop_last()[i] == a[i]);
                assert(a[i].priority == b[i].priority && a[i].width == b[i].width && a[i].height == b[i].height);
            }
        }
        lemma_same_total(anchor, a.drop_last(), b.drop_last());
    }
}

/// Shows every surface of the list.
fn unhide_all(slots: &mut Vec<TopLevelSlot>)
    ensures
        final(slots)@.len() == old(slots)@.len(),
        forall|i: int|
            0 <= i < final(slots)@.len() ==> #[trigger] final(slots)@[i] == (TopLevelSlot {
                hidden: false,
                ..old(slots)@[i]
            }),
{
    let mut i: usize = 0;
    while i < slots.len()
        invariant
            i <= slots@.len(),
            slots@.len() == old(slots)@.len(),
            forall|j: int|
                0 <= j < i ==> #[trigger] slots@[j] == (TopLevelSlot { hidden: false, ..old(slots)@[j] }),
            forall|j: int| i <= j < slots@.len() ==> #[trigger] slots@[j] == old(slots)@[j],
        decreases slots@.len() - i,
    {
        let mut s = slots[i];
        s.hidden = false;
        slots.set(i, s);
        i = i + 1;
    }
}

/// The summed extent along the bar of the surfaces of a list.
fn sum_major(anchor: Anchor, slots: &Vec<TopLevelSlot>) -> (sum: i32)
    requires
        sizes_nonneg(slots@),
        total_len(anchor, slots@) <= i32::MAX,
    ensures
        sum == total_len(anchor, slots@),
{
    let mut sum: i32 = 0;
    let mut i: usize = 0;
    while i < slots.len()
        invariant
            i <= slots@.len(),
            sizes_nonneg(slots@),
            total_len(anchor, slots@) <= i32::MAX,
            sum == total_len(anchor, slots@.take(i as int)),
        decreases slots@.len() - i,
    {
        proof {
            lemma_len_prefix(anchor, slots@, i + 1);
            assert(slots@.take(i + 1).drop_last() =~= slots@.take(i as int));
        }
        let d = match anchor {
            Anchor::Left | Anchor::Right => slots[i].height,
            Anchor::Top | Anchor::Bottom => slots[i].width,
        };
        sum = sum + d;
        i = i + 1;
    }
    assert(slots@.take(i as int) =~= slots@);
    sum
}

/// Places the surfaces of a list one after another from `start`.
fn place_list(
    anchor: Anchor,
    thickness: u32,
    spacing: u32,
    slots: &mut Vec<TopLevelSlot>,
    start: u32,
    skip_hidden: bool,
)
    requires
        sizes_nonneg(old(slots)@),
        place_fits(anchor, thickness, spacing, old(slots)@, start as int, 0, skip_hidden),
    ensures
        final(slots)@ == place(anchor, thickness, spacing, old(slots)@, start as int, 0, skip_hidden),
{
    let ghost orig = slots@;
    let mut prev: u32 = start;
    let mut count: usize = 0;
    let mut i: usize = 0;
    assert(orig.skip(0) =~= orig);
    assert(slots@.take(0) =~= Seq::<TopLevelSlot>::empty());
    while i < slots.len()
        invariant
            i <= slots@.len(),
            count <= i,
            slots@.len() == orig.len(),
            sizes_nonneg(orig),
            slots@.skip(i as int) == orig.skip(i as int),
            place_fits(anchor, thickness, spacing, orig.skip(i as int), prev as int, count as int, skip_hidden),
            slots@.take(i as int) + place(anchor, thickness, spacing, orig.skip(i as int), prev as int, count as int, skip_hidden)
                == place(anchor, thickness, spacing, orig, start as int, 0, skip_hidden),
        decreases slots@.len() - i,
    {
        let s = slots[i];
        let ghost rest = orig.skip(i as int);
        assert(rest[0] == s);
        assert(rest.drop_first() =~= orig.skip(i + 1));
        if skip_hidden && s.hidden {
            proof {
                assert(slots@.take(i + 1) =~= slots@.take(i as int).push(s));
            }
        } else {
            let cur = prev + spacing * (count as u32);
            let placed = match anchor {
                Anchor::Left | Anchor::Right => TopLevelSlot {
                    x: center_in_bar(thickness, s.width as u32),
                    y: cur as i32,
                    ..s
                },
                Anchor::Top | Anchor::Bottom => TopLevelSlot {
                    x: cur as i32,
                    y: center_in_bar(thickness, s.height as u32),
                    ..s
                },
            };
            let d = match anchor {
                Anchor::Left | Anchor::Right => s.height as u32,
                Anchor::Top | Anchor::Bottom => s.width as u32,
            };
            prev = prev + d;
            count = count + 1;
            slots.set(i, placed);
            proof {
                assert(slots@.take(i + 1) =~= slots@.take(i as int).push(placed));
            }
        }
        i = i + 1;
        proof {
            assert(slots@.skip(i as int) =~= orig.skip(i as int));
        }
    }
    assert(orig.skip(i as int) =~= Seq::<TopLevelSlot>::empty());
    assert(slots@.take(i as int) =~= slots@);
}


/// The entry of the surface at position `p` of the concatenated lists, as it
/// is handed to the sort: position, priority, extent along the bar.
pub open spec fn entry(anchor: Anchor, all: Seq<TopLevelSlot>, p: int) -> (usize, u32, i32) {
    (p as usize, all[p].priority, major(anchor, all[p]) as i32)
}

/// The position in the sorted entries of the entry of surface `x`.
spec fn rank_of(r: Seq<(usize, u32, i32)>, x: int) -> int {
    choose|k: int| 0 <= k < r.len() && r[k].0 == x
}

proof fn lemma_sorted_entries(
    anchor: Anchor,
    all: Seq<TopLevelSlot>,
    v: Seq<(usize, u32, i32)>,
    r: Seq<(usize, u32, i32)>,
)
    requires
        all.len() <= usize::MAX,
        v == Seq::new(all.len(), |p: int| entry(anchor, all, p)),
        r.to_multiset() == v.to_multiset(),
        forall|i: int, j: int| 0 <= i < j < r.len() ==> r[i].1 >= r[j].1,
        forall|i: int, j: int|
            0 <= i < j < r.len() && r[i].1 == r[j].1 ==> exists|p: int, q: int|
                0 <= p < q < v.len() && v[p] == r[i] && v[q] == r[j],
    ensures
        r.len() == all.len(),
        forall|k: int| 0 <= k < r.len() ==> 0 <= #[trigger] r[k].0 < all.len() && r[k] == entry(anchor, all, r[k].0 as int),
        forall|x: int| 0 <= x < all.len() ==> {
            let k = #[trigger] rank_of(r, x);
            0 <= k < r.len() && r[k].0 == x
        },
        forall|k: int, j: int| 0 <= k < r.len() && 0 <= j < r.len() && #[trigger] r[k].0 == #[trigger] r[j].0 ==> k == j,
        forall|k: int, j: int| 0 <= k < j < r.len() ==> comes_before(all, #[trigger] r[k].0 as int, #[trigger] r[j].0 as int),
{
    assert(r.len() == v.len()) by {
        assert(r.to_multiset().len() == r.len());
        assert(v.to_multiset().len() == v.len());
    }
    assert forall|k: int| 0 <= k < r.len() implies 0 <= #[trigger] r[k].0 < all.len() && r[k] == entry(anchor, all, r[k].0 as int) by {
        assert(r.contains(r[k]));
        assert(r.to_multiset().count(r[k]) > 0);
        assert(v.to_multiset().count(r[k]) > 0);
        assert(v.contains(r[k]));
        let p = choose|p: int| 0 <= p < v.len() && v[p] == r[k];
        assert(v[p] == entry(anchor, all, p));
    }
    assert forall|x: int| 0 <= x < all.len() implies {
        let k = #[trigger] rank_of(r, x);
        0 <= k < r.len() && r[k].0 == x
    } by {
        assert(v[x] == entry(anchor, all, x));
        assert(v.contains(v[x]));
        assert(v.to_multiset().count(v[x]) > 0);
        assert(r.to_multiset().count(v[x]) > 0);
        assert(r.contains(v[x]));
        let k = choose|k: int| 0 <= k < r.len() && r[k] == v[x];
        assert(r[k].0 == x);
    }
    assert(v.no_duplicates()) by {
        assert forall|i: int, j: int| 0 <= i < v.len() && 0 <= j < v.len() && i != j implies v[i] != v[j] by {
            assert(v[i].0 == i as usize && v[j].0 == j as usize);
        }
    }
    v.lemma_multiset_has_no_duplicates();
    r.lemma_multiset_has_no_duplicates_conv();
    assert forall|k: int, j: int| 0 <= k < r.len() && 0 <= j < r.len() && #[trigger] r[k].0 == #[trigger] r[j].0 implies k == j by {
        assert(r[k] == entry(anchor, all, r[k].0 as int));
        assert(r[j] == entry(anchor, all, r[j].0 as int));
    }
    assert forall|k: int, j: int| 0 <= k < j < r.len() implies comes_before(all, #[trigger] r[k].0 as int, #[trigger] r[j].0 as int) by {
        assert(r[k] == entry(anchor, all, r[k].0 as int));
        assert(r[j] == entry(anchor, all, r[j].0 as int));
        if r[k].1 == r[j].1 {
            let (p, q) = choose|p: int, q: int| 0 <= p < q < v.len() && v[p] == r[k] && v[q] == r[j];
            assert(v[p] == entry(anchor, all, p));
            assert(v[q] == entry(anchor, all, q));
        }
    }
}

/// Appends the entries of a list, numbered from `offset`.
fn push_entries(
    anchor: Anchor,
    entries: &mut Vec<(usize, u32, i32)>,
    slots: &Vec<TopLevelSlot>,
    offset: usize,
    Ghost(all): Ghost<Seq<TopLevelSlot>>,
)
    requires
        old(entries)@.len() == offset,
        offset + slots@.len() <= all.len(),
        all.len() <= usize::MAX,
        forall|i: int| 0 <= i < slots@.len() ==> #[trigger] slots@[i] == all[offset + i],
        forall|i: int| 0 <= i < slots@.len() ==> i32::MIN <= #[trigger] major(anchor, slots@[i]) <= i32::MAX,
        old(entries)@ == Seq::new(offset as nat, |p: int| entry(anchor, all, p)),
    ensures
        final(entries)@ == Seq::new((offset + slots@.len()) as nat, |p: int| entry(anchor, all, p)),
{
    let mut i: usize = 0;
    while i < slots.len()
        invariant
            i <= slots@.len(),
            offset + slots@.len() <= all.len(),
            all.len() <= usize::MAX,
            forall|i: int| 0 <= i < slots@.len() ==> #[trigger] slots@[i] == all[offset + i],
            forall|i: int| 0 <= i < slots@.len() ==> i32::MIN <= #[trigger] major(anchor, slots@[i]) <= i32::MAX,
            entries@ == Seq::new((offset + i) as nat, |p: int| entry(anchor, all, p)),
        decreases slots@.len() - i,
    {
        let s = slots[i];
        assert(s == all[offset + i]);
        assert(i32::MIN <= major(anchor, s) <= i32::MAX);
        let d = match anchor {
            Anchor::Left | Anchor::Right => s.height,
            Anchor::Top | Anchor::Bottom => s.width,
        };
        entries.push((offset + i, s.priority, d));
        i = i + 1;
        assert(entries@ =~= Seq::new((offset + i) as nat, |p: int| entry(anchor, all, p)));
    }
}


/// Whether `after` differs from `before` at most in the hidden flags.
pub open spec fn only_hidden_changed(after: Seq<TopLevelSlot>, before: Seq<TopLevelSlot>) -> bool {
    &&& after.len() == before.len()
    &&& forall|i: int| 0 <= i < after.len() ==> #[trigger] after[i] == (TopLevelSlot { hidden: after[i].hidden, ..before[i] })
}

/// The facts about the sorted entries that the hiding relies on: each
/// surface has exactly one entry, and the entries come in priority order.
spec fn sorted_facts(anchor: Anchor, all0: Seq<TopLevelSlot>, r: Seq<(usize, u32, i32)>) -> bool {
    &&& r.len() == all0.len()
    &&& forall|k: int| 0 <= k < r.len() ==> 0 <= #[trigger] r[k].0 < all0.len() && r[k] == entry(anchor, all0, r[k].0 as int)
    &&& forall|x: int| 0 <= x < all0.len() ==> {
        let k = #[trigger] rank_of(r, x);
        0 <= k < r.len() && r[k].0 == x
    }
    &&& forall|k: int, j: int| 0 <= k < r.len() && 0 <= j < r.len() && #[trigger] r[k].0 == #[trigger] r[j].0 ==> k == j
    &&& forall|k: int, j: int| 0 <= k < j < r.len() ==> comes_before(all0, #[trigger] r[k].0 as int, #[trigger] r[j].0 as int)
}

/// The surfaces hidden so far are those of the last `m` sorted entries.
spec fn hiding_state(all: Seq<TopLevelSlot>, all0: Seq<TopLevelSlot>, r: Seq<(usize, u32, i32)>, m: int) -> bool {
    &&& 0 <= m <= all0.len()
    &&& only_hidden_changed(all, all0)
    &&& forall|x: int| 0 <= x < all0.len() ==> (all[x].hidden <==> #[trigger] rank_of(r, x) >= all0.len() - m)
}

/// Shows every surface, sums the lists and sorts their entries.
fn prepare_hiding(
    anchor: Anchor,
    left: &mut Vec<TopLevelSlot>,
    center: &mut Vec<TopLevelSlot>,
    right: &mut Vec<TopLevelSlot>,
) -> (res: (i32, i32, i32, Vec<(usize, u32, i32)>))
    requires
        sizes_nonneg(old(left)@ + old(center)@ + old(right)@),
        total_len(anchor, old(left)@ + old(center)@ + old(right)@) <= i32::MAX,
        old(left)@.len() + old(center)@.len() + old(right)@.len() <= usize::MAX,
    ensures
        only_hidden_changed(final(left)@, old(left)@),
        only_hidden_changed(final(center)@, old(center)@),
        only_hidden_changed(final(right)@, old(right)@),
        forall|i: int| 0 <= i < (final(left)@ + final(center)@ + final(right)@).len() ==> !(#[trigger] (final(left)@ + final(center)@ + final(right)@)[i]).hidden,
        res.0 == visible_len(anchor, final(left)@),
        res.1 == visible_len(anchor, final(center)@),
        res.2 == visible_len(anchor, final(right)@),
        res.0 + res.1 + res.2 == total_len(anchor, old(left)@ + old(center)@ + old(right)@),
        visible_len(anchor, final(left)@ + final(center)@ + final(right)@) == res.0 + res.1 + res.2,
        0 <= res.0 && 0 <= res.1 && 0 <= res.2,
        sorted_facts(anchor, final(left)@ + final(center)@ + final(right)@, res.3@),
        sizes_nonneg(final(left)@ + final(center)@ + final(right)@),
        sizes_nonneg(final(left)@),
        sizes_nonneg(final(center)@),
        sizes_nonneg(final(right)@),
{
    let ghost orig_all = old(left)@ + old(center)@ + old(right)@;
    unhide_all(left);
    unhide_all(center);
    unhide_all(right);
    let ghost all0 = left@ + center@ + right@;
    let ghost nl = left@.len() as int;
    let ghost nc = center@.len() as int;
    let ghost n = all0.len() as int;
    proof {
        assert(only_hidden_changed(all0, orig_all)) by {
            assert forall|i: int| 0 <= i < all0.len() implies #[trigger] all0[i] == (TopLevelSlot { hidden: all0[i].hidden, ..orig_all[i] }) by {
                if i < nl {
                    assert(all0[i] == left@[i]);
                } else if i < nl + nc {
                    assert(all0[i] == center@[i - nl]);
                } else {
                    assert(all0[i] == right@[i - nl - nc]);
                }
            }
        }
        assert(same_surfaces(all0, orig_all)) by {
            assert forall|i: int| 0 <= i < all0.len() implies #[trigger] all0[i].priority == orig_all[i].priority
                && all0[i].width == orig_all[i].width && all0[i].height == orig_all[i].height by {
                assert(all0[i] == (TopLevelSlot { hidden: all0[i].hidden, ..orig_all[i] }));
            }
        }
        lemma_same_total(anchor, all0, orig_all);
        assert forall|i: int| 0 <= i < all0.len() implies !(#[trigger] all0[i]).hidden by {
            if i < nl {
                assert(all0[i] == left@[i]);
            } else if i < nl + nc {
                assert(all0[i] == center@[i - nl]);
            } else {
                assert(all0[i] == right@[i - nl - nc]);
            }
        }
        assert(sizes_nonneg(all0)) by {
            assert forall|i: int| 0 <= i < all0.len() implies all0[i].width >= 0 && all0[i].height >= 0 by {
                assert(all0[i] == (TopLevelSlot { hidden: all0[i].hidden, ..orig_all[i] }));
            }
        }
        lemma_len_concat(anchor, left@, center@);
        lemma_len_concat(anchor, left@ + center@, right@);
        lemma_visible_all_shown(anchor, left@);
        lemma_visible_all_shown(anchor, center@);
        lemma_visible_all_shown(anchor, right@);
        lemma_visible_all_shown(anchor, all0);
        assert(sizes_nonneg(left@)) by {
            assert forall|i: int| 0 <= i < nl implies left@[i].width >= 0 && left@[i].height >= 0 by {
                assert(all0[i] == left@[i]);
            }
        }
        assert(sizes_nonneg(center@)) by {
            assert forall|i: int| 0 <= i < nc implies center@[i].width >= 0 && center@[i].height >= 0 by {
                assert(all0[nl + i] == center@[i]);
            }
        }
        assert(sizes_nonneg(right@)) by {
            assert forall|i: int| 0 <= i < right@.len() implies right@[i].width >= 0 && right@[i].height >= 0 by {
                assert(all0[nl + nc + i] == right@[i]);
            }
        }
        lemma_len_bounds(anchor, left@);
        lemma_len_bounds(anchor, center@);
        lemma_len_bounds(anchor, right@);
    }
    let left_sum = sum_major(anchor, left);
    let center_sum = sum_major(anchor, center);
    let right_sum = sum_major(anchor, right);
    proof {
        assert forall|i: int| 0 <= i < n implies 0 <= #[trigger] major(anchor, all0[i]) <= total_len(anchor, all0) by {
            lemma_len_prefix(anchor, all0, i);
            lemma_len_prefix(anchor, all0, i + 1);
            assert(all0.take(i + 1).drop_last() =~= all0.take(i));
        }
        assert forall|i: int| 0 <= i < left@.len() implies i32::MIN <= #[trigger] major(anchor, left@[i]) <= i32::MAX by {
            assert(all0[i] == left@[i]);
        }
        assert forall|i: int| 0 <= i < center@.len() implies i32::MIN <= #[trigger] major(anchor, center@[i]) <= i32::MAX by {
            assert(all0[nl + i] == center@[i]);
        }
        assert forall|i: int| 0 <= i < right@.len() implies i32::MIN <= #[trigger] major(anchor, right@[i]) <= i32::MAX by {
            assert(all0[nl + nc + i] == right@[i]);
        }
    }
    let mut entries: Vec<(usize, u32, i32)> = Vec::new();
    assert(entries@ =~= Seq::new(0nat, |p: int| entry(anchor, all0, p)));
    push_entries(anchor, &mut entries, left, 0, Ghost(all0));
    push_entries(anchor, &mut entries, center, left.len(), Ghost(all0));
    push_entries(anchor, &mut entries, right, left.len() + center.len(), Ghost(all0));
    let ghost v = entries@;
    let sorted = sorted_by_priority_desc(entries);
    proof {
        lemma_sorted_entries(anchor, all0, v, sorted@);
    }
    (left_sum, center_sum, right_sum, sorted)
}

/// Hides the surface of the entry `e`, the last of the `n - m` sorted entries
/// not yet taken; returns which list it was in.
fn hide_entry(
    anchor: Anchor,
    left: &mut Vec<TopLevelSlot>,
    center: &mut Vec<TopLevelSlot>,
    right: &mut Vec<TopLevelSlot>,
    e: (usize, u32, i32),
    Ghost(all0): Ghost<Seq<TopLevelSlot>>,
    Ghost(r): Ghost<Seq<(usize, u32, i32)>>,
    Ghost(m): Ghost<int>,
) -> (which: u8)
    requires
        sorted_facts(anchor, all0, r),
        hiding_state(old(left)@ + old(center)@ + old(right)@, all0, r, m),
        m < all0.len(),
        e == r[all0.len() - m - 1],
        old(left)@.len() + old(center)@.len() + old(right)@.len() <= usize::MAX,
    ensures
        hiding_state(final(left)@ + final(center)@ + final(right)@, all0, r, m + 1),
        only_hidden_changed(final(left)@, old(left)@),
        only_hidden_changed(final(center)@, old(center)@),
        only_hidden_changed(final(right)@, old(right)@),
        which < 3,
        visible_len(anchor, final(left)@) == visible_len(anchor, old(left)@) - if which == 0 { e.2 as int } else { 0 },
        visible_len(anchor, final(center)@) == visible_len(anchor, old(center)@) - if which == 1 { e.2 as int } else { 0 },
        visible_len(anchor, final(right)@) == visible_len(anchor, old(right)@) - if which == 2 { e.2 as int } else { 0 },
        e.2 == major(anchor, all0[e.0 as int]),
        0 <= e.0 < all0.len(),
{
    let ghost all = left@ + center@ + right@;
    let ghost n = all0.len() as int;
    let ghost k = n - m - 1;
    let idx = e.0;
    assert(rank_of(r, idx as int) == k) by {
        let kk = rank_of(r, idx as int);
    }
    assert(!all[idx as int].hidden);
    assert(all[idx as int] == (TopLevelSlot { hidden: false, ..all0[idx as int] }));
    let ghost hidden_slot = TopLevelSlot { hidden: true, ..all[idx as int] };
    let which: u8;
    if idx < left.len() {
        let mut s = left[idx];
        assert(s == all[idx as int]);
        s.hidden = true;
        proof { lemma_visible_hide(anchor, left@, idx as int, s); }
        left.set(idx, s);
        which = 0;
    } else if idx < left.len() + center.len() {
        let j = idx - left.len();
        let mut s = center[j];
        assert(s == all[idx as int]);
        s.hidden = true;
        proof { lemma_visible_hide(anchor, center@, j as int, s); }
        center.set(j, s);
        which = 1;
    } else {
        let j = idx - left.len() - center.len();
        let mut s = right[j];
        assert(s == all[idx as int]);
        s.hidden = true;
        proof { lemma_visible_hide(anchor, right@, j as int, s); }
        right.set(j, s);
        which = 2;
    }
    proof {
        let new_all = left@ + center@ + right@;
        assert(new_all =~= all.update(idx as int, hidden_slot));
        assert forall|x: int| 0 <= x < n implies (new_all[x].hidden <==> #[trigger] rank_of(r, x) >= n - (m + 1)) by {
            if x != idx {
                let kx = rank_of(r, x);
                assert(kx != k);
            }
        }
        assert(only_hidden_changed(new_all, all0)) by {
            assert forall|i: int| 0 <= i < new_all.len() implies #[trigger] new_all[i] == (TopLevelSlot { hidden: new_all[i].hidden, ..all0[i] }) by {
                if i != idx {
                    assert(new_all[i] == all[i]);
                }
            }
        }
    }
    which
}

proof fn lemma_hiding_law(
    anchor: Anchor,
    fin: Seq<TopLevelSlot>,
    all0: Seq<TopLevelSlot>,
    r: Seq<(usize, u32, i32)>,
    m: int,
    list_length: int,
    over: int,
)
    requires
        sorted_facts(anchor, all0, r),
        hiding_state(fin, all0, r, m),
        visible_len(anchor, fin) + over <= list_length,
        m > 0 ==> visible_len(anchor, fin) + major(anchor, all0[r[all0.len() - m].0 as int]) + over > list_length,
    ensures
        hidden_by_priority(anchor, fin, list_length, over),
{
    let n = all0.len() as int;
    assert forall|vv: int, h: int| 0 <= vv < fin.len() && 0 <= h < fin.len() && !fin[vv].hidden && fin[h].hidden
        implies comes_before(fin, vv, h) by {
        let kv = rank_of(r, vv);
        let kh = rank_of(r, h);
        assert(kv < kh);
        assert(comes_before(all0, r[kv].0 as int, r[kh].0 as int));
        assert(fin[vv] == (TopLevelSlot { hidden: fin[vv].hidden, ..all0[vv] }));
        assert(fin[h] == (TopLevelSlot { hidden: fin[h].hidden, ..all0[h] }));
    }
    if exists|h: int| 0 <= h < fin.len() && fin[h].hidden {
        let hh = choose|h: int| 0 <= h < fin.len() && fin[h].hidden;
        let _ = rank_of(r, hh);
        assert(m > 0);
        let top = r[n - m].0 as int;
        assert(rank_of(r, top) == n - m) by {
            let kt = rank_of(r, top);
        }
        assert(fin[top].hidden);
        assert forall|g: int| 0 <= g < fin.len() && fin[g].hidden && g != top implies comes_before(fin, top, g) by {
            let kg = rank_of(r, g);
            assert(kg != n - m);
            assert(comes_before(all0, r[n - m].0 as int, r[kg].0 as int));
            assert(fin[g] == (TopLevelSlot { hidden: fin[g].hidden, ..all0[g] }));
            assert(fin[top] == (TopLevelSlot { hidden: fin[top].hidden, ..all0[top] }));
        }
        assert(fin[top] == (TopLevelSlot { hidden: fin[top].hidden, ..all0[top] }));
        assert(major(anchor, fin[top]) == major(anchor, all0[top]));
    }
}

/// Hides surfaces of lowest priority, one at a time, until the visible ones
/// fit on the bar with its padding and spacing; returns the visible lengths
/// of the three lists.
pub fn hide_by_priority(
    anchor: Anchor,
    padding: u32,
    spacing: u32,
    dimensions: (u32, u32),
    left: &mut Vec<TopLevelSlot>,
    center: &mut Vec<TopLevelSlot>,
    right: &mut Vec<TopLevelSlot>,
) -> (sums: (i32, i32, i32))
    requires
        offsets_precondition(anchor, padding, spacing, dimensions, old(left)@, old(center)@, old(right)@),
        old(left)@.len() + old(center)@.len() + old(right)@.len() <= usize::MAX,
    ensures
        only_hidden_changed(final(left)@, old(left)@),
        only_hidden_changed(final(center)@, old(center)@),
        only_hidden_changed(final(right)@, old(right)@),
        hidden_by_priority(
            anchor,
            final(left)@ + final(center)@ + final(right)@,
            bar_extent(anchor, dimensions).0 as int,
            overhead(padding, spacing, num_lists(old(left)@, old(center)@, old(right)@)),
        ),
        sums.0 == visible_len(anchor, final(left)@),
        sums.1 == visible_len(anchor, final(center)@),
        sums.2 == visible_len(anchor, final(right)@),
{
    let list_length = match anchor {
        Anchor::Left | Anchor::Right => dimensions.1,
        Anchor::Top | Anchor::Bottom => dimensions.0,
    };
    let mut lists_count: u32 = 0;
    if left.len() > 0 {
        lists_count = lists_count + 1;
    }
    if center.len() > 0 {
        lists_count = lists_count + 1;
    }
    if right.len() > 0 {
        lists_count = lists_count + 1;
    }
    let ghost lists = num_lists(old(left)@, old(center)@, old(right)@);
    let ghost over = overhead(padding, spacing, lists);
    let ghost total0 = total_len(anchor, old(left)@ + old(center)@ + old(right)@);
    assert(lists_count == lists);
    let (mut left_sum, mut center_sum, mut right_sum, mut sorted) = prepare_hiding(anchor, left, center, right);
    let ghost all0 = left@ + center@ + right@;
    let ghost r = sorted@;
    let ghost n = all0.len() as int;
    let ghost mut m: int = 0;
    proof {
        lemma_len_concat(anchor, left@, center@);
        lemma_len_concat(anchor, left@ + center@, right@);
        assert(sorted@ =~= r.take(n - m));
        assert(only_hidden_changed(all0, all0)) by {
            assert forall|i: int| 0 <= i < all0.len() implies #[trigger] all0[i] == (TopLevelSlot { hidden: all0[i].hidden, ..all0[i] }) by {}
        }
        assert forall|x: int| 0 <= x < n implies (all0[x].hidden <==> #[trigger] rank_of(r, x) >= n - m) by {
            let k = rank_of(r, x);
        }
    }
    let mut total_sum = left_sum + center_sum + right_sum;
    while total_sum as u32 + padding * 2 + spacing * (lists_count - 1) > list_length
        invariant
            0 <= m <= n,
            n == all0.len(),
            lists_count == lists,
            lists >= 1,
            over == overhead(padding, spacing, lists),
            over <= list_length,
            total0 + over <= u32::MAX,
            list_length == bar_extent(anchor, dimensions).0,
            sorted@ == r.take(n - m),
            sorted_facts(anchor, all0, r),
            hiding_state(left@ + center@ + right@, all0, r, m),
            only_hidden_changed(left@, old(left)@),
            only_hidden_changed(center@, old(center)@),
            only_hidden_changed(right@, old(right)@),
            left_sum == visible_len(anchor, left@),
            center_sum == visible_len(anchor, center@),
            right_sum == visible_len(anchor, right@),
            0 <= left_sum && 0 <= center_sum && 0 <= right_sum,
            sizes_nonneg(left@),
            sizes_nonneg(center@),
            sizes_nonneg(right@),
            sizes_nonneg(all0),
            left@.len() + center@.len() + right@.len() <= usize::MAX,
            total_sum == left_sum + center_sum + right_sum,
            total_sum <= total0,
            m > 0 ==> total_sum + major(anchor, all0[r[n - m].0 as int]) + over > list_length,
        decreases n - m,
    {
        proof {
            if m == n {
                let all = left@ + center@ + right@;
                assert forall|x: int| 0 <= x < n implies all[x].hidden by {
                    let k = rank_of(r, x);
                }
                lemma_visible_none(anchor, all);
                lemma_len_concat(anchor, left@, center@);
                lemma_len_concat(anchor, left@ + center@, right@);
                assert(false);
            }
        }
        let e = sorted.pop().unwrap();
        assert(e == r[n - m - 1]);
        let ghost (pl, pc, pr) = (left@, center@, right@);
        let which = hide_entry(anchor, left, center, right, e, Ghost(all0), Ghost(r), Ghost(m));
        proof {
            lemma_sizes_kept(left@, pl);
            lemma_sizes_kept(center@, pc);
            lemma_sizes_kept(right@, pr);
            lemma_only_hidden_trans(left@, pl, old(left)@);
            lemma_only_hidden_trans(center@, pc, old(center)@);
            lemma_only_hidden_trans(right@, pr, old(right)@);
            lemma_len_bounds(anchor, left@);
            lemma_len_bounds(anchor, center@);
            lemma_len_bounds(anchor, right@);
            assert(e.2 >= 0);
        }
        if which == 0 {
            left_sum = left_sum - e.2;
        } else if which == 1 {
            center_sum = center_sum - e.2;
        } else {
            right_sum = right_sum - e.2;
        }
        total_sum = total_sum - e.2;
        proof {
            m = m + 1;
            assert(sorted@ =~= r.take(n - m));
        }
    }
    proof {
        lemma_len_concat(anchor, left@, center@);
        lemma_len_concat(anchor, left@ + center@, right@);
        lemma_hiding_law(anchor, left@ + center@ + right@, all0, r, m, list_length as int, over);
    }
    (left_sum, center_sum, right_sum)
}

proof fn lemma_sizes_kept(after: Seq<TopLevelSlot>, before: Seq<TopLevelSlot>)
    requires
        only_hidden_changed(after, before),
        sizes_nonneg(before),
    ensures
        sizes_nonneg(after),
{
    assert forall|i: int| 0 <= i < after.len() implies after[i].width >= 0 && after[i].height >= 0 by {
        assert(after[i] == (TopLevelSlot { hidden: after[i].hidden, ..before[i] }));
    }
}

proof fn lemma_only_hidden_trans(a: Seq<TopLevelSlot>, b: Seq<TopLevelSlot>, c: Seq<TopLevelSlot>)
    requires
        only_hidden_changed(a, b),
        only_hidden_changed(b, c),
    ensures
        only_hidden_changed(a, c),
{
    assert forall|i: int| 0 <= i < a.len() implies #[trigger] a[i] == (TopLevelSlot { hidden: a[i].hidden, ..c[i] }) by {
        assert(a[i] == (TopLevelSlot { hidden: a[i].hidden, ..b[i] }));
        assert(b[i] == (TopLevelSlot { hidden: b[i].hidden, ..c[i] }));
    }
}

proof fn lemma_visible_none(anchor: Anchor, s: Seq<TopLevelSlot>)
    requires
        forall|i: int| 0 <= i < s.len() ==> s[i].hidden,
    ensures
        visible_len(anchor, s) == 0,
    decreases s.len(),
{
    if s.len() > 0 {
        lemma_visible_none(anchor, s.drop_last());
    }
}


proof fn lemma_after_hiding(
    anchor: Anchor,
    padding: u32,
    spacing: u32,
    dimensions: (u32, u32),
    hl: Seq<TopLevelSlot>,
    hc: Seq<TopLevelSlot>,
    hr: Seq<TopLevelSlot>,
    ol: Seq<TopLevelSlot>,
    oc: Seq<TopLevelSlot>,
    or: Seq<TopLevelSlot>,
)
    requires
        offsets_precondition(anchor, padding, spacing, dimensions, ol, oc, or),
        only_hidden_changed(hl, ol),
        only_hidden_changed(hc, oc),
        only_hidden_changed(hr, or),
        hidden_by_priority(
            anchor,
            hl + hc + hr,
            bar_extent(anchor, dimensions).0 as int,
            overhead(padding, spacing, num_lists(ol, oc, or)),
        ),
    ensures
        placement_fits(anchor, padding, spacing, dimensions, hl, hc, hr),
        num_lists(hl, hc, hr) == num_lists(ol, oc, or),
        0 <= visible_len(anchor, hl),
        0 <= visible_len(anchor, hc),
        0 <= visible_len(anchor, hr),
        visible_len(anchor, hl) + visible_len(anchor, hc) + visible_len(anchor, hr) <= i32::MAX,
        visible_len(anchor, hl) + visible_len(anchor, hc) + visible_len(anchor, hr)
            + overhead(padding, spacing, num_lists(ol, oc, or)) <= bar_extent(anchor, dimensions).0,
        sizes_nonneg(hl),
        sizes_nonneg(hc),
        sizes_nonneg(hr),
{
    assert(same_surfaces(hl, ol)) by {
        assert forall|i: int| #![trigger hl[i]] 0 <= i < hl.len() implies hl[i].priority == ol[i].priority && hl[i].width == ol[i].width && hl[i].height == ol[i].height by {
            assert(hl[i] == (TopLevelSlot { hidden: hl[i].hidden, ..ol[i] }));
        }
    }
    assert(same_surfaces(hc, oc)) by {
        assert forall|i: int| #![trigger hc[i]] 0 <= i < hc.len() implies hc[i].priority == oc[i].priority && hc[i].width == oc[i].width && hc[i].height == oc[i].height by {
            assert(hc[i] == (TopLevelSlot { hidden: hc[i].hidden, ..oc[i] }));
        }
    }
    assert(same_surfaces(hr, or)) by {
        assert forall|i: int| #![trigger hr[i]] 0 <= i < hr.len() implies hr[i].priority == or[i].priority && hr[i].width == or[i].width && hr[i].height == or[i].height by {
            assert(hr[i] == (TopLevelSlot { hidden: hr[i].hidden, ..or[i] }));
        }
    }
    assert(placement_fits(anchor, padding, spacing, dimensions, hl, hc, hr));
    lemma_len_concat(anchor, hl, hc);
    lemma_len_concat(anchor, hl + hc, hr);
    let all = ol + oc + or;
    let nl = ol.len() as int;
    let nc = oc.len() as int;
    assert(sizes_nonneg(ol)) by {
        assert forall|i: int| 0 <= i < nl implies ol[i].width >= 0 && ol[i].height >= 0 by {
            assert(all[i] == ol[i]);
        }
    }
    assert(sizes_nonneg(oc)) by {
        assert forall|i: int| 0 <= i < nc implies oc[i].width >= 0 && oc[i].height >= 0 by {
            assert(all[nl + i] == oc[i]);
        }
    }
    assert(sizes_nonneg(or)) by {
        assert forall|i: int| 0 <= i < or.len() implies or[i].width >= 0 && or[i].height >= 0 by {
            assert(all[nl + nc + i] == or[i]);
        }
    }
    lemma_sizes_kept(hl, ol);
    lemma_sizes_kept(hc, oc);
    lemma_sizes_kept(hr, or);
    lemma_len_bounds(anchor, hl);
    lemma_len_bounds(anchor, hc);
    lemma_len_bounds(anchor, hr);
    lemma_same_total(anchor, hl, ol);
    lemma_same_total(anchor, hc, oc);
    lemma_same_total(anchor, hr, or);
    lemma_len_concat(anchor, ol, oc);
    lemma_len_concat(anchor, ol + oc, or);
}

/// The position along the bar where the center list starts.
fn compute_center_offset(
    padding: u32,
    spacing: u32,
    list_length: u32,
    lists_count: u32,
    left_sum: i32,
    center_sum: i32,
    right_sum: i32,
) -> (offset: i32)
    requires
        1 <= lists_count <= 3,
        0 <= left_sum,
        0 <= center_sum,
        0 <= right_sum,
        left_sum + center_sum + right_sum <= i32::MAX,
        center_fits(padding, spacing, list_length, lists_count as int, left_sum as int, center_sum as int, right_sum as int),
    ensures
        offset == center_offset_spec(padding, spacing, list_length, lists_count as int, left_sum as int, center_sum as int, right_sum as int),
{
    let total_sum = left_sum + center_sum + right_sum;
    let requested_eq_length: i32 = (list_length / lists_count) as i32;
    if left_sum < requested_eq_length && center_sum < requested_eq_length
        && right_sum < requested_eq_length {
        let center_padding = (requested_eq_length - center_sum) / 2;
        requested_eq_length + padding as i32 + spacing as i32 + center_padding
    } else {
        let center_padding = (list_length as i32 - total_sum) / 2;
        left_sum + padding as i32 + spacing as i32 + center_padding
    }
}

/// Lays out the dock: hides surfaces of lowest priority until the rest fits
/// on the bar, then places the left list from the start of the bar, the
/// center list at the center offset and the right list against the end of
/// the bar, each surface centred across the bar.
pub fn update_offsets(
    anchor: Anchor,
    padding: u32,
    spacing: u32,
    dimensions: (u32, u32),
    left: &mut Vec<TopLevelSlot>,
    center: &mut Vec<TopLevelSlot>,
    right: &mut Vec<TopLevelSlot>,
)
    requires
        offsets_precondition(anchor, padding, spacing, dimensions, old(left)@, old(center)@, old(right)@),
        old(left)@.len() + old(center)@.len() + old(right)@.len() <= usize::MAX,
    ensures
        exists|l: Seq<TopLevelSlot>, c: Seq<TopLevelSlot>, r: Seq<TopLevelSlot>|
            {
                &&& only_hidden_changed(l, old(left)@)
                &&& only_hidden_changed(c, old(center)@)
                &&& only_hidden_changed(r, old(right)@)
                &&& hidden_by_priority(
                    anchor,
                    l + c + r,
                    bar_extent(anchor, dimensions).0 as int,
                    overhead(padding, spacing, num_lists(old(left)@, old(center)@, old(right)@)),
                )
                &&& (final(left)@, final(center)@, final(right)@) == placed(
                    anchor,
                    padding,
                    spacing,
                    dimensions,
                    l,
                    c,
                    r,
                )
            },
{
    let (list_length, list_thickness) = match anchor {
        Anchor::Left | Anchor::Right => (dimensions.1, dimensions.0),
        Anchor::Top | Anchor::Bottom => (dimensions.0, dimensions.1),
    };
    let mut lists_count: u32 = 0;
    if left.len() > 0 {
        lists_count = lists_count + 1;
    }
    if center.len() > 0 {
        lists_count = lists_count + 1;
    }
    if right.len() > 0 {
        lists_count = lists_count + 1;
    }
    let ghost lists = num_lists(old(left)@, old(center)@, old(right)@);
    let ghost over = overhead(padding, spacing, lists);
    assert(lists_count == lists);
    let (left_sum, center_sum, right_sum) = hide_by_priority(
        anchor,
        padding,
        spacing,
        dimensions,
        left,
        center,
        right,
    );
    let ghost hl = left@;
    let ghost hc = center@;
    let ghost hr = right@;
    proof {
        lemma_after_hiding(anchor, padding, spacing, dimensions, hl, hc, hr, old(left)@, old(center)@, old(right)@);
    }
    let total_sum = left_sum + center_sum + right_sum;
    let center_offset = compute_center_offset(padding, spacing, list_length, lists_count, left_sum, center_sum, right_sum);
    place_list(anchor, list_thickness, spacing, left, padding, true);
    place_list(anchor, list_thickness, spacing, center, center_offset as u32, true);
    place_list(anchor, list_thickness, spacing, right, list_length - padding - right_sum as u32, false);
    assert((left@, center@, right@) == placed(anchor, padding, spacing, dimensions, hl, hc, hr));
}


/// What the dock's layer surface awaits or received from the compositor.
#[derive(Clone, Copy, Debug, PartialEq, Eq, Structural)]
pub enum RenderEvent {
    WaitConfigure { width: u32, height: u32 },
    Configure { width: u32, height: u32, serial: u32 },
    Closed,
}

/// What a change of a seat's capabilities does to the devices the dock
/// keeps for it.
#[derive(Clone, Copy, Debug, PartialEq, Eq, Structural)]
pub struct SeatDevices {
    pub add_keyboard: bool,
    pub add_pointer: bool,
    pub release_keyboard: bool,
    pub release_pointer: bool,
}

/// A seat that has a keyboard or a pointer and is not defunct gets the
/// devices it lacks, keyboard and pointer both; any other seat releases
/// the devices it has.
pub fn seat_devices(has_keyboard: bool, has_pointer: bool, defunct: bool, kept_keyboard: bool, kept_pointer: bool) -> (res: SeatDevices)
    ensures
        (has_keyboard || has_pointer) && !defunct ==> res == (SeatDevices {
            add_keyboard: !kept_keyboard,
            add_pointer: !kept_pointer,
            release_keyboard: false,
            release_pointer: false,
        }),
        !((has_keyboard || has_pointer) && !defunct) ==> res == (SeatDevices {
            add_keyboard: false,
            add_pointer: false,
            release_keyboard: kept_keyboard,
            release_pointer: kept_pointer,
        }),
{
    if (has_keyboard || has_pointer) && !defunct {
        SeatDevices { add_keyboard: !kept_keyboard, add_pointer: !kept_pointer, release_keyboard: false, release_pointer: false }
    } else {
        SeatDevices { add_keyboard: false, add_pointer: false, release_keyboard: kept_keyboard, release_pointer: kept_pointer }
    }
}

/// An event of the compositor for the dock's layer surface.
#[derive(Clone, Copy, Debug, PartialEq, Eq, Structural)]
pub enum LayerEvent {
    Configure { serial: u32, width: u32, height: u32 },
    Closed,
    Other,
}

/// What the layer surface awaits after an event, and the configure it
/// acknowledges: closing always closes it; a configure, unless it is
/// closed, is acknowledged and recorded for the next frame.
pub open spec fn layer_next(current: Option<RenderEvent>, event: LayerEvent) -> (Option<RenderEvent>, Option<u32>) {
    match event {
        LayerEvent::Closed => (Some(RenderEvent::Closed), None),
        LayerEvent::Configure { serial, width, height } => if current != Some(RenderEvent::Closed) {
            (Some(RenderEvent::Configure { width, height, serial }), Some(serial))
        } else {
            (current, None)
        },
        LayerEvent::Other => (current, None),
    }
}

/// What the layer surface awaits after an event, as [`layer_next`] says.
pub fn layer_event(current: Option<RenderEvent>, event: LayerEvent) -> (res: (Option<RenderEvent>, Option<u32>))
    ensures
        res == layer_next(current, event),
{
    match event {
        LayerEvent::Closed => (Some(RenderEvent::Closed), None),
        LayerEvent::Configure { serial, width, height } => {
            if current != Some(RenderEvent::Closed) {
                (Some(RenderEvent::Configure { width, height, serial }), Some(serial))
            } else {
                (current, None)
            }
        },
        LayerEvent::Other => (current, None),
    }
}

/// What the layer surface awaits after a run of events.
pub open spec fn layer_after(current: Option<RenderEvent>, events: Seq<LayerEvent>) -> Option<RenderEvent>
    decreases events.len(),
{
    if events.len() == 0 {
        current
    } else {
        layer_next(layer_after(current, events.drop_last()), events.last()).0
    }
}

/// Once the layer surface is closed it stays closed, whatever events follow.
pub proof fn lemma_closed_layer_stays_closed(events: Seq<LayerEvent>)
    ensures
        layer_after(Some(RenderEvent::Closed), events) == Some(RenderEvent::Closed),
    decreases events.len(),
{
    if events.len() > 0 {
        lemma_closed_layer_stays_closed(events.drop_last());
    }
}

/// What one round of the dock's event handling does.
#[derive(Clone, Copy, Debug, PartialEq, Eq)]
pub struct DockRound {
    /// the layer surface closed: the applets are stopped
    pub kill_children: bool,
    /// the dock's size afterwards
    pub width: u32,
    pub height: u32,
    /// whether the surfaces are laid out again for a new size
    pub relayout: bool,
    /// the size asked of the compositor, if any
    pub set_size: Option<(u32, u32)>,
    /// what the layer surface awaits afterwards
    pub next_event: Option<RenderEvent>,
    /// the size still to ask for afterwards
    pub pending: Option<(u32, u32)>,
    /// whether the dock is drawn
    pub render: bool,
    /// the time of the dock's last change, in nanoseconds, which the round
    /// hands back to its caller
    pub last_dirty: u64,
}

/// One round of the dock's event handling: a closed surface stops the
/// applets; a configure to a new size, while no other size is to be asked
/// for, becomes the dock's size and lays it out again; an awaited configure
/// is still awaited; otherwise a size still to ask for is asked for and
/// then awaited, and without one the dock is drawn. The time of the dock's
/// last change is handed back as it was: nothing in the round changes it.
pub fn handle_events(event: Option<RenderEvent>, dims: (u32, u32), pending: Option<(u32, u32)>, last_dirty: u64) -> (res: DockRound)
    ensures
        match event {
            Some(RenderEvent::Closed) => res == (DockRound {
                kill_children: true, width: dims.0, height: dims.1, relayout: false,
                set_size: None, next_event: None, pending, render: false, last_dirty,
            }),
            Some(RenderEvent::Configure { width, height, .. }) => {
                let take = (width, height) != dims && pending is None;
                res == (DockRound {
                    kill_children: false,
                    width: if take { width } else { dims.0 },
                    height: if take { height } else { dims.1 },
                    relayout: take,
                    set_size: None, next_event: None, pending, render: false, last_dirty,
                })
            },
            Some(RenderEvent::WaitConfigure { width, height }) => res == (DockRound {
                kill_children: false, width: dims.0, height: dims.1, relayout: false,
                set_size: None, next_event: event, pending, render: false, last_dirty,
            }),
            None => match pending {
                Some((w, h)) => res == (DockRound {
                    kill_children: false, width: dims.0, height: dims.1, relayout: false,
                    set_size: Some((w, h)), next_event: Some(RenderEvent::WaitConfigure { width: w, height: h }),
                    pending: None, render: false, last_dirty,
                }),
                None => res == (DockRound {
                    kill_children: false, width: dims.0, height: dims.1, relayout: false,
                    set_size: None, next_event: None, pending: None, render: true, last_dirty,
                }),
            },
        },
{
    let still = DockRound {
        kill_children: false, width: dims.0, height: dims.1, relayout: false,
        set_size: None, next_event: None, pending, render: false, last_dirty,
    };
    match event {
        Some(RenderEvent::Closed) => DockRound { kill_children: true, ..still },
        Some(RenderEvent::Configure { width, height, .. }) => {
            let take = (width != dims.0 || height != dims.1) && pending.is_none();
            if take {
                DockRound { width, height, relayout: true, ..still }
            } else {
                still
            }
        },
        Some(RenderEvent::WaitConfigure { width, height }) => DockRound { next_event: event, ..still },
        None => match pending {
            Some((w, h)) => DockRound {
                set_size: Some((w, h)),
                next_event: Some(RenderEvent::WaitConfigure { width: w, height: h }),
                pending: None,
                ..still
            },
            None => DockRound { render: true, ..still },
        },
    }
}

/// `value` brought within `start..=end`: raised to `start` below it, lowered to
/// `end` above it.
pub open spec fn clamp_inclusive(value: u32, start: u32, end: u32) -> u32 {
    if value < start {
        start
    } else if value > end {
        end
    } else {
        value
    }
}

/// The dock's size constrained by its configuration: at least one in each
/// direction, then brought within the ranges of `get_dimensions`, ends
/// included.
pub open spec fn constrained_dim(
    config: CosmicDockConfig,
    size: (u32, u32),
    output: (i32, i32),
) -> (u32, u32) {
    let w = if size.0 < 1 { 1u32 } else { size.0 };
    let h = if size.1 < 1 { 1u32 } else { size.1 };
    let (lo, hi) = config.thickness_range();
    let o = (output.0 as u32, output.1 as u32);
    let along: Option<(u32, u32)> = if config.spec_expand_to_edges() {
        match config.anchor {
            Anchor::Left | Anchor::Right => Some((o.1, o.1)),
            Anchor::Top | Anchor::Bottom => Some((o.0, o.0)),
        }
    } else {
        None
    };
    let (wr, hr): (Option<(u32, u32)>, Option<(u32, u32)>) = match config.anchor {
        Anchor::Left | Anchor::Right => (Some((lo, hi)), along),
        Anchor::Top | Anchor::Bottom => (along, Some((lo, hi))),
    };
    (
        match wr {
            Some(r) => clamp_inclusive(w, r.0, r.1),
            None => w,
        },
        match hr {
            Some(r) => clamp_inclusive(h, r.0, r.1),
            None => h,
        },
    )
}

/// Constrains the dock's size to what its configuration allows on an output
/// of the given size.
pub fn constrain_dim(config: &CosmicDockConfig, size: (u32, u32), output: (i32, i32)) -> (res: (u32, u32))
    ensures
        res == constrained_dim(*config, size, output),
{
    let (mut w, mut h) = size;
    let (min_w, min_h): (u32, u32) = (1, 1);
    w = if min_w > w { min_w } else { w };
    h = if min_h > h { min_h } else { h };
    if let (Some(w_range), _) = config.get_dimensions((output.0 as u32, output.1 as u32)) {
        if w < w_range.start {
            w = w_range.start;
        } else if w > w_range.end {
            w = w_range.end;
        }
    }
    if let (_, Some(h_range)) = config.get_dimensions((output.0 as u32, output.1 as u32)) {
        if h < h_range.start {
            h = h_range.start;
        } else if h > h_range.end {
            h = h_range.end;
        }
    }
    (w, h)
}

/// The size that the dock asks for after one of its surfaces reports the
/// size `(w, h)`: wider by the padding at both ends when the surface is wider
/// than the dock, what it has asked for and what it awaits; then likewise
/// higher. Otherwise what it had asked for stays.
pub open spec fn pending_after_dirty(
    dimensions: (u32, u32),
    pending: Option<(u32, u32)>,
    event: Option<RenderEvent>,
    size: (u32, u32),
    padding: u32,
) -> Option<(u32, u32)> {
    let p = match pending {
        Some(p) => p,
        None => (0u32, 0u32),
    };
    let wait: (u32, u32) = match event {
        Some(RenderEvent::Configure { width, height, .. }) => (width, height),
        Some(RenderEvent::WaitConfigure { width, height }) => (width, height),
        _ => (0, 0),
    };
    let after_w = if dimensions.0 < size.0 && p.0 < size.0 && wait.0 < size.0 {
        Some(((size.0 + 2 * padding) as u32, dimensions.1))
    } else {
        pending
    };
    if dimensions.1 < size.1 && p.1 < size.1 && wait.1 < size.1 {
        Some((dimensions.0, (size.1 + 2 * padding) as u32))
    } else {
        after_w
    }
}

/// The size that the dock asks for after one of its surfaces reports a new
/// size.
pub fn pending_dimensions_after_dirty(
    dimensions: (u32, u32),
    pending_dimensions: Option<(u32, u32)>,
    next_render_event: Option<RenderEvent>,
    size: (u32, u32),
    padding: u32,
) -> (res: Option<(u32, u32)>)
    requires
        size.0 + 2 * padding <= u32::MAX,
        size.1 + 2 * padding <= u32::MAX,
    ensures
        res == pending_after_dirty(dimensions, pending_dimensions, next_render_event, size, padding),
{
    let (w, h) = size;
    let mut result = pending_dimensions;
    let pending = match pending_dimensions {
        Some(p) => p,
        None => (0, 0),
    };
    let wait_configure_dim: (u32, u32) = match next_render_event {
        Some(RenderEvent::Configure { width, height, .. }) => (width, height),
        Some(RenderEvent::WaitConfigure { width, height }) => (width, height),
        _ => (0, 0),
    };
    if dimensions.0 < w && pending.0 < w && wait_configure_dim.0 < w {
        result = Some((w + 2 * padding, dimensions.1));
    }
    if dimensions.1 < h && pending.1 < h && wait_configure_dim.1 < h {
        result = Some((dimensions.0, h + 2 * padding));
    }
    result
}

/// A dock space as the space manager sees it: the layer surface it draws to
/// and the name of its output.
#[derive(Clone, Debug)]
pub struct SpaceEntry {
    pub surface: u64,
    pub output_name: String,
}

/// The dock spaces of all outputs and which one is active.
pub struct SpaceManager {
    spaces: Vec<SpaceEntry>,
    active: Option<usize>,
}

impl SpaceManager {
    /// The index of the active space, if any.
    pub closed spec fn active_index(self) -> Option<usize> {
        self.active
    }

    /// The spaces, in the order they were added.
    pub closed spec fn space_list(self) -> Seq<SpaceEntry> {
        self.spaces@
    }

    /// The spaces, in the order they were added.
    pub fn spaces(&self) -> (res: &Vec<SpaceEntry>)
        ensures
            res@ == self.space_list(),
    {
        &self.spaces
    }

    /// No spaces and none active.
    pub fn new() -> (res: Self)
        ensures
            res.space_list().len() == 0,
            res.active_index() is None,
    {
        SpaceManager { spaces: Vec::new(), active: None }
    }

    /// Adds a space; the first one added becomes active.
    pub fn push_space(&mut self, s: SpaceEntry)
        ensures
            final(self).space_list() == old(self).space_list().push(s),
            final(self).active_index() == if old(self).space_list().len() == 0 {
                Some(0usize)
            } else {
                old(self).active_index()
            },
    {
        if self.spaces.len() == 0 {
            self.active = Some(0);
        }
        self.spaces.push(s);
    }

    /// The index of the active space, if it is one of the spaces.
    pub fn active_space(&self) -> (res: Option<usize>)
        ensures
            res == match self.active_index() {
                Some(i) => if i < self.space_list().len() { Some(i) } else { None },
                None => None,
            },
    {
        match self.active {
            Some(i) => if i < self.spaces.len() { Some(i) } else { None },
            None => None,
        }
    }

    /// Keeps the spaces whose output has the given name, and only those.
    pub fn remove_space_with_output(&mut self, output_name: &str)
        ensures
            final(self).space_list() == old(self).space_list().filter(|s: SpaceEntry| s.output_name@ == output_name@),
            final(self).active_index() == old(self).active_index(),
    {
        let name = output_name.to_string();
        proof { vstd::string::to_string_from_display_ensures_for_str(output_name, name); }
        let mut kept: Vec<SpaceEntry> = Vec::new();
        let mut i: usize = 0;
        let ghost pred = |s: SpaceEntry| s.output_name@ == output_name@;
        while i < self.spaces.len()
            invariant
                i <= self.spaces@.len(),
                self.spaces@ == old(self).spaces@,
                self.active == old(self).active,
                name@ == output_name@,
                pred == (|s: SpaceEntry| s.output_name@ == output_name@),
                kept@ == self.spaces@.take(i as int).filter(pred),
            decreases self.spaces@.len() - i,
        {
            let s = SpaceEntry {
                surface: self.spaces[i].surface,
                output_name: self.spaces[i].output_name.clone(),
            };
            assert(s == self.spaces@[i as int]);
            proof {
                reveal_with_fuel(Seq::filter, 1);
                assert(self.spaces@.take(i + 1).drop_last() =~= self.spaces@.take(i as int));
            }
            let keep = s.output_name.eq(&name);
            if keep {
                kept.push(s);
            }
            proof {
                let t = self.spaces@.take(i + 1);
                assert(t.last() == s);
                assert(t.drop_last() =~= self.spaces@.take(i as int));
                assert(pred(s) == keep);
            }
            i = i + 1;
        }
        assert(self.spaces@.take(i as int) =~= self.spaces@);
        self.spaces = kept;
    }

    /// Makes the space drawing to `active_surface` active, if there is one;
    /// with no surface, none is active. Returns the index of the previously
    /// active space, whose popups are to be closed, unless the surface is
    /// already the active one's.
    pub fn update_active(&mut self, active_surface: Option<u64>) -> (close: Option<usize>)
        ensures
            final(self).space_list() == old(self).space_list(),
            ({
                let cur = match old(self).active_index() {
                    Some(i) => if i < old(self).space_list().len() { Some(i) } else { None },
                    None => None,
                };
                let unchanged = match cur {
                    Some(i) => active_surface == Some(old(self).space_list()[i as int].surface),
                    None => false,
                };
                if unchanged {
                    close is None && final(self).active_index() == old(self).active_index()
                } else {
                    &&& close == cur
                    &&& match active_surface {
                        Some(surface) => if exists|j: int| 0 <= j < old(self).space_list().len() && old(self).space_list()[j].surface == surface {
                            let j = final(self).active_index();
                            &&& j is Some
                            &&& j.unwrap() < old(self).space_list().len()
                            &&& old(self).space_list()[j.unwrap() as int].surface == surface
                            &&& forall|k: int| 0 <= k < j.unwrap() ==> old(self).space_list()[k].surface != surface
                        } else {
                            final(self).active_index() == old(self).active_index()
                        },
                        None => final(self).active_index() is None,
                    }
                }
            }),
    {
        let cur = self.active_space();
        if let Some(i) = cur {
            if active_surface == Some(self.spaces[i].surface) {
                return None;
            }
        }
        if let Some(surface) = active_surface {
            let mut j: usize = 0;
            while j < self.spaces.len()
                invariant
                    j <= self.spaces@.len(),
                    self.spaces@ == old(self).spaces@,
                    self.active == old(self).active,
                    forall|k: int| 0 <= k < j ==> self.spaces@[k].surface != surface,
                    cur == match old(self).active {
                        Some(i) => if i < old(self).spaces@.len() { Some(i) } else { None },
                        None => None,
                    },
                    match cur {
                        Some(i) => active_surface != Some(old(self).spaces@[i as int].surface),
                        None => true,
                    },
                    active_surface == Some(surface),
                decreases self.spaces@.len() - j,
            {
                if self.spaces[j].surface == surface {
                    self.active = Some(j);
                    assert(old(self).space_list()[j as int].surface == surface);
                    return cur;
                }
                j = j + 1;
            }
        } else {
            self.active = None;
        }
        cur
    }
}

} // verus!
