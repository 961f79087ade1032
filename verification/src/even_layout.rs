//! Placing the panel's windows by dividing its length evenly among its
//! lists.
//!
//! Each configured list (left, center, right) is offered an equal share of
//! the panel's length. When every list fits its share, the center list is
//! centered in the middle share; otherwise it is centered in what the side
//! lists leave. A panel with only a center list is a dock and starts at its
//! padding. Windows follow each other along their list, each shifted by the
//! spacing times its client's position, and are centered across the panel.

use vstd::prelude::*;
use crate::panel_space::PanelAnchor;
use crate::panel_geometry::{PanelWindow, SectionClient, section_matches, sorted_matches};
use crate::dock_space::{center_in_bar, center_in_bar_spec, center_in_bar_fits};

verus! {

/// What the even layout reads of the panel: its edge, padding and spacing,
/// the size of its layer surface, and which lists are configured.
#[derive(Clone, Copy, Debug, PartialEq, Eq, Structural)]
pub struct EvenLayoutInputs {
    pub anchor: PanelAnchor,
    pub padding: u32,
    pub spacing: u32,
    pub width: i32,
    pub height: i32,
    pub has_left: bool,
    pub has_center: bool,
    pub has_right: bool,
}

/// A window and the place it is given.
#[derive(Clone, Copy, Debug, PartialEq, Eq, Structural)]
pub struct Placed {
    pub window: u64,
    pub x: i32,
    pub y: i32,
}

/// Whether the panel lies along a horizontal edge.
pub open spec fn is_horizontal(anchor: PanelAnchor) -> bool {
    anchor == PanelAnchor::Top || anchor == PanelAnchor::Bottom
}

/// The panel's length along its edge.
pub open spec fn list_length(inp: EvenLayoutInputs) -> int {
    if is_horizontal(inp.anchor) { inp.width as int } else { inp.height as int }
}

/// The panel's thickness across its edge.
pub open spec fn list_thickness(inp: EvenLayoutInputs) -> int {
    if is_horizontal(inp.anchor) { inp.height as int } else { inp.width as int }
}

/// The number of configured lists.
pub open spec fn count_lists(inp: EvenLayoutInputs) -> int {
    (if inp.has_left { 1int } else { 0int }) + (if inp.has_right { 1int } else { 0int }) + (if inp.has_center { 1int } else { 0int })
}

/// Whether only the center list is configured.
pub open spec fn is_dock(inp: EvenLayoutInputs) -> bool {
    inp.has_center && !inp.has_left && !inp.has_right
}

/// A window's length along the panel.
pub open spec fn major_len(anchor: PanelAnchor, w: PanelWindow) -> int {
    if is_horizontal(anchor) { w.bbox_w as int } else { w.bbox_h as int }
}

/// The summed lengths of the first `n` windows of a list.
pub open spec fn lens_prefix(anchor: PanelAnchor, s: Seq<(usize, PanelWindow)>, n: int) -> int
    decreases n,
{
    if n <= 0 { 0 } else { lens_prefix(anchor, s, n - 1) + major_len(anchor, s[n - 1].1) }
}

/// The spacing between the windows of a list: one less than their number,
/// counted as one when there are none, times the spacing.
pub open spec fn list_gaps(spacing: u32, n: int) -> int {
    let count = if n < 1 { 1int } else { n };
    (spacing as i32) as int * ((count as usize as i32) as int - 1)
}

/// The length a list asks for: its windows and the spacing between them.
pub open spec fn list_sum(inp: EvenLayoutInputs, s: Seq<(usize, PanelWindow)>) -> int {
    lens_prefix(inp.anchor, s, s.len() as int) + list_gaps(inp.spacing, s.len() as int)
}

/// Division that rounds toward zero, as Rust's integer division does.
pub open spec fn trunc_div(a: int, b: int) -> int {
    if a >= 0 { a / b } else { -((-a) / b) }
}

/// A value, or zero when it is negative.
pub open spec fn clamp0(v: int) -> int {
    if v < 0 { 0 } else { v }
}

/// Where the right list ends and where the center list starts: a dock's
/// center list starts at the padding; when each list fits an equal share,
/// the center list is centered in the middle share; otherwise it follows
/// the left list and is centered in what the lists leave.
pub open spec fn even_offsets(inp: EvenLayoutInputs, l: Seq<(usize, PanelWindow)>, c: Seq<(usize, PanelWindow)>, r: Seq<(usize, PanelWindow)>) -> (int, int) {
    let total = list_sum(inp, l) + list_sum(inp, c) + list_sum(inp, r);
    let ls = clamp0(list_sum(inp, l));
    let cs = clamp0(list_sum(inp, c));
    let rs = clamp0(list_sum(inp, r));
    let pad = (inp.padding as i32) as int;
    let eq = trunc_div(list_length(inp), count_lists(inp));
    if is_dock(inp) {
        (0, pad)
    } else if ls <= eq && cs <= eq && rs <= eq {
        (rs, eq + pad + trunc_div(eq - cs, 2))
    } else {
        (rs, ls + pad + trunc_div(list_length(inp) - total, 2))
    }
}

/// The places of a list's windows from `prev` on: each window starts the
/// spacing times its client's position past where the previous one ended,
/// and is centered across the panel.
pub open spec fn place_even(anchor: PanelAnchor, thick: u32, spacing: u32, s: Seq<(usize, PanelWindow)>, prev: int) -> Seq<Placed>
    decreases s.len(),
{
    if s.len() == 0 {
        seq![]
    } else {
        let (i, w) = s[0];
        let cur = prev + spacing * (i as u32);
        let p = if is_horizontal(anchor) {
            Placed { window: w.window, x: cur as i32, y: center_in_bar_spec(thick, w.bbox_h as u32) as i32 }
        } else {
            Placed { window: w.window, x: center_in_bar_spec(thick, w.bbox_w as u32) as i32, y: cur as i32 }
        };
        let adv = if is_horizontal(anchor) { (w.bbox_w as u32) as int } else { (w.bbox_h as u32) as int };
        seq![p] + place_even(anchor, thick, spacing, s.drop_first(), prev + adv)
    }
}

/// Whether `place_even` stays within its unsigned 32-bit arithmetic.
pub open spec fn place_even_fits(anchor: PanelAnchor, thick: u32, spacing: u32, s: Seq<(usize, PanelWindow)>, prev: int) -> bool
    decreases s.len(),
{
    if s.len() == 0 {
        true
    } else {
        let (i, w) = s[0];
        let adv = if is_horizontal(anchor) { (w.bbox_w as u32) as int } else { (w.bbox_h as u32) as int };
        &&& spacing * (i as u32) <= u32::MAX
        &&& prev + spacing * (i as u32) <= u32::MAX
        &&& center_in_bar_fits(thick, if is_horizontal(anchor) { w.bbox_h as u32 } else { w.bbox_w as u32 })
        &&& prev + adv <= u32::MAX
        &&& place_even_fits(anchor, thick, spacing, s.drop_first(), prev + adv)
    }
}

/// The places of all windows: the left list from the padding, the center
/// list from its offset, and the right list so that it ends at the padding.
pub open spec fn even_layout_spec(inp: EvenLayoutInputs, l: Seq<(usize, PanelWindow)>, c: Seq<(usize, PanelWindow)>, r: Seq<(usize, PanelWindow)>)
    -> (Seq<Placed>, Seq<Placed>, Seq<Placed>)
{
    let (rs, center_offset) = even_offsets(inp, l, c, r);
    let thick = list_thickness(inp) as u32;
    (
        place_even(inp.anchor, thick, inp.spacing, l, inp.padding as int),
        place_even(inp.anchor, thick, inp.spacing, c, (center_offset as i32 as u32) as int),
        place_even(inp.anchor, thick, inp.spacing, r, (list_length(inp) as i32 as u32) - inp.padding - (rs as i32 as u32)),
    )
}

/// Whether a list's sums stay within `i32`.
pub open spec fn list_sum_fits(inp: EvenLayoutInputs, s: Seq<(usize, PanelWindow)>) -> bool {
    let n = if s.len() < 1 { 1int } else { s.len() as int };
    &&& forall|k: int| 0 <= k <= s.len() ==> i32::MIN <= #[trigger] lens_prefix(inp.anchor, s, k) <= i32::MAX
    &&& i32::MIN <= (n as usize as i32) as int - 1
    &&& i32::MIN <= list_gaps(inp.spacing, s.len() as int) <= i32::MAX
    &&& i32::MIN <= list_sum(inp, s) <= i32::MAX
}

/// Whether the even layout can be made: some list is configured, the
/// thickness is not negative, the lists fit in the panel's length, and the
/// arithmetic stays in range.
pub open spec fn even_fits(inp: EvenLayoutInputs, l: Seq<(usize, PanelWindow)>, c: Seq<(usize, PanelWindow)>, r: Seq<(usize, PanelWindow)>) -> bool {
    let in_i32 = |v: int| i32::MIN <= v <= i32::MAX;
    let total = list_sum(inp, l) + list_sum(inp, c) + list_sum(inp, r);
    let pad = (inp.padding as i32) as int;
    let sp = (inp.spacing as i32) as int;
    let (rs, center_offset) = even_offsets(inp, l, c, r);
    let thick = list_thickness(inp) as u32;
    let eq = trunc_div(list_length(inp), count_lists(inp));
    let ls = clamp0(list_sum(inp, l));
    let cs = clamp0(list_sum(inp, c));
    &&& count_lists(inp) > 0
    &&& list_thickness(inp) >= 0
    &&& list_sum_fits(inp, l)
    &&& list_sum_fits(inp, c)
    &&& list_sum_fits(inp, r)
    &&& in_i32(list_sum(inp, l) + list_sum(inp, c))
    &&& in_i32(total)
    &&& in_i32(pad * 2)
    &&& in_i32(total + pad * 2)
    &&& in_i32(sp * (count_lists(inp) - 1))
    &&& in_i32(total + pad * 2 + sp * (count_lists(inp) - 1))
    &&& total + pad * 2 + sp * (count_lists(inp) - 1) <= list_length(inp)
    &&& (!is_dock(inp) && ls <= eq && cs <= eq && clamp0(list_sum(inp, r)) <= eq ==>
        in_i32(eq - cs) && in_i32(eq + pad) && in_i32(eq + pad + trunc_div(eq - cs, 2)))
    &&& (!is_dock(inp) && !(ls <= eq && cs <= eq && clamp0(list_sum(inp, r)) <= eq) ==>
        in_i32(list_length(inp) - total) && in_i32(ls + pad) && in_i32(ls + pad + trunc_div(list_length(inp) - total, 2)))
    &&& (list_length(inp) as i32 as u32) >= inp.padding
    &&& (list_length(inp) as i32 as u32) - inp.padding >= (rs as i32 as u32)
    &&& place_even_fits(inp.anchor, thick, inp.spacing, l, inp.padding as int)
    &&& place_even_fits(inp.anchor, thick, inp.spacing, c, (center_offset as i32 as u32) as int)
    &&& place_even_fits(inp.anchor, thick, inp.spacing, r, (list_length(inp) as i32 as u32) - inp.padding - (rs as i32 as u32))
}

fn list_sum_exec(inp: &EvenLayoutInputs, s: &Vec<(usize, PanelWindow)>) -> (sum: i32)
    requires
        list_sum_fits(*inp, s@),
    ensures
        sum == list_sum(*inp, s@),
{
    let mut acc: i32 = 0;
    let mut k: usize = 0;
    while k < s.len()
        invariant
            k <= s@.len(),
            list_sum_fits(*inp, s@),
            acc == lens_prefix(inp.anchor, s@, k as int),
        decreases s@.len() - k,
    {
        let w = s[k].1;
        let d = match inp.anchor {
            PanelAnchor::Top | PanelAnchor::Bottom => w.bbox_w,
            PanelAnchor::Left | PanelAnchor::Right => w.bbox_h,
        };
        assert(lens_prefix(inp.anchor, s@, k + 1) == acc + d);
        assert(i32::MIN <= lens_prefix(inp.anchor, s@, k + 1) <= i32::MAX);
        acc = acc + d;
        k = k + 1;
    }
    let n: usize = if s.len() < 1 { 1 } else { s.len() };
    let sp: i32 = #[verifier::truncate] (inp.spacing as i32);
    let cnt: i32 = #[verifier::truncate] (n as i32);
    let gaps: i32 = sp * (cnt - 1);
    acc + gaps
}

fn place_even_exec(anchor: PanelAnchor, thick: u32, spacing: u32, s: &Vec<(usize, PanelWindow)>, prev0: u32) -> (res: Vec<Placed>)
    requires
        place_even_fits(anchor, thick, spacing, s@, prev0 as int),
    ensures
        res@ == place_even(anchor, thick, spacing, s@, prev0 as int),
{
    let mut res: Vec<Placed> = Vec::new();
    let mut prev: u32 = prev0;
    let mut k: usize = 0;
    let ghost total = place_even(anchor, thick, spacing, s@, prev0 as int);
    assert(s@.subrange(0, s@.len() as int) =~= s@);
    assert(res@ + total =~= total);
    while k < s.len()
        invariant
            k <= s@.len(),
            place_even_fits(anchor, thick, spacing, s@.subrange(k as int, s@.len() as int), prev as int),
            res@ + place_even(anchor, thick, spacing, s@.subrange(k as int, s@.len() as int), prev as int) == total,
        decreases s@.len() - k,
    {
        let ghost rest = s@.subrange(k as int, s@.len() as int);
        assert(rest.drop_first() =~= s@.subrange(k + 1, s@.len() as int));
        let (i, w) = s[k];
        assert(rest[0] == (i, w));
        let iu: u32 = #[verifier::truncate] (i as u32);
        let cur: u32 = prev + spacing * iu;
        let horizontal = match anchor { PanelAnchor::Top | PanelAnchor::Bottom => true, _ => false };
        let p = if horizontal {
            Placed { window: w.window, x: #[verifier::truncate] (cur as i32), y: center_in_bar(thick, #[verifier::truncate] (w.bbox_h as u32)) }
        } else {
            Placed { window: w.window, x: center_in_bar(thick, #[verifier::truncate] (w.bbox_w as u32)), y: #[verifier::truncate] (cur as i32) }
        };
        let adv: u32 = if horizontal { #[verifier::truncate] (w.bbox_w as u32) } else { #[verifier::truncate] (w.bbox_h as u32) };
        let ghost before = res@;
        res.push(p);
        prev = prev + adv;
        k = k + 1;
        assert(res@ + place_even(anchor, thick, spacing, s@.subrange(k as int, s@.len() as int), prev as int)
            =~= before + (seq![p] + place_even(anchor, thick, spacing, rest.drop_first(), prev as int)));
    }
    assert(s@.subrange(k as int, s@.len() as int) =~= Seq::<(usize, PanelWindow)>::empty());
    assert(res@ =~= res@ + Seq::<Placed>::empty());
    res
}

/// Division by the number of lists, rounding toward zero.
fn div_lists(length: i32, n: i32) -> (q: i32)
    requires
        1 <= n <= 3,
    ensures
        q == trunc_div(length as int, n as int),
{
    if n == 1 {
        length
    } else if n == 2 {
        length / 2
    } else {
        length / 3
    }
}

/// Where the right list ends and the center list starts, as
/// [`even_offsets`] says.
fn even_offsets_exec(
    inp: &EvenLayoutInputs,
    l: &Vec<(usize, PanelWindow)>,
    c: &Vec<(usize, PanelWindow)>,
    r: &Vec<(usize, PanelWindow)>,
) -> (res: (i32, i32))
    requires
        even_fits(*inp, l@, c@, r@),
    ensures
        res.0 as int == even_offsets(*inp, l@, c@, r@).0,
        res.1 as int == even_offsets(*inp, l@, c@, r@).1,
{
    let horizontal = match inp.anchor { PanelAnchor::Top | PanelAnchor::Bottom => true, _ => false };
    let length = if horizontal { inp.width } else { inp.height };
    let mut num_lists: i32 = 0;
    if inp.has_left {
        num_lists = num_lists + 1;
    }
    if inp.has_right {
        num_lists = num_lists + 1;
    }
    let dock = inp.has_center && num_lists == 0;
    if inp.has_center {
        num_lists = num_lists + 1;
    }
    let ls0 = list_sum_exec(inp, l);
    let cs0 = list_sum_exec(inp, c);
    let rs0 = list_sum_exec(inp, r);
    let total = ls0 + cs0 + rs0;
    let pad: i32 = #[verifier::truncate] (inp.padding as i32);
    let ls = if ls0 < 0 { 0 } else { ls0 };
    let cs = if cs0 < 0 { 0 } else { cs0 };
    let rs = if rs0 < 0 { 0 } else { rs0 };
    let eq: i32 = div_lists(length, num_lists);
    if dock {
        (0i32, pad)
    } else if ls <= eq && cs <= eq && rs <= eq {
        let cp = (eq - cs) / 2;
        (rs, eq + pad + cp)
    } else {
        let cp = (length - total) / 2;
        (rs, ls + pad + cp)
    }
}

/// The places of the windows of the three lists, as [`even_layout_spec`]
/// says; the windows of each list are those of [`sorted_matches`].
pub fn update_window_locations(
    inp: &EvenLayoutInputs,
    windows: &Vec<PanelWindow>,
    left: &Vec<SectionClient>,
    center: &Vec<SectionClient>,
    right: &Vec<SectionClient>,
) -> (res: (Vec<Placed>, Vec<Placed>, Vec<Placed>))
    requires
        left@.len() <= i64::MAX,
        center@.len() <= i64::MAX,
        right@.len() <= i64::MAX,
        even_fits(*inp, sorted_matches(windows@, left@), sorted_matches(windows@, center@), sorted_matches(windows@, right@)),
    ensures
        ({
            let (pl, pc, pr) = even_layout_spec(*inp, sorted_matches(windows@, left@), sorted_matches(windows@, center@), sorted_matches(windows@, right@));
            res.0@ == pl && res.1@ == pc && res.2@ == pr
        }),
{
    let l = section_matches(windows, left);
    let c = section_matches(windows, center);
    let r = section_matches(windows, right);
    let horizontal = match inp.anchor { PanelAnchor::Top | PanelAnchor::Bottom => true, _ => false };
    let (length, thickness) = if horizontal { (inp.width, inp.height) } else { (inp.height, inp.width) };
    let (right_sum, center_offset) = even_offsets_exec(inp, &l, &c, &r);
    let thick: u32 = thickness as u32;
    let pl = place_even_exec(inp.anchor, thick, inp.spacing, &l, inp.padding);
    let pc = place_even_exec(inp.anchor, thick, inp.spacing, &c, #[verifier::truncate] (center_offset as u32));
    let right_start: u32 = #[verifier::truncate] (length as u32) - inp.padding - #[verifier::truncate] (right_sum as u32);
    let pr = place_even_exec(inp.anchor, thick, inp.spacing, &r, right_start);
    (pl, pc, pr)
}

} // verus!
