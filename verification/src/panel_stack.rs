//! Panels stacked against the same edge of an output.
//!
//! Several panels may share an edge. When the pointer enters one of them,
//! those of the edge are visited from the highest priority down, and each
//! hiding panel pushes the panels after it away from the edge by its own
//! thickness.

use vstd::prelude::*;
use crate::panel_space::PanelAnchor;
use crate::sorting::sort_by_key_stable;

verus! {

/// A panel as the stacking sees it: the name of its output, its edge,
/// whether it hides itself, and its priority.
#[derive(Clone, Debug)]
pub struct StackedPanel {
    pub output_name: String,
    pub anchor: PanelAnchor,
    pub autohide: bool,
    pub priority: u32,
}

/// The indices of the panels on the given output and edge, in order.
pub open spec fn edge_indices(spaces: Seq<StackedPanel>, output: Seq<char>, anchor: PanelAnchor) -> Seq<usize>
    decreases spaces.len(),
{
    if spaces.len() == 0 {
        seq![]
    } else {
        let rest = edge_indices(spaces.drop_last(), output, anchor);
        let s = spaces.last();
        if s.output_name@ == output && s.anchor == anchor {
            rest.push((spaces.len() - 1) as usize)
        } else {
            rest
        }
    }
}

/// The panels that stack: those on the output and edge, without the last of
/// them when it does not hide itself.
pub open spec fn stack_candidates(spaces: Seq<StackedPanel>, output: Seq<char>, anchor: PanelAnchor) -> Seq<usize> {
    let e = edge_indices(spaces, output, anchor);
    if e.len() > 0 && !spaces[e.last() as int].autohide { e.drop_last() } else { e }
}

/// Whether `res` holds the candidates, each once, from the highest priority
/// down and, at equal priority, from the last added.
pub open spec fn stacked_order(res: Seq<usize>, cand: Seq<usize>, spaces: Seq<StackedPanel>) -> bool {
    &&& res.len() == cand.len()
    &&& forall|i: int| 0 <= i < res.len() ==> cand.contains(#[trigger] res[i])
    &&& forall|j: int| 0 <= j < cand.len() ==> res.contains(#[trigger] cand[j])
    &&& forall|i: int, j: int| 0 <= i < j < res.len() ==>
        spaces[#[trigger] res[i] as int].priority > spaces[#[trigger] res[j] as int].priority
        || (spaces[res[i] as int].priority == spaces[res[j] as int].priority && res[i] > res[j])
}

proof fn lemma_edge_indices(spaces: Seq<StackedPanel>, output: Seq<char>, anchor: PanelAnchor)
    requires
        spaces.len() <= usize::MAX,
    ensures
        forall|i: int| 0 <= i < edge_indices(spaces, output, anchor).len() ==> (#[trigger] edge_indices(spaces, output, anchor)[i]) < spaces.len(),
        forall|i: int, j: int| 0 <= i < j < edge_indices(spaces, output, anchor).len() ==>
            (#[trigger] edge_indices(spaces, output, anchor)[i]) < (#[trigger] edge_indices(spaces, output, anchor)[j]),
    decreases spaces.len(),
{
    if spaces.len() > 0 {
        let rest = edge_indices(spaces.drop_last(), output, anchor);
        let e = edge_indices(spaces, output, anchor);
        lemma_edge_indices(spaces.drop_last(), output, anchor);
        if e.len() > rest.len() {
            assert(e == rest.push((spaces.len() - 1) as usize));
            assert forall|i: int| 0 <= i < e.len() implies (#[trigger] e[i]) < spaces.len() by {
                if i < rest.len() {
                    assert(e[i] == rest[i]);
                }
            }
            assert forall|i: int, j: int| 0 <= i < j < e.len() implies (#[trigger] e[i]) < (#[trigger] e[j]) by {
                assert(e[i] == rest[i]);
                assert(rest[i] < spaces.drop_last().len());
                if j < rest.len() {
                    assert(e[j] == rest[j]);
                } else {
                    assert(e[j] == spaces.len() - 1);
                }
            }
        } else {
            assert(e == rest);
        }
    }
}

/// The indices of the panels that stack on the given output and edge, from
/// the highest priority down, as [`stacked_order`] says.
pub fn stacked_spaces_by_priority(spaces: &Vec<StackedPanel>, output: &str, anchor: PanelAnchor) -> (res: Vec<usize>)
    ensures
        stacked_order(res@, stack_candidates(spaces@, output@, anchor), spaces@),
{
    let name = output.to_string();
    proof { vstd::string::to_string_from_display_ensures_for_str(output, name); }
    let mut cand: Vec<usize> = Vec::new();
    let mut i: usize = 0;
    while i < spaces.len()
        invariant
            i <= spaces@.len(),
            name@ == output@,
            cand@ == edge_indices(spaces@.take(i as int), output@, anchor),
        decreases spaces@.len() - i,
    {
        let ghost t = spaces@.take(i + 1);
        assert(t.drop_last() =~= spaces@.take(i as int));
        let same = spaces[i].output_name.eq(&name) && spaces[i].anchor == anchor;
        if same {
            cand.push(i);
        }
        i = i + 1;
    }
    assert(spaces@.take(i as int) =~= spaces@);
    proof { lemma_edge_indices(spaces@, output@, anchor); }
    if cand.len() > 0 && !spaces[cand[cand.len() - 1]].autohide {
        cand.pop();
    }
    let ghost c = cand@;
    assert(c == stack_candidates(spaces@, output@, anchor));
    assert(forall|a: int, b: int| 0 <= a < b < c.len() ==> #[trigger] c[a] < #[trigger] c[b]);
    assert(forall|a: int| 0 <= a < c.len() ==> #[trigger] c[a] < spaces@.len());
    let mut keys: Vec<(i64, usize)> = Vec::new();
    let mut k: usize = 0;
    while k < cand.len()
        invariant
            k <= cand@.len(),
            cand@ == c,
            forall|a: int| 0 <= a < c.len() ==> #[trigger] c[a] < spaces@.len(),
            keys@.len() == k,
            forall|p: int| 0 <= p < k ==> (#[trigger] keys@[p]) == (spaces@[c[p] as int].priority as i64, p as usize),
        decreases cand@.len() - k,
    {
        keys.push((spaces[cand[k]].priority as i64, k));
        k = k + 1;
    }
    let ghost v = keys@;
    sort_by_key_stable(&mut keys, false);
    proof {
        crate::sorting::lemma_sorted_keys(v, keys@, false);
    }
    let n = keys.len();
    let mut res: Vec<usize> = Vec::new();
    let mut q: usize = 0;
    while q < n
        invariant
            q <= n,
            n == keys@.len(),
            keys@.len() == c.len(),
            v.len() == c.len(),
            cand@ == c,
            forall|x: int| 0 <= x < keys@.len() ==> (#[trigger] keys@[x]).1 < v.len() && keys@[x] == v[keys@[x].1 as int],
            res@.len() == q,
            forall|x: int| 0 <= x < q ==> #[trigger] res@[x] == c[keys@[n - 1 - x].1 as int],
        decreases n - q,
    {
        res.push(cand[keys[n - 1 - q].1]);
        q = q + 1;
    }
    proof {
        let r = keys@;
        assert forall|x: int| 0 <= x < res@.len() implies c.contains(#[trigger] res@[x]) by {
            assert(res@[x] == c[r[n - 1 - x].1 as int]);
        }
        assert forall|j: int| 0 <= j < c.len() implies res@.contains(#[trigger] c[j]) by {
            assert(crate::sorting::index_present(r, j));
            let kk = choose|kk: int| 0 <= kk < r.len() && r[kk].1 == j;
            let x = n - 1 - kk;
            assert(res@[x] == c[j]);
        }
        assert forall|x: int, y: int| 0 <= x < y < res@.len() implies
            spaces@[#[trigger] res@[x] as int].priority > spaces@[#[trigger] res@[y] as int].priority
            || (spaces@[res@[x] as int].priority == spaces@[res@[y] as int].priority && res@[x] > res@[y]) by {
            let kx = n - 1 - x;
            let ky = n - 1 - y;
            assert(ky < kx);
            let px = r[kx].1 as int;
            let py = r[ky].1 as int;
            assert(r[kx] == v[px]);
            assert(r[ky] == v[py]);
            assert(res@[x] == c[px]);
            assert(res@[y] == c[py]);
            if r[ky].0 == r[kx].0 {
                assert(py < px);
                assert(c[py] < c[px]);
            }
        }
    }
    res
}

/// A stacked panel as the gap assignment sees it: whether it has a layer
/// surface, whether it hides itself, whether it is shown, and its thickness.
#[derive(Clone, Copy, Debug, PartialEq, Eq, Structural)]
pub struct StackMember {
    pub has_layer: bool,
    pub autohide: bool,
    pub visible: bool,
    pub crosswise: i32,
}

/// What happens to one stacked panel when the pointer enters the stack: it
/// is passed over (it has no layer surface yet); its gap is set to the
/// value; or it is marked hovered and its gap is set to the value, applied
/// at once when `apply`, otherwise kept for when it shows.
#[derive(Clone, Copy, Debug, PartialEq, Eq, Structural)]
pub enum StackStep {
    Skip,
    SetGap(i32),
    Hover { gap: i32, apply: bool },
}

/// The steps for the stacked panels, in order, with `acc` the gap so far:
/// each hiding panel pushes the ones after it by its thickness.
pub open spec fn stack_steps(ms: Seq<StackMember>, acc: int) -> Seq<StackStep>
    decreases ms.len(),
{
    if ms.len() == 0 {
        seq![]
    } else {
        let m = ms[0];
        if !m.has_layer {
            seq![StackStep::Skip] + stack_steps(ms.drop_first(), acc)
        } else if !m.autohide {
            seq![StackStep::SetGap(acc as i32)] + stack_steps(ms.drop_first(), acc)
        } else {
            seq![StackStep::Hover { gap: acc as i32, apply: m.visible }] + stack_steps(ms.drop_first(), acc + m.crosswise)
        }
    }
}

/// Whether the gaps of [`stack_steps`] stay within `i32`.
pub open spec fn stack_fits(ms: Seq<StackMember>, acc: int) -> bool
    decreases ms.len(),
{
    if ms.len() == 0 {
        true
    } else {
        let m = ms[0];
        let next = if m.has_layer && m.autohide { acc + m.crosswise } else { acc };
        i32::MIN <= next <= i32::MAX && stack_fits(ms.drop_first(), next)
    }
}

/// The summed thickness of the panels with a layer surface that hide
/// themselves.
pub open spec fn hiding_thickness(ms: Seq<StackMember>) -> int
    decreases ms.len(),
{
    if ms.len() == 0 {
        0
    } else {
        (if ms[0].has_layer && ms[0].autohide { ms[0].crosswise as int } else { 0 }) + hiding_thickness(ms.drop_first())
    }
}

proof fn lemma_stack_steps_at(ms: Seq<StackMember>, acc: int, i: int)
    requires
        0 <= i < ms.len(),
    ensures
        stack_steps(ms, acc).len() == ms.len(),
        ({
            let g = acc + hiding_thickness(ms.take(i));
            let m = ms[i];
            stack_steps(ms, acc)[i] == if !m.has_layer {
                StackStep::Skip
            } else if !m.autohide {
                StackStep::SetGap(g as i32)
            } else {
                StackStep::Hover { gap: g as i32, apply: m.visible }
            }
        }),
    decreases ms.len(),
{
    let m = ms[0];
    let next = if m.has_layer && m.autohide { acc + m.crosswise } else { acc };
    let rest = ms.drop_first();
    if i == 0 {
        assert(ms.take(0) =~= Seq::<StackMember>::empty());
        if rest.len() > 0 {
            lemma_stack_steps_at(rest, next, 0);
        }
    } else {
        lemma_stack_steps_at(rest, next, i - 1);
        assert(ms.take(i).drop_first() =~= rest.take(i - 1));
        assert(ms.take(i)[0] == m);
        assert(rest[i - 1] == ms[i]);
    }
}

/// When the pointer enters a stack of panels on one edge, each panel that
/// has a layer surface gets as its gap the summed thickness of the panels
/// before it that hide themselves: one that does not hide has that gap set,
/// one that hides is marked hovered with that gap, applied at once when it
/// is shown; a panel without a layer surface is passed over. There is one
/// step per panel, in the panels' order.
pub proof fn lemma_stack_gaps_push_by_hiding_panels(ms: Seq<StackMember>)
    ensures
        stack_steps(ms, 0).len() == ms.len(),
        forall|i: int| #![trigger ms[i]] 0 <= i < ms.len() ==> {
            &&& !ms[i].has_layer ==> stack_steps(ms, 0)[i] == StackStep::Skip
            &&& ms[i].has_layer && !ms[i].autohide
                ==> stack_steps(ms, 0)[i] == StackStep::SetGap(hiding_thickness(ms.take(i)) as i32)
            &&& ms[i].has_layer && ms[i].autohide
                ==> stack_steps(ms, 0)[i] == (StackStep::Hover { gap: hiding_thickness(ms.take(i)) as i32, apply: ms[i].visible })
        },
{
    if ms.len() > 0 {
        lemma_stack_steps_at(ms, 0, 0);
    } else {
        assert(stack_steps(ms, 0).len() == 0);
    }
    assert forall|i: int| #![trigger ms[i]] 0 <= i < ms.len() implies {
        &&& !ms[i].has_layer ==> stack_steps(ms, 0)[i] == StackStep::Skip
        &&& ms[i].has_layer && !ms[i].autohide
            ==> stack_steps(ms, 0)[i] == StackStep::SetGap(hiding_thickness(ms.take(i)) as i32)
        &&& ms[i].has_layer && ms[i].autohide
            ==> stack_steps(ms, 0)[i] == (StackStep::Hover { gap: hiding_thickness(ms.take(i)) as i32, apply: ms[i].visible })
    } by {
        lemma_stack_steps_at(ms, 0, i);
    }
}

/// The steps for the stacked panels when the pointer enters the stack,
/// starting from no gap, as [`stack_steps`] says.
pub fn stack_gaps(ms: &Vec<StackMember>) -> (res: Vec<StackStep>)
    requires
        stack_fits(ms@, 0),
    ensures
        res@ == stack_steps(ms@, 0),
{
    let mut res: Vec<StackStep> = Vec::new();
    let mut acc: i32 = 0;
    let mut i: usize = 0;
    assert(ms@.subrange(0, ms@.len() as int) =~= ms@);
    assert(res@ + stack_steps(ms@, 0) =~= stack_steps(ms@, 0));
    while i < ms.len()
        invariant
            i <= ms@.len(),
            stack_fits(ms@.subrange(i as int, ms@.len() as int), acc as int),
            res@ + stack_steps(ms@.subrange(i as int, ms@.len() as int), acc as int) == stack_steps(ms@, 0),
        decreases ms@.len() - i,
    {
        let ghost rest = ms@.subrange(i as int, ms@.len() as int);
        assert(rest.drop_first() =~= ms@.subrange(i + 1, ms@.len() as int));
        let m = ms[i];
        let ghost before = res@;
        let step = if !m.has_layer {
            StackStep::Skip
        } else if !m.autohide {
            StackStep::SetGap(acc)
        } else {
            StackStep::Hover { gap: acc, apply: m.visible }
        };
        res.push(step);
        if m.has_layer && m.autohide {
            acc = acc + m.crosswise;
        }
        i = i + 1;
        assert(res@ + stack_steps(ms@.subrange(i as int, ms@.len() as int), acc as int)
            =~= before + (seq![step] + stack_steps(ms@.subrange(i as int, ms@.len() as int), acc as int)));
    }
    assert(ms@.subrange(i as int, ms@.len() as int) =~= Seq::<StackMember>::empty());
    assert(res@ =~= res@ + Seq::<StackStep>::empty());
    res
}

/// The first index whose flag is set, if any.
pub open spec fn first_set(flags: Seq<bool>) -> Option<int>
    decreases flags.len(),
{
    if flags.len() == 0 {
        None
    } else {
        match first_set(flags.drop_last()) {
            Some(i) => Some(i),
            None => if flags.last() { Some(flags.len() - 1) } else { None },
        }
    }
}

proof fn lemma_first_set(flags: Seq<bool>)
    ensures
        match first_set(flags) {
            Some(i) => 0 <= i < flags.len() && flags[i] && forall|j: int| 0 <= j < i ==> !(#[trigger] flags[j]),
            None => forall|j: int| 0 <= j < flags.len() ==> !(#[trigger] flags[j]),
        },
    decreases flags.len(),
{
    if flags.len() > 0 {
        lemma_first_set(flags.drop_last());
        assert forall|j: int| 0 <= j < flags.len() - 1 implies flags.drop_last()[j] == flags[j] by {}
    }
}

fn find_first_set(flags: &Vec<bool>) -> (res: Option<usize>)
    ensures
        match res {
            Some(i) => first_set(flags@) == Some(i as int),
            None => first_set(flags@) is None,
        },
{
    proof { lemma_first_set(flags@); }
    let mut i: usize = 0;
    while i < flags.len()
        invariant
            i <= flags@.len(),
            forall|j: int| 0 <= j < i ==> !(#[trigger] flags@[j]),
            match first_set(flags@) {
                Some(f) => 0 <= f < flags@.len() && flags@[f] && forall|j: int| 0 <= j < f ==> !(#[trigger] flags@[j]),
                None => forall|j: int| 0 <= j < flags@.len() ==> !(#[trigger] flags@[j]),
            },
        decreases flags@.len() - i,
    {
        if flags[i] {
            proof {
                match first_set(flags@) {
                    Some(f) => {
                        if f > i { assert(flags@[i as int]); }
                        if f < i { assert(!flags@[f]); }
                    },
                    None => { assert(flags@[i as int]); },
                }
            }
            return Some(i);
        }
        i = i + 1;
    }
    proof {
        match first_set(flags@) {
            Some(f) => { assert(!flags@[f]); },
            None => {},
        }
    }
    None
}

/// The order in which the panels are asked about an event: the first panel
/// with an open popup, then every other panel in order; every panel in
/// order when none has a popup open.
pub fn dispatch_order(has_popups: &Vec<bool>) -> (res: Vec<usize>)
    ensures
        res@.len() == has_popups@.len(),
        first_set(has_popups@) is None ==> forall|k: int| 0 <= k < res@.len() ==> res@[k] == k,
        first_set(has_popups@) matches Some(p) ==> {
            &&& res@[0] == p
            &&& forall|k: int| 1 <= k < res@.len() ==> (#[trigger] res@[k]) == (if k <= p { k - 1 } else { k })
        },
{
    let first = find_first_set(has_popups);
    proof { lemma_first_set(has_popups@); }
    let mut res: Vec<usize> = Vec::new();
    match first {
        Some(p) => {
            res.push(p);
            let mut i: usize = 0;
            while i < has_popups.len()
                invariant
                    p < has_popups@.len(),
                    i <= has_popups@.len(),
                    res@.len() == (if i <= p { i + 1 } else { i as int }),
                    res@[0] == p,
                    forall|k: int| 1 <= k < res@.len() ==> (#[trigger] res@[k]) == (if k <= p { k - 1 } else { k }),
                decreases has_popups@.len() - i,
            {
                if i != p {
                    res.push(i);
                }
                i = i + 1;
            }
        },
        None => {
            let mut i: usize = 0;
            while i < has_popups.len()
                invariant
                    i <= has_popups@.len(),
                    res@.len() == i,
                    forall|k: int| 0 <= k < i ==> res@[k] == k,
                decreases has_popups@.len() - i,
            {
                res.push(i);
                i = i + 1;
            }
        },
    }
    res
}

/// What the pointer leaving a surface does to the panels: the panel whose
/// stack is released (the first with an open popup, else the first whose
/// layer surface was left, else none), and for each panel whether it is
/// told which surface was left (only a panel with an open popup is).
pub fn pointer_leave_plan(has_popups: &Vec<bool>, is_left_surface: &Vec<bool>) -> (res: (Option<usize>, Vec<bool>))
    requires
        has_popups@.len() == is_left_surface@.len(),
    ensures
        res.1@.len() == has_popups@.len(),
        match first_set(has_popups@) {
            Some(p) => res.0 == Some(p as usize)
                && forall|k: int| 0 <= k < res.1@.len() ==> (#[trigger] res.1@[k]) == (k == p),
            None => (match first_set(is_left_surface@) {
                Some(s) => res.0 == Some(s as usize),
                None => res.0 is None,
            }) && forall|k: int| 0 <= k < res.1@.len() ==> !(#[trigger] res.1@[k]),
        },
{
    let popup = find_first_set(has_popups);
    let source = match popup {
        Some(p) => Some(p),
        None => find_first_set(is_left_surface),
    };
    let mut told: Vec<bool> = Vec::new();
    let mut i: usize = 0;
    while i < has_popups.len()
        invariant
            i <= has_popups@.len(),
            told@.len() == i,
            forall|k: int| 0 <= k < i ==> (#[trigger] told@[k]) == (popup == Some(k as usize)),
        decreases has_popups@.len() - i,
    {
        let t = match popup {
            Some(p) => p == i,
            None => false,
        };
        told.push(t);
        i = i + 1;
    }
    (source, told)
}

} // verus!
