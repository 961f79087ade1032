//! Applying a changed panel configuration.
//!
//! A changed entry is skipped when every space already shows it; otherwise
//! the panel decides whether its spaces can take the new settings in place
//! or must be made anew, and, when they are made anew, which panels on each
//! output are made anew with them: panels that yield to the changed one
//! across the output, or to any panel of higher priority that they do not
//! face.

use vstd::prelude::*;
use crate::panel_space::{PanelAnchor, opposite};
use crate::sorting::{stable_order, stable_order_of, lemma_stable_order_exists};

verus! {

/// Which outputs a panel entry is for.
#[derive(Clone, Copy, Debug, PartialEq, Eq, Structural)]
pub enum OutputChoice {
    All,
    Active,
    Named,
}

/// Counting down the spaces that already show the entry: the first space at
/// which the count is used up ends the search with a skip.
pub open spec fn unchanged_from(same: Seq<bool>, count: int) -> bool
    decreases same.len(),
{
    if same.len() == 0 {
        false
    } else {
        let c = if same[0] { count - 1 } else { count };
        c <= 0 || unchanged_from(same.drop_first(), c)
    }
}

/// Whether counting down never goes below zero.
pub open spec fn unchanged_fits(same: Seq<bool>, count: int) -> bool
    decreases same.len(),
{
    if same.len() == 0 {
        true
    } else {
        let c = if same[0] { count - 1 } else { count };
        c >= 0 && (c <= 0 || unchanged_fits(same.drop_first(), c))
    }
}

/// How many spaces must already show an entry for it to be skipped: one
/// for each output when it is for all outputs, otherwise one for each space
/// of its name.
pub open spec fn needed_count(output: OutputChoice, outputs: usize, same_name: usize) -> int {
    if output == OutputChoice::All { outputs as int } else { same_name as int }
}

/// Whether a changed entry is skipped: no output is forced, and counting
/// the spaces, in order, that already show it (`same[i]`) uses up the count
/// before the spaces run out.
pub fn config_unchanged(forced: bool, same: &Vec<bool>, output: OutputChoice, outputs: usize, same_name: usize) -> (res: bool)
    requires
        forced || unchanged_fits(same@, needed_count(output, outputs, same_name)),
    ensures
        res == (!forced && unchanged_from(same@, needed_count(output, outputs, same_name))),
{
    if forced {
        return false;
    }
    let mut count: usize = match output {
        OutputChoice::All => outputs,
        _ => same_name,
    };
    let mut i: usize = 0;
    assert(same@.subrange(0, same@.len() as int) =~= same@);
    while i < same.len()
        invariant
            i <= same@.len(),
            !forced,
            unchanged_fits(same@.subrange(i as int, same@.len() as int), count as int),
            unchanged_from(same@.subrange(i as int, same@.len() as int), count as int)
                == unchanged_from(same@, needed_count(output, outputs, same_name)),
        decreases same@.len() - i,
    {
        let ghost rest = same@.subrange(i as int, same@.len() as int);
        assert(rest.drop_first() =~= same@.subrange(i + 1, same@.len() as int));
        assert(rest[0] == same@[i as int]);
        let ghost c0 = count as int;
        if same[i] {
            count = count - 1;
        }
        if count == 0 {
            assert(unchanged_from(rest, c0));
            return true;
        }
        i = i + 1;
    }
    false
}

/// Whether the number of spaces of an entry's name is not what the entry
/// asks for: one on each output, one on its named output; always for the
/// active output.
pub open spec fn count_mismatch(output: OutputChoice, outputs: usize, same_name: usize) -> bool {
    match output {
        OutputChoice::All => same_name != outputs,
        OutputChoice::Named => same_name != 1,
        OutputChoice::Active => true,
    }
}

/// A configured panel compared with the changed entry: its name, edge and
/// priority, and whether its size, output, orientation, background or
/// applet lists differ from the entry's.
#[derive(Clone, Debug)]
pub struct ConfigComparison {
    pub name: String,
    pub anchor: PanelAnchor,
    pub priority: u32,
    pub size_differs: bool,
    pub output_differs: bool,
    pub orientation_differs: bool,
    pub background_differs: bool,
    pub center_differs: bool,
    pub wings_differs: bool,
}

/// The priority and edge the entry had before: those of the first panel of
/// its name, or no priority and its new edge.
pub open spec fn old_settings(configs: Seq<ConfigComparison>, name: Seq<char>, anchor: PanelAnchor) -> (u32, PanelAnchor)
    decreases configs.len(),
{
    if configs.len() == 0 {
        (0, anchor)
    } else if configs[0].name@ == name {
        (configs[0].priority, configs[0].anchor)
    } else {
        old_settings(configs.drop_first(), name, anchor)
    }
}

/// The edge opposite the entry's new one, when the entry moved to another
/// edge.
pub open spec fn moved_opposite(old_anchor: PanelAnchor, anchor: PanelAnchor) -> Option<PanelAnchor> {
    if old_anchor == anchor { None } else { Some(opposite(anchor)) }
}

/// Whether one configured panel forces the entry's spaces to be made anew:
/// the entry's own panel changed size, output, orientation, background or
/// applets; the entry moved to another edge; or the entry's priority moved
/// past that of another panel not on the opposite edge, or changed while
/// another panel shares its edge.
pub open spec fn forces_recreate(
    c: ConfigComparison,
    name: Seq<char>,
    anchor: PanelAnchor,
    entry_all: bool,
    old_prio: u32,
    new_prio: u32,
    opp: Option<PanelAnchor>,
) -> bool {
    let same = c.name@ == name;
    ||| same && c.size_differs
    ||| !entry_all && same && c.output_differs
    ||| opp is Some
    ||| same && (c.orientation_differs || c.size_differs || c.background_differs || c.center_differs || c.wings_differs)
    ||| !same && Some(c.anchor) != opp
        && ((old_prio < c.priority && new_prio > c.priority) || (old_prio > c.priority && new_prio < c.priority))
    ||| !same && old_prio != new_prio && c.anchor == anchor
}

/// Whether the entry's spaces are made anew: their number is wrong, or some
/// configured panel forces it.
pub open spec fn must_recreate_spec(
    configs: Seq<ConfigComparison>,
    name: Seq<char>,
    anchor: PanelAnchor,
    entry_all: bool,
    new_prio: u32,
    mismatch: bool,
) -> bool {
    let (old_prio, old_anchor) = old_settings(configs, name, anchor);
    let opp = moved_opposite(old_anchor, anchor);
    mismatch || exists|i: int| 0 <= i < configs.len()
        && forces_recreate(#[trigger] configs[i], name, anchor, entry_all, old_prio, new_prio, opp)
}

fn find_old_settings(configs: &Vec<ConfigComparison>, name: &String, anchor: PanelAnchor) -> (res: (u32, PanelAnchor))
    ensures
        res == old_settings(configs@, name@, anchor),
{
    let mut i: usize = 0;
    assert(configs@.subrange(0, configs@.len() as int) =~= configs@);
    while i < configs.len()
        invariant
            i <= configs@.len(),
            old_settings(configs@.subrange(i as int, configs@.len() as int), name@, anchor) == old_settings(configs@, name@, anchor),
        decreases configs@.len() - i,
    {
        let ghost rest = configs@.subrange(i as int, configs@.len() as int);
        assert(rest.drop_first() =~= configs@.subrange(i + 1, configs@.len() as int));
        assert(rest[0] == configs@[i as int]);
        if configs[i].name.eq(name) {
            return (configs[i].priority, configs[i].anchor);
        }
        i = i + 1;
    }
    assert(configs@.subrange(i as int, configs@.len() as int) =~= Seq::<ConfigComparison>::empty());
    (0, anchor)
}

/// Whether the entry's spaces are made anew, as [`must_recreate_spec`]
/// says; `configs` are the configured panels, the entry's old one among
/// them.
pub fn must_recreate(
    configs: &Vec<ConfigComparison>,
    name: &String,
    anchor: PanelAnchor,
    entry_all: bool,
    new_prio: u32,
    mismatch: bool,
) -> (res: bool)
    ensures
        res == must_recreate_spec(configs@, name@, anchor, entry_all, new_prio, mismatch),
{
    let (old_prio, old_anchor) = find_old_settings(configs, name, anchor);
    let opp: Option<PanelAnchor> = if old_anchor == anchor { None } else { Some(anchor.opposite()) };
    if mismatch {
        return true;
    }
    let mut i: usize = 0;
    while i < configs.len()
        invariant
            i <= configs@.len(),
            (old_prio, old_anchor) == old_settings(configs@, name@, anchor),
            opp == moved_opposite(old_anchor, anchor),
            forall|k: int| 0 <= k < i ==> !forces_recreate(#[trigger] configs@[k], name@, anchor, entry_all, old_prio, new_prio, opp),
        decreases configs@.len() - i,
    {
        let c = &configs[i];
        let same = c.name.eq(name);
        let opp_differs = match opp {
            Some(o) => c.anchor != o,
            None => true,
        };
        let forces = (same && c.size_differs)
            || (!entry_all && same && c.output_differs)
            || opp.is_some()
            || (same && (c.orientation_differs || c.size_differs || c.background_differs || c.center_differs || c.wings_differs))
            || (!same && opp_differs
                && ((old_prio < c.priority && new_prio > c.priority) || (old_prio > c.priority && new_prio < c.priority)))
            || (!same && old_prio != new_prio && c.anchor == anchor);
        if forces {
            assert(forces_recreate(configs@[i as int], name@, anchor, entry_all, old_prio, new_prio, opp));
            return true;
        }
        i = i + 1;
    }
    false
}

/// A panel configured for an output: its name, edge, priority and whether
/// it hides itself.
#[derive(Clone, Debug)]
pub struct OutputPanel {
    pub name: String,
    pub anchor: PanelAnchor,
    pub priority: u32,
    pub autohide: bool,
}

/// Whether a panel of an output is made anew with the changed entry: it is
/// the entry's panel; or it is on the edge opposite the entry's new one
/// with a lower priority than the entry; or some panel of the output has a
/// higher priority and is not on the edge facing it.
pub open spec fn recreated(p: OutputPanel, all: Seq<OutputPanel>, name: Seq<char>, opp: Option<PanelAnchor>, new_prio: u32) -> bool {
    ||| p.name@ == name
    ||| Some(p.anchor) == opp && p.priority < new_prio
    ||| exists|j: int| 0 <= j < all.len() && p.anchor != opposite((#[trigger] all[j]).anchor) && p.priority < all[j].priority
}

/// The keys that order the panels of an output by descending priority.
pub open spec fn priority_keys(all: Seq<OutputPanel>) -> Seq<i64> {
    all.map_values(|p: OutputPanel| (-(p.priority as int)) as i64)
}

/// A panel made anew: its position among the output's panels, and whether
/// it starts shown (it does not hide itself, or no window is on the output).
#[derive(Clone, Copy, Debug, PartialEq, Eq)]
pub struct Recreated {
    pub index: usize,
    pub visible: bool,
}

/// The panels of an output made anew, highest priority first, panels of
/// equal priority in their configured order.
pub open spec fn recreated_on_output_spec(all: Seq<OutputPanel>, name: Seq<char>, opp: Option<PanelAnchor>, new_prio: u32, has_toplevel: bool)
    -> Seq<Recreated>
{
    let order = stable_order_of(priority_keys(all));
    Seq::new(order.len(), |k: int| order[k]).filter(|i: usize| recreated(all[i as int], all, name, opp, new_prio))
        .map_values(|i: usize| Recreated { index: i, visible: !all[i as int].autohide || !has_toplevel })
}

/// The panels of an output made anew with the changed entry, as
/// [`recreated_on_output_spec`] says.
pub fn recreated_on_output(all: &Vec<OutputPanel>, name: &String, opp: Option<PanelAnchor>, new_prio: u32, has_toplevel: bool)
    -> (res: Vec<Recreated>)
    ensures
        res@ == recreated_on_output_spec(all@, name@, opp, new_prio, has_toplevel),
{
    let mut keys: Vec<i64> = Vec::new();
    let mut k: usize = 0;
    while k < all.len()
        invariant
            k <= all@.len(),
            keys@.len() == k,
            forall|q: int| 0 <= q < k ==> (#[trigger] keys@[q]) == (-(all@[q].priority as int)) as i64,
        decreases all@.len() - k,
    {
        keys.push(-(all[k].priority as i64));
        k = k + 1;
    }
    assert(keys@ =~= priority_keys(all@));
    let order = stable_order(&keys);
    let ghost ord = Seq::new(order@.len(), |q: int| order@[q]);
    assert(ord =~= order@);
    let ghost pred = |i: usize| recreated(all@[i as int], all@, name@, opp, new_prio);
    let ghost mk = |i: usize| Recreated { index: i, visible: !all@[i as int].autohide || !has_toplevel };
    let mut res: Vec<Recreated> = Vec::new();
    let mut q: usize = 0;
    while q < order.len()
        invariant
            q <= order@.len(),
            order@.len() == all@.len(),
            forall|x: int| 0 <= x < order@.len() ==> (#[trigger] order@[x]) < all@.len(),
            pred == (|i: usize| recreated(all@[i as int], all@, name@, opp, new_prio)),
            mk == (|i: usize| Recreated { index: i, visible: !all@[i as int].autohide || !has_toplevel }),
            res@ == order@.take(q as int).filter(pred).map_values(mk),
        decreases order@.len() - q,
    {
        let i = order[q];
        let p = &all[i];
        let mut yes = p.name.eq(name) || (match opp { Some(o) => p.anchor == o, None => false } && p.priority < new_prio);
        let mut j: usize = 0;
        while j < all.len() && !yes
            invariant
                j <= all@.len(),
                i < all@.len(),
                *p == all@[i as int],
                yes ==> recreated(all@[i as int], all@, name@, opp, new_prio),
                !yes ==> !(all@[i as int].name@ == name@ || (Some(all@[i as int].anchor) == opp && all@[i as int].priority < new_prio)),
                !yes ==> forall|x: int| 0 <= x < j ==> !(all@[i as int].anchor != opposite((#[trigger] all@[x]).anchor)
                    && all@[i as int].priority < all@[x].priority),
            decreases all@.len() - j,
        {
            let oj = all[j].anchor.opposite();
            if p.anchor != oj && p.priority < all[j].priority {
                assert(all@[i as int].anchor != opposite(all@[j as int].anchor) && all@[i as int].priority < all@[j as int].priority);
                yes = true;
            }
            j = j + 1;
        }
        assert(yes == pred(i));
        let ghost before = res@;
        proof {
            reveal_with_fuel(Seq::filter, 1);
            assert(order@.take(q + 1).drop_last() =~= order@.take(q as int));
        }
        if yes {
            res.push(Recreated { index: i, visible: !p.autohide || !has_toplevel });
            assert(res@ =~= before.push(mk(i)));
            assert(order@.take(q + 1).filter(pred) =~= order@.take(q as int).filter(pred).push(i));
        } else {
            assert(order@.take(q + 1).filter(pred) =~= order@.take(q as int).filter(pred));
        }
        assert(order@.take(q + 1).filter(pred).map_values(mk) =~= res@);
        q = q + 1;
    }
    assert(order@.take(q as int) =~= order@);
    res
}

proof fn lemma_filter_keeps_order(s: Seq<usize>, pred: spec_fn(usize) -> bool, a: int, b: int)
    requires
        0 <= a < b < s.filter(pred).len(),
    ensures
        exists|ia: int, ib: int| 0 <= ia < ib < s.len() && s[ia] == s.filter(pred)[a] && s[ib] == s.filter(pred)[b],
    decreases s.len(),
{
    reveal_with_fuel(Seq::filter, 1);
    let d = s.drop_last();
    let fd = d.filter(pred);
    let f = s.filter(pred);
    if pred(s.last()) {
        assert(f == fd.push(s.last()));
    } else {
        assert(f == fd);
    }
    if b < fd.len() {
        lemma_filter_keeps_order(d, pred, a, b);
        let (ia, ib) = choose|ia: int, ib: int| 0 <= ia < ib < d.len() && d[ia] == fd[a] && d[ib] == fd[b];
        assert(s[ia] == d[ia] && s[ib] == d[ib]);
    } else {
        assert(f[a] == fd[a]);
        assert(fd.contains(fd[a]));
        d.lemma_filter_contains_rev(pred, fd[a]);
        let ia = choose|ia: int| 0 <= ia < d.len() && d[ia] == fd[a];
        assert(s[ia] == d[ia]);
        assert(s[s.len() - 1] == f[b]);
    }
}

/// The panels of an output that a changed entry makes anew: the entry's
/// own panel; every panel on the edge opposite the entry's new edge whose
/// priority is below the entry's new priority; and every panel that some
/// panel of the output outranks from an edge other than the one facing it.
/// Each of them is listed, with whether it starts shown (it does not hide
/// itself, or no window is on the output), and nothing else is; they come
/// highest priority first, panels of equal priority in their order.
pub proof fn lemma_recreated_panels(all: Seq<OutputPanel>, name: Seq<char>, opp: Option<PanelAnchor>, new_prio: u32, has_toplevel: bool)
    requires
        all.len() <= usize::MAX,
    ensures
        forall|i: int| 0 <= i < all.len() && ({
            ||| (#[trigger] all[i]).name@ == name
            ||| Some(all[i].anchor) == opp && all[i].priority < new_prio
            ||| exists|j: int| 0 <= j < all.len() && all[i].anchor != opposite(all[j].anchor) && all[i].priority < all[j].priority
        }) ==> exists|k: int| 0 <= k < recreated_on_output_spec(all, name, opp, new_prio, has_toplevel).len()
            && #[trigger] recreated_on_output_spec(all, name, opp, new_prio, has_toplevel)[k]
                == (Recreated { index: i as usize, visible: !all[i].autohide || !has_toplevel }),
        forall|k: int| 0 <= k < recreated_on_output_spec(all, name, opp, new_prio, has_toplevel).len() ==> {
            let x = #[trigger] recreated_on_output_spec(all, name, opp, new_prio, has_toplevel)[k];
            let p = all[x.index as int];
            &&& x.index < all.len()
            &&& x.visible == (!p.autohide || !has_toplevel)
            &&& {
                ||| p.name@ == name
                ||| Some(p.anchor) == opp && p.priority < new_prio
                ||| exists|j: int| 0 <= j < all.len() && p.anchor != opposite(all[j].anchor) && p.priority < all[j].priority
            }
        },
        forall|k: int, l: int| 0 <= k < l < recreated_on_output_spec(all, name, opp, new_prio, has_toplevel).len() ==> {
            let x = #[trigger] recreated_on_output_spec(all, name, opp, new_prio, has_toplevel)[k];
            let y = #[trigger] recreated_on_output_spec(all, name, opp, new_prio, has_toplevel)[l];
            ||| all[x.index as int].priority > all[y.index as int].priority
            ||| all[x.index as int].priority == all[y.index as int].priority && x.index < y.index
        },
{
    let keys = priority_keys(all);
    lemma_stable_order_exists(keys);
    let order = stable_order_of(keys);
    let ord = Seq::new(order.len(), |k: int| order[k]);
    assert(ord =~= order);
    let pred = |i: usize| recreated(all[i as int], all, name, opp, new_prio);
    let mk = |i: usize| Recreated { index: i, visible: !all[i as int].autohide || !has_toplevel };
    let f = ord.filter(pred);
    let res = recreated_on_output_spec(all, name, opp, new_prio, has_toplevel);
    assert(res == f.map_values(mk));
    assert forall|i: int| 0 <= i < all.len() && ({
        ||| (#[trigger] all[i]).name@ == name
        ||| Some(all[i].anchor) == opp && all[i].priority < new_prio
        ||| exists|j: int| 0 <= j < all.len() && all[i].anchor != opposite(all[j].anchor) && all[i].priority < all[j].priority
    }) implies exists|k: int| 0 <= k < res.len()
        && #[trigger] res[k] == (Recreated { index: i as usize, visible: !all[i].autohide || !has_toplevel }) by {
        assert(pred(i as usize));
        assert(order.contains(i as usize));
        let m = choose|m: int| 0 <= m < order.len() && order[m] == i as usize;
        ord.lemma_filter_contains(pred, m);
        assert(f.contains(i as usize));
        let k = choose|k: int| 0 <= k < f.len() && f[k] == i as usize;
        assert(res[k] == mk(f[k]));
    }
    assert forall|k: int| 0 <= k < res.len() implies {
        let x = #[trigger] res[k];
        let p = all[x.index as int];
        &&& x.index < all.len()
        &&& x.visible == (!p.autohide || !has_toplevel)
        &&& {
            ||| p.name@ == name
            ||| Some(p.anchor) == opp && p.priority < new_prio
            ||| exists|j: int| 0 <= j < all.len() && p.anchor != opposite(all[j].anchor) && p.priority < all[j].priority
        }
    } by {
        assert(res[k] == mk(f[k]));
        ord.lemma_filter_pred(pred, k);
        assert(f.contains(f[k]));
        ord.lemma_filter_contains_rev(pred, f[k]);
        let m = choose|m: int| 0 <= m < ord.len() && ord[m] == f[k];
        assert(order[m] < keys.len());
    }
    assert forall|k: int, l: int| 0 <= k < l < res.len() implies {
        let x = #[trigger] res[k];
        let y = #[trigger] res[l];
        ||| all[x.index as int].priority > all[y.index as int].priority
        ||| all[x.index as int].priority == all[y.index as int].priority && x.index < y.index
    } by {
        assert(res[k] == mk(f[k]));
        assert(res[l] == mk(f[l]));
        lemma_filter_keeps_order(ord, pred, k, l);
        let (ia, ib) = choose|ia: int, ib: int| 0 <= ia < ib < ord.len() && ord[ia] == f[k] && ord[ib] == f[l];
        assert(order[ia] == f[k] && order[ib] == f[l]);
        assert(keys[order[ia] as int] < keys[order[ib] as int]
            || (keys[order[ia] as int] == keys[order[ib] as int] && order[ia] < order[ib]));
        assert(order[ia] < all.len() && order[ib] < all.len());
        assert(keys[order[ia] as int] == (-(all[order[ia] as int].priority as int)) as i64);
        assert(keys[order[ib] as int] == (-(all[order[ib] as int].priority as int)) as i64);
    }
}

} // verus!
