//! Panels on outputs with a maximized window.
//!
//! An output counts as maximized when an active workspace of one of its
//! workspace groups holds a maximized window, or when a window that is both
//! maximized and sticky is on it. When a window becomes maximized, or stops
//! being so, the panels of each output that enters or leaves that set take
//! or drop their maximized style.

use vstd::prelude::*;

verus! {

/// A workspace group: its workspaces and the outputs it spans.
#[derive(Clone, Debug)]
pub struct WorkspaceGroupInfo {
    pub workspaces: Vec<u64>,
    pub outputs: Vec<u64>,
}

/// A workspace and whether it is active.
#[derive(Clone, Copy, Debug, PartialEq, Eq, Structural)]
pub struct WorkspaceInfo {
    pub handle: u64,
    pub active: bool,
}

/// A window as the maximize bookkeeping sees it: its identity, its
/// workspaces and outputs, and whether it is maximized and sticky.
#[derive(Clone, Debug)]
pub struct ToplevelState {
    pub id: u64,
    pub workspaces: Vec<u64>,
    pub outputs: Vec<u64>,
    pub maximized: bool,
    pub sticky: bool,
}

/// The first workspace record with the given handle, if any.
pub open spec fn first_info(infos: Seq<WorkspaceInfo>, w: u64) -> Option<WorkspaceInfo>
    decreases infos.len(),
{
    if infos.len() == 0 {
        None
    } else if infos[0].handle == w {
        Some(infos[0])
    } else {
        first_info(infos.drop_first(), w)
    }
}

/// Whether the workspace is known and active.
pub open spec fn workspace_active(infos: Seq<WorkspaceInfo>, w: u64) -> bool {
    match first_info(infos, w) {
        Some(i) => i.active,
        None => false,
    }
}

/// Whether some tracked maximized window is on the workspace.
pub open spec fn maximized_on(maxed: Seq<ToplevelState>, w: u64) -> bool {
    exists|k: int| 0 <= k < maxed.len() && (#[trigger] maxed[k]).workspaces@.contains(w)
}

/// Whether an active workspace of the group holds a maximized window.
pub open spec fn group_maximized(g: WorkspaceGroupInfo, infos: Seq<WorkspaceInfo>, maxed: Seq<ToplevelState>) -> bool {
    exists|j: int| 0 <= j < g.workspaces@.len()
        && workspace_active(infos, #[trigger] g.workspaces@[j])
        && maximized_on(maxed, g.workspaces@[j])
}

/// Whether an output counts as maximized.
pub open spec fn output_maximized(groups: Seq<WorkspaceGroupInfo>, infos: Seq<WorkspaceInfo>, maxed: Seq<ToplevelState>, o: u64) -> bool {
    ||| exists|g: int| 0 <= g < groups.len() && group_maximized(#[trigger] groups[g], infos, maxed) && groups[g].outputs@.contains(o)
    ||| exists|k: int| 0 <= k < maxed.len() && (#[trigger] maxed[k]).maximized && maxed[k].sticky && maxed[k].outputs@.contains(o)
}

fn contains_u64(v: &Vec<u64>, x: u64) -> (res: bool)
    ensures
        res == v@.contains(x),
{
    let mut i: usize = 0;
    while i < v.len()
        invariant
            i <= v@.len(),
            forall|k: int| 0 <= k < i ==> v@[k] != x,
        decreases v@.len() - i,
    {
        if v[i] == x {
            assert(v@[i as int] == x);
            return true;
        }
        i = i + 1;
    }
    false
}

fn append_u64(dst: &mut Vec<u64>, src: &Vec<u64>)
    ensures
        final(dst)@ == old(dst)@ + src@,
{
    let ghost d0 = dst@;
    let mut i: usize = 0;
    while i < src.len()
        invariant
            i <= src@.len(),
            dst@ == d0 + src@.take(i as int),
        decreases src@.len() - i,
    {
        dst.push(src[i]);
        i = i + 1;
        assert(dst@ =~= d0 + src@.take(i as int));
    }
    assert(src@.take(i as int) =~= src@);
}

fn is_workspace_active(infos: &Vec<WorkspaceInfo>, w: u64) -> (res: bool)
    ensures
        res == workspace_active(infos@, w),
{
    let mut i: usize = 0;
    assert(infos@.subrange(0, infos@.len() as int) =~= infos@);
    while i < infos.len()
        invariant
            i <= infos@.len(),
            first_info(infos@.subrange(i as int, infos@.len() as int), w) == first_info(infos@, w),
        decreases infos@.len() - i,
    {
        let ghost rest = infos@.subrange(i as int, infos@.len() as int);
        assert(rest.drop_first() =~= infos@.subrange(i + 1, infos@.len() as int));
        assert(rest[0] == infos@[i as int]);
        if infos[i].handle == w {
            return infos[i].active;
        }
        i = i + 1;
    }
    assert(infos@.subrange(i as int, infos@.len() as int) =~= Seq::<WorkspaceInfo>::empty());
    false
}

fn is_maximized_on(maxed: &Vec<ToplevelState>, w: u64) -> (res: bool)
    ensures
        res == maximized_on(maxed@, w),
{
    let mut k: usize = 0;
    while k < maxed.len()
        invariant
            k <= maxed@.len(),
            forall|q: int| 0 <= q < k ==> !(#[trigger] maxed@[q]).workspaces@.contains(w),
        decreases maxed@.len() - k,
    {
        if contains_u64(&maxed[k].workspaces, w) {
            assert(maxed@[k as int].workspaces@.contains(w));
            return true;
        }
        k = k + 1;
    }
    false
}

fn is_group_maximized(g: &WorkspaceGroupInfo, infos: &Vec<WorkspaceInfo>, maxed: &Vec<ToplevelState>) -> (res: bool)
    ensures
        res == group_maximized(*g, infos@, maxed@),
{
    let mut j: usize = 0;
    while j < g.workspaces.len()
        invariant
            j <= g.workspaces@.len(),
            forall|q: int| 0 <= q < j ==> !(workspace_active(infos@, #[trigger] g.workspaces@[q]) && maximized_on(maxed@, g.workspaces@[q])),
        decreases g.workspaces@.len() - j,
    {
        let w = g.workspaces[j];
        if is_workspace_active(infos, w) && is_maximized_on(maxed, w) {
            assert(workspace_active(infos@, g.workspaces@[j as int]) && maximized_on(maxed@, g.workspaces@[j as int]));
            return true;
        }
        j = j + 1;
    }
    false
}

/// The outputs that count as maximized, each at least once; only whether
/// an output is among them matters.
pub fn maximized_outputs(groups: &Vec<WorkspaceGroupInfo>, infos: &Vec<WorkspaceInfo>, maxed: &Vec<ToplevelState>) -> (res: Vec<u64>)
    ensures
        forall|o: u64| #[trigger] res@.contains(o) <==> output_maximized(groups@, infos@, maxed@, o),
{
    let mut res: Vec<u64> = Vec::new();
    let mut g: usize = 0;
    while g < groups.len()
        invariant
            g <= groups@.len(),
            forall|o: u64| #[trigger] res@.contains(o) <==>
                exists|q: int| 0 <= q < g && group_maximized(#[trigger] groups@[q], infos@, maxed@) && groups@[q].outputs@.contains(o),
        decreases groups@.len() - g,
    {
        let ghost before = res@;
        let hit = is_group_maximized(&groups[g], infos, maxed);
        if hit {
            append_u64(&mut res, &groups[g].outputs);
        }
        proof {
            assert forall|o: u64| #[trigger] res@.contains(o) <==>
                exists|q: int| 0 <= q < g + 1 && group_maximized(#[trigger] groups@[q], infos@, maxed@) && groups@[q].outputs@.contains(o) by {
                let gg = groups@[g as int];
                if res@.contains(o) {
                    let i = choose|i: int| 0 <= i < res@.len() && res@[i] == o;
                    if i >= before.len() {
                        assert(gg.outputs@[i - before.len()] == o);
                        assert(gg.outputs@.contains(o));
                        assert(group_maximized(groups@[g as int], infos@, maxed@) && groups@[g as int].outputs@.contains(o));
                    } else {
                        assert(before[i] == o);
                        assert(before.contains(o));
                    }
                }
                if exists|q: int| 0 <= q < g + 1 && group_maximized(#[trigger] groups@[q], infos@, maxed@) && groups@[q].outputs@.contains(o) {
                    let q = choose|q: int| 0 <= q < g + 1 && group_maximized(#[trigger] groups@[q], infos@, maxed@) && groups@[q].outputs@.contains(o);
                    if q == g {
                        assert(hit);
                        let i = choose|i: int| 0 <= i < groups@[q].outputs@.len() && groups@[q].outputs@[i] == o;
                        assert(res@[before.len() + i] == o);
                        assert(res@.contains(o));
                    } else {
                        assert(before.contains(o));
                        let i = choose|i: int| 0 <= i < before.len() && before[i] == o;
                        assert(res@[i] == o);
                        assert(res@.contains(o));
                    }
                }
            }
        }
        g = g + 1;
    }
    let ghost mid = res@;
    let mut k: usize = 0;
    while k < maxed.len()
        invariant
            k <= maxed@.len(),
            forall|o: u64| #[trigger] res@.contains(o) <==> (mid.contains(o)
                || exists|q: int| 0 <= q < k && (#[trigger] maxed@[q]).maximized && maxed@[q].sticky && maxed@[q].outputs@.contains(o)),
            forall|o: u64| #[trigger] mid.contains(o) <==>
                exists|q: int| 0 <= q < groups@.len() && group_maximized(#[trigger] groups@[q], infos@, maxed@) && groups@[q].outputs@.contains(o),
        decreases maxed@.len() - k,
    {
        let ghost before = res@;
        let hit = maxed[k].maximized && maxed[k].sticky;
        if hit {
            append_u64(&mut res, &maxed[k].outputs);
        }
        proof {
            assert forall|o: u64| #[trigger] res@.contains(o) <==> (mid.contains(o)
                || exists|q: int| 0 <= q < k + 1 && (#[trigger] maxed@[q]).maximized && maxed@[q].sticky && maxed@[q].outputs@.contains(o)) by {
                let mk = maxed@[k as int];
                if res@.contains(o) {
                    let i = choose|i: int| 0 <= i < res@.len() && res@[i] == o;
                    if i >= before.len() {
                        assert(mk.outputs@[i - before.len()] == o);
                        assert(mk.outputs@.contains(o));
                        assert(maxed@[k as int].maximized && maxed@[k as int].sticky && maxed@[k as int].outputs@.contains(o));
                    } else {
                        assert(before[i] == o);
                        assert(before.contains(o));
                    }
                }
                if exists|q: int| 0 <= q < k + 1 && (#[trigger] maxed@[q]).maximized && maxed@[q].sticky && maxed@[q].outputs@.contains(o) {
                    let q = choose|q: int| 0 <= q < k + 1 && (#[trigger] maxed@[q]).maximized && maxed@[q].sticky && maxed@[q].outputs@.contains(o);
                    if q == k {
                        assert(hit);
                        let i = choose|i: int| 0 <= i < maxed@[q].outputs@.len() && maxed@[q].outputs@[i] == o;
                        assert(res@[before.len() + i] == o);
                        assert(res@.contains(o));
                    } else {
                        assert(before.contains(o));
                        let i = choose|i: int| 0 <= i < before.len() && before[i] == o;
                        assert(res@[i] == o);
                        assert(res@.contains(o));
                    }
                }
                if mid.contains(o) {
                    assert(before.contains(o));
                    let i = choose|i: int| 0 <= i < before.len() && before[i] == o;
                    assert(res@[i] == o);
                    assert(res@.contains(o));
                }
            }
        }
        k = k + 1;
    }
    res
}

/// The outputs, in order, whose maximized state changes, each with its new
/// state.
pub open spec fn maximize_changes_spec(outputs: Seq<u64>, pre: Seq<u64>, post: Seq<u64>) -> Seq<(u64, bool)>
    decreases outputs.len(),
{
    if outputs.len() == 0 {
        seq![]
    } else {
        let rest = maximize_changes_spec(outputs.drop_last(), pre, post);
        let o = outputs.last();
        if post.contains(o) && !pre.contains(o) {
            rest.push((o, true))
        } else if !post.contains(o) && pre.contains(o) {
            rest.push((o, false))
        } else {
            rest
        }
    }
}

/// The outputs whose maximized state changes from `pre` to `post`, as
/// [`maximize_changes_spec`] says.
pub fn maximize_changes(outputs: &Vec<u64>, pre: &Vec<u64>, post: &Vec<u64>) -> (res: Vec<(u64, bool)>)
    ensures
        res@ == maximize_changes_spec(outputs@, pre@, post@),
{
    let mut res: Vec<(u64, bool)> = Vec::new();
    let mut i: usize = 0;
    while i < outputs.len()
        invariant
            i <= outputs@.len(),
            res@ == maximize_changes_spec(outputs@.take(i as int), pre@, post@),
        decreases outputs@.len() - i,
    {
        let ghost t = outputs@.take(i + 1);
        assert(t.drop_last() =~= outputs@.take(i as int));
        let o = outputs[i];
        assert(t.last() == o);
        let max_pre = contains_u64(pre, o);
        let max_post = contains_u64(post, o);
        if max_post && !max_pre {
            res.push((o, true));
        } else if !max_post && max_pre {
            res.push((o, false));
        }
        i = i + 1;
    }
    assert(outputs@.take(i as int) =~= outputs@);
    res
}

proof fn lemma_changes_facts(outputs: Seq<u64>, pre: Seq<u64>, post: Seq<u64>)
    ensures
        maximize_changes_spec(outputs, pre, post).len() <= outputs.len(),
        forall|k: int| 0 <= k < maximize_changes_spec(outputs, pre, post).len() ==> {
            let (o, m) = #[trigger] maximize_changes_spec(outputs, pre, post)[k];
            &&& outputs.contains(o)
            &&& m == post.contains(o)
            &&& m != pre.contains(o)
        },
        forall|o: u64| #[trigger] outputs.contains(o) && post.contains(o) != pre.contains(o)
            ==> exists|k: int| 0 <= k < maximize_changes_spec(outputs, pre, post).len() && maximize_changes_spec(outputs, pre, post)[k].0 == o,
    decreases outputs.len(),
{
    if outputs.len() > 0 {
        let d = outputs.drop_last();
        lemma_changes_facts(d, pre, post);
        let rest = maximize_changes_spec(d, pre, post);
        let r = maximize_changes_spec(outputs, pre, post);
        let last = outputs.last();
        assert forall|k: int| 0 <= k < r.len() implies {
            let (o, m) = #[trigger] r[k];
            &&& outputs.contains(o)
            &&& m == post.contains(o)
            &&& m != pre.contains(o)
        } by {
            if k < rest.len() {
                assert(r[k] == rest[k]);
                let o = rest[k].0;
                assert(d.contains(o));
                let i = choose|i: int| 0 <= i < d.len() && d[i] == o;
                assert(outputs[i] == o);
            } else {
                assert(outputs[outputs.len() - 1] == last);
            }
        }
        assert forall|o: u64| #[trigger] outputs.contains(o) && post.contains(o) != pre.contains(o)
            implies exists|k: int| 0 <= k < r.len() && r[k].0 == o by {
            let i = choose|i: int| 0 <= i < outputs.len() && outputs[i] == o;
            if i < outputs.len() - 1 {
                assert(d[i] == o);
                assert(d.contains(o));
                let k = choose|k: int| 0 <= k < rest.len() && rest[k].0 == o;
                assert(r[k] == rest[k]);
            } else {
                assert(r[r.len() - 1].0 == o);
            }
        }
    }
}

/// The outputs, in order, whose maximized state differs between the
/// tracked windows `before` and `after`, each with its state after.
pub open spec fn output_changes(
    outputs: Seq<u64>,
    groups: Seq<WorkspaceGroupInfo>,
    infos: Seq<WorkspaceInfo>,
    before: Seq<ToplevelState>,
    after: Seq<ToplevelState>,
) -> Seq<(u64, bool)>
    decreases outputs.len(),
{
    if outputs.len() == 0 {
        seq![]
    } else {
        let rest = output_changes(outputs.drop_last(), groups, infos, before, after);
        let o = outputs.last();
        let now = output_maximized(groups, infos, after, o);
        if now != output_maximized(groups, infos, before, o) {
            rest.push((o, now))
        } else {
            rest
        }
    }
}

proof fn lemma_changes_are_output_changes(
    outputs: Seq<u64>,
    groups: Seq<WorkspaceGroupInfo>,
    infos: Seq<WorkspaceInfo>,
    before: Seq<ToplevelState>,
    after: Seq<ToplevelState>,
    pre: Seq<u64>,
    post: Seq<u64>,
)
    requires
        forall|o: u64| #[trigger] pre.contains(o) <==> output_maximized(groups, infos, before, o),
        forall|o: u64| #[trigger] post.contains(o) <==> output_maximized(groups, infos, after, o),
    ensures
        maximize_changes_spec(outputs, pre, post) == output_changes(outputs, groups, infos, before, after),
    decreases outputs.len(),
{
    if outputs.len() > 0 {
        lemma_changes_are_output_changes(outputs.drop_last(), groups, infos, before, after, pre, post);
        let o = outputs.last();
        assert(pre.contains(o) == output_maximized(groups, infos, before, o));
        assert(post.contains(o) == output_maximized(groups, infos, after, o));
    }
}

/// Starts tracking a window that became maximized; returns the outputs
/// whose maximized state changes, in the order of `outputs`, each with its
/// new state.
pub fn add_maximized(
    groups: &Vec<WorkspaceGroupInfo>,
    infos: &Vec<WorkspaceInfo>,
    maxed: &mut Vec<ToplevelState>,
    info: ToplevelState,
    outputs: &Vec<u64>,
) -> (res: Vec<(u64, bool)>)
    ensures
        final(maxed)@ == old(maxed)@.push(info),
        res@ == output_changes(outputs@, groups@, infos@, old(maxed)@, final(maxed)@),
        res@.len() <= outputs@.len(),
        forall|k: int| 0 <= k < res@.len() ==> {
            let (o, m) = #[trigger] res@[k];
            &&& outputs@.contains(o)
            &&& m == output_maximized(groups@, infos@, final(maxed)@, o)
            &&& m != output_maximized(groups@, infos@, old(maxed)@, o)
        },
        forall|o: u64| #[trigger] outputs@.contains(o)
            && output_maximized(groups@, infos@, final(maxed)@, o) != output_maximized(groups@, infos@, old(maxed)@, o)
            ==> exists|k: int| 0 <= k < res@.len() && res@[k].0 == o,
{
    let pre = maximized_outputs(groups, infos, maxed);
    maxed.push(info);
    let post = maximized_outputs(groups, infos, maxed);
    let res = maximize_changes(outputs, &pre, &post);
    proof {
        lemma_changes_facts(outputs@, pre@, post@);
        lemma_changes_are_output_changes(outputs@, groups@, infos@, old(maxed)@, maxed@, pre@, post@);
    }
    res
}

/// Stops tracking a window that is no longer maximized, if it was tracked:
/// its first record goes. Returns the outputs whose maximized state
/// changes, in the order of `outputs`, each with its new state, or none when the window was not
/// tracked.
pub fn remove_maximized(
    groups: &Vec<WorkspaceGroupInfo>,
    infos: &Vec<WorkspaceInfo>,
    maxed: &mut Vec<ToplevelState>,
    id: u64,
    outputs: &Vec<u64>,
) -> (res: Option<Vec<(u64, bool)>>)
    ensures
        res is None ==> final(maxed)@ == old(maxed)@
            && forall|k: int| 0 <= k < old(maxed)@.len() ==> (#[trigger] old(maxed)@[k]).id != id,
        res is Some ==> exists|p: int|
            0 <= p < old(maxed)@.len() && #[trigger] old(maxed)@[p].id == id
                && (forall|q: int| 0 <= q < p ==> (#[trigger] old(maxed)@[q]).id != id)
                && final(maxed)@ == old(maxed)@.remove(p),
        res is Some ==> res->0@ == output_changes(outputs@, groups@, infos@, old(maxed)@, final(maxed)@),
        res is Some ==> forall|k: int| 0 <= k < res->0@.len() ==> {
            let (o, m) = #[trigger] res->0@[k];
            &&& outputs@.contains(o)
            &&& m == output_maximized(groups@, infos@, final(maxed)@, o)
            &&& m != output_maximized(groups@, infos@, old(maxed)@, o)
        },
        res is Some ==> forall|o: u64| #[trigger] outputs@.contains(o)
            && output_maximized(groups@, infos@, final(maxed)@, o) != output_maximized(groups@, infos@, old(maxed)@, o)
            ==> exists|k: int| 0 <= k < res->0@.len() && res->0@[k].0 == o,
{
    let pre = maximized_outputs(groups, infos, maxed);
    let mut p: usize = 0;
    while p < maxed.len()
        invariant
            p <= maxed@.len(),
            maxed@ == old(maxed)@,
            forall|q: int| 0 <= q < p ==> (#[trigger] maxed@[q]).id != id,
            forall|o: u64| #[trigger] pre@.contains(o) <==> output_maximized(groups@, infos@, old(maxed)@, o),
        decreases maxed@.len() - p,
    {
        if maxed[p].id == id {
            assert(old(maxed)@[p as int].id == id);
            let _ = maxed.remove(p);
            assert(maxed@ == old(maxed)@.remove(p as int));
            let post = maximized_outputs(groups, infos, maxed);
            let res = maximize_changes(outputs, &pre, &post);
            proof {
                lemma_changes_facts(outputs@, pre@, post@);
                lemma_changes_are_output_changes(outputs@, groups@, infos@, old(maxed)@, maxed@, pre@, post@);
                assert(old(maxed)@[p as int].id == id);
            }
            let out = Some(res);
            proof {
                assert forall|o: u64| #[trigger] outputs@.contains(o)
                    && output_maximized(groups@, infos@, maxed@, o) != output_maximized(groups@, infos@, old(maxed)@, o)
                    implies exists|k: int| 0 <= k < out->0@.len() && out->0@[k].0 == o by {
                    assert(post@.contains(o) != pre@.contains(o));
                    let k = choose|k: int| 0 <= k < res@.len() && res@[k].0 == o;
                    assert(out->0@[k] == res@[k]);
                }
            }
            return out;
        }
        p = p + 1;
    }
    None
}

/// What a window update does to the tracking: start it when the window
/// became maximized, stop it when it no longer is, nothing otherwise.
#[derive(Clone, Copy, Debug, PartialEq, Eq, Structural)]
pub enum MaximizeUpdate {
    Add,
    Remove,
    Nothing,
}

/// What a window update does to the tracking.
pub fn maximize_update(is_maximized: bool, was_maximized: bool) -> (res: MaximizeUpdate)
    ensures
        res == if is_maximized && !was_maximized {
            MaximizeUpdate::Add
        } else if !is_maximized && was_maximized {
            MaximizeUpdate::Remove
        } else {
            MaximizeUpdate::Nothing
        },
{
    if is_maximized && !was_maximized {
        MaximizeUpdate::Add
    } else if !is_maximized && was_maximized {
        MaximizeUpdate::Remove
    } else {
        MaximizeUpdate::Nothing
    }
}

} // verus!
