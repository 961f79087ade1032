//! Where minimized windows go.
//!
//! On each output one applet receives minimized windows: the applet with the
//! highest minimize priority that announced itself there, or a newer one
//! when the recorded applet's surface is gone. The compositor is told the
//! applet's rectangle for each window on the output whenever the record
//! changes, and for a window when it appears or changes.

use vstd::prelude::*;

verus! {

/// The applet that receives minimized windows on an output: its priority,
/// its rectangle and its surface.
#[derive(Clone, Copy, Debug, PartialEq, Eq, Structural)]
pub struct MinimizeApplet {
    pub priority: i32,
    pub x: i32,
    pub y: i32,
    pub w: i32,
    pub h: i32,
    pub surface: u64,
}

/// Whether two records have the same rectangle.
pub open spec fn same_rect(a: MinimizeApplet, b: MinimizeApplet) -> bool {
    a.x == b.x && a.y == b.y && a.w == b.w && a.h == b.h
}

/// The record of an output after an applet announces itself there, and
/// whether it changed: the first announcement is recorded; the recorded
/// applet's new rectangle replaces its old one; an applet of higher
/// priority than the recorded one, or any applet once the recorded surface
/// is gone, replaces the record.
pub open spec fn announce_spec(old: Option<MinimizeApplet>, info: MinimizeApplet, old_alive: bool) -> (MinimizeApplet, bool) {
    match old {
        None => (info, true),
        Some(o) => if o.surface == info.surface && !same_rect(o, info) {
            (MinimizeApplet { x: info.x, y: info.y, w: info.w, h: info.h, ..o }, true)
        } else if o.priority < info.priority || !old_alive {
            (info, true)
        } else {
            (o, false)
        },
    }
}

/// The record after an announcement, as [`announce_spec`] says;
/// `old_alive` tells whether the recorded applet's surface is alive.
pub fn set_rectangles(old: Option<MinimizeApplet>, info: MinimizeApplet, old_alive: bool) -> (res: (MinimizeApplet, bool))
    ensures
        res == announce_spec(old, info, old_alive),
{
    match old {
        None => (info, true),
        Some(o) => {
            if o.surface == info.surface && !(o.x == info.x && o.y == info.y && o.w == info.w && o.h == info.h) {
                (MinimizeApplet { x: info.x, y: info.y, w: info.w, h: info.h, ..o }, true)
            } else if o.priority < info.priority || !old_alive {
                (info, true)
            } else {
                (o, false)
            }
        },
    }
}

/// While the recorded applet's surface lives, an announcement of lower or
/// equal priority from another surface changes nothing, and no
/// announcement lowers the recorded priority.
pub proof fn lemma_record_keeps_priority(old: MinimizeApplet, info: MinimizeApplet)
    ensures
        info.surface != old.surface && info.priority <= old.priority
            ==> announce_spec(Some(old), info, true) == (old, false),
        announce_spec(Some(old), info, true).0.priority >= old.priority,
{
}

/// A window as the minimize bookkeeping sees it: its id, the names of its
/// outputs (none where an output is unknown) and whether it is minimized.
#[derive(Clone, Debug)]
pub struct WindowOutputs {
    pub id: u64,
    pub outputs: Vec<Option<String>>,
    pub minimized: bool,
}

/// Whether the window is on the output of that name.
pub open spec fn on_output(w: WindowOutputs, name: Seq<char>) -> bool {
    exists|k: int| 0 <= k < w.outputs@.len() && ((#[trigger] w.outputs@[k]) matches Some(n) && n@ == name)
}

fn on_output_exec(w: &WindowOutputs, name: &String) -> (res: bool)
    ensures
        res == on_output(*w, name@),
{
    let mut k: usize = 0;
    while k < w.outputs.len()
        invariant
            k <= w.outputs@.len(),
            forall|q: int| 0 <= q < k ==> !((#[trigger] w.outputs@[q]) matches Some(n) && n@ == name@),
        decreases w.outputs@.len() - k,
    {
        match &w.outputs[k] {
            Some(n) => {
                if n.eq(name) {
                    return true;
                }
            },
            None => {},
        }
        k = k + 1;
    }
    false
}

/// The ids of the windows on the output, in order.
pub open spec fn ids_on_output(windows: Seq<WindowOutputs>, name: Seq<char>) -> Seq<u64>
    decreases windows.len(),
{
    if windows.len() == 0 {
        seq![]
    } else {
        let rest = ids_on_output(windows.drop_last(), name);
        if on_output(windows.last(), name) { rest.push(windows.last().id) } else { rest }
    }
}

/// The ids of the minimized windows on the output, in order.
pub open spec fn minimized_ids_on_output(windows: Seq<WindowOutputs>, name: Seq<char>) -> Seq<u64>
    decreases windows.len(),
{
    if windows.len() == 0 {
        seq![]
    } else {
        let rest = minimized_ids_on_output(windows.drop_last(), name);
        let w = windows.last();
        if w.minimized && on_output(w, name) { rest.push(w.id) } else { rest }
    }
}

/// The windows, in order, that are told the new rectangle of the output's
/// record: those on the output.
pub fn rectangle_targets(windows: &Vec<WindowOutputs>, output: &String) -> (res: Vec<u64>)
    ensures
        res@ == ids_on_output(windows@, output@),
{
    let mut res: Vec<u64> = Vec::new();
    let mut i: usize = 0;
    while i < windows.len()
        invariant
            i <= windows@.len(),
            res@ == ids_on_output(windows@.take(i as int), output@),
        decreases windows@.len() - i,
    {
        let ghost t = windows@.take(i + 1);
        assert(t.drop_last() =~= windows@.take(i as int));
        let hit = on_output_exec(&windows[i], output);
        if hit {
            res.push(windows[i].id);
        }
        assert(t.last() == windows@[i as int]);
        i = i + 1;
    }
    assert(windows@.take(i as int) =~= windows@);
    res
}

/// The first record, in the order given, whose output the window is on.
pub open spec fn first_record_for(records: Seq<(String, MinimizeApplet)>, w: WindowOutputs) -> Option<int>
    decreases records.len(),
{
    if records.len() == 0 {
        None
    } else if on_output(w, records.last().0@) {
        match first_record_for(records.drop_last(), w) {
            Some(k) => Some(k),
            None => Some(records.len() - 1),
        }
    } else {
        first_record_for(records.drop_last(), w)
    }
}

/// The rectangle a window that appeared or changed is told: that of the
/// first record, in the order given, for one of its outputs; none when no
/// record is for its outputs.
pub fn update_toplevel(records: &Vec<(String, MinimizeApplet)>, w: &WindowOutputs) -> (res: Option<MinimizeApplet>)
    ensures
        match first_record_for(records@, *w) {
            Some(k) => res == Some(records@[k].1),
            None => res is None,
        },
{
    let mut i: usize = 0;
    while i < records.len()
        invariant
            i <= records@.len(),
            first_record_for(records@.take(i as int), *w) is None,
        decreases records@.len() - i,
    {
        let ghost t = records@.take(i + 1);
        assert(t.drop_last() =~= records@.take(i as int));
        assert(t.last() == records@[i as int]);
        if on_output_exec(w, &records[i].0) {
            proof { lemma_first_record_prefix(records@, *w, i as int + 1); }
            return Some(records[i].1);
        }
        i = i + 1;
    }
    assert(records@.take(i as int) =~= records@);
    None
}

proof fn lemma_first_record_prefix(records: Seq<(String, MinimizeApplet)>, w: WindowOutputs, n: int)
    requires
        0 < n <= records.len(),
        first_record_for(records.take(n - 1), w) is None,
        on_output(w, records[n - 1].0@),
    ensures
        first_record_for(records, w) == Some(n - 1),
    decreases records.len() - n,
{
    let t = records.take(n);
    assert(t.drop_last() =~= records.take(n - 1));
    assert(first_record_for(t, w) == Some(n - 1));
    if n < records.len() {
        lemma_first_record_extend(records, w, n);
    } else {
        assert(t =~= records);
    }
}

proof fn lemma_first_record_extend(records: Seq<(String, MinimizeApplet)>, w: WindowOutputs, n: int)
    requires
        0 < n <= records.len(),
        first_record_for(records.take(n), w) is Some,
    ensures
        first_record_for(records, w) == first_record_for(records.take(n), w),
    decreases records.len() - n,
{
    if n < records.len() {
        let t = records.take(n + 1);
        assert(t.drop_last() =~= records.take(n));
        lemma_first_record_extend(records, w, n + 1);
    } else {
        assert(records.take(n) =~= records);
    }
}

/// The ids of the minimized windows on an output, in order.
pub fn minimized_on_output(windows: &Vec<WindowOutputs>, output: &String) -> (res: Vec<u64>)
    ensures
        res@ == minimized_ids_on_output(windows@, output@),
{
    let mut res: Vec<u64> = Vec::new();
    let mut i: usize = 0;
    while i < windows.len()
        invariant
            i <= windows@.len(),
            res@ == minimized_ids_on_output(windows@.take(i as int), output@),
        decreases windows@.len() - i,
    {
        let ghost t = windows@.take(i + 1);
        assert(t.drop_last() =~= windows@.take(i as int));
        assert(t.last() == windows@[i as int]);
        if windows[i].minimized && on_output_exec(&windows[i], output) {
            res.push(windows[i].id);
        }
        i = i + 1;
    }
    assert(windows@.take(i as int) =~= windows@);
    res
}

} // verus!
