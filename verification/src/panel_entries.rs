//! Following the list of configured panels.
//!
//! When the list of panel entries changes, each listed entry that is not
//! configured yet is loaded and set up, and each configured entry that is
//! no longer listed is removed; afterwards the configured entries are
//! exactly the listed ones.

use vstd::prelude::*;
use crate::applet_launch::string_views;

verus! {

/// The names of `xs`, in order, that are not among `ys`.
pub open spec fn not_among(xs: Seq<Seq<char>>, ys: Seq<Seq<char>>) -> Seq<Seq<char>>
    decreases xs.len(),
{
    if xs.len() == 0 {
        seq![]
    } else {
        let rest = not_among(xs.drop_last(), ys);
        if ys.contains(xs.last()) { rest } else { rest.push(xs.last()) }
    }
}

/// A name is among `not_among(xs, ys)` exactly when it is among `xs` and
/// not among `ys`.
pub proof fn lemma_not_among(xs: Seq<Seq<char>>, ys: Seq<Seq<char>>, n: Seq<char>)
    ensures
        not_among(xs, ys).contains(n) <==> (xs.contains(n) && !ys.contains(n)),
    decreases xs.len(),
{
    if xs.len() > 0 {
        let d = xs.drop_last();
        lemma_not_among(d, ys, n);
        let r = not_among(d, ys);
        if xs.contains(n) && !ys.contains(n) {
            let i = choose|i: int| 0 <= i < xs.len() && xs[i] == n;
            if i < xs.len() - 1 {
                assert(d[i] == n);
                let k = choose|k: int| 0 <= k < r.len() && r[k] == n;
                if !ys.contains(xs.last()) {
                    assert(r.push(xs.last())[k] == n);
                }
            } else {
                assert(not_among(xs, ys)[not_among(xs, ys).len() - 1] == n);
            }
        }
        if not_among(xs, ys).contains(n) {
            let k = choose|k: int| 0 <= k < not_among(xs, ys).len() && not_among(xs, ys)[k] == n;
            if k < r.len() {
                if !ys.contains(xs.last()) {
                    assert(r.push(xs.last())[k] == r[k]);
                }
                assert(r.contains(n));
                let i = choose|i: int| 0 <= i < d.len() && d[i] == n;
                assert(xs[i] == n);
            } else {
                assert(xs[xs.len() - 1] == n);
            }
        }
    }
}

fn contains_name(v: &Vec<String>, n: &String) -> (res: bool)
    ensures
        res == string_views(v@).contains(n@),
{
    let mut i: usize = 0;
    while i < v.len()
        invariant
            i <= v@.len(),
            forall|k: int| 0 <= k < i ==> (#[trigger] v@[k])@ != n@,
        decreases v@.len() - i,
    {
        if v[i].eq(n) {
            assert(string_views(v@)[i as int] == n@);
            return true;
        }
        i = i + 1;
    }
    proof {
        if string_views(v@).contains(n@) {
            let k = choose|k: int| 0 <= k < string_views(v@).len() && string_views(v@)[k] == n@;
            assert(v@[k]@ == n@);
        }
    }
    false
}

fn names_not_among(xs: &Vec<String>, ys: &Vec<String>) -> (res: Vec<String>)
    ensures
        string_views(res@) == not_among(string_views(xs@), string_views(ys@)),
{
    let mut res: Vec<String> = Vec::new();
    let mut i: usize = 0;
    while i < xs.len()
        invariant
            i <= xs@.len(),
            string_views(res@) == not_among(string_views(xs@).take(i as int), string_views(ys@)),
        decreases xs@.len() - i,
    {
        let ghost t = string_views(xs@).take(i + 1);
        assert(t.drop_last() =~= string_views(xs@).take(i as int));
        assert(t.last() == xs@[i as int]@);
        let ghost before = res@;
        if !contains_name(ys, &xs[i]) {
            res.push(xs[i].clone());
            assert(string_views(res@) =~= string_views(before).push(xs@[i as int]@));
        }
        i = i + 1;
    }
    assert(string_views(xs@).take(i as int) =~= string_views(xs@));
    res
}

/// For a new list of entries, the listed entries to set up (those not
/// configured yet, in the list's order) and the configured entries to
/// remove (those no longer listed, in the configured order).
pub fn entries_update(configured: &Vec<String>, entries: &Vec<String>) -> (res: (Vec<String>, Vec<String>))
    ensures
        string_views(res.0@) == not_among(string_views(entries@), string_views(configured@)),
        string_views(res.1@) == not_among(string_views(configured@), string_views(entries@)),
{
    let to_update = names_not_among(entries, configured);
    let to_remove = names_not_among(configured, entries);
    (to_update, to_remove)
}

/// After the listed entries that were not configured are set up and the
/// configured entries that are no longer listed are removed, the configured
/// entries are exactly the listed ones.
pub proof fn lemma_entries_follow_list(configured: Seq<Seq<char>>, entries: Seq<Seq<char>>, n: Seq<char>)
    ensures
        ((configured.contains(n) && !not_among(configured, entries).contains(n))
            || not_among(entries, configured).contains(n)) <==> entries.contains(n),
{
    lemma_not_among(configured, entries, n);
    lemma_not_among(entries, configured, n);
}

} // verus!
