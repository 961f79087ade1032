//! Panels for a new output.
//!
//! When an output appears, each panel entry meant for it gets a space: an
//! entry for all outputs reuses a space of its name already on that output,
//! an entry for the output by name reuses a space of its name and target;
//! otherwise a new space is made. A space takes the output only when it has
//! none yet and its target admits the output; a space that refuses it is
//! dropped. A panel that hides itself starts hidden.

use vstd::prelude::*;
use crate::panel_space::PanelBackgroundKind;

verus! {

/// The outputs a panel entry is for.
#[derive(Clone, Debug)]
pub enum OutputTarget {
    All,
    Active,
    Name(String),
}

/// Whether two targets are the same.
pub open spec fn same_target(a: OutputTarget, b: OutputTarget) -> bool {
    match (a, b) {
        (OutputTarget::All, OutputTarget::All) => true,
        (OutputTarget::Active, OutputTarget::Active) => true,
        (OutputTarget::Name(x), OutputTarget::Name(y)) => x@ == y@,
        _ => false,
    }
}

fn same_target_exec(a: &OutputTarget, b: &OutputTarget) -> (res: bool)
    ensures
        res == same_target(*a, *b),
{
    match (a, b) {
        (OutputTarget::All, OutputTarget::All) => true,
        (OutputTarget::Active, OutputTarget::Active) => true,
        (OutputTarget::Name(x), OutputTarget::Name(y)) => x.eq(y),
        _ => false,
    }
}

/// Why a space refuses an output.
#[derive(Clone, Copy, Debug, PartialEq, Eq, Structural)]
pub enum OutputRefusal {
    /// the space already has an output
    AlreadySetUp,
    /// the space's target does not admit the output
    Mismatch,
}

/// Whether a space takes an output: not when it has one already; an output
/// that is fully known (`Some`, with its name if it has one) is taken by a
/// space for all outputs or for that name; an output that is not is taken
/// only by a space for the active output.
pub open spec fn accepts_spec(has_output: bool, target: OutputTarget, output: Option<Option<Seq<char>>>) -> Result<(), OutputRefusal> {
    if has_output {
        Err(OutputRefusal::AlreadySetUp)
    } else {
        match output {
            Some(name) => match target {
                OutputTarget::All => Ok(()),
                OutputTarget::Active => Err(OutputRefusal::Mismatch),
                OutputTarget::Name(n) => if name == Some(n@) { Ok(()) } else { Err(OutputRefusal::Mismatch) },
            },
            None => if target is Active { Ok(()) } else { Err(OutputRefusal::Mismatch) },
        }
    }
}

/// The name of an output as a sequence, if any.
pub open spec fn name_view(name: Option<String>) -> Option<Seq<char>> {
    match name {
        Some(n) => Some(n@),
        None => None,
    }
}

/// Whether a space takes an output, as [`accepts_spec`] says.
pub fn accepts_output(has_output: bool, target: &OutputTarget, output: &Option<Option<String>>) -> (res: Result<(), OutputRefusal>)
    ensures
        res == accepts_spec(has_output, *target, match *output { Some(n) => Some(name_view(n)), None => None }),
{
    if has_output {
        return Err(OutputRefusal::AlreadySetUp);
    }
    match output {
        Some(name) => match target {
            OutputTarget::All => Ok(()),
            OutputTarget::Active => Err(OutputRefusal::Mismatch),
            OutputTarget::Name(n) => match name {
                Some(m) => if m.eq(n) { Ok(()) } else { Err(OutputRefusal::Mismatch) },
                None => Err(OutputRefusal::Mismatch),
            },
        },
        None => match target {
            OutputTarget::Active => Ok(()),
            _ => Err(OutputRefusal::Mismatch),
        },
    }
}

/// A panel entry meant for the new output.
#[derive(Clone, Debug)]
pub struct OutputEntry {
    pub name: String,
    pub target: OutputTarget,
    pub autohide: bool,
    pub background: PanelBackgroundKind,
}

/// A space that exists before the output appears: its entry's name and
/// target, and its output, if it has one.
#[derive(Clone, Debug)]
pub struct ExistingSpace {
    pub name: String,
    pub target: OutputTarget,
    pub output: Option<u64>,
}

/// The theme a new space is drawn with.
#[derive(Clone, Copy, Debug, PartialEq, Eq, Structural)]
pub enum ThemeChoice {
    Current,
    Dark,
    Light,
}

/// The theme for a background: the current one unless the background is
/// set dark or light.
pub open spec fn theme_for(background: PanelBackgroundKind) -> ThemeChoice {
    match background {
        PanelBackgroundKind::ThemeDefault | PanelBackgroundKind::Color => ThemeChoice::Current,
        PanelBackgroundKind::Dark => ThemeChoice::Dark,
        PanelBackgroundKind::Light => ThemeChoice::Light,
    }
}

/// What happens for an entry that the output handles.
#[derive(Clone, Copy, Debug, PartialEq, Eq, Structural)]
pub struct SpacePlan {
    /// the existing space taken out of the list for it, if any
    pub reuse: Option<usize>,
    /// whether the space starts hidden
    pub hidden: bool,
    pub theme: ThemeChoice,
    /// whether the space took the output and stays
    pub kept: bool,
}

/// Whether an existing space can serve an entry on the output: for an
/// entry for all outputs, a space of its name on that output; for an entry
/// for the output by name, a space of its name and target.
pub open spec fn serves(s: ExistingSpace, e: OutputEntry, output: u64) -> bool {
    &&& s.name@ == e.name@
    &&& match e.target {
        OutputTarget::All => s.output == Some(output),
        _ => same_target(s.target, e.target),
    }
}

/// Whether an entry is handled on the output: it is for all outputs, or
/// for this output by name.
pub open spec fn handled(e: OutputEntry, output_name: Seq<char>) -> bool {
    match e.target {
        OutputTarget::All => true,
        OutputTarget::Name(n) => n@ == output_name,
        OutputTarget::Active => false,
    }
}

/// Whether the plans for the first entries are right, where `owner[j]` is
/// the entry that took existing space `j`, or negative when none did: each
/// handled entry has a plan with its panel's hiding and theme; a plan that
/// reuses a space took the first space that served it and was not taken by
/// an earlier entry, and stays when that space had no output; a plan that
/// makes a new space found every space that served it taken by an earlier
/// entry, and stays.
pub open spec fn plans_valid(
    entries: Seq<OutputEntry>,
    existing: Seq<ExistingSpace>,
    output: u64,
    output_name: Seq<char>,
    plans: Seq<Option<SpacePlan>>,
    owner: Seq<int>,
) -> bool {
    &&& plans.len() <= entries.len()
    &&& owner.len() == existing.len()
    &&& forall|j: int| 0 <= j < owner.len() && 0 <= #[trigger] owner[j] ==> {
        &&& owner[j] < plans.len()
        &&& plans[owner[j]] matches Some(p) && p.reuse == Some(j as usize)
    }
    &&& forall|l: int| 0 <= l < plans.len() ==> ((#[trigger] plans[l]) is Some <==> handled(entries[l], output_name))
    &&& forall|l: int| 0 <= l < plans.len() && (#[trigger] plans[l]) is Some ==> {
        let p = plans[l]->0;
        let e = entries[l];
        &&& p.hidden == e.autohide
        &&& p.theme == theme_for(e.background)
        &&& match p.reuse {
            Some(j) => {
                &&& j < existing.len()
                &&& owner[j as int] == l
                &&& serves(existing[j as int], e, output)
                &&& p.kept == (existing[j as int].output is None)
                &&& forall|k: int| 0 <= k < j && serves(#[trigger] existing[k], e, output) ==> 0 <= owner[k] < l
            },
            None => {
                &&& p.kept
                &&& forall|k: int| 0 <= k < existing.len() && serves(#[trigger] existing[k], e, output) ==> 0 <= owner[k] < l
            },
        }
    }
}

fn find_serving(existing: &Vec<ExistingSpace>, taken: &Vec<bool>, e: &OutputEntry, output: u64) -> (res: Option<usize>)
    requires
        taken@.len() == existing@.len(),
    ensures
        match res {
            Some(j) => j < existing@.len() && !taken@[j as int] && serves(existing@[j as int], *e, output)
                && forall|k: int| 0 <= k < j && serves(#[trigger] existing@[k], *e, output) ==> taken@[k],
            None => forall|k: int| 0 <= k < existing@.len() && serves(#[trigger] existing@[k], *e, output) ==> taken@[k],
        },
{
    let mut k: usize = 0;
    while k < existing.len()
        invariant
            k <= existing@.len(),
            taken@.len() == existing@.len(),
            forall|q: int| 0 <= q < k && serves(#[trigger] existing@[q], *e, output) ==> taken@[q],
        decreases existing@.len() - k,
    {
        let s = &existing[k];
        let name_ok = s.name.eq(&e.name);
        let place_ok = match &e.target {
            OutputTarget::All => match s.output {
                Some(o) => o == output,
                None => false,
            },
            _ => same_target_exec(&s.target, &e.target),
        };
        if !taken[k] && name_ok && place_ok {
            return Some(k);
        }
        k = k + 1;
    }
    None
}

/// For a new output `output` named `output_name`, what happens to each
/// entry meant for it (one result per entry): entries neither for all
/// outputs nor for this output by name get nothing; each other entry, in
/// order, takes the first existing space not taken yet that serves it, or
/// a new space; the space stays when it had no output yet. Spaces start
/// hidden when their panel hides itself.
pub fn plan_output_spaces(
    entries: &Vec<OutputEntry>,
    existing: &Vec<ExistingSpace>,
    output: u64,
    output_name: &String,
) -> (res: Vec<Option<SpacePlan>>)
    ensures
        res@.len() == entries@.len(),
        exists|owner: Seq<int>| plans_valid(entries@, existing@, output, output_name@, res@, owner),
{
    let mut taken: Vec<bool> = Vec::new();
    let mut n: usize = 0;
    while n < existing.len()
        invariant
            n <= existing@.len(),
            taken@.len() == n,
            forall|q: int| 0 <= q < n ==> !(#[trigger] taken@[q]),
        decreases existing@.len() - n,
    {
        taken.push(false);
        n = n + 1;
    }
    let ghost mut owner: Seq<int> = Seq::new(existing@.len(), |j: int| -1);
    let mut plans: Vec<Option<SpacePlan>> = Vec::new();
    let mut i: usize = 0;
    while i < entries.len()
        invariant
            i <= entries@.len(),
            plans@.len() == i,
            taken@.len() == existing@.len(),
            plans_valid(entries@, existing@, output, output_name@, plans@, owner),
            forall|j: int| 0 <= j < taken@.len() ==> (#[trigger] taken@[j] <==> 0 <= owner[j]),
        decreases entries@.len() - i,
    {
        let e = &entries[i];
        let is_handled = match &e.target {
            OutputTarget::All => true,
            OutputTarget::Name(n) => n.eq(output_name),
            OutputTarget::Active => false,
        };
        let ghost old_plans = plans@;
        let ghost old_owner = owner;
        if is_handled {
            let theme = match e.background {
                PanelBackgroundKind::ThemeDefault | PanelBackgroundKind::Color => ThemeChoice::Current,
                PanelBackgroundKind::Dark => ThemeChoice::Dark,
                PanelBackgroundKind::Light => ThemeChoice::Light,
            };
            let found = find_serving(existing, &taken, e, output);
            match found {
                Some(j) => {
                    let kept = existing[j].output.is_none();
                    taken.set(j, true);
                    proof { owner = owner.update(j as int, i as int); }
                    plans.push(Some(SpacePlan { reuse: Some(j), hidden: e.autohide, theme, kept }));
                },
                None => {
                    plans.push(Some(SpacePlan { reuse: None, hidden: e.autohide, theme, kept: true }));
                },
            }
        } else {
            plans.push(None);
        }
        proof {
            assert forall|l: int| 0 <= l < old_plans.len() implies plans@[l] == old_plans[l] by {}
            assert forall|j: int| 0 <= j < owner.len() && 0 <= #[trigger] owner[j] implies {
                &&& owner[j] < plans@.len()
                &&& plans@[owner[j]] matches Some(p) && p.reuse == Some(j as usize)
            } by {
                if old_owner[j] >= 0 {
                    assert(old_owner[j] == owner[j]);
                }
            }
        }
        i = i + 1;
    }
    plans
}

/// No existing space is taken by two entries: plans that reuse the same
/// space are the same plan.
pub proof fn lemma_reuse_unique(
    entries: Seq<OutputEntry>,
    existing: Seq<ExistingSpace>,
    output: u64,
    output_name: Seq<char>,
    plans: Seq<Option<SpacePlan>>,
    owner: Seq<int>,
    l1: int,
    l2: int,
)
    requires
        plans_valid(entries, existing, output, output_name, plans, owner),
        0 <= l1 < plans.len(),
        0 <= l2 < plans.len(),
        plans[l1] matches Some(p1) && p1.reuse is Some,
        plans[l2] matches Some(p2) && p2.reuse is Some,
        plans[l1]->0.reuse == plans[l2]->0.reuse,
    ensures
        l1 == l2,
{
    assert(plans[l1] is Some);
    assert(plans[l2] is Some);
}

} // verus!

