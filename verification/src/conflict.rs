//! Name conflicts when uploading or pasting into a folder.
//!
//! A file whose name is already taken is skipped, overwrites the existing
//! one, or is renamed to its copy name; the user is asked unless an earlier
//! answer was applied to all files. The waiting for the answer stays outside
//! the library: [`resolve_conflict`] says what to do next, and
//! [`answer_conflict`] takes the answer when one was needed.
use vstd::prelude::*;

use crate::naming::{copy_name_chars, lemma_copy_name_grows, spec_copy_name};
use crate::text::{chars_of, eq_chars, string_of};

verus! {

/// The choice offered for a conflict.
#[derive(Clone, Copy, Debug, PartialEq, Eq, Structural)]
pub enum ConflictResolution {
    Overwrite,
    Skip,
    Rename,
}

/// What the conflict dialog shows of the two files.
pub struct ConflictInfo {
    pub source_name: String,
    pub dest_name: String,
    pub source_size: u64,
    pub dest_size: u64,
    pub source_mtime: u64,
    pub dest_mtime: u64,
}

/// What to do with a file whose name may be taken.
#[derive(Debug)]
pub enum ConflictStep {
    /// Send it under `name`; `overwrite` when it replaces a file of that name.
    Proceed { name: String, overwrite: bool },
    /// Leave it out.
    Skip,
    /// Ask the user about `name`, which is taken.
    Ask { name: String },
}

/// The view of a [`ConflictStep`].
pub enum StepView {
    Proceed(Seq<char>, bool),
    Skip,
    Ask(Seq<char>),
}

pub open spec fn step_view(s: ConflictStep) -> StepView {
    match s {
        ConflictStep::Proceed { name, overwrite } => StepView::Proceed(name@, overwrite),
        ConflictStep::Skip => StepView::Skip,
        ConflictStep::Ask { name } => StepView::Ask(name@),
    }
}

/// The names as character sequences.
pub open spec fn names_of(v: Seq<String>) -> Seq<Seq<char>> {
    v.map_values(|s: String| s@)
}

/// The length of the longest name.
pub open spec fn max_len(ex: Seq<Seq<char>>) -> nat
    decreases ex.len(),
{
    if ex.len() == 0 {
        0
    } else {
        let m = max_len(ex.drop_last());
        if ex.last().len() > m {
            ex.last().len()
        } else {
            m
        }
    }
}

pub proof fn lemma_max_len(ex: Seq<Seq<char>>, name: Seq<char>)
    requires
        ex.contains(name),
    ensures
        name.len() <= max_len(ex),
    decreases ex.len(),
{
    let k = choose|k: int| 0 <= k < ex.len() && ex[k] == name;
    if k < ex.len() - 1 {
        assert(ex.drop_last()[k] == name);
        lemma_max_len(ex.drop_last(), name);
    }
}

pub open spec fn rename_measure(ex: Seq<Seq<char>>, name: Seq<char>) -> nat {
    if name.len() > max_len(ex) {
        0
    } else {
        (max_len(ex) + 1 - name.len()) as nat
    }
}

/// What happens to a file called `name` when the folder already holds
/// `ex`, and `global` is the answer applied to all files, if any: a free name
/// is used; a taken one is skipped, overwritten or renamed (and checked
/// again) as `global` says, or asked about.
pub open spec fn spec_resolve(
    ex: Seq<Seq<char>>,
    name: Seq<char>,
    global: Option<ConflictResolution>,
) -> StepView
    decreases rename_measure(ex, name),
{
    if !ex.contains(name) {
        StepView::Proceed(name, false)
    } else {
        match global {
            Some(ConflictResolution::Skip) => StepView::Skip,
            Some(ConflictResolution::Overwrite) => StepView::Proceed(name, true),
            Some(ConflictResolution::Rename) => {
                proof {
                    lemma_max_len(ex, name);
                    lemma_copy_name_grows(name);
                }
                spec_resolve(ex, spec_copy_name(name), global)
            },
            None => StepView::Ask(name),
        }
    }
}

/// What happens after the user answered about `name` (`None` when the
/// question was dismissed): the new step, and the answer applied to all
/// files from now on.
pub open spec fn spec_answer(
    ex: Seq<Seq<char>>,
    name: Seq<char>,
    answer: Option<(ConflictResolution, bool)>,
    global: Option<ConflictResolution>,
) -> (StepView, Option<ConflictResolution>) {
    match answer {
        None => (StepView::Skip, global),
        Some((res, all)) => {
            let g = if all {
                Some(res)
            } else {
                global
            };
            match res {
                ConflictResolution::Skip => (StepView::Skip, g),
                ConflictResolution::Overwrite => (StepView::Proceed(name, true), g),
                ConflictResolution::Rename => (spec_resolve(ex, spec_copy_name(name), g), g),
            }
        },
    }
}

fn contains_name(existing: &Vec<String>, name: &Vec<char>) -> (r: bool)
    ensures
        r == names_of(existing@).contains(name@),
{
    let mut k: usize = 0;
    while k < existing.len()
        invariant
            0 <= k <= existing.len(),
            forall|m: int| 0 <= m < k ==> existing@[m]@ != name@,
        decreases existing.len() - k,
    {
        let e = chars_of(existing[k].as_str());
        if eq_chars(&e, name) {
            assert(names_of(existing@)[k as int] == name@);
            return true;
        }
        k = k + 1;
    }
    assert forall|m: int| 0 <= m < names_of(existing@).len() implies names_of(existing@)[m]
        != name@ by {
        assert(names_of(existing@)[m] == existing@[m]@);
    }
    false
}

fn resolve_chars(
    existing: &Vec<String>,
    name: Vec<char>,
    global: Option<ConflictResolution>,
) -> (r: ConflictStep)
    ensures
        step_view(r) == spec_resolve(names_of(existing@), name@, global),
    decreases rename_measure(names_of(existing@), name@),
{
    if !contains_name(existing, &name) {
        return ConflictStep::Proceed { name: string_of(&name), overwrite: false };
    }
    match global {
        Some(ConflictResolution::Skip) => ConflictStep::Skip,
        Some(ConflictResolution::Overwrite) => ConflictStep::Proceed {
            name: string_of(&name),
            overwrite: true,
        },
        Some(ConflictResolution::Rename) => {
            proof {
                lemma_max_len(names_of(existing@), name@);
                lemma_copy_name_grows(name@);
            }
            let next = copy_name_chars(&name);
            resolve_chars(existing, next, global)
        },
        None => ConflictStep::Ask { name: string_of(&name) },
    }
}

/// What to do with a file called `name` in a folder holding `existing`, given
/// the answer applied to all files so far.
pub fn resolve_conflict(
    existing: &Vec<String>,
    name: &str,
    global: Option<ConflictResolution>,
) -> (r: ConflictStep)
    ensures
        step_view(r) == spec_resolve(names_of(existing@), name@, global),
{
    resolve_chars(existing, chars_of(name), global)
}

/// Takes the user's answer about the taken name `name`.
pub fn answer_conflict(
    existing: &Vec<String>,
    name: &str,
    answer: Option<(ConflictResolution, bool)>,
    global: Option<ConflictResolution>,
) -> (r: (ConflictStep, Option<ConflictResolution>))
    ensures
        (step_view(r.0), r.1) == spec_answer(names_of(existing@), name@, answer, global),
        match answer {
            Some((res, true)) => r.1 == Some(res),
            _ => r.1 == global,
        },
        match answer {
            None | Some((ConflictResolution::Skip, _)) => step_view(r.0) == StepView::Skip,
            Some((ConflictResolution::Overwrite, _)) => step_view(r.0) == StepView::Proceed(
                name@,
                true,
            ),
            Some((ConflictResolution::Rename, _)) => true,
        },
{
    match answer {
        None => (ConflictStep::Skip, global),
        Some((res, all)) => {
            let g = if all {
                Some(res)
            } else {
                global
            };
            match res {
                ConflictResolution::Skip => (ConflictStep::Skip, g),
                ConflictResolution::Overwrite => (
                    ConflictStep::Proceed { name: name.to_owned(), overwrite: true },
                    g,
                ),
                ConflictResolution::Rename => {
                    let v = chars_of(name);
                    let next = copy_name_chars(&v);
                    (resolve_chars(existing, next, g), g)
                },
            }
        },
    }
}

/// A file is never sent under a taken name unless it is meant to overwrite
/// it, and a question is only asked about a taken name.
pub proof fn lemma_resolve_respects_existing(
    ex: Seq<Seq<char>>,
    name: Seq<char>,
    global: Option<ConflictResolution>,
)
    ensures
        match spec_resolve(ex, name, global) {
            StepView::Proceed(n, overwrite) => overwrite == ex.contains(n),
            StepView::Ask(n) => ex.contains(n) && global is None,
            StepView::Skip => global == Some(ConflictResolution::Skip),
        },
    decreases rename_measure(ex, name),
{
    if ex.contains(name) && global == Some(ConflictResolution::Rename) {
        lemma_max_len(ex, name);
        lemma_copy_name_grows(name);
        lemma_resolve_respects_existing(ex, spec_copy_name(name), global);
    }
}

/// An answer given for all files is remembered, whichever it is: every
/// later file of the batch is dealt with without a question, a skip skips
/// each later file whose name is taken, and an overwrite overwrites it.
pub proof fn lemma_answer_for_all_remembered(
    ex: Seq<Seq<char>>,
    name: Seq<char>,
    res: ConflictResolution,
    global: Option<ConflictResolution>,
    later_ex: Seq<Seq<char>>,
    later: Seq<char>,
)
    ensures
        ({
            let g = spec_answer(ex, name, Some((res, true)), global).1;
            let next = spec_resolve(later_ex, later, g);
            &&& g == Some(res)
            &&& next !is Ask
            &&& (res == ConflictResolution::Skip && later_ex.contains(later)) ==> next
                == StepView::Skip
            &&& (res == ConflictResolution::Overwrite && later_ex.contains(later)) ==> next
                == StepView::Proceed(later, true)
        }),
{
    lemma_resolve_respects_existing(later_ex, later, Some(res));
}

} // verus!
