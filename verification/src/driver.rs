//! The execution driver's skeleton: the strictly linear phase machine the
//! launcher moves through, and the pure steps between its outside calls.
//! The surrounding application performs the prompting and spawning; every
//! decision between them is made here.

use vstd::prelude::*;
use crate::config::TargetConfig;
use crate::consts::{ConstMap, apply_entries, expansion_inert, replace_consts};
use crate::errors::Error;

verus! {

/// The phases of one launcher run, in the order they are passed.
#[derive(Debug, Clone, Copy, PartialEq, Eq)]
pub enum Phase {
    Idle,
    ResolvingTarget,
    BuildingConsts,
    RunningFunction,
    AwaitingSelection,
    BuildingRunCommand,
    Spawning,
    Done,
    Failed,
}

/// The phase that follows `p` when its work succeeds.
pub open spec fn next_phase(p: Phase) -> Phase {
    match p {
        Phase::Idle => Phase::ResolvingTarget,
        Phase::ResolvingTarget => Phase::BuildingConsts,
        Phase::BuildingConsts => Phase::RunningFunction,
        Phase::RunningFunction => Phase::AwaitingSelection,
        Phase::AwaitingSelection => Phase::BuildingRunCommand,
        Phase::BuildingRunCommand => Phase::Spawning,
        Phase::Spawning => Phase::Done,
        Phase::Done => Phase::Done,
        Phase::Failed => Phase::Failed,
    }
}

/// Where one step takes the machine: forward on success, to `Failed` on
/// any error; the two terminal phases never move.
pub open spec fn step_phase(p: Phase, ok: bool) -> Phase {
    if p is Done || p is Failed {
        p
    } else if ok {
        next_phase(p)
    } else {
        Phase::Failed
    }
}

/// How far along a run a phase is; both terminal phases rank last.
pub open spec fn phase_rank(p: Phase) -> nat {
    match p {
        Phase::Idle => 0,
        Phase::ResolvingTarget => 1,
        Phase::BuildingConsts => 2,
        Phase::RunningFunction => 3,
        Phase::AwaitingSelection => 4,
        Phase::BuildingRunCommand => 5,
        Phase::Spawning => 6,
        Phase::Done => 7,
        Phase::Failed => 7,
    }
}

impl Phase {
    /// Advance the machine by one step's outcome.
    pub fn advance(&self, ok: bool) -> (r: Phase)
        ensures
            r == step_phase(*self, ok),
    {
        match self {
            Phase::Done => Phase::Done,
            Phase::Failed => Phase::Failed,
            _ => {
                if ok {
                    match self {
                        Phase::Idle => Phase::ResolvingTarget,
                        Phase::ResolvingTarget => Phase::BuildingConsts,
                        Phase::BuildingConsts => Phase::RunningFunction,
                        Phase::RunningFunction => Phase::AwaitingSelection,
                        Phase::AwaitingSelection => Phase::BuildingRunCommand,
                        Phase::BuildingRunCommand => Phase::Spawning,
                        _ => Phase::Done,
                    }
                } else {
                    Phase::Failed
                }
            },
        }
    }
}

/// The transitions are strictly linear: a successful step moves exactly
/// one phase forward, any failure lands in `Failed`, and the terminal
/// phases absorb every further step — there is no retry and no branching.
pub proof fn lemma_phases_linear(p: Phase, ok: bool)
    ensures
        p is Done ==> step_phase(p, ok) == p,
        p is Failed ==> step_phase(p, ok) == p,
        !(p is Done) && !(p is Failed) && ok ==> phase_rank(step_phase(p, ok)) == phase_rank(p)
            + 1,
        !(p is Done) && !(p is Failed) && !ok ==> step_phase(p, ok) is Failed,
{
}

/// The function arguments of a target with every constant substituted
/// and shell-expanded, in order. The first argument whose expansion
/// fails aborts the whole list.
pub fn build_function_args(target: &TargetConfig, consts: &ConstMap) -> (r: Result<
    Vec<String>,
    Error,
>)
    ensures
        match r {
            Ok(v) => v@.len() == target.function_args@.len() && forall|i: int|
                0 <= i < v@.len() ==> (expansion_inert(
                    #[trigger] apply_entries(target.function_args@[i]@, consts.entry_seq()),
                ) ==> v@[i]@ == apply_entries(target.function_args@[i]@, consts.entry_seq())),
            Err(Error::ExpansionFailed { text }) => exists|i: int|
                0 <= i < target.function_args@.len() && text@ == #[trigger] apply_entries(
                    target.function_args@[i]@,
                    consts.entry_seq(),
                ) && !expansion_inert(apply_entries(target.function_args@[i]@, consts.entry_seq())),
            Err(_) => false,
        },
{
    let mut out: Vec<String> = Vec::new();
    let n = target.function_args.len();
    let mut i: usize = 0;
    while i < n
        invariant
            n == target.function_args@.len(),
            0 <= i <= n,
            out@.len() == i,
            forall|k: int|
                0 <= k < i ==> (expansion_inert(
                    #[trigger] apply_entries(target.function_args@[k]@, consts.entry_seq()),
                ) ==> out@[k]@ == apply_entries(target.function_args@[k]@, consts.entry_seq())),
        decreases n - i,
    {
        match replace_consts(target.function_args[i].as_str(), consts) {
            Ok(expanded) => {
                out.push(expanded);
            },
            Err(e) => {
                return Err(e);
            },
        }
        i = i + 1;
    }
    Ok(out)
}

/// Record the user's chosen argument under the reserved constant name,
/// making `{{arg}}` available to the run command — only now, since the
/// value exists only after selection.
pub fn insert_selected_arg(consts: &mut ConstMap, arg: String)
    requires
        old(consts).wf(),
    ensures
        final(consts).wf(),
        final(consts).as_map() == old(consts).as_map().insert("arg"@, arg@),
{
    consts.insert(String::from_str("arg"), arg);
}

} // verus!
