//! What `sm run` and `sm exec` run.
use vstd::prelude::*;

use crate::library::utils::text::{opt_view, push_str};
use crate::models::full_config::FullConfig;

verus! {

/// The commands that `sm run NAME ARGS` runs, in order.
pub struct RunPlan {
    /// The pre-command of `NAME`, run first if there is one.
    pub pre_command: Option<String>,
    /// The command of `NAME` followed by a space and the arguments; `None`
    /// when the configuration has no command `NAME` ("Command not found").
    pub command: Option<String>,
}

/// The pre-command of `command_name`, if any.
pub open spec fn planned_pre_command(config: &FullConfig, command_name: Seq<char>) -> Option<
    Seq<char>,
> {
    if config.pre_commands@.contains_key(command_name) {
        Some(config.pre_commands@[command_name])
    } else {
        None
    }
}

/// The full command line of `command_name` with `command_args`, if any.
pub open spec fn planned_command(
    config: &FullConfig,
    command_name: Seq<char>,
    command_args: Seq<char>,
) -> Option<Seq<char>> {
    if config.commands@.contains_key(command_name) {
        Some(config.commands@[command_name] + " "@ + command_args)
    } else {
        None
    }
}

/// What `sm run` runs for `command_name` with the arguments `command_args`.
pub fn plan(config: &FullConfig, command_name: &str, command_args: &str) -> (r: RunPlan)
    ensures
        opt_view(r.pre_command) == planned_pre_command(config, command_name@),
        opt_view(r.command) == planned_command(config, command_name@, command_args@),
{
    let pre_command = match config.pre_commands.get(command_name) {
        Some(c) => Some(c.clone()),
        None => None,
    };
    let command = match config.commands.get(command_name) {
        Some(c) => {
            let mut full_command = c.clone();
            push_str(&mut full_command, " ");
            push_str(&mut full_command, command_args);
            Some(full_command)
        },
        None => None,
    };
    RunPlan { pre_command, command }
}

/// Each argument followed by a space, all in order.
pub open spec fn joined_args(args: Seq<Seq<char>>) -> Seq<char>
    decreases args.len(),
{
    if args.len() == 0 {
        Seq::empty()
    } else {
        joined_args(args.drop_last()) + args.last() + " "@
    }
}

/// The command-line arguments joined into one string, each followed by a
/// space (as `sm run` and `sm exec` join them).
pub fn join_command_args(args: &Vec<String>) -> (r: String)
    ensures
        r@ == joined_args(args@.map_values(|a: String| a@)),
{
    let ghost av = args@.map_values(|a: String| a@);
    let mut r = String::new();
    let mut i: usize = 0;
    while i < args.len()
        invariant
            av == args@.map_values(|a: String| a@),
            i <= args@.len(),
            r@ == joined_args(av.take(i as int)),
        decreases args.len() - i,
    {
        push_str(&mut r, args[i].as_str());
        push_str(&mut r, " ");
        proof {
            assert(av.take(i + 1).drop_last() =~= av.take(i as int));
        }
        i = i + 1;
    }
    assert(av.take(args@.len() as int) =~= av);
    r
}

/// What `sm run` does next.
#[derive(Debug)]
pub enum RunAction {
    /// Run the pre-command.
    RunPreCommand(String),
    /// Run the command line.
    RunCommand(String),
    /// Stop: the pre-command failed (its error is returned).
    StopPreCommandFailed,
    /// Stop: the configuration has no such command ("Command not found").
    StopCommandNotFound,
}

/// What `sm run` does next, as values.
pub enum RunActionView {
    RunPreCommand(Seq<char>),
    RunCommand(Seq<char>),
    StopPreCommandFailed,
    StopCommandNotFound,
}

impl View for RunAction {
    type V = RunActionView;

    open spec fn view(&self) -> RunActionView {
        match self {
            RunAction::RunPreCommand(c) => RunActionView::RunPreCommand(c@),
            RunAction::RunCommand(c) => RunActionView::RunCommand(c@),
            RunAction::StopPreCommandFailed => RunActionView::StopPreCommandFailed,
            RunAction::StopCommandNotFound => RunActionView::StopCommandNotFound,
        }
    }
}

/// The next step of `plan`, given how the pre-command went (`None` before
/// it ran): the pre-command first if there is one; after it failed, stop;
/// then the command, or stop when there is none.
pub open spec fn next_action(
    pre_command: Option<Seq<char>>,
    command: Option<Seq<char>>,
    pre_command_ok: Option<bool>,
) -> RunActionView {
    match (pre_command, pre_command_ok) {
        (Some(c), None) => RunActionView::RunPreCommand(c),
        (_, Some(false)) => RunActionView::StopPreCommandFailed,
        _ => match command {
            Some(c) => RunActionView::RunCommand(c),
            None => RunActionView::StopCommandNotFound,
        },
    }
}

/// The next step of `sm run` for `plan`, given whether the pre-command
/// succeeded (`None` before it ran).
pub fn next_step(plan: &RunPlan, pre_command_ok: Option<bool>) -> (r: RunAction)
    ensures
        r@ == next_action(opt_view(plan.pre_command), opt_view(plan.command), pre_command_ok),
{
    match (&plan.pre_command, pre_command_ok) {
        (Some(c), None) => RunAction::RunPreCommand(c.clone()),
        (_, Some(false)) => RunAction::StopPreCommandFailed,
        _ => match &plan.command {
            Some(c) => RunAction::RunCommand(c.clone()),
            None => RunAction::StopCommandNotFound,
        },
    }
}

/// The command runs only once the pre-command, if there is one, has
/// succeeded; a failed pre-command stops `sm run`.
pub proof fn lemma_command_after_pre_command(
    pre_command: Option<Seq<char>>,
    command: Option<Seq<char>>,
    pre_command_ok: Option<bool>,
)
    ensures
        next_action(pre_command, command, pre_command_ok) is RunCommand ==> (pre_command is None
            || pre_command_ok == Some(true)),
        pre_command_ok == Some(false) ==> next_action(pre_command, command, pre_command_ok)
            is StopPreCommandFailed,
{
}

} // verus!
