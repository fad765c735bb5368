//! Turning autostart on and off: which `systemctl` commands run, in which
//! order, and what their outcomes make of the request. The commands
//! themselves are run by the caller, one step at a time.
use vstd::prelude::*;

use crate::error::FanControlError;
use crate::text::{trim, trim_str, views};

verus! {

/// The systemd unit of the daemon.
pub open spec fn service_name() -> Seq<char> {
    "t2-fancontrol.service"@
}

/// How running one `systemctl` command ended.
#[derive(Clone, Debug, PartialEq, Eq)]
pub enum SystemctlOutcome {
    /// The command ran and exited successfully.
    Succeeded,
    /// The command could not be started; the text describes why.
    SpawnFailed(String),
    /// The command ran and failed; the text is what it wrote to stderr.
    Failed(String),
}

/// What to do next when autostart is being changed.
#[derive(Debug, PartialEq, Eq)]
pub enum AutostartStep {
    /// Run `systemctl` with these arguments and report the outcome.
    Run(Vec<String>),
    /// The request is done, with this result.
    Finished(Result<(), FanControlError>),
}

/// The commands that enable autostart, or that disable it.
pub open spec fn autostart_plan(enabled: bool) -> Seq<Seq<Seq<char>>> {
    if enabled {
        seq![seq!["daemon-reload"@], seq!["enable"@, "--now"@, service_name()]]
    } else {
        seq![seq!["disable"@, "--now"@, service_name()], seq!["daemon-reload"@]]
    }
}

/// The words `ws` joined by single spaces.
pub open spec fn join_words(ws: Seq<Seq<char>>) -> Seq<char>
    decreases ws.len(),
{
    if ws.len() == 0 {
        Seq::empty()
    } else if ws.len() == 1 {
        ws[0]
    } else {
        join_words(ws.drop_last()) + seq![' '] + ws.last()
    }
}

/// Whether `e` is the error that reports `outcome` of the command `args`.
pub open spec fn reports_failure(
    e: FanControlError,
    args: Seq<Seq<char>>,
    outcome: SystemctlOutcome,
) -> bool {
    match outcome {
        SystemctlOutcome::Succeeded => false,
        SystemctlOutcome::SpawnFailed(m) => e matches FanControlError::ProcessSpawn(m2) && m2@
            == m@,
        SystemctlOutcome::Failed(stderr) => e matches FanControlError::CommandFailed {
            command: c,
            stderr: s,
        } && c@ == "systemctl "@ + join_words(args) && s@ == trim(stderr@),
    }
}

/// Whether the first `n` outcomes all succeeded.
pub open spec fn succeeded_prefix(outcomes: Seq<SystemctlOutcome>, n: int) -> bool {
    forall|j: int| 0 <= j < n ==> outcomes[j] is Succeeded
}

fn command_words(enabled: bool, step: usize) -> (r: Vec<String>)
    requires
        step < 2,
    ensures
        views(r@) == autostart_plan(enabled)[step as int],
{
    let mut r: Vec<String> = Vec::new();
    if enabled == (step == 0) {
        r.push("daemon-reload".to_owned());
    } else {
        r.push(if enabled {
            "enable"
        } else {
            "disable"
        }.to_owned());
        r.push("--now".to_owned());
        r.push("t2-fancontrol.service".to_owned());
    }
    proof {
        assert(views(r@) =~= autostart_plan(enabled)[step as int]);
    }
    r
}

fn command_text(args: &Vec<String>) -> (r: String)
    ensures
        r@ == "systemctl "@ + join_words(views(args@)),
{
    let mut out = "systemctl ".to_owned();
    let ghost start = out@;
    let mut i: usize = 0;
    while i < args.len()
        invariant
            i <= args@.len(),
            start == "systemctl "@,
            out@ == start + join_words(views(args@).take(i as int)),
        decreases args@.len() - i,
    {
        proof {
            reveal_strlit(" ");
        }
        if i > 0 {
            out.append(" ");
        }
        out.append(args[i].as_str());
        proof {
            let w = views(args@).take(i + 1);
            assert(w.drop_last() =~= views(args@).take(i as int));
            assert(w.last() == args@[i as int]@);
            if i == 0 {
                assert(join_words(w) == w[0]);
            }
            assert(out@ =~= start + join_words(w));
        }
        i = i + 1;
    }
    proof {
        assert(views(args@).take(i as int) =~= views(args@));
    }
    out
}

fn failure_error(args: &Vec<String>, outcome: &SystemctlOutcome) -> (r: FanControlError)
    requires
        !(*outcome is Succeeded),
    ensures
        reports_failure(r, views(args@), *outcome),
{
    match outcome {
        SystemctlOutcome::Succeeded => FanControlError::Protocol("no failure".to_owned()),
        SystemctlOutcome::SpawnFailed(m) => FanControlError::ProcessSpawn(m.clone()),
        SystemctlOutcome::Failed(stderr) => FanControlError::CommandFailed {
            command: command_text(args),
            stderr: trim_str(stderr.as_str()).to_owned(),
        },
    }
}

/// The next step of enabling (or disabling) autostart, given the outcomes of
/// the commands run so far, in order: the first failure ends the request
/// with its error; otherwise the next command of the plan runs, and when all
/// have succeeded the request ends with `Ok`.
pub fn set_autostart(enabled: bool, outcomes: &Vec<SystemctlOutcome>) -> (r: AutostartStep)
    ensures
        ({
            let plan = autostart_plan(enabled);
            let n = outcomes@.len();
            match r {
                AutostartStep::Run(args) => {
                    &&& n < plan.len()
                    &&& succeeded_prefix(outcomes@, n as int)
                    &&& views(args@) == plan[n as int]
                },
                AutostartStep::Finished(Ok(())) => {
                    &&& n >= plan.len()
                    &&& succeeded_prefix(outcomes@, plan.len() as int)
                },
                AutostartStep::Finished(Err(e)) => exists|i: int|
                    0 <= i < n && i < plan.len() && succeeded_prefix(outcomes@, i)
                        && reports_failure(e, plan[i], #[trigger] outcomes@[i]),
            }
        }),
{
    let n: usize = outcomes.len();
    let mut i: usize = 0;
    while i < n && i < 2
        invariant
            n == outcomes@.len(),
            i <= n,
            i <= 2,
            succeeded_prefix(outcomes@, i as int),
        decreases n - i,
    {
        let args = command_words(enabled, i);
        let succeeded = match &outcomes[i] {
            SystemctlOutcome::Succeeded => true,
            _ => false,
        };
        if !succeeded {
            let e = failure_error(&args, &outcomes[i]);
            proof {
                assert(reports_failure(e, autostart_plan(enabled)[i as int], outcomes@[i as int]));
            }
            return AutostartStep::Finished(Err(e));
        }
        i = i + 1;
    }
    if n < 2 {
        AutostartStep::Run(command_words(enabled, n))
    } else {
        AutostartStep::Finished(Ok(()))
    }
}

} // verus!
